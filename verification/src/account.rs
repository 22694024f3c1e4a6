//! Credential selection and account-id resolution: the decisions of the two
//! preparatory steps of a run. The HTTP exchanges themselves are external
//! collaborators; these functions take their outcomes as plain values.
use vstd::prelude::*;

use crate::error::ArchiveError;
use crate::json::{json_as_str, json_get, json_str_field};
use crate::text::{contains_range, contains_sub};

verus! {

/// How the run will authenticate.
#[derive(Debug)]
pub enum CredentialPlan {
    /// An access token was supplied; use it as it is.
    UseToken(String),
    /// A client pair was supplied; exchange it for a token first.
    Exchange { client_id: String, client_secret: String },
}

/// Picks the credential: an explicit access token wins; otherwise a full
/// client-id/client-secret pair is exchanged; with neither, the run cannot
/// start.
pub fn choose_credential(
    access_token: Option<String>,
    client_id: Option<String>,
    client_secret: Option<String>,
) -> (r: Result<CredentialPlan, ArchiveError>)
    ensures
        access_token matches Some(t) ==> (r matches Ok(CredentialPlan::UseToken(t2)) && t2 == t),
        access_token is None && client_id is Some && client_secret is Some ==> (r matches Ok(
            CredentialPlan::Exchange { client_id: i2, client_secret: s2 },
        ) && i2 == client_id->Some_0 && s2 == client_secret->Some_0),
        access_token is None && (client_id is None || client_secret is None) ==> (r matches Err(e)
            && e is NoCredential),
{
    match access_token {
        Some(t) => Ok(CredentialPlan::UseToken(t)),
        None => match (client_id, client_secret) {
            (Some(i), Some(s)) => Ok(CredentialPlan::Exchange { client_id: i, client_secret: s }),
            _ => Err(ArchiveError::NoCredential),
        },
    }
}

/// Reads the `access_token` string field out of a token-exchange response:
/// exactly that string when it is present, and a named error — never an
/// unchecked lookup — when it is not.
pub fn extract_access_token(resp: serde_json::Value) -> (r: Result<String, ArchiveError>)
    ensures
        r is Ok <==> json_str_field(resp, "access_token"@) is Some,
        r matches Ok(token) ==> json_str_field(resp, "access_token"@) == Some(token@),
        r matches Err(e) ==> e is MissingAccessToken,
{
    match json_get(&resp, "access_token") {
        Some(field) => match json_as_str(field) {
            Some(token) => Ok(token),
            None => Err(ArchiveError::MissingAccessToken),
        },
        None => Err(ArchiveError::MissingAccessToken),
    }
}

/// Resolves the caller's account id from the outcome of the
/// credential-verification request: the `id` string field of a successful
/// response; on a transport failure whose message shows the server found the
/// request unprocessable, the advice to supply the id explicitly; any other
/// failure passes through.
pub fn get_account_id(resp: Result<serde_json::Value, String>) -> (r: Result<String, ArchiveError>)
    ensures
        resp matches Err(m) && contains_sub(m@, "422 Unprocessable Entity"@) ==> (r matches Err(e)
            && e is AccountIdUnavailable),
        resp matches Err(m) && !contains_sub(m@, "422 Unprocessable Entity"@) ==> (r matches Err(
            ArchiveError::Transport(m2),
        ) && m2 == resp->Err_0),
        resp matches Ok(v) ==> (r is Ok <==> json_str_field(v, "id"@) is Some),
        resp matches Ok(v) ==> (r matches Ok(id) ==> json_str_field(v, "id"@) == Some(id@)),
        resp matches Ok(v) ==> (r matches Err(e) ==> e is MissingAccountId),
{
    match resp {
        Ok(v) => match json_get(&v, "id") {
            Some(field) => match json_as_str(field) {
                Some(id) => Ok(id),
                None => Err(ArchiveError::MissingAccountId),
            },
            None => Err(ArchiveError::MissingAccountId),
        },
        Err(m) => {
            let mlen: usize = m.as_str().unicode_len();
            let unprocessable = contains_range(m.as_str(), 0, mlen, "422 Unprocessable Entity");
            proof {
                assert(m@.subrange(0, m@.len() as int) =~= m@);
            }
            if unprocessable {
                Err(ArchiveError::AccountIdUnavailable)
            } else {
                Err(ArchiveError::Transport(m))
            }
        },
    }
}

} // verus!
