//! The error taxonomy of a run: configuration errors before any network call,
//! transport errors passed through from the HTTP layer, schema errors in a
//! response, and data-integrity errors in the stored archive. All are fatal;
//! nothing is retried.
use vstd::prelude::*;

verus! {

/// Why a run fails.
#[derive(Debug, PartialEq, Eq)]
pub enum ArchiveError {
    /// Neither an access token nor a full client-id/client-secret pair was
    /// supplied (configuration).
    NoCredential,
    /// The token response carries no `access_token` string field (schema).
    MissingAccessToken,
    /// The credential-verification response carries no `id` string field
    /// (schema).
    MissingAccountId,
    /// The server rejected the credential-verification request as
    /// unprocessable; an explicit account id must be supplied (configuration).
    AccountIdUnavailable,
    /// A response or archive document is not a JSON array (schema or
    /// data-integrity).
    NotAnArray,
    /// A record carries no `id` string field (schema or data-integrity).
    MissingId,
    /// A record carries no `created_at` string field (schema or
    /// data-integrity).
    MissingCreatedAt,
    /// The HTTP layer failed; the message is passed through (transport).
    Transport(String),
}

} // verus!
