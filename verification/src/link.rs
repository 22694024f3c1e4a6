//! The link cursor parser: picks the URL marked with a given pagination
//! relation out of a comma-separated link header. Matching is
//! substring-based on the literal `rel="<relation>"` token, a documented
//! limitation: an unrelated attribute containing that text also matches. Any
//! irregularity yields no cursor rather than an error; pagination then stops.
use vstd::prelude::*;

use crate::text::{contains_range, contains_sub, find_char, find_char_from, lemma_find_char,
    lemma_find_char_is, trim_range, trim_spec};

verus! {

/// The attribute token that marks a link with relation `rel`.
pub open spec fn rel_token(rel: Seq<char>) -> Seq<char> {
    "rel=\""@ + rel + "\""@
}

/// The URL of one comma-separated segment: the part before the first `;`,
/// trimmed, must be delimited by angle brackets; what is between them is the
/// URL.
pub open spec fn segment_url(seg: Seq<char>) -> Option<Seq<char>> {
    let t = trim_spec(seg.take(find_char(seg, ';')));
    if t.len() >= 2 && t[0] == '<' && t[t.len() - 1] == '>' {
        Some(t.subrange(1, t.len() - 1))
    } else {
        None
    }
}

/// The URL of the first comma-separated segment of `h` that contains `tok`
/// and parses; `None` when no segment does.
pub open spec fn link_target(h: Seq<char>, tok: Seq<char>) -> Option<Seq<char>>
    decreases h.len(),
    via link_target_decreases
{
    let i = find_char(h, ',');
    let seg = h.take(i);
    if contains_sub(seg, tok) && segment_url(seg) is Some {
        segment_url(seg)
    } else if i == h.len() {
        None
    } else {
        link_target(h.skip(i + 1), tok)
    }
}

#[via_fn]
proof fn link_target_decreases(h: Seq<char>, tok: Seq<char>) {
    lemma_find_char(h, ',');
}

/// Extracts from a link header the URL marked `rel="<rel>"`, exactly as
/// `link_target` says: the first comma-separated segment that contains the
/// token and whose first `;`-separated part is a trimmed `<`...`>` pair; any
/// malformed or missing match yields `None`.
pub fn parse_link(header: &str, rel: &str) -> (r: Option<String>)
    ensures
        r matches Some(u) ==> link_target(header@, rel_token(rel@)) == Some(u@),
        r is None ==> link_target(header@, rel_token(rel@)) is None,
{
    let mut tok = String::new();
    tok.append("rel=\"");
    tok.append(rel);
    tok.append("\"");
    proof {
        assert(tok@ =~= rel_token(rel@));
    }
    let hlen: usize = header.unicode_len();
    let mut p: usize = 0;
    proof {
        assert(header@.skip(0) =~= header@);
    }
    loop
        invariant
            0 <= p <= hlen,
            hlen == header@.len(),
            tok@ == rel_token(rel@),
            link_target(header@, rel_token(rel@)) == link_target(
                header@.skip(p as int),
                rel_token(rel@),
            ),
        decreases hlen - p,
    {
        let ghost g = header@.skip(p as int);
        let e = find_char_from(header, p, ',');
        proof {
            assert forall|k: int| 0 <= k < e - p implies g[k] != ',' by {
                assert(header@[p + k] != ',');
            }
            lemma_find_char_is(g, ',', e - p);
        }
        let ghost seg = g.take(e - p);
        proof {
            assert(seg =~= header@.subrange(p as int, e as int));
        }
        let has_tok = contains_range(header, p, e, tok.as_str());
        if has_tok {
            // the part before the first ';' of this segment
            let f0 = find_char_from(header, p, ';');
            let f = if f0 > e {
                e
            } else {
                f0
            };
            proof {
                assert forall|k: int| 0 <= k < f - p implies seg[k] != ';' by {
                    assert(header@[p + k] != ';');
                }
                lemma_find_char_is(seg, ';', f - p);
                assert(seg.take(f - p) =~= header@.subrange(p as int, f as int));
            }
            let (a, b) = trim_range(header, p, f);
            let ghost t = trim_spec(seg.take(find_char(seg, ';')));
            proof {
                assert(t == header@.subrange(a as int, b as int));
            }
            if b - a >= 2 && header.get_char(a) == '<' && header.get_char(b - 1) == '>' {
                proof {
                    assert(t[0] == header@[a as int]);
                    assert(t[t.len() - 1] == header@[b - 1]);
                }
                let url = header.substring_char(a + 1, b - 1);
                proof {
                    assert(t.subrange(1, t.len() - 1) =~= header@.subrange(a + 1, b - 1));
                    assert(segment_url(seg) == Some(url@));
                }
                return Some(url.to_owned());
            }
            proof {
                if t.len() >= 2 && t[0] == '<' && t[t.len() - 1] == '>' {
                    assert(header@[a as int] == t[0]);
                    assert(header@[b - 1] == t[t.len() - 1]);
                }
                assert(segment_url(seg) is None);
            }
        }
        // this segment gives nothing: step past it or stop
        assert(!(contains_sub(seg, rel_token(rel@)) && segment_url(seg) is Some));
        if e == hlen {
            assert(find_char(g, ',') == g.len());
            return None;
        }
        proof {
            assert(g.skip((e - p) + 1) =~= header@.skip(e + 1));
        }
        p = e + 1;
    }
}

} // verus!
