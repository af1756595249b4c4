//! The patcher: validates the located span and splices the built
//! replacement into the document, producing the full new document text.

use vstd::prelude::*;

use crate::builder::{build_replacement, replacement_spec, view_opt, Peer};
use crate::scan::{
    extent_scan, find_end_of_peers_fragment, find_peers_start_pos, key_token_at, locate_key_spec,
    quoted_key, slice_matches,
};

verus! {

/// Why no patched document was produced. Both outcomes are detected before
/// any mutation: the document is left untouched.
#[derive(Debug, PartialEq, Eq)]
pub enum PatchError {
    /// The locator exhausted the document without meeting the key token.
    KeyNotFound,
    /// The extent finder exhausted the document before the brackets of the
    /// key's array value balanced.
    ValueUnbalanced,
}

/// Where the key token stands in the document, `doc.len()` when nowhere.
pub open spec fn located_key_pos(doc: Seq<char>) -> int {
    locate_key_spec(doc, 0)
}

/// The length of the key token matched at `pos`: the quoted spelling is
/// two characters longer than the bare one.
pub open spec fn key_token_len(doc: Seq<char>, pos: int) -> int {
    if slice_matches(doc, pos, quoted_key()) {
        8
    } else {
        6
    }
}

/// Where the closing bracket of the key's array value stands,
/// `doc.len()` when the brackets never balance.
pub open spec fn located_value_end(doc: Seq<char>) -> int {
    extent_scan(doc, located_key_pos(doc) + key_token_len(doc, located_key_pos(doc)), 0, 0).0
}

/// The document with the characters from `open_pos` through `close_pos`
/// (both included) replaced by `replacement`; everything outside that span
/// is kept verbatim.
pub open spec fn spliced(
    doc: Seq<char>,
    open_pos: int,
    close_pos: int,
    replacement: Seq<char>,
) -> Seq<char> {
    doc.subrange(0, open_pos) + replacement + doc.subrange(close_pos + 1, doc.len() as int)
}

/// Law: for a document that nowhere holds the key token, the located span
/// is empty — the locator reports the document length, so the span start
/// is not below its end — and the patcher therefore returns the key-not-
/// found error and performs no mutation.
pub proof fn lemma_no_key_no_mutation(doc: Seq<char>)
    requires
        forall|i: int| !key_token_at(doc, i),
    ensures
        located_key_pos(doc) == doc.len(),
        located_key_pos(doc) >= located_value_end(doc),
{
    crate::scan::lemma_key_absent_locator_fails(doc, 0);
    assert(located_value_end(doc) == doc.len());
}

/// Splices `replacement` over the span from `open_pos` through `close_pos`
/// of `doc`, keeping every character outside the span verbatim.
pub fn splice_fragment(
    doc: &Vec<char>,
    open_pos: usize,
    close_pos: usize,
    replacement: &Vec<char>,
) -> (r: Vec<char>)
    requires
        open_pos < close_pos,
        close_pos < doc@.len(),
    ensures
        r@ == spliced(doc@, open_pos as int, close_pos as int, replacement@),
{
    let dlen = doc.len();
    let mut out: Vec<char> = Vec::new();
    let mut k: usize = 0;
    while k < open_pos
        invariant
            open_pos < doc@.len(),
            k <= open_pos,
            out@ == doc@.subrange(0, k as int),
        decreases open_pos - k,
    {
        out.push(doc[k]);
        proof {
            assert(doc@.subrange(0, k + 1) =~= doc@.subrange(0, k as int).push(doc@[k as int]));
        }
        k = k + 1;
    }
    let mut j: usize = 0;
    while j < replacement.len()
        invariant
            open_pos < doc@.len(),
            j <= replacement@.len(),
            out@ == doc@.subrange(0, open_pos as int) + replacement@.take(j as int),
        decreases replacement@.len() - j,
    {
        out.push(replacement[j]);
        proof {
            assert(doc@.subrange(0, open_pos as int) + replacement@.take(j + 1) =~= (doc@.subrange(
                0,
                open_pos as int,
            ) + replacement@.take(j as int)).push(replacement@[j as int]));
        }
        j = j + 1;
    }
    proof {
        assert(replacement@.take(replacement@.len() as int) =~= replacement@);
    }
    let mut t: usize = close_pos + 1;
    while t < dlen
        invariant
            dlen == doc@.len(),
            open_pos < close_pos < doc@.len(),
            close_pos + 1 <= t <= doc@.len(),
            out@ == doc@.subrange(0, open_pos as int) + replacement@ + doc@.subrange(
                close_pos + 1,
                t as int,
            ),
        decreases doc@.len() - t,
    {
        out.push(doc[t]);
        proof {
            assert(doc@.subrange(close_pos + 1, t + 1) =~= doc@.subrange(
                close_pos + 1,
                t as int,
            ).push(doc@[t as int]));
            assert(doc@.subrange(0, open_pos as int) + replacement@ + doc@.subrange(
                close_pos + 1,
                t + 1,
            ) =~= (doc@.subrange(0, open_pos as int) + replacement@ + doc@.subrange(
                close_pos + 1,
                t as int,
            )).push(doc@[t as int]));
        }
        t = t + 1;
    }
    out
}

/// Locates the key and the extent of its array value in `cfg_txt`, builds
/// the replacement from the ranked candidates and the policy knobs, and
/// returns the fully patched document text. When the key is not found, or
/// its value's brackets never balance, the error says which, and no
/// document is produced, so the original text stays untouched.
pub fn add_peers_to_conf_new(
    peers: &Vec<Peer>,
    n_peers: u8,
    always_in_p: Option<&Vec<char>>,
    ignored_peers: Option<&Vec<char>>,
    cfg_txt: &Vec<char>,
) -> (r: Result<Vec<char>, PatchError>)
    requires
        cfg_txt@.len() < usize::MAX - 8,
    ensures
        ({
            let doc = cfg_txt@;
            let start = located_key_pos(doc);
            let close = located_value_end(doc);
            if start == doc.len() {
                r == Result::<Vec<char>, PatchError>::Err(PatchError::KeyNotFound)
            } else if close == doc.len() {
                r == Result::<Vec<char>, PatchError>::Err(PatchError::ValueUnbalanced)
            } else {
                r matches Ok(nd) && nd@ == spliced(
                    doc,
                    start,
                    close,
                    replacement_spec(
                        peers@,
                        n_peers as int,
                        view_opt(always_in_p),
                        view_opt(ignored_peers),
                    ),
                )
            }
        }),
{
    let len = cfg_txt.len();
    let start = find_peers_start_pos(cfg_txt, 0, len);
    if start >= len {
        return Err(PatchError::KeyNotFound);
    }
    let tok_len: usize = {
        let qk = crate::scan::quoted_key_symbols();
        if crate::scan::slice_eq_at(cfg_txt, start, &qk) {
            8
        } else {
            6
        }
    };
    proof {
        assert(tok_len == key_token_len(cfg_txt@, start as int));
    }
    let close = find_end_of_peers_fragment(cfg_txt, start + tok_len, len);
    if close >= len {
        return Err(PatchError::ValueUnbalanced);
    }
    let replacement = build_replacement(peers, n_peers, always_in_p, ignored_peers);
    let patched = splice_fragment(cfg_txt, start, close, &replacement);
    Ok(patched)
}

} // verus!

