//! Position-tracking scans over the document: bounded slice comparison,
//! comment (trivia) skipping, key location and value-extent finding.

use vstd::prelude::*;

verus! {

// ---------------------------------------------------------------------------
// Token patterns
// ---------------------------------------------------------------------------

pub open spec fn newline_pat() -> Seq<char> {
    seq!['\n']
}

pub open spec fn line_comment_open() -> Seq<char> {
    seq!['/', '/']
}

pub open spec fn block_comment_open() -> Seq<char> {
    seq!['/', '*']
}

pub open spec fn block_comment_close() -> Seq<char> {
    seq!['*', '/']
}

/// The bare spelling of the target key, `Peers:`.
pub open spec fn bare_key() -> Seq<char> {
    seq!['P', 'e', 'e', 'r', 's', ':']
}

/// The quoted spelling of the target key, `"Peers":`.
pub open spec fn quoted_key() -> Seq<char> {
    seq!['"', 'P', 'e', 'e', 'r', 's', '"', ':']
}

/// The pattern `pat` occurs in `doc` starting exactly at position `pos`.
pub open spec fn slice_matches(doc: Seq<char>, pos: int, pat: Seq<char>) -> bool {
    &&& 0 <= pos
    &&& pos + pat.len() <= doc.len()
    &&& doc.subrange(pos, pos + pat.len()) == pat
}

/// One of the two accepted spellings of the key starts at `pos`.
pub open spec fn key_token_at(doc: Seq<char>, pos: int) -> bool {
    slice_matches(doc, pos, bare_key()) || slice_matches(doc, pos, quoted_key())
}

// ---------------------------------------------------------------------------
// Pattern search and trivia skipping
// ---------------------------------------------------------------------------

/// Position of the first occurrence of `pat` at or after `from`;
/// the document length when there is none.
pub open spec fn find_pat_spec(doc: Seq<char>, pat: Seq<char>, from: int) -> int
    decreases doc.len() - from,
{
    if from >= doc.len() {
        doc.len() as int
    } else if slice_matches(doc, from, pat) {
        from
    } else {
        find_pat_spec(doc, pat, from + 1)
    }
}

/// Where a scan resumes after a comment whose terminator is `pat`:
/// just past the terminator in continuation mode (`find_start`), at the
/// terminator itself in inspection mode, and at the document end when no
/// terminator remains.
pub open spec fn skip_to_terminator(
    doc: Seq<char>,
    pat: Seq<char>,
    from: int,
    find_start: bool,
) -> int {
    let hit = find_pat_spec(doc, pat, from);
    if hit >= doc.len() {
        doc.len() as int
    } else if find_start {
        hit + pat.len()
    } else {
        hit
    }
}

pub proof fn lemma_find_pat_bounds(doc: Seq<char>, pat: Seq<char>, from: int)
    ensures
        find_pat_spec(doc, pat, from) <= doc.len(),
        from <= doc.len() ==> from <= find_pat_spec(doc, pat, from),
        from > doc.len() ==> find_pat_spec(doc, pat, from) == doc.len(),
        find_pat_spec(doc, pat, from) < doc.len() ==> slice_matches(
            doc,
            find_pat_spec(doc, pat, from),
            pat,
        ),
    decreases doc.len() - from,
{
    if from >= doc.len() {
    } else if slice_matches(doc, from, pat) {
    } else {
        lemma_find_pat_bounds(doc, pat, from + 1);
    }
}

pub proof fn lemma_skip_bounds(doc: Seq<char>, pat: Seq<char>, from: int, find_start: bool)
    ensures
        skip_to_terminator(doc, pat, from, find_start) <= doc.len(),
        from <= doc.len() ==> from <= skip_to_terminator(doc, pat, from, find_start),
        from > doc.len() ==> skip_to_terminator(doc, pat, from, find_start) == doc.len(),
{
    lemma_find_pat_bounds(doc, pat, from);
}

// ---------------------------------------------------------------------------
// Key locator
// ---------------------------------------------------------------------------

/// Position of the first key token at or after `pos` that stands outside
/// comments; the document length when there is none. Comment openers met
/// on the way hand the scan to the trivia skipper in continuation mode,
/// so a key-like substring inside a comment is never matched.
pub open spec fn locate_key_spec(doc: Seq<char>, pos: int) -> int
    decreases doc.len() + 2 - pos,
        via lemma_locate_key_decreases
{
    if pos >= doc.len() {
        doc.len() as int
    } else if doc[pos] == '#' {
        locate_key_spec(doc, skip_to_terminator(doc, newline_pat(), pos + 1, true))
    } else if slice_matches(doc, pos, line_comment_open()) {
        locate_key_spec(doc, skip_to_terminator(doc, newline_pat(), pos + 2, true))
    } else if slice_matches(doc, pos, block_comment_open()) {
        locate_key_spec(doc, skip_to_terminator(doc, block_comment_close(), pos + 2, true))
    } else if key_token_at(doc, pos) {
        pos
    } else {
        locate_key_spec(doc, pos + 1)
    }
}

#[via_fn]
proof fn lemma_locate_key_decreases(doc: Seq<char>, pos: int) {
    lemma_skip_bounds(doc, newline_pat(), pos + 1, true);
    lemma_skip_bounds(doc, newline_pat(), pos + 2, true);
    lemma_skip_bounds(doc, block_comment_close(), pos + 2, true);
}

// ---------------------------------------------------------------------------
// Value extent finder
// ---------------------------------------------------------------------------

/// Bracket-counting scan from `pos` with `opens`/`closes` already seen.
/// Returns the stop position together with the final counts: at the first
/// `]` outside comments where the counts balance (that `]` included), the
/// triple is `(position, opens, closes)` with equal counts; on exhaustion
/// the position is the document length. Comments are skipped in inspection
/// mode, so their brackets are never counted.
pub open spec fn extent_scan(doc: Seq<char>, pos: int, opens: int, closes: int) -> (int, int, int)
    decreases doc.len() + 2 - pos,
        via lemma_extent_scan_decreases
{
    if pos >= doc.len() {
        (doc.len() as int, opens, closes)
    } else if doc[pos] == '#' {
        extent_scan(doc, skip_to_terminator(doc, newline_pat(), pos + 1, false) + 1, opens, closes)
    } else if doc[pos] == '[' {
        extent_scan(doc, pos + 1, opens + 1, closes)
    } else if doc[pos] == ']' {
        if opens > 0 && opens == closes + 1 {
            (pos, opens, closes + 1)
        } else {
            extent_scan(doc, pos + 1, opens, closes + 1)
        }
    } else if slice_matches(doc, pos, line_comment_open()) {
        extent_scan(doc, skip_to_terminator(doc, newline_pat(), pos + 2, false) + 1, opens, closes)
    } else if slice_matches(doc, pos, block_comment_open()) {
        extent_scan(
            doc,
            skip_to_terminator(doc, block_comment_close(), pos + 2, false) + 1,
            opens,
            closes,
        )
    } else {
        extent_scan(doc, pos + 1, opens, closes)
    }
}

#[via_fn]
proof fn lemma_extent_scan_decreases(doc: Seq<char>, pos: int, opens: int, closes: int) {
    lemma_skip_bounds(doc, newline_pat(), pos + 1, false);
    lemma_skip_bounds(doc, newline_pat(), pos + 2, false);
    lemma_skip_bounds(doc, block_comment_close(), pos + 2, false);
}

/// Law: a span found by the bracket scan is balanced. When the scan stops
/// inside the document, the stop position holds `]`, the counts of `[` and
/// `]` seen outside comments over the scanned span (the final `]` included)
/// are equal and positive, and the scan stops at the first position where
/// they balance, so the balance returns to zero there exactly once.
pub proof fn lemma_extent_scan_balanced(doc: Seq<char>, pos: int, opens: int, closes: int)
    ensures
        ({
            let r = extent_scan(doc, pos, opens, closes);
            r.0 < doc.len() ==> {
                &&& doc[r.0] == ']'
                &&& r.1 == r.2
                &&& r.1 > 0
                &&& r.1 >= opens
                &&& r.2 > closes
                &&& pos <= r.0
            }
        }),
    decreases doc.len() + 2 - pos,
{
    if pos >= doc.len() {
    } else if doc[pos] == '#' {
        lemma_skip_bounds(doc, newline_pat(), pos + 1, false);
        lemma_extent_scan_balanced(
            doc,
            skip_to_terminator(doc, newline_pat(), pos + 1, false) + 1,
            opens,
            closes,
        );
    } else if doc[pos] == '[' {
        lemma_extent_scan_balanced(doc, pos + 1, opens + 1, closes);
    } else if doc[pos] == ']' {
        if opens > 0 && opens == closes + 1 {
        } else {
            lemma_extent_scan_balanced(doc, pos + 1, opens, closes + 1);
        }
    } else if slice_matches(doc, pos, line_comment_open()) {
        lemma_skip_bounds(doc, newline_pat(), pos + 2, false);
        lemma_extent_scan_balanced(
            doc,
            skip_to_terminator(doc, newline_pat(), pos + 2, false) + 1,
            opens,
            closes,
        );
    } else if slice_matches(doc, pos, block_comment_open()) {
        lemma_skip_bounds(doc, block_comment_close(), pos + 2, false);
        lemma_extent_scan_balanced(
            doc,
            skip_to_terminator(doc, block_comment_close(), pos + 2, false) + 1,
            opens,
            closes,
        );
    } else {
        lemma_extent_scan_balanced(doc, pos + 1, opens, closes);
    }
}

/// Law: a document in which no key token occurs at any position is never
/// located; the scan reports the document length, the "not found" sentinel,
/// and the patcher therefore performs no mutation.
pub proof fn lemma_key_absent_locator_fails(doc: Seq<char>, from: int)
    requires
        forall|i: int| !key_token_at(doc, i),
    ensures
        locate_key_spec(doc, from) == doc.len(),
    decreases doc.len() + 2 - from,
{
    if from >= doc.len() {
    } else if doc[from] == '#' {
        lemma_skip_bounds(doc, newline_pat(), from + 1, true);
        lemma_key_absent_locator_fails(doc, skip_to_terminator(doc, newline_pat(), from + 1, true));
    } else if slice_matches(doc, from, line_comment_open()) {
        lemma_skip_bounds(doc, newline_pat(), from + 2, true);
        lemma_key_absent_locator_fails(doc, skip_to_terminator(doc, newline_pat(), from + 2, true));
    } else if slice_matches(doc, from, block_comment_open()) {
        lemma_skip_bounds(doc, block_comment_close(), from + 2, true);
        lemma_key_absent_locator_fails(
            doc,
            skip_to_terminator(doc, block_comment_close(), from + 2, true),
        );
    } else if key_token_at(doc, from) {
        assert(false);
    } else {
        lemma_key_absent_locator_fails(doc, from + 1);
    }
}

// ---------------------------------------------------------------------------
// Executable cursor primitives
// ---------------------------------------------------------------------------

/// Bounded slice comparison: true exactly when `pat` occurs at `pos`;
/// false, not an error, when the slice would overrun the document.
pub fn slice_eq_at(doc: &Vec<char>, pos: usize, pat: &Vec<char>) -> (r: bool)
    ensures
        r == slice_matches(doc@, pos as int, pat@),
{
    if pat.len() > doc.len() || pos > doc.len() - pat.len() {
        return false;
    }
    let mut k: usize = 0;
    while k < pat.len()
        invariant
            doc@.len() <= usize::MAX,
            pos + pat@.len() <= doc@.len(),
            k <= pat@.len(),
            forall|j: int| 0 <= j < k ==> doc@[pos + j] == pat@[j],
        decreases pat@.len() - k,
    {
        if doc[pos + k] != pat[k] {
            proof {
                if slice_matches(doc@, pos as int, pat@) {
                    assert(doc@.subrange(pos as int, pos + pat@.len())[k as int] == pat@[k as int]);
                }
            }
            return false;
        }
        k = k + 1;
    }
    proof {
        assert(doc@.subrange(pos as int, pos + pat@.len()) =~= pat@);
    }
    true
}

fn newline_symbols() -> (r: Vec<char>)
    ensures
        r@ == newline_pat(),
{
    let mut v: Vec<char> = Vec::new();
    v.push('\n');
    proof {
        assert(v@ =~= newline_pat());
    }
    v
}

fn line_comment_symbols() -> (r: Vec<char>)
    ensures
        r@ == line_comment_open(),
{
    let mut v: Vec<char> = Vec::new();
    v.push('/');
    v.push('/');
    proof {
        assert(v@ =~= line_comment_open());
    }
    v
}

fn block_open_symbols() -> (r: Vec<char>)
    ensures
        r@ == block_comment_open(),
{
    let mut v: Vec<char> = Vec::new();
    v.push('/');
    v.push('*');
    proof {
        assert(v@ =~= block_comment_open());
    }
    v
}

fn block_close_symbols() -> (r: Vec<char>)
    ensures
        r@ == block_comment_close(),
{
    let mut v: Vec<char> = Vec::new();
    v.push('*');
    v.push('/');
    proof {
        assert(v@ =~= block_comment_close());
    }
    v
}

fn bare_key_symbols() -> (r: Vec<char>)
    ensures
        r@ == bare_key(),
{
    let mut v: Vec<char> = Vec::new();
    v.push('P');
    v.push('e');
    v.push('e');
    v.push('r');
    v.push('s');
    v.push(':');
    proof {
        assert(v@ =~= bare_key());
    }
    v
}

pub(crate) fn quoted_key_symbols() -> (r: Vec<char>)
    ensures
        r@ == quoted_key(),
{
    let mut v: Vec<char> = Vec::new();
    v.push('"');
    v.push('P');
    v.push('e');
    v.push('e');
    v.push('r');
    v.push('s');
    v.push('"');
    v.push(':');
    proof {
        assert(v@ =~= quoted_key());
    }
    v
}

// ---------------------------------------------------------------------------
// Executable scans
// ---------------------------------------------------------------------------

/// Advance past one comment span. `symbols` is the comment's terminator
/// pattern; the result is just past the terminator in continuation mode
/// (`find_start`), the terminator's own position in inspection mode, and
/// the document end when no terminator remains before it.
pub fn find_comment_end_and_continue(
    chars: &Vec<char>,
    symbols: &Vec<char>,
    from: usize,
    to: usize,
    find_start: bool,
) -> (r: usize)
    requires
        to == chars@.len(),
    ensures
        r == skip_to_terminator(chars@, symbols@, from as int, find_start),
        r <= chars@.len(),
{
    let mut cur: usize = from;
    while cur < to
        invariant
            to == chars@.len(),
            find_pat_spec(chars@, symbols@, cur as int) == find_pat_spec(
                chars@,
                symbols@,
                from as int,
            ),
        decreases to - cur,
    {
        if slice_eq_at(chars, cur, symbols) {
            if find_start {
                return cur + symbols.len();
            } else {
                return cur;
            }
        }
        cur = cur + 1;
    }
    to
}

/// Left-to-right key locator: the position of the first key token outside
/// comments at or after `from`, or the document length when there is none.
pub fn find_peers_start_pos(chars: &Vec<char>, from: usize, to: usize) -> (r: usize)
    requires
        to == chars@.len(),
        chars@.len() < usize::MAX - 2,
    ensures
        r == locate_key_spec(chars@, from as int),
        r <= chars@.len(),
        r < chars@.len() ==> key_token_at(chars@, r as int) && from <= r,
{
    let nl = newline_symbols();
    let lc = line_comment_symbols();
    let bo = block_open_symbols();
    let bc = block_close_symbols();
    let bk = bare_key_symbols();
    let qk = quoted_key_symbols();
    let mut cur: usize = from;
    while cur < to
        invariant
            to == chars@.len(),
            chars@.len() < usize::MAX - 2,
            from <= cur,
            locate_key_spec(chars@, cur as int) == locate_key_spec(chars@, from as int),
            nl@ == newline_pat(),
            lc@ == line_comment_open(),
            bo@ == block_comment_open(),
            bc@ == block_comment_close(),
            bk@ == bare_key(),
            qk@ == quoted_key(),
        decreases chars@.len() + 2 - cur,
    {
        let c = chars[cur];
        if c == '#' {
            proof {
                lemma_skip_bounds(chars@, newline_pat(), cur + 1, true);
            }
            cur = find_comment_end_and_continue(chars, &nl, cur + 1, to, true);
        } else if slice_eq_at(chars, cur, &lc) {
            proof {
                lemma_skip_bounds(chars@, newline_pat(), cur + 2, true);
            }
            cur = find_comment_end_and_continue(chars, &nl, cur + 2, to, true);
        } else if slice_eq_at(chars, cur, &bo) {
            proof {
                lemma_skip_bounds(chars@, block_comment_close(), cur + 2, true);
            }
            cur = find_comment_end_and_continue(chars, &bc, cur + 2, to, true);
        } else if slice_eq_at(chars, cur, &bk) {
            return cur;
        } else if slice_eq_at(chars, cur, &qk) {
            return cur;
        } else {
            cur = cur + 1;
        }
    }
    to
}

/// Bracket-counting value-extent finder: from just past the key token,
/// the position of the closing bracket of the key's array value, or the
/// document length when the brackets never balance.
pub fn find_end_of_peers_fragment(chars: &Vec<char>, from: usize, to: usize) -> (r: usize)
    requires
        to == chars@.len(),
        chars@.len() < usize::MAX - 2,
    ensures
        r == extent_scan(chars@, from as int, 0, 0).0,
        r <= chars@.len(),
        r < chars@.len() ==> chars@[r as int] == ']' && from <= r,
{
    let nl = newline_symbols();
    let lc = line_comment_symbols();
    let bo = block_open_symbols();
    let bc = block_close_symbols();
    let mut cur: usize = from;
    let mut opens: usize = 0;
    let mut closes: usize = 0;
    while cur < to
        invariant
            to == chars@.len(),
            chars@.len() < usize::MAX - 2,
            from <= cur,
            opens <= cur,
            closes <= cur,
            extent_scan(chars@, cur as int, opens as int, closes as int) == extent_scan(
                chars@,
                from as int,
                0,
                0,
            ),
            nl@ == newline_pat(),
            lc@ == line_comment_open(),
            bo@ == block_comment_open(),
            bc@ == block_comment_close(),
        decreases chars@.len() + 2 - cur,
    {
        let c = chars[cur];
        if c == '#' {
            proof {
                lemma_skip_bounds(chars@, newline_pat(), cur + 1, false);
            }
            let t = find_comment_end_and_continue(chars, &nl, cur + 1, to, false);
            cur = t + 1;
        } else if c == '[' {
            opens = opens + 1;
            cur = cur + 1;
        } else if c == ']' {
            if opens > 0 && opens == closes + 1 {
                return cur;
            } else {
                closes = closes + 1;
                cur = cur + 1;
            }
        } else if slice_eq_at(chars, cur, &lc) {
            proof {
                lemma_skip_bounds(chars@, newline_pat(), cur + 2, false);
            }
            let t = find_comment_end_and_continue(chars, &nl, cur + 2, to, false);
            cur = t + 1;
        } else if slice_eq_at(chars, cur, &bo) {
            proof {
                lemma_skip_bounds(chars@, block_comment_close(), cur + 2, false);
            }
            let t = find_comment_end_and_continue(chars, &bc, cur + 2, to, false);
            cur = t + 1;
        } else {
            cur = cur + 1;
        }
    }
    to
}

} // verus!
