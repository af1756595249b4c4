//! Pure replacement builder: turns a ranked candidate list plus policy
//! knobs (entry cap, exclusion text, fixed additions) into the new
//! array-literal text for the key's value.

use vstd::prelude::*;

use crate::scan::slice_matches;

verus! {

/// One discovered peer: an address plus its region and country labels,
/// pre-ranked by the caller.
pub struct Peer {
    pub uri: Vec<char>,
    pub region: Vec<char>,
    pub country: Vec<char>,
}

// ---------------------------------------------------------------------------
// Substring containment
// ---------------------------------------------------------------------------

/// `needle` occurs somewhere in `hay`.
pub open spec fn has_sub(hay: Seq<char>, needle: Seq<char>) -> bool {
    exists|i: int| slice_matches(hay, i, needle)
}

/// Substring test: true exactly when `needle` occurs in `hay`.
pub fn contains_sub(hay: &Vec<char>, needle: &Vec<char>) -> (r: bool)
    ensures
        r == has_sub(hay@, needle@),
{
    if needle.len() > hay.len() {
        proof {
            assert(forall|j: int| !slice_matches(hay@, j, needle@));
        }
        return false;
    }
    let end: usize = hay.len() - needle.len();
    let mut i: usize = 0;
    while i < end
        invariant
            needle@.len() <= hay@.len(),
            end == hay@.len() - needle@.len(),
            i <= end,
            forall|j: int| 0 <= j < i ==> !slice_matches(hay@, j, needle@),
        decreases end - i,
    {
        if crate::scan::slice_eq_at(hay, i, needle) {
            proof {
                assert(slice_matches(hay@, i as int, needle@));
            }
            return true;
        }
        i = i + 1;
    }
    if crate::scan::slice_eq_at(hay, i, needle) {
        proof {
            assert(slice_matches(hay@, i as int, needle@));
        }
        return true;
    }
    proof {
        assert(forall|j: int| !slice_matches(hay@, j, needle@));
    }
    false
}

// ---------------------------------------------------------------------------
// Exclusion and capping of candidates
// ---------------------------------------------------------------------------

/// The view of an optional text argument.
pub open spec fn view_opt(o: Option<&Vec<char>>) -> Option<Seq<char>> {
    match o {
        Some(v) => Some(v@),
        None => None,
    }
}

/// A candidate is excluded when the exclusion text contains its address.
pub open spec fn is_excluded(p: Peer, exclusion: Option<Seq<char>>) -> bool {
    match exclusion {
        Some(t) => has_sub(t, p.uri@),
        None => false,
    }
}

/// The acceptance predicate induced by an exclusion text.
pub open spec fn keeps(exclusion: Option<Seq<char>>) -> spec_fn(Peer) -> bool {
    |p: Peer| !is_excluded(p, exclusion)
}

/// The candidates that survive exclusion filtering, in their given order.
pub open spec fn accepted_candidates(peers: Seq<Peer>, exclusion: Option<Seq<char>>) -> Seq<Peer> {
    peers.filter(keeps(exclusion))
}

/// The accepted candidates actually emitted: the first `cap` of them, or
/// all of them when fewer are accepted.
pub open spec fn emitted_candidates(acc: Seq<Peer>, cap: int) -> Seq<Peer> {
    if cap <= acc.len() {
        acc.take(cap)
    } else {
        acc
    }
}

// ---------------------------------------------------------------------------
// Rendered text
// ---------------------------------------------------------------------------

/// The key token and opening bracket that head the replacement.
pub open spec fn replacement_header() -> Seq<char> {
    seq!['P', 'e', 'e', 'r', 's', ':', '\n', ' ', ' ', '[']
}

/// The closing bracket line that ends the replacement.
pub open spec fn replacement_footer() -> Seq<char> {
    seq!['\n', ' ', ' ', ']']
}

/// The line break and indentation that precede each emitted line.
pub open spec fn entry_indent() -> Seq<char> {
    seq!['\n', ' ', ' ', ' ', ' ']
}

/// The blank line and marker comment that open the fixed-additions section.
pub open spec fn extra_marker() -> Seq<char> {
    seq!['\n', '\n', ' ', ' ', ' ', ' ', '#', 'e', 'x', 't', 'r', 'a']
}

/// One candidate entry: a header comment `#region/country`, then the
/// address, each on its own indented line.
pub open spec fn entry_text(p: Peer) -> Seq<char> {
    entry_indent() + seq!['#'] + p.region@ + seq!['/'] + p.country@ + entry_indent() + p.uri@
}

/// The concatenation of the entries of the given candidates, in order.
pub open spec fn entries_text(ps: Seq<Peer>) -> Seq<char>
    decreases ps.len(),
{
    if ps.len() == 0 {
        Seq::empty()
    } else {
        entries_text(ps.drop_last()) + entry_text(ps.last())
    }
}

/// The segments of `s` between occurrences of `sep`, in order, empty
/// segments kept; a text without `sep` is one segment, the empty text one
/// empty segment.
pub open spec fn split_by(s: Seq<char>, sep: char) -> Seq<Seq<char>>
    decreases s.len(),
{
    if s.len() == 0 {
        seq![Seq::<char>::empty()]
    } else {
        let pre = split_by(s.drop_last(), sep);
        if s.last() == sep {
            pre.push(Seq::<char>::empty())
        } else {
            pre.update(pre.len() - 1, pre.last().push(s.last()))
        }
    }
}

/// One indented line per fixed segment, in order.
pub open spec fn fixed_lines(segs: Seq<Seq<char>>) -> Seq<char>
    decreases segs.len(),
{
    if segs.len() == 0 {
        Seq::empty()
    } else {
        fixed_lines(segs.drop_last()) + entry_indent() + segs.last()
    }
}

/// The fixed-additions section: the marker comment, then one line per
/// space-delimited address of `extra`, in given order.
pub open spec fn fixed_section(extra: Seq<char>) -> Seq<char> {
    extra_marker() + fixed_lines(split_by(extra, ' '))
}

/// The full replacement text for the key and its array value.
pub open spec fn replacement_spec(
    peers: Seq<Peer>,
    cap: int,
    extra: Option<Seq<char>>,
    exclusion: Option<Seq<char>>,
) -> Seq<char> {
    replacement_header() + entries_text(
        emitted_candidates(accepted_candidates(peers, exclusion), cap),
    ) + (match extra {
        Some(a) => fixed_section(a),
        None => Seq::<char>::empty(),
    }) + replacement_footer()
}

// ---------------------------------------------------------------------------
// Laws
// ---------------------------------------------------------------------------

/// Law: the builder emits exactly `min(max_count, accepted_candidate_count)`
/// entries — none at all when `max_count` is zero — and the fixed-additions
/// section is appended whenever present, independent of `max_count`.
pub proof fn lemma_builder_cap(
    peers: Seq<Peer>,
    cap: int,
    extra: Option<Seq<char>>,
    exclusion: Option<Seq<char>>,
)
    requires
        0 <= cap,
    ensures
        ({
            let acc = accepted_candidates(peers, exclusion);
            emitted_candidates(acc, cap).len() == if cap <= acc.len() {
                cap
            } else {
                acc.len() as int
            }
        }),
        cap == 0 ==> replacement_spec(peers, 0, extra, exclusion) == replacement_header() + (
        match extra {
            Some(a) => fixed_section(a),
            None => Seq::<char>::empty(),
        }) + replacement_footer(),
{
    let acc = accepted_candidates(peers, exclusion);
    if cap == 0 {
        assert(emitted_candidates(acc, 0) =~= Seq::<Peer>::empty());
        assert(entries_text(emitted_candidates(acc, 0)) == Seq::<char>::empty());
        assert(replacement_spec(peers, 0, extra, exclusion) =~= replacement_header() + (
        match extra {
            Some(a) => fixed_section(a),
            None => Seq::<char>::empty(),
        }) + replacement_footer());
    }
}

/// Law: exclusion filtering removes every candidate whose address the
/// exclusion text contains as a substring, keeps every candidate it does
/// not, and preserves the relative order of the kept candidates (the
/// accepted list is the order-preserving filter of the input list).
pub proof fn lemma_exclusion_removes_matches(peers: Seq<Peer>, exclusion: Seq<char>)
    ensures
        forall|i: int|
            0 <= i < accepted_candidates(peers, Some(exclusion)).len() ==> !has_sub(
                exclusion,
                (#[trigger] accepted_candidates(peers, Some(exclusion))[i]).uri@,
            ),
        forall|i: int|
            0 <= i < peers.len() && !has_sub(exclusion, (#[trigger] peers[i]).uri@)
                ==> accepted_candidates(peers, Some(exclusion)).contains(peers[i]),
        accepted_candidates(peers, Some(exclusion)).len() <= peers.len(),
{
    let pred = keeps(Some(exclusion));
    let acc = accepted_candidates(peers, Some(exclusion));
    assert forall|i: int| 0 <= i < acc.len() implies !has_sub(
        exclusion,
        (#[trigger] acc[i]).uri@,
    ) by {
        Seq::lemma_filter_pred(peers, pred, i);
    }
    assert forall|i: int| 0 <= i < peers.len() && !has_sub(exclusion, (#[trigger] peers[i]).uri@)
        implies acc.contains(peers[i]) by {
        Seq::lemma_filter_contains(peers, pred, i);
    }
    Seq::lemma_filter_len(peers, pred);
}

// ---------------------------------------------------------------------------
// Executable builder
// ---------------------------------------------------------------------------

fn push_all(out: &mut Vec<char>, s: &Vec<char>)
    ensures
        final(out)@ == old(out)@ + s@,
{
    let mut k: usize = 0;
    while k < s.len()
        invariant
            k <= s@.len(),
            out@ == old(out)@ + s@.take(k as int),
        decreases s@.len() - k,
    {
        out.push(s[k]);
        proof {
            assert(old(out)@ + s@.take(k + 1) =~= (old(out)@ + s@.take(k as int)).push(
                s@[k as int],
            ));
        }
        k = k + 1;
    }
    proof {
        assert(s@.take(s@.len() as int) =~= s@);
    }
}

fn push_header(out: &mut Vec<char>)
    ensures
        final(out)@ == old(out)@ + replacement_header(),
{
    out.push('P');
    out.push('e');
    out.push('e');
    out.push('r');
    out.push('s');
    out.push(':');
    out.push('\n');
    out.push(' ');
    out.push(' ');
    out.push('[');
    proof {
        assert(out@ =~= old(out)@ + replacement_header());
    }
}

fn push_footer(out: &mut Vec<char>)
    ensures
        final(out)@ == old(out)@ + replacement_footer(),
{
    out.push('\n');
    out.push(' ');
    out.push(' ');
    out.push(']');
    proof {
        assert(out@ =~= old(out)@ + replacement_footer());
    }
}

fn push_indent(out: &mut Vec<char>)
    ensures
        final(out)@ == old(out)@ + entry_indent(),
{
    out.push('\n');
    out.push(' ');
    out.push(' ');
    out.push(' ');
    out.push(' ');
    proof {
        assert(out@ =~= old(out)@ + entry_indent());
    }
}

fn push_extra_marker(out: &mut Vec<char>)
    ensures
        final(out)@ == old(out)@ + extra_marker(),
{
    out.push('\n');
    out.push('\n');
    out.push(' ');
    out.push(' ');
    out.push(' ');
    out.push(' ');
    out.push('#');
    out.push('e');
    out.push('x');
    out.push('t');
    out.push('r');
    out.push('a');
    proof {
        assert(out@ =~= old(out)@ + extra_marker());
    }
}

fn push_entry(out: &mut Vec<char>, p: &Peer)
    ensures
        final(out)@ == old(out)@ + entry_text(*p),
{
    push_indent(out);
    out.push('#');
    push_all(out, &p.region);
    out.push('/');
    push_all(out, &p.country);
    push_indent(out);
    push_all(out, &p.uri);
    proof {
        assert(out@ =~= old(out)@ + entry_text(*p));
    }
}

/// Splits `text` at every space, keeping empty segments, in order.
pub fn split_spaces(text: &Vec<char>) -> (r: Vec<Vec<char>>)
    ensures
        r@.len() == split_by(text@, ' ').len(),
        forall|m: int| 0 <= m < r@.len() ==> (#[trigger] r@[m])@ == split_by(text@, ' ')[m],
{
    let mut segs: Vec<Vec<char>> = Vec::new();
    segs.push(Vec::new());
    proof {
        assert(text@.take(0) =~= Seq::<char>::empty());
    }
    let mut i: usize = 0;
    while i < text.len()
        invariant
            i <= text@.len(),
            segs@.len() >= 1,
            segs@.len() == split_by(text@.take(i as int), ' ').len(),
            forall|m: int|
                0 <= m < segs@.len() ==> (#[trigger] segs@[m])@ == split_by(
                    text@.take(i as int),
                    ' ',
                )[m],
        decreases text@.len() - i,
    {
        let ghost s_old = split_by(text@.take(i as int), ' ');
        proof {
            assert(text@.take(i + 1).drop_last() =~= text@.take(i as int));
            assert(text@.take(i + 1).last() == text@[i as int]);
        }
        let c = text[i];
        if c == ' ' {
            segs.push(Vec::new());
        } else {
            let mut seg = segs.pop().unwrap();
            seg.push(c);
            segs.push(seg);
            proof {
                assert(segs@.len() == s_old.len());
                assert(segs@[segs@.len() - 1]@ == s_old.last().push(text@[i as int]));
            }
        }
        i = i + 1;
    }
    proof {
        assert(text@.take(text@.len() as int) =~= text@);
    }
    segs
}

/// Builds the replacement text from the ranked candidates and the policy
/// knobs: accepted candidates are emitted in order up to `n_peers`, then
/// the fixed additions of `always_in_p`, if present, follow unconditionally.
pub fn build_replacement(
    peers: &Vec<Peer>,
    n_peers: u8,
    always_in_p: Option<&Vec<char>>,
    ignored_peers: Option<&Vec<char>>,
) -> (r: Vec<char>)
    ensures
        r@ == replacement_spec(
            peers@,
            n_peers as int,
            view_opt(always_in_p),
            view_opt(ignored_peers),
        ),
{
    let ghost excl = view_opt(ignored_peers);
    let ghost cap = n_peers as int;
    let mut out: Vec<char> = Vec::new();
    push_header(&mut out);
    let mut i: usize = 0;
    let mut n_added: u8 = 0;
    while i < peers.len()
        invariant
            i <= peers@.len(),
            excl == view_opt(ignored_peers),
            cap == n_peers as int,
            n_added as int == emitted_candidates(
                accepted_candidates(peers@.take(i as int), excl),
                cap,
            ).len(),
            n_added <= n_peers,
            out@ == replacement_header() + entries_text(
                emitted_candidates(accepted_candidates(peers@.take(i as int), excl), cap),
            ),
        decreases peers@.len() - i,
    {
        let ghost a_old = accepted_candidates(peers@.take(i as int), excl);
        let p = &peers[i];
        proof {
            reveal(Seq::filter);
            assert(peers@.take(i + 1).drop_last() =~= peers@.take(i as int));
            assert(peers@.take(i + 1).last() == peers@[i as int]);
        }
        let excluded = match ignored_peers {
            Some(t) => contains_sub(t, &p.uri),
            None => false,
        };
        proof {
            assert(excluded == is_excluded(peers@[i as int], excl));
        }
        if !excluded {
            proof {
                assert(accepted_candidates(peers@.take(i + 1), excl) == a_old.push(
                    peers@[i as int],
                ));
            }
            if n_added < n_peers {
                proof {
                    assert(a_old.len() == n_added as int);
                    assert(emitted_candidates(a_old.push(peers@[i as int]), cap) == a_old.push(
                        peers@[i as int],
                    ));
                    assert(a_old.push(peers@[i as int]).drop_last() =~= a_old);
                    assert(entries_text(a_old.push(peers@[i as int])) == entries_text(a_old)
                        + entry_text(peers@[i as int]));
                    assert(emitted_candidates(a_old, cap) =~= a_old);
                }
                push_entry(&mut out, p);
                n_added = n_added + 1;
            } else {
                proof {
                    assert(cap <= a_old.len());
                    assert(a_old.push(peers@[i as int]).take(cap) =~= a_old.take(cap));
                }
            }
        } else {
            proof {
                assert(accepted_candidates(peers@.take(i + 1), excl) == a_old);
            }
        }
        i = i + 1;
    }
    proof {
        assert(peers@.take(peers@.len() as int) =~= peers@);
    }
    if let Some(a) = always_in_p {
        push_extra_marker(&mut out);
        let ghost base = out@;
        let ghost sv = split_by(a@, ' ');
        let segs = split_spaces(a);
        let mut k: usize = 0;
        while k < segs.len()
            invariant
                k <= segs@.len(),
                segs@.len() == sv.len(),
                forall|m: int| 0 <= m < segs@.len() ==> (#[trigger] segs@[m])@ == sv[m],
                out@ == base + fixed_lines(sv.take(k as int)),
            decreases segs@.len() - k,
        {
            push_indent(&mut out);
            push_all(&mut out, &segs[k]);
            proof {
                assert(sv.take(k + 1).drop_last() =~= sv.take(k as int));
                assert(sv.take(k + 1).last() == sv[k as int]);
                assert(out@ =~= base + fixed_lines(sv.take(k + 1)));
            }
            k = k + 1;
        }
        proof {
            assert(sv.take(sv.len() as int) =~= sv);
        }
        push_footer(&mut out);
        proof {
            assert(out@ =~= replacement_spec(peers@, cap, view_opt(always_in_p), excl));
        }
    } else {
        push_footer(&mut out);
        proof {
            assert(out@ =~= replacement_spec(peers@, cap, view_opt(always_in_p), excl));
        }
    }
    out
}

} // verus!
