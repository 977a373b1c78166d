//! The scanner: locating every occurrence of every header signature
//! inside a byte buffer, sorted by offset with ties broken by the
//! signature table's declaration order.

use vstd::prelude::*;

use crate::signatures::{SigView, SignatureSpec, table_view};

verus! {

/// A header occurrence: `offset` is where the pattern starts in the
/// source buffer, `sig_index` is the matched entry's position in the
/// signature table.
#[derive(Clone, Copy, Debug, PartialEq, Eq, Structural)]
pub struct MatchPosition {
    pub offset: usize,
    pub sig_index: usize,
}

/// `pat` occurs in `data` starting at offset `pos`.
pub open spec fn pattern_at(data: Seq<u8>, pat: Seq<u8>, pos: int) -> bool {
    &&& 0 <= pos
    &&& pos + pat.len() <= data.len()
    &&& data.subrange(pos, pos + pat.len() as int) == pat
}

/// The table's entry `s` has its header at offset `pos` of `data`.
pub open spec fn header_match_at(data: Seq<u8>, sigs: Seq<SigView>, s: int, pos: int) -> bool {
    &&& 0 <= s < sigs.len()
    &&& pattern_at(data, sigs[s].header, pos)
}

/// The first offset `>= from` at which `pat` occurs in `data`, if any.
pub open spec fn first_match_from(data: Seq<u8>, pat: Seq<u8>, from: int) -> Option<int>
    decreases data.len() - from,
{
    if from + pat.len() > data.len() {
        None
    } else if pat.len() == 0 {
        Some(from)
    } else if data.subrange(from, from + pat.len() as int) == pat {
        Some(from)
    } else {
        first_match_from(data, pat, from + 1)
    }
}

/// All header occurrences at the single offset `pos`, in table order.
pub open spec fn matches_at_offset_from(
    data: Seq<u8>,
    sigs: Seq<SigView>,
    pos: int,
    s: int,
) -> Seq<MatchPosition>
    decreases sigs.len() - s,
{
    if s < 0 || s >= sigs.len() {
        Seq::empty()
    } else {
        let rest = matches_at_offset_from(data, sigs, pos, s + 1);
        if pattern_at(data, sigs[s].header, pos) {
            seq![MatchPosition { offset: pos as usize, sig_index: s as usize }] + rest
        } else {
            rest
        }
    }
}

/// All header occurrences at offsets `< n`, ascending by offset, ties
/// in table order.
pub open spec fn scan_spec(data: Seq<u8>, sigs: Seq<SigView>, n: int) -> Seq<MatchPosition>
    decreases n,
{
    if n <= 0 {
        Seq::empty()
    } else {
        scan_spec(data, sigs, n - 1) + matches_at_offset_from(data, sigs, n - 1, 0)
    }
}

/// The position list of a whole buffer.
pub open spec fn positions_of(data: Seq<u8>, sigs: Seq<SigView>) -> Seq<MatchPosition> {
    scan_spec(data, sigs, data.len() as int)
}

/// Whether `pat` occurs in `data` starting exactly at `pos`.
pub fn bytes_match_at(data: &[u8], pat: &[u8], pos: usize) -> (r: bool)
    ensures
        r == pattern_at(data@, pat@, pos as int),
{
    if pos > data.len() || pat.len() > data.len() - pos {
        return false;
    }
    let mut j: usize = 0;
    while j < pat.len()
        invariant
            pos + pat.len() <= data.len(),
            j <= pat.len(),
            forall|k: int| 0 <= k < j ==> data@[pos + k] == pat@[k],
        decreases pat.len() - j,
    {
        if data[pos + j] != pat[j] {
            return false;
        }
        j += 1;
    }
    proof {
        assert(data@.subrange(pos as int, pos + pat@.len() as int) =~= pat@);
    }
    true
}

/// The scanner: every offset of `data` at which any header of `sigs`
/// occurs, ascending by offset, ties broken by table order.  Every
/// offset is examined, so overlapping and adjacent occurrences are
/// all found.
pub fn scan_positions(data: &[u8], sigs: &Vec<SignatureSpec>) -> (r: Vec<MatchPosition>)
    ensures
        r@ == positions_of(data@, table_view(sigs@)),
{
    let ghost sv = table_view(sigs@);
    let mut r: Vec<MatchPosition> = Vec::new();
    let mut pos: usize = 0;
    while pos < data.len()
        invariant
            sv == table_view(sigs@),
            pos <= data@.len(),
            r@ == scan_spec(data@, sv, pos as int),
        decreases data@.len() - pos,
    {
        let mut s: usize = 0;
        while s < sigs.len()
            invariant
                sv == table_view(sigs@),
                pos < data@.len(),
                s <= sigs@.len(),
                r@ == scan_spec(data@, sv, pos as int) + matches_upto(data@, sv, pos as int, s as int),
            decreases sigs@.len() - s,
        {
            proof {
                lemma_matches_upto_step(data@, sv, pos as int, s as int);
            }
            if bytes_match_at(data, sigs[s].header.as_slice(), pos) {
                r.push(MatchPosition { offset: pos, sig_index: s });
            }
            s += 1;
        }
        proof {
            lemma_matches_upto_full(data@, sv, pos as int);
        }
        pos += 1;
    }
    r
}

/// All header occurrences at offset `pos` among table entries `< s`,
/// in table order.
pub open spec fn matches_upto(data: Seq<u8>, sigs: Seq<SigView>, pos: int, s: int) -> Seq<
    MatchPosition,
>
    decreases s,
{
    if s <= 0 {
        Seq::empty()
    } else {
        let prev = matches_upto(data, sigs, pos, s - 1);
        if 0 <= s - 1 < sigs.len() && pattern_at(data, sigs[s - 1].header, pos) {
            prev + seq![MatchPosition { offset: pos as usize, sig_index: (s - 1) as usize }]
        } else {
            prev
        }
    }
}

proof fn lemma_matches_upto_step(data: Seq<u8>, sigs: Seq<SigView>, pos: int, s: int)
    requires
        0 <= s < sigs.len(),
    ensures
        pattern_at(data, sigs[s].header, pos) ==> matches_upto(data, sigs, pos, s + 1)
            == matches_upto(data, sigs, pos, s) + seq![
            MatchPosition { offset: pos as usize, sig_index: s as usize },
        ],
        !pattern_at(data, sigs[s].header, pos) ==> matches_upto(data, sigs, pos, s + 1)
            == matches_upto(data, sigs, pos, s),
{
}

/// For positions in range, the backward accumulation `matches_upto`
/// agrees with the forward definition `matches_at_offset_from`.
proof fn lemma_upto_vs_from(data: Seq<u8>, sigs: Seq<SigView>, pos: int, s: int)
    requires
        0 <= s <= sigs.len(),
    ensures
        matches_upto(data, sigs, pos, s) + matches_at_offset_from(data, sigs, pos, s)
            == matches_at_offset_from(data, sigs, pos, 0),
    decreases s,
{
    if s == 0 {
        assert(matches_upto(data, sigs, pos, 0) + matches_at_offset_from(data, sigs, pos, 0)
            =~= matches_at_offset_from(data, sigs, pos, 0));
    } else {
        lemma_upto_vs_from(data, sigs, pos, s - 1);
        if pattern_at(data, sigs[s - 1].header, pos) {
            assert(matches_upto(data, sigs, pos, s) + matches_at_offset_from(data, sigs, pos, s)
                =~= matches_upto(data, sigs, pos, s - 1) + matches_at_offset_from(
                data,
                sigs,
                pos,
                s - 1,
            ));
        } else {
            assert(matches_upto(data, sigs, pos, s) + matches_at_offset_from(data, sigs, pos, s)
                =~= matches_upto(data, sigs, pos, s - 1) + matches_at_offset_from(
                data,
                sigs,
                pos,
                s - 1,
            ));
        }
    }
}

proof fn lemma_matches_upto_full(data: Seq<u8>, sigs: Seq<SigView>, pos: int)
    ensures
        matches_upto(data, sigs, pos, sigs.len() as int) == matches_at_offset_from(
            data,
            sigs,
            pos,
            0,
        ),
{
    lemma_upto_vs_from(data, sigs, pos, sigs.len() as int);
    assert(matches_upto(data, sigs, pos, sigs.len() as int) + Seq::<MatchPosition>::empty()
        =~= matches_upto(data, sigs, pos, sigs.len() as int));
}

proof fn lemma_matches_at_offset_wf(data: Seq<u8>, sigs: Seq<SigView>, pos: int, s: int)
    requires
        0 <= s,
        sigs.len() <= usize::MAX,
        data.len() <= usize::MAX,
    ensures
        forall|k: int|
            0 <= k < matches_at_offset_from(data, sigs, pos, s).len() ==> {
                let m = #[trigger] matches_at_offset_from(data, sigs, pos, s)[k];
                &&& m.offset == pos
                &&& s <= m.sig_index < sigs.len()
                &&& header_match_at(data, sigs, m.sig_index as int, m.offset as int)
            },
    decreases sigs.len() - s,
{
    if s < sigs.len() {
        lemma_matches_at_offset_wf(data, sigs, pos, s + 1);
        let rest = matches_at_offset_from(data, sigs, pos, s + 1);
        let cur = matches_at_offset_from(data, sigs, pos, s);
        if pattern_at(data, sigs[s].header, pos) {
            let head = MatchPosition { offset: pos as usize, sig_index: s as usize };
            assert(cur == seq![head] + rest);
            assert forall|k: int| 0 <= k < cur.len() implies {
                &&& (#[trigger] cur[k]).offset == pos
                &&& s <= cur[k].sig_index < sigs.len()
                &&& header_match_at(data, sigs, cur[k].sig_index as int, cur[k].offset as int)
            } by {
                if k == 0 {
                    assert(cur[0] == head);
                    assert(header_match_at(data, sigs, s, pos));
                } else {
                    assert(cur[k] == rest[k - 1]);
                }
            }
        } else {
            assert(cur == rest);
        }
    }
}

/// Every listed match is a real header occurrence: its offset lies in
/// the scanned range and its table entry's header occurs there.
pub proof fn lemma_scan_wf(data: Seq<u8>, sigs: Seq<SigView>, n: int)
    requires
        sigs.len() <= usize::MAX,
        data.len() <= usize::MAX,
    ensures
        forall|k: int|
            0 <= k < scan_spec(data, sigs, n).len() ==> {
                let m = #[trigger] scan_spec(data, sigs, n)[k];
                &&& m.offset < n
                &&& m.sig_index < sigs.len()
                &&& header_match_at(data, sigs, m.sig_index as int, m.offset as int)
            },
    decreases n,
{
    if n > 0 {
        lemma_scan_wf(data, sigs, n - 1);
        lemma_matches_at_offset_wf(data, sigs, n - 1, 0);
        let prev = scan_spec(data, sigs, n - 1);
        let at = matches_at_offset_from(data, sigs, n - 1, 0);
        assert(scan_spec(data, sigs, n) == prev + at);
        assert forall|k: int| 0 <= k < scan_spec(data, sigs, n).len() implies {
            &&& (#[trigger] scan_spec(data, sigs, n)[k]).offset < n
            &&& scan_spec(data, sigs, n)[k].sig_index < sigs.len()
            &&& header_match_at(data, sigs, scan_spec(data, sigs, n)[k].sig_index as int, scan_spec(data, sigs, n)[k].offset as int)
        } by {
            if k < prev.len() {
                assert(scan_spec(data, sigs, n)[k] == prev[k]);
            } else {
                assert(scan_spec(data, sigs, n)[k] == at[k - prev.len()]);
            }
        }
    }
}

proof fn lemma_matches_at_offset_sorted(data: Seq<u8>, sigs: Seq<SigView>, pos: int, s: int)
    requires
        0 <= s,
        sigs.len() <= usize::MAX,
        data.len() <= usize::MAX,
    ensures
        forall|a: int, b: int|
            0 <= a < b < matches_at_offset_from(data, sigs, pos, s).len()
                ==> (#[trigger] matches_at_offset_from(data, sigs, pos, s)[a]).sig_index < (
            #[trigger] matches_at_offset_from(data, sigs, pos, s)[b]).sig_index,
    decreases sigs.len() - s,
{
    if s < sigs.len() {
        lemma_matches_at_offset_sorted(data, sigs, pos, s + 1);
        lemma_matches_at_offset_wf(data, sigs, pos, s + 1);
        let rest = matches_at_offset_from(data, sigs, pos, s + 1);
        let cur = matches_at_offset_from(data, sigs, pos, s);
        if pattern_at(data, sigs[s].header, pos) {
            let head = MatchPosition { offset: pos as usize, sig_index: s as usize };
            assert(cur == seq![head] + rest);
            assert forall|a: int, b: int|
                0 <= a < b < cur.len() implies (#[trigger] cur[a]).sig_index < (
            #[trigger] cur[b]).sig_index by {
                if a == 0 {
                    assert(cur[a] == head);
                    assert(cur[b] == rest[b - 1]);
                } else {
                    assert(cur[a] == rest[a - 1]);
                    assert(cur[b] == rest[b - 1]);
                }
            }
        } else {
            assert(cur == rest);
        }
    }
}

/// The scan is strictly ordered: ascending by offset, ties broken by
/// the table's declaration order.
pub proof fn lemma_scan_sorted(data: Seq<u8>, sigs: Seq<SigView>, n: int)
    requires
        sigs.len() <= usize::MAX,
        data.len() <= usize::MAX,
    ensures
        forall|a: int, b: int|
            0 <= a < b < scan_spec(data, sigs, n).len() ==> {
                let x = #[trigger] scan_spec(data, sigs, n)[a];
                let y = #[trigger] scan_spec(data, sigs, n)[b];
                x.offset < y.offset || (x.offset == y.offset && x.sig_index < y.sig_index)
            },
    decreases n,
{
    if n > 0 {
        lemma_scan_sorted(data, sigs, n - 1);
        lemma_scan_wf(data, sigs, n - 1);
        lemma_matches_at_offset_wf(data, sigs, n - 1, 0);
        lemma_matches_at_offset_sorted(data, sigs, n - 1, 0);
        let prev = scan_spec(data, sigs, n - 1);
        let at = matches_at_offset_from(data, sigs, n - 1, 0);
        assert(scan_spec(data, sigs, n) == prev + at);
        assert forall|a: int, b: int|
            0 <= a < b < scan_spec(data, sigs, n).len() implies ((#[trigger] scan_spec(
            data,
            sigs,
            n,
        )[a]).offset < (#[trigger] scan_spec(data, sigs, n)[b]).offset || (scan_spec(
            data,
            sigs,
            n,
        )[a].offset == scan_spec(data, sigs, n)[b].offset && scan_spec(data, sigs, n)[a].sig_index
            < scan_spec(data, sigs, n)[b].sig_index)) by {
            if b < prev.len() {
                assert(scan_spec(data, sigs, n)[a] == prev[a]);
                assert(scan_spec(data, sigs, n)[b] == prev[b]);
            } else if a < prev.len() {
                assert(scan_spec(data, sigs, n)[a] == prev[a]);
                assert(scan_spec(data, sigs, n)[b] == at[b - prev.len()]);
            } else {
                assert(scan_spec(data, sigs, n)[a] == at[a - prev.len()]);
                assert(scan_spec(data, sigs, n)[b] == at[b - prev.len()]);
            }
        }
    }
}

proof fn lemma_matches_at_offset_complete(data: Seq<u8>, sigs: Seq<SigView>, pos: int, t: int, s: int)
    requires
        0 <= t <= s < sigs.len(),
        pattern_at(data, sigs[s].header, pos),
    ensures
        matches_at_offset_from(data, sigs, pos, t).contains(
            MatchPosition { offset: pos as usize, sig_index: s as usize },
        ),
    decreases s - t,
{
    let m = MatchPosition { offset: pos as usize, sig_index: s as usize };
    let cur = matches_at_offset_from(data, sigs, pos, t);
    let rest = matches_at_offset_from(data, sigs, pos, t + 1);
    if t == s {
        assert(cur[0] == m);
    } else {
        lemma_matches_at_offset_complete(data, sigs, pos, t + 1, s);
        let k = choose|k: int| 0 <= k < rest.len() && rest[k] == m;
        if pattern_at(data, sigs[t].header, pos) {
            assert(cur[k + 1] == m);
        } else {
            assert(cur == rest);
        }
    }
}

proof fn lemma_scan_complete(data: Seq<u8>, sigs: Seq<SigView>, n: int, s: int, pos: int)
    requires
        header_match_at(data, sigs, s, pos),
        pos < n,
    ensures
        scan_spec(data, sigs, n).contains(
            MatchPosition { offset: pos as usize, sig_index: s as usize },
        ),
    decreases n,
{
    let m = MatchPosition { offset: pos as usize, sig_index: s as usize };
    let prev = scan_spec(data, sigs, n - 1);
    let at = matches_at_offset_from(data, sigs, n - 1, 0);
    assert(scan_spec(data, sigs, n) == prev + at);
    if pos == n - 1 {
        lemma_matches_at_offset_complete(data, sigs, pos, 0, s);
        let k = choose|k: int| 0 <= k < at.len() && at[k] == m;
        assert(scan_spec(data, sigs, n)[prev.len() + k] == m);
    } else {
        lemma_scan_complete(data, sigs, n - 1, s, pos);
        let k = choose|k: int| 0 <= k < prev.len() && prev[k] == m;
        assert(scan_spec(data, sigs, n)[k] == m);
    }
}

/// The scan is sound and complete: the position list holds an entry
/// exactly for each offset at which a table entry's header occurs.
pub proof fn lemma_scan_characterizes(data: Seq<u8>, sigs: Seq<SigView>, m: MatchPosition)
    requires
        sigs.len() <= usize::MAX,
        data.len() <= usize::MAX,
    ensures
        positions_of(data, sigs).contains(m) <==> header_match_at(
            data,
            sigs,
            m.sig_index as int,
            m.offset as int,
        ) && m.offset < data.len(),
{
    let ps = positions_of(data, sigs);
    if ps.contains(m) {
        lemma_scan_wf(data, sigs, data.len() as int);
        let k = choose|k: int| 0 <= k < ps.len() && ps[k] == m;
        assert(ps[k] == m);
    }
    if header_match_at(data, sigs, m.sig_index as int, m.offset as int) && m.offset < data.len() {
        lemma_scan_complete(data, sigs, data.len() as int, m.sig_index as int, m.offset as int);
    }
}

} // verus!
