//! Properties of the extraction pipeline, stated and proved over its
//! mathematical model.

use vstd::prelude::*;

use crate::extractor::{
    MIN_IMAGE_BYTES, TRAILING_IMAGE_CAP, ImageInfoView, candidate_end, images_spec, images_upto,
    next_of,
};
use crate::scan::{
    MatchPosition, first_match_from, header_match_at, lemma_scan_sorted, matches_at_offset_from,
    positions_of, scan_spec,
};
use crate::signatures::SigView;

verus! {

proof fn lemma_no_match_offset_empty(data: Seq<u8>, sigs: Seq<SigView>, pos: int, s: int)
    requires
        forall|t: int, p: int| !header_match_at(data, sigs, t, p),
    ensures
        matches_at_offset_from(data, sigs, pos, s) == Seq::<MatchPosition>::empty(),
    decreases sigs.len() - s,
{
    if 0 <= s < sigs.len() {
        lemma_no_match_offset_empty(data, sigs, pos, s + 1);
        assert(!header_match_at(data, sigs, s, pos));
    }
}

proof fn lemma_no_match_scan_empty(data: Seq<u8>, sigs: Seq<SigView>, n: int)
    requires
        forall|t: int, p: int| !header_match_at(data, sigs, t, p),
    ensures
        scan_spec(data, sigs, n) == Seq::<MatchPosition>::empty(),
    decreases n,
{
    if n > 0 {
        lemma_no_match_scan_empty(data, sigs, n - 1);
        lemma_no_match_offset_empty(data, sigs, n - 1, 0);
        assert(scan_spec(data, sigs, n) =~= Seq::<MatchPosition>::empty());
    }
}

/// A buffer holding no known header signature yields an empty
/// extraction result, with no error, whatever the filter
/// configuration.
pub proof fn lemma_no_headers_empty_result(
    data: Seq<u8>,
    sigs: Seq<SigView>,
    output_all: bool,
    min_size: Option<(u32, u32)>,
)
    requires
        forall|t: int, p: int| !header_match_at(data, sigs, t, p),
    ensures
        images_spec(data, sigs, output_all, min_size) == Seq::<ImageInfoView>::empty(),
{
    lemma_no_match_scan_empty(data, sigs, data.len() as int);
    assert(positions_of(data, sigs).len() == 0);
}

/// Resolution priority 1: a candidate whose format footer occurs at
/// `f` ends at `f` plus the format's end adjustment, whatever
/// fallback context it has.
pub proof fn lemma_footer_end(data: Seq<u8>, sig: SigView, start: int, next: Option<int>, f: int)
    requires
        first_match_from(data, sig.footer, start) == Some(f),
    ensures
        candidate_end(data, sig, start, next) == f + sig.end_adjust,
{
}

/// Resolution priority 2: a candidate with no footer but a following
/// match ends exactly at the next match's start offset.
pub proof fn lemma_adjacent_header_end(data: Seq<u8>, sig: SigView, start: int, next: int)
    requires
        first_match_from(data, sig.footer, start) is None,
    ensures
        candidate_end(data, sig, start, Some(next)) == next,
{
}

/// Resolution priority 3: a trailing candidate with no footer and no
/// following match is capped, its range length being the smaller of
/// 1 MiB and what remains of the buffer.
pub proof fn lemma_truncated_trailing_length(data: Seq<u8>, sig: SigView, start: int)
    requires
        0 <= start <= data.len(),
        first_match_from(data, sig.footer, start) is None,
    ensures
        candidate_end(data, sig, start, None) - start == vstd::math::min(
            TRAILING_IMAGE_CAP as int,
            data.len() - start,
        ),
{
}

proof fn lemma_images_upto_wf(
    data: Seq<u8>,
    sigs: Seq<SigView>,
    ps: Seq<MatchPosition>,
    i: int,
    output_all: bool,
    min_size: Option<(u32, u32)>,
)
    ensures
        forall|j: int|
            0 <= j < images_upto(data, sigs, ps, i, output_all, min_size).len() ==> {
                &&& (#[trigger] images_upto(data, sigs, ps, i, output_all, min_size)[j]).index == j
                &&& images_upto(data, sigs, ps, i, output_all, min_size)[j].size
                    >= MIN_IMAGE_BYTES
                &&& images_upto(data, sigs, ps, i, output_all, min_size)[j].size == images_upto(
                    data,
                    sigs,
                    ps,
                    i,
                    output_all,
                    min_size,
                )[j].data.len()
                &&& images_upto(data, sigs, ps, i, output_all, min_size)[j].end_position
                    == images_upto(data, sigs, ps, i, output_all, min_size)[j].position
                    + images_upto(data, sigs, ps, i, output_all, min_size)[j].size
                &&& images_upto(data, sigs, ps, i, output_all, min_size)[j].data == data.subrange(
                    images_upto(data, sigs, ps, i, output_all, min_size)[j].position as int,
                    images_upto(data, sigs, ps, i, output_all, min_size)[j].end_position as int,
                )
            },
    decreases i,
{
    if 0 < i <= ps.len() {
        lemma_images_upto_wf(data, sigs, ps, i - 1, output_all, min_size);
        let prev = images_upto(data, sigs, ps, i - 1, output_all, min_size);
        let cur = images_upto(data, sigs, ps, i, output_all, min_size);
        assert forall|j: int| 0 <= j < cur.len() implies {
            &&& (#[trigger] cur[j]).index == j
            &&& cur[j].size >= MIN_IMAGE_BYTES
            &&& cur[j].size == cur[j].data.len()
            &&& cur[j].end_position == cur[j].position + cur[j].size
            &&& cur[j].data == data.subrange(cur[j].position as int, cur[j].end_position as int)
        } by {
            if j < prev.len() {
                assert(cur[j] == prev[j]);
            }
        }
    }
}

proof fn lemma_images_upto_ordered(
    data: Seq<u8>,
    sigs: Seq<SigView>,
    ps: Seq<MatchPosition>,
    i: int,
    output_all: bool,
    min_size: Option<(u32, u32)>,
)
    requires
        forall|a: int, b: int|
            0 <= a < b < ps.len() ==> (#[trigger] ps[a]).offset <= (#[trigger] ps[b]).offset,
    ensures
        forall|a: int, b: int|
            0 <= a < b < images_upto(data, sigs, ps, i, output_all, min_size).len()
                ==> (#[trigger] images_upto(data, sigs, ps, i, output_all, min_size)[a]).position
                <= (#[trigger] images_upto(data, sigs, ps, i, output_all, min_size)[b]).position,
        forall|a: int|
            0 < i <= ps.len() && 0 <= a < images_upto(data, sigs, ps, i, output_all, min_size).len()
                ==> (#[trigger] images_upto(data, sigs, ps, i, output_all, min_size)[a]).position
                <= ps[i - 1].offset,
    decreases i,
{
    if 0 < i <= ps.len() {
        lemma_images_upto_ordered(data, sigs, ps, i - 1, output_all, min_size);
        let prev = images_upto(data, sigs, ps, i - 1, output_all, min_size);
        let cur = images_upto(data, sigs, ps, i, output_all, min_size);
        assert forall|a: int|
            0 <= a < cur.len() implies (#[trigger] cur[a]).position <= ps[i - 1].offset by {
            if a < prev.len() {
                assert(cur[a] == prev[a]);
                if i - 1 > 0 {
                    assert(prev[a].position <= ps[i - 2].offset);
                    assert(ps[i - 2].offset <= ps[i - 1].offset);
                }
            } else {
                assert(cur[a].position == ps[i - 1].offset as nat);
            }
        }
        assert forall|a: int, b: int|
            0 <= a < b < cur.len() implies (#[trigger] cur[a]).position <= (
        #[trigger] cur[b]).position by {
            if b < prev.len() {
                assert(cur[a] == prev[a] && cur[b] == prev[b]);
            } else {
                assert(cur[a].position <= ps[i - 1].offset);
                assert(cur[b].position == ps[i - 1].offset as nat);
            }
        }
    }
}

/// The accepted images come out in ascending source-offset order:
/// left-to-right appearance in the buffer.
pub proof fn lemma_output_source_order(
    data: Seq<u8>,
    sigs: Seq<SigView>,
    output_all: bool,
    min_size: Option<(u32, u32)>,
)
    requires
        sigs.len() <= usize::MAX,
        data.len() <= usize::MAX,
    ensures
        forall|a: int, b: int|
            0 <= a < b < images_spec(data, sigs, output_all, min_size).len()
                ==> (#[trigger] images_spec(data, sigs, output_all, min_size)[a]).position
                <= (#[trigger] images_spec(data, sigs, output_all, min_size)[b]).position,
{
    let ps = positions_of(data, sigs);
    lemma_scan_sorted(data, sigs, data.len() as int);
    assert forall|a: int, b: int|
        0 <= a < b < ps.len() implies (#[trigger] ps[a]).offset <= (#[trigger] ps[b]).offset by {}
    lemma_images_upto_ordered(data, sigs, ps, ps.len() as int, output_all, min_size);
}

/// Every returned image's bytes are exactly the source buffer's
/// bytes from its start offset to its end offset, and its reported
/// size is that range's length.
pub proof fn lemma_output_bytes_are_source_slices(
    data: Seq<u8>,
    sigs: Seq<SigView>,
    output_all: bool,
    min_size: Option<(u32, u32)>,
)
    ensures
        forall|j: int|
            0 <= j < images_spec(data, sigs, output_all, min_size).len() ==> {
                let im = #[trigger] images_spec(data, sigs, output_all, min_size)[j];
                im.data == data.subrange(im.position as int, im.end_position as int)
                    && im.size == im.data.len() && im.end_position == im.position + im.size
            },
{
    let ps = positions_of(data, sigs);
    lemma_images_upto_wf(data, sigs, ps, ps.len() as int, output_all, min_size);
}

/// Output index assignment: the `j`-th accepted image carries index
/// `j`, its position in the accepted sequence, regardless of how many
/// earlier candidates were rejected.
pub proof fn lemma_output_index_assignment(
    data: Seq<u8>,
    sigs: Seq<SigView>,
    output_all: bool,
    min_size: Option<(u32, u32)>,
)
    ensures
        forall|j: int|
            0 <= j < images_spec(data, sigs, output_all, min_size).len() ==> (#[trigger] images_spec(
                data,
                sigs,
                output_all,
                min_size,
            )[j]).index == j,
{
    let ps = positions_of(data, sigs);
    lemma_images_upto_wf(data, sigs, ps, ps.len() as int, output_all, min_size);
}

/// The minimum byte-size gate: every returned image spans at least
/// 100 bytes, whatever the dimension probe answers and whatever the
/// filter mode.
pub proof fn lemma_minimum_byte_gate(
    data: Seq<u8>,
    sigs: Seq<SigView>,
    output_all: bool,
    min_size: Option<(u32, u32)>,
)
    ensures
        forall|j: int|
            0 <= j < images_spec(data, sigs, output_all, min_size).len() ==> (#[trigger] images_spec(
                data,
                sigs,
                output_all,
                min_size,
            )[j]).size >= MIN_IMAGE_BYTES,
{
    let ps = positions_of(data, sigs);
    lemma_images_upto_wf(data, sigs, ps, ps.len() as int, output_all, min_size);
}

/// A candidate whose resolved range is shorter than the 100-byte
/// floor contributes nothing to the output, whatever its dimensions
/// would have been and whatever the filter mode.
pub proof fn lemma_short_candidate_skipped(
    data: Seq<u8>,
    sigs: Seq<SigView>,
    ps: Seq<MatchPosition>,
    i: int,
    output_all: bool,
    min_size: Option<(u32, u32)>,
)
    requires
        0 <= i < ps.len(),
        candidate_end(data, sigs[ps[i].sig_index as int], ps[i].offset as int, next_of(ps, i))
            - ps[i].offset < MIN_IMAGE_BYTES,
    ensures
        images_upto(data, sigs, ps, i + 1, output_all, min_size) == images_upto(
            data,
            sigs,
            ps,
            i,
            output_all,
            min_size,
        ),
{
}

} // verus!
