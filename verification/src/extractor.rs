//! The extractor: boundary resolution for each scanned header
//! occurrence, dimension probing, size filtering, and the end-to-end
//! pipeline over a byte buffer.

use vstd::prelude::*;
use vstd::slice::{slice_subrange, slice_to_vec};

use crate::dims::{dims_spec, jpeg_dims_from, manual_dims_spec, probe_dimensions};
use crate::scan::{
    MatchPosition, bytes_match_at, first_match_from, lemma_scan_wf, pattern_at, positions_of,
    scan_positions,
};
use crate::signatures::{
    SigView, SignatureSpec, default_signatures, default_table_view, extension_for,
    gif87_header, gif89_header, jpeg_header, mime_of, mime_type, png_header, table_view,
};
use crate::text::str_eq;

verus! {

/// A failure of one extraction step.
#[derive(Debug)]
pub enum ExtractionError {
    /// The given path cannot be used.
    PathError(String),
    /// A candidate's computed byte range is invalid.
    ImageParse(String),
}

/// One extracted image, with its metadata.
#[derive(Debug)]
pub struct ImageInfo {
    pub index: usize,
    pub image_type: String,
    pub size: usize,
    pub data: Vec<u8>,
    pub position: usize,
    pub end_position: usize,
    pub width: u32,
    pub height: u32,
}

/// Mathematical image of an `ImageInfo`.
#[verifier::ext_equal]
pub struct ImageInfoView {
    pub index: nat,
    pub image_type: Seq<char>,
    pub size: nat,
    pub data: Seq<u8>,
    pub position: nat,
    pub end_position: nat,
    pub width: u32,
    pub height: u32,
}

impl View for ImageInfo {
    type V = ImageInfoView;

    open spec fn view(&self) -> ImageInfoView {
        ImageInfoView {
            index: self.index as nat,
            image_type: self.image_type@,
            size: self.size as nat,
            data: self.data@,
            position: self.position as nat,
            end_position: self.end_position as nat,
            width: self.width,
            height: self.height,
        }
    }
}

pub open spec fn images_view(s: Seq<ImageInfo>) -> Seq<ImageInfoView> {
    s.map_values(|im: ImageInfo| im@)
}

/// The summary of one source buffer's extraction, merged with the
/// caller's persistence outcome.
#[derive(Debug)]
pub struct ExtractionResult {
    pub source_file: String,
    pub output_directory: String,
    pub total_images: usize,
    pub saved_images: usize,
    pub error: Option<String>,
}

/// The hard cap on a trailing image that has no footer and no
/// following match.
pub const TRAILING_IMAGE_CAP: usize = 1048576;

/// Candidates shorter than this many bytes are implausible and are
/// discarded before filtering or dimension probing.
pub const MIN_IMAGE_BYTES: usize = 100;

/// The next match's start offset after position `i` of the scan
/// list, if any: the positional fallback bound for candidate `i`.
pub open spec fn next_of(ps: Seq<MatchPosition>, i: int) -> Option<int> {
    if i + 1 < ps.len() {
        Some(ps[i + 1].offset as int)
    } else {
        None
    }
}

pub open spec fn opt_int(o: Option<usize>) -> Option<int> {
    match o {
        Some(v) => Some(v as int),
        None => None,
    }
}

/// Where a candidate image starting at `start` ends, in priority
/// order: just past the format's footer if one occurs at or after
/// `start`; else the next match's start offset; else `start` plus the
/// 1 MiB cap, clipped to the buffer.
pub open spec fn candidate_end(
    data: Seq<u8>,
    sig: SigView,
    start: int,
    next_start: Option<int>,
) -> int {
    match first_match_from(data, sig.footer, start) {
        Some(f) => f + sig.end_adjust,
        None => match next_start {
            Some(n) => n,
            None => if start + TRAILING_IMAGE_CAP <= data.len() {
                start + TRAILING_IMAGE_CAP as int
            } else {
                data.len() as int
            },
        },
    }
}

/// A candidate's resolved range is usable: it ends after it starts and
/// inside the buffer.
pub open spec fn valid_candidate(
    data: Seq<u8>,
    sig: SigView,
    start: int,
    next_start: Option<int>,
) -> bool {
    let end = candidate_end(data, sig, start, next_start);
    start < end && end <= data.len()
}

/// Whether a candidate's dimensions pass the size filter: everything
/// passes in include-all mode; otherwise both dimensions must reach
/// the explicit minimum when one is supplied, or the default 20x20
/// floor when none is.
pub open spec fn accepted_dims(
    width: u32,
    height: u32,
    output_all: bool,
    min_size: Option<(u32, u32)>,
) -> bool {
    output_all || match min_size {
        Some(m) => width >= m.0 && height >= m.1,
        None => width >= 20 && height >= 20,
    }
}

/// Decides the size filter.
pub fn passes_size_filter(
    width: u32,
    height: u32,
    output_all: bool,
    min_size: Option<(u32, u32)>,
) -> (r: bool)
    ensures
        r == accepted_dims(width, height, output_all, min_size),
{
    if output_all {
        true
    } else {
        match min_size {
            Some(m) => width >= m.0 && height >= m.1,
            None => width >= 20 && height >= 20,
        }
    }
}

/// The image extractor.
pub struct UHTMLImageExtractor;

impl UHTMLImageExtractor {
    pub fn new() -> Self {
        UHTMLImageExtractor
    }

    /// Extracts every accepted embedded image from `data`, using the
    /// standard signature table, in ascending source-offset order.
    pub fn extract_images(
        &self,
        data: &[u8],
        output_all: bool,
        min_size: Option<(u32, u32)>,
    ) -> (r: Vec<ImageInfo>)
        ensures
            images_view(r@) == images_spec(data@, default_table_view(), output_all, min_size),
            r@.len() == images_spec(data@, default_table_view(), output_all, min_size).len(),
            forall|j: int|
                0 <= j < r@.len() ==> (#[trigger] r@[j])@ == images_spec(
                    data@,
                    default_table_view(),
                    output_all,
                    min_size,
                )[j],
    {
        let sigs = default_signatures();
        proof {
            assert(table_view(sigs@).len() == sigs@.len());
            assert forall|s: int|
                0 <= s < sigs@.len() implies (#[trigger] sigs@[s]).footer@.len() >= 1 by {
                assert(table_view(sigs@)[s] == sigs@[s]@);
                if s == 0 {
                    assert(default_table_view()[0].footer.len() == 2);
                } else if s == 1 {
                    assert(default_table_view()[1].footer.len() == 8);
                } else if s == 2 {
                    assert(default_table_view()[2].footer.len() == 2);
                } else {
                    assert(default_table_view()[3].footer.len() == 2);
                }
            }
        }
        let r = self.extract_images_with_table(data, &sigs, output_all, min_size);
        proof {
            assert(images_view(r@).len() == r@.len());
            assert forall|j: int|
                0 <= j < r@.len() implies (#[trigger] r@[j])@ == images_view(r@)[j] by {}
        }
        r
    }

    /// Extracts every accepted embedded image from `data`, using the
    /// given signature table.
    pub fn extract_images_with_table(
        &self,
        data: &[u8],
        sigs: &Vec<SignatureSpec>,
        output_all: bool,
        min_size: Option<(u32, u32)>,
    ) -> (r: Vec<ImageInfo>)
        requires
            forall|s: int| 0 <= s < sigs@.len() ==> (#[trigger] sigs@[s]).footer@.len() >= 1,
        ensures
            images_view(r@) == images_spec(data@, table_view(sigs@), output_all, min_size),
            r@.len() == images_spec(data@, table_view(sigs@), output_all, min_size).len(),
            forall|j: int|
                0 <= j < r@.len() ==> (#[trigger] r@[j])@ == images_spec(
                    data@,
                    table_view(sigs@),
                    output_all,
                    min_size,
                )[j],
    {
        let ghost sv = table_view(sigs@);
        let n = data.len();
        let n_sigs = sigs.len();
        let positions = scan_positions(data, sigs);
        proof {
            assert(n == data@.len() && n_sigs == sigs@.len() && sv.len() == sigs@.len());
            lemma_scan_wf(data@, sv, data@.len() as int);
            assert(images_view(Seq::<ImageInfo>::empty()) =~= images_upto(
                data@,
                sv,
                positions@,
                0,
                output_all,
                min_size,
            ));
        }
        let mut images: Vec<ImageInfo> = Vec::new();
        let mut i: usize = 0;
        while i < positions.len()
            invariant
                sv == table_view(sigs@),
                n == data@.len(),
                forall|s: int| 0 <= s < sigs@.len() ==> (#[trigger] sigs@[s]).footer@.len() >= 1,
                positions@ == positions_of(data@, sv),
                forall|k: int|
                    0 <= k < positions@.len() ==> (#[trigger] positions@[k]).offset < data@.len()
                        && positions@[k].sig_index < sigs@.len(),
                i <= positions@.len(),
                images_view(images@) == images_upto(
                    data@,
                    sv,
                    positions@,
                    i as int,
                    output_all,
                    min_size,
                ),
            decreases positions@.len() - i,
        {
            let m = positions[i];
            let sig = &sigs[m.sig_index];
            proof {
                assert(sig@ == sv[m.sig_index as int]);
            }
            let next: Option<usize> = if i + 1 < positions.len() {
                Some(positions[i + 1].offset)
            } else {
                None
            };
            match self.extract_single_image(data, m.offset, sig, next) {
                Ok(image_data) => {
                    if image_data.len() >= MIN_IMAGE_BYTES {
                        let d = self.get_image_dimensions(image_data.as_slice());
                        if passes_size_filter(d.0, d.1, output_all, min_size) {
                            let data_size = image_data.len();
                            proof {
                                assert(image_data@.len() == candidate_end(
                                    data@,
                                    sig@,
                                    m.offset as int,
                                    opt_int(next),
                                ) - m.offset);
                                assert(m.offset + data_size <= n);
                            }
                            let mime = mime_type(sig.format);
                            let info = ImageInfo {
                                index: images.len(),
                                image_type: mime,
                                size: data_size,
                                data: image_data,
                                position: m.offset,
                                end_position: m.offset + data_size,
                                width: d.0,
                                height: d.1,
                            };
                            images.push(info);
                        }
                    }
                },
                Err(_) => {},
            }
            proof {
                assert(images_view(images@) =~= images_upto(
                    data@,
                    sv,
                    positions@,
                    i as int + 1,
                    output_all,
                    min_size,
                ));
            }
            i += 1;
        }
        proof {
            assert(images_view(images@).len() == images@.len());
            assert forall|j: int|
                0 <= j < images@.len() implies (#[trigger] images@[j])@ == images_view(images@)[j]
            by {}
        }
        images
    }

    /// The first occurrence of `pattern` in `data` at or after
    /// `start`, if any.
    pub fn find_bytes(&self, data: &[u8], pattern: &[u8], start: usize) -> (r: Option<usize>)
        requires
            pattern@.len() >= 1,
        ensures
            r is Some ==> first_match_from(data@, pattern@, start as int) == Some(r->0 as int),
            r is None ==> first_match_from(data@, pattern@, start as int) is None,
    {
        let n = data.len();
        if pattern.len() > n {
            return None;
        }
        let limit = n - pattern.len();
        let mut i = start;
        if i > limit {
            return None;
        }
        while i <= limit
            invariant
                start <= i <= limit + 1,
                limit == data@.len() - pattern@.len(),
                limit < usize::MAX,
                pattern@.len() >= 1,
                first_match_from(data@, pattern@, start as int) == first_match_from(
                    data@,
                    pattern@,
                    i as int,
                ),
            decreases limit + 1 - i,
        {
            if bytes_match_at(data, pattern, i) {
                return Some(i);
            }
            i += 1;
        }
        None
    }

    /// Resolves one candidate's byte range and copies it out of the
    /// buffer; a range that ends at or before its start, or past the
    /// buffer, is a resolution failure.
    pub fn extract_single_image(
        &self,
        data: &[u8],
        start_pos: usize,
        sig: &SignatureSpec,
        next_start: Option<usize>,
    ) -> (r: Result<Vec<u8>, ExtractionError>)
        requires
            sig.footer@.len() >= 1,
        ensures
            r is Ok <==> valid_candidate(data@, sig@, start_pos as int, opt_int(next_start)),
            r is Ok ==> r->Ok_0@ == data@.subrange(
                start_pos as int,
                candidate_end(data@, sig@, start_pos as int, opt_int(next_start)),
            ),
            r is Err ==> r->Err_0 is ImageParse,
    {
        let n = data.len();
        let end_opt: Option<usize> = match self.find_bytes(data, sig.footer.as_slice(), start_pos) {
            Some(f) => f.checked_add(sig.end_adjust),
            None => match next_start {
                Some(next) => Some(next),
                None => match start_pos.checked_add(TRAILING_IMAGE_CAP) {
                    Some(cap) => if cap <= n {
                        Some(cap)
                    } else {
                        Some(n)
                    },
                    None => Some(n),
                },
            },
        };
        match end_opt {
            Some(end) => {
                if end > start_pos && end <= n {
                    Ok(slice_to_vec(slice_subrange(data, start_pos, end)))
                } else {
                    Err(ExtractionError::ImageParse("invalid image data range".to_owned()))
                }
            },
            None => Err(ExtractionError::ImageParse("invalid image data range".to_owned())),
        }
    }

    /// Parses JPEG dimensions by walking the marker segments from
    /// offset 2 until a Start-Of-Frame marker gives the frame's
    /// height and width fields.
    pub fn parse_jpeg_dimensions(&self, data: &[u8]) -> (r: Option<(u32, u32)>)
        ensures
            r == jpeg_dims_from(data@, 2),
    {
        let n = data.len();
        let mut pos: usize = 2;
        while pos < n && n - pos > 4
            invariant
                n == data@.len(),
                jpeg_dims_from(data@, 2) == jpeg_dims_from(data@, pos as int),
            decreases n - pos,
        {
            if data[pos] == 0xff {
                let marker = data[pos + 1];
                if 0xc0 <= marker && marker <= 0xc3 {
                    if n - pos > 9 {
                        let height = (data[pos + 5] as u32) * 0x100 + (data[pos + 6] as u32);
                        let width = (data[pos + 7] as u32) * 0x100 + (data[pos + 8] as u32);
                        return Some((width, height));
                    } else {
                        return None;
                    }
                } else {
                    let length: usize = (data[pos + 2] as usize) * 0x100 + (data[pos + 3] as usize);
                    match pos.checked_add(length + 2) {
                        Some(next) => {
                            if next >= n || n - next <= 4 {
                                return None;
                            }
                            pos = next;
                        },
                        None => {
                            return None;
                        },
                    }
                }
            } else {
                pos += 1;
            }
        }
        None
    }

    /// Parses PNG dimensions from the IHDR chunk's fixed offsets.
    pub fn parse_png_dimensions(&self, data: &[u8]) -> (r: Option<(u32, u32)>)
        ensures
            r == crate::dims::png_dims_spec(data@),
    {
        if data.len() >= 24 {
            let width = (data[16] as u32) * 0x1000000 + (data[17] as u32) * 0x10000 + (
            data[18] as u32) * 0x100 + (data[19] as u32);
            let height = (data[20] as u32) * 0x1000000 + (data[21] as u32) * 0x10000 + (
            data[22] as u32) * 0x100 + (data[23] as u32);
            Some((width, height))
        } else {
            None
        }
    }

    /// Parses GIF dimensions from the logical screen descriptor's
    /// fixed offsets.
    pub fn parse_gif_dimensions(&self, data: &[u8]) -> (r: Option<(u32, u32)>)
        ensures
            r == crate::dims::gif_dims_spec(data@),
    {
        if data.len() >= 10 {
            let width = (data[6] as u32) + (data[7] as u32) * 0x100;
            let height = (data[8] as u32) + (data[9] as u32) * 0x100;
            Some((width, height))
        } else {
            None
        }
    }

    /// The fallback dimension parser: never fails, degrading to
    /// `(0, 0)` for buffers too short to hold any header and to the
    /// placeholder `(100, 100)` when nothing can be resolved.
    pub fn parse_image_dimensions_manually(&self, data: &[u8]) -> (r: (u32, u32))
        ensures
            r == manual_dims_spec(data@),
    {
        if data.len() < 10 {
            return (0, 0);
        }
        if starts_with_jpeg(data) {
            if let Some(d) = self.parse_jpeg_dimensions(data) {
                return d;
            }
        }
        if starts_with_png(data) {
            if let Some(d) = self.parse_png_dimensions(data) {
                return d;
            }
        }
        if starts_with_gif(data) {
            if let Some(d) = self.parse_gif_dimensions(data) {
                return d;
            }
        }
        (100, 100)
    }

    /// What the pipeline filters by, given the general image reader's
    /// answer for these bytes: that answer when it has one, the
    /// fallback parser's otherwise.
    pub fn dimensions_from_probe(&self, probe: Option<(u32, u32)>, data: &[u8]) -> (r: (u32, u32))
        ensures
            r == match probe {
                Some(d) => d,
                None => manual_dims_spec(data@),
            },
    {
        match probe {
            Some(d) => d,
            None => self.parse_image_dimensions_manually(data),
        }
    }

    /// Probes a candidate's pixel dimensions: the general image
    /// reader's answer, or the fallback parser's when it has none.
    pub fn get_image_dimensions(&self, image_data: &[u8]) -> (r: (u32, u32))
        ensures
            r == dims_spec(image_data@),
    {
        let probe = probe_dimensions(image_data);
        self.dimensions_from_probe(probe, image_data)
    }

    /// File extension for a MIME-style type string.
    pub fn get_file_extension(&self, mime_type: &str) -> (r: &'static str)
        ensures
            r@ == extension_for(mime_type@),
    {
        if str_eq(mime_type, "image/jpeg") {
            ".jpg"
        } else if str_eq(mime_type, "image/png") {
            ".png"
        } else if str_eq(mime_type, "image/gif") {
            ".gif"
        } else if str_eq(mime_type, "image/webp") {
            ".webp"
        } else if str_eq(mime_type, "image/bmp") {
            ".bmp"
        } else {
            ".img"
        }
    }
}

impl Default for UHTMLImageExtractor {
    fn default() -> (r: Self)
        ensures
            r == (UHTMLImageExtractor {  }),
    {
        UHTMLImageExtractor::new()
    }
}

/// The accepted images among the first `i` scanned positions, in
/// scan order; each carries as its index its position in this
/// accepted sequence.
pub open spec fn images_upto(
    data: Seq<u8>,
    sigs: Seq<SigView>,
    ps: Seq<MatchPosition>,
    i: int,
    output_all: bool,
    min_size: Option<(u32, u32)>,
) -> Seq<ImageInfoView>
    decreases i,
{
    if i <= 0 || i > ps.len() {
        Seq::empty()
    } else {
        let prev = images_upto(data, sigs, ps, i - 1, output_all, min_size);
        let m = ps[i - 1];
        let start = m.offset as int;
        let sig = sigs[m.sig_index as int];
        let next = next_of(ps, i - 1);
        let end = candidate_end(data, sig, start, next);
        if m.sig_index < sigs.len() && valid_candidate(data, sig, start, next) && end - start
            >= MIN_IMAGE_BYTES {
            let bytes = data.subrange(start, end);
            let d = dims_spec(bytes);
            if accepted_dims(d.0, d.1, output_all, min_size) {
                prev + seq![
                    ImageInfoView {
                        index: prev.len(),
                        image_type: mime_of(sig.format),
                        size: (end - start) as nat,
                        data: bytes,
                        position: start as nat,
                        end_position: end as nat,
                        width: d.0,
                        height: d.1,
                    },
                ]
            } else {
                prev
            }
        } else {
            prev
        }
    }
}

/// The whole pipeline over one buffer: scan, resolve each candidate's
/// range, gate by byte count, probe dimensions, filter, and number
/// the accepted images.
pub open spec fn images_spec(
    data: Seq<u8>,
    sigs: Seq<SigView>,
    output_all: bool,
    min_size: Option<(u32, u32)>,
) -> Seq<ImageInfoView> {
    images_upto(
        data,
        sigs,
        positions_of(data, sigs),
        positions_of(data, sigs).len() as int,
        output_all,
        min_size,
    )
}

fn starts_with_jpeg(data: &[u8]) -> (r: bool)
    ensures
        r == pattern_at(data@, jpeg_header(), 0),
{
    let r = data.len() >= 3 && data[0] == 0xff && data[1] == 0xd8 && data[2] == 0xff;
    proof {
        if r {
            assert(data@.subrange(0, 3) =~= jpeg_header());
        } else {
            if pattern_at(data@, jpeg_header(), 0) {
                assert(data@.subrange(0, 3)[0] == data@[0]);
                assert(data@.subrange(0, 3)[1] == data@[1]);
                assert(data@.subrange(0, 3)[2] == data@[2]);
            }
        }
    }
    r
}

fn starts_with_png(data: &[u8]) -> (r: bool)
    ensures
        r == pattern_at(data@, png_header(), 0),
{
    let r = data.len() >= 8 && data[0] == 0x89 && data[1] == 0x50 && data[2] == 0x4e && data[3]
        == 0x47 && data[4] == 0x0d && data[5] == 0x0a && data[6] == 0x1a && data[7] == 0x0a;
    proof {
        if r {
            assert(data@.subrange(0, 8) =~= png_header());
        } else {
            if pattern_at(data@, png_header(), 0) {
                assert(forall|k: int| 0 <= k < 8 ==> data@.subrange(0, 8)[k] == data@[k]);
            }
        }
    }
    r
}

fn starts_with_gif(data: &[u8]) -> (r: bool)
    ensures
        r == (pattern_at(data@, gif87_header(), 0) || pattern_at(data@, gif89_header(), 0)),
{
    let common = data.len() >= 6 && data[0] == 0x47 && data[1] == 0x49 && data[2] == 0x46
        && data[3] == 0x38 && data[5] == 0x61;
    let r = common && (data[4] == 0x37 || data[4] == 0x39);
    proof {
        if r {
            if data@[4] == 0x37 {
                assert(data@.subrange(0, 6) =~= gif87_header());
            } else {
                assert(data@.subrange(0, 6) =~= gif89_header());
            }
        } else {
            if pattern_at(data@, gif87_header(), 0) {
                assert(forall|k: int| 0 <= k < 6 ==> data@.subrange(0, 6)[k] == data@[k]);
            }
            if pattern_at(data@, gif89_header(), 0) {
                assert(forall|k: int| 0 <= k < 6 ==> data@.subrange(0, 6)[k] == data@[k]);
            }
        }
    }
    r
}

} // verus!
