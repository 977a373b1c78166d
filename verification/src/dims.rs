//! Dimension probing: pixel width and height of a candidate image,
//! read from format-specific header fields without fully decoding the
//! image.  Probing is total: unresolvable dimensions degrade to a
//! placeholder value instead of an error.

use vstd::prelude::*;

use crate::scan::pattern_at;
use crate::signatures::{gif87_header, gif89_header, jpeg_header, png_header};

verus! {

/// What the general-purpose image reader answers when asked for the
/// dimensions of these bytes: `Some((width, height))` if it recognises
/// the format and can read the dimensions, `None` otherwise.  The
/// answer is a function of the bytes alone.
pub uninterp spec fn image_probe(data: Seq<u8>) -> Option<(u32, u32)>;

/// Relies on image's `io::Reader`: format auto-detection over an
/// in-memory cursor followed by `into_dimensions` is a pure function of
/// the bytes alone.
#[verifier::external_body]
pub(crate) fn probe_dimensions(data: &[u8]) -> (r: Option<(u32, u32)>)
    ensures
        r == image_probe(data@),
{
    let cursor = std::io::Cursor::new(data);
    match image::io::Reader::new(cursor).with_guessed_format() {
        Ok(reader) => match reader.into_dimensions() {
            Ok(d) => Some(d),
            Err(_) => None,
        },
        Err(_) => None,
    }
}

/// A big-endian 16-bit field, widened to pixels.
pub open spec fn be16(hi: u8, lo: u8) -> u32 {
    ((hi as int) * 0x100 + (lo as int)) as u32
}

/// A little-endian 16-bit field, widened to pixels.
pub open spec fn le16(lo: u8, hi: u8) -> u32 {
    ((hi as int) * 0x100 + (lo as int)) as u32
}

/// A big-endian 32-bit field.
pub open spec fn be32(b0: u8, b1: u8, b2: u8, b3: u8) -> u32 {
    ((b0 as int) * 0x1000000 + (b1 as int) * 0x10000 + (b2 as int) * 0x100 + (b3 as int)) as u32
}

/// The JPEG marker walk from offset `pos`: at each `0xFF` marker byte,
/// a Start-Of-Frame marker (`0xC0`..`0xC3`) yields the frame's height
/// and width fields; any other marker skips its big-endian length
/// field; any other byte is skipped one at a time.  `None` when the
/// walk runs past the buffer.
pub open spec fn jpeg_dims_from(data: Seq<u8>, pos: int) -> Option<(u32, u32)>
    decreases data.len() - pos,
{
    if pos < 0 || pos + 4 >= data.len() {
        None
    } else if data[pos] == 0xff {
        let marker = data[pos + 1];
        if 0xc0 <= marker && marker <= 0xc3 {
            if pos + 9 < data.len() {
                Some((be16(data[pos + 7], data[pos + 8]), be16(data[pos + 5], data[pos + 6])))
            } else {
                None
            }
        } else {
            let next = pos + be16(data[pos + 2], data[pos + 3]) + 2;
            if next + 4 >= data.len() {
                None
            } else {
                jpeg_dims_from(data, next)
            }
        }
    } else {
        jpeg_dims_from(data, pos + 1)
    }
}

/// PNG dimensions: big-endian 32-bit fields at the IHDR chunk's fixed
/// offsets 16..19 (width) and 20..23 (height).
pub open spec fn png_dims_spec(data: Seq<u8>) -> Option<(u32, u32)> {
    if data.len() >= 24 {
        Some(
            (
                be32(data[16], data[17], data[18], data[19]),
                be32(data[20], data[21], data[22], data[23]),
            ),
        )
    } else {
        None
    }
}

/// GIF dimensions: little-endian 16-bit fields of the logical screen
/// descriptor at fixed offsets 6..7 (width) and 8..9 (height).
pub open spec fn gif_dims_spec(data: Seq<u8>) -> Option<(u32, u32)> {
    if data.len() >= 10 {
        Some((le16(data[6], data[7]), le16(data[8], data[9])))
    } else {
        None
    }
}

/// The fallback dimension parser: buffers shorter than 10 bytes yield
/// `(0, 0)`; a buffer opening with a known header is parsed by that
/// format's rule; anything unresolved yields the placeholder
/// `(100, 100)`, meaning "assume plausible, do not filter out".
pub open spec fn manual_dims_spec(data: Seq<u8>) -> (u32, u32) {
    if data.len() < 10 {
        (0u32, 0u32)
    } else if pattern_at(data, jpeg_header(), 0) && jpeg_dims_from(data, 2) is Some {
        jpeg_dims_from(data, 2)->Some_0
    } else if pattern_at(data, png_header(), 0) && png_dims_spec(data) is Some {
        png_dims_spec(data)->Some_0
    } else if (pattern_at(data, gif87_header(), 0) || pattern_at(data, gif89_header(), 0))
        && gif_dims_spec(data) is Some {
        gif_dims_spec(data)->Some_0
    } else {
        (100u32, 100u32)
    }
}

/// The dimensions a candidate is filtered by: the general reader's
/// answer when it has one, the fallback parser's answer otherwise.
pub open spec fn dims_spec(data: Seq<u8>) -> (u32, u32) {
    match image_probe(data) {
        Some(d) => d,
        None => manual_dims_spec(data),
    }
}

} // verus!
