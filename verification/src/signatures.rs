//! The signature table: how each supported image format's embedded
//! images start and end inside a raw byte stream.

use vstd::prelude::*;

verus! {

/// Raster image formats recognised by the signature table.
#[derive(Clone, Copy, Debug, PartialEq, Eq, Structural)]
pub enum ImageFormat {
    Jpeg,
    Png,
    Gif,
}

/// One entry of the signature table: the byte pattern that opens an
/// embedded image of this format, the byte pattern that closes it, and
/// how many bytes past the footer's start offset still belong to the
/// image.
#[derive(Clone, Debug)]
pub struct SignatureSpec {
    pub format: ImageFormat,
    pub header: Vec<u8>,
    pub footer: Vec<u8>,
    pub end_adjust: usize,
}

/// Mathematical image of a `SignatureSpec`.
#[verifier::ext_equal]
pub struct SigView {
    pub format: ImageFormat,
    pub header: Seq<u8>,
    pub footer: Seq<u8>,
    pub end_adjust: nat,
}

impl View for SignatureSpec {
    type V = SigView;

    open spec fn view(&self) -> SigView {
        SigView {
            format: self.format,
            header: self.header@,
            footer: self.footer@,
            end_adjust: self.end_adjust as nat,
        }
    }
}

/// Mathematical image of a whole signature table.
pub open spec fn table_view(sigs: Seq<SignatureSpec>) -> Seq<SigView> {
    sigs.map_values(|s: SignatureSpec| s@)
}

pub open spec fn jpeg_header() -> Seq<u8> {
    seq![0xffu8, 0xd8u8, 0xffu8]
}

pub open spec fn jpeg_footer() -> Seq<u8> {
    seq![0xffu8, 0xd9u8]
}

pub open spec fn png_header() -> Seq<u8> {
    seq![0x89u8, 0x50u8, 0x4eu8, 0x47u8, 0x0du8, 0x0au8, 0x1au8, 0x0au8]
}

pub open spec fn png_footer() -> Seq<u8> {
    seq![0x49u8, 0x45u8, 0x4eu8, 0x44u8, 0xaeu8, 0x42u8, 0x60u8, 0x82u8]
}

pub open spec fn gif87_header() -> Seq<u8> {
    seq![0x47u8, 0x49u8, 0x46u8, 0x38u8, 0x37u8, 0x61u8]
}

pub open spec fn gif89_header() -> Seq<u8> {
    seq![0x47u8, 0x49u8, 0x46u8, 0x38u8, 0x39u8, 0x61u8]
}

pub open spec fn gif_footer() -> Seq<u8> {
    seq![0x00u8, 0x3bu8]
}

/// The standard signature table, in declaration order: JPEG, PNG,
/// GIF87a, GIF89a.  Declaration order breaks ties between two formats
/// matching at the same offset.
pub open spec fn default_table_view() -> Seq<SigView> {
    seq![
        SigView { format: ImageFormat::Jpeg, header: jpeg_header(), footer: jpeg_footer(), end_adjust: 2 },
        SigView { format: ImageFormat::Png, header: png_header(), footer: png_footer(), end_adjust: 8 },
        SigView { format: ImageFormat::Gif, header: gif87_header(), footer: gif_footer(), end_adjust: 2 },
        SigView { format: ImageFormat::Gif, header: gif89_header(), footer: gif_footer(), end_adjust: 2 },
    ]
}

/// Builds the standard signature table.
pub fn default_signatures() -> (r: Vec<SignatureSpec>)
    ensures
        table_view(r@) == default_table_view(),
{
    let jpeg = SignatureSpec {
        format: ImageFormat::Jpeg,
        header: vec![0xffu8, 0xd8u8, 0xffu8],
        footer: vec![0xffu8, 0xd9u8],
        end_adjust: 2,
    };
    let png = SignatureSpec {
        format: ImageFormat::Png,
        header: vec![0x89u8, 0x50u8, 0x4eu8, 0x47u8, 0x0du8, 0x0au8, 0x1au8, 0x0au8],
        footer: vec![0x49u8, 0x45u8, 0x4eu8, 0x44u8, 0xaeu8, 0x42u8, 0x60u8, 0x82u8],
        end_adjust: 8,
    };
    let gif87 = SignatureSpec {
        format: ImageFormat::Gif,
        header: vec![0x47u8, 0x49u8, 0x46u8, 0x38u8, 0x37u8, 0x61u8],
        footer: vec![0x00u8, 0x3bu8],
        end_adjust: 2,
    };
    let gif89 = SignatureSpec {
        format: ImageFormat::Gif,
        header: vec![0x47u8, 0x49u8, 0x46u8, 0x38u8, 0x39u8, 0x61u8],
        footer: vec![0x00u8, 0x3bu8],
        end_adjust: 2,
    };
    let r = vec![jpeg, png, gif87, gif89];
    proof {
        assert(table_view(r@) =~~= default_table_view());
    }
    r
}

/// MIME-style type string for a format.
pub open spec fn mime_of(format: ImageFormat) -> Seq<char> {
    match format {
        ImageFormat::Jpeg => "image/jpeg"@,
        ImageFormat::Png => "image/png"@,
        ImageFormat::Gif => "image/gif"@,
    }
}

/// Builds the MIME-style type string for a format.
pub fn mime_type(format: ImageFormat) -> (r: String)
    ensures
        r@ == mime_of(format),
{
    match format {
        ImageFormat::Jpeg => "image/jpeg".to_owned(),
        ImageFormat::Png => "image/png".to_owned(),
        ImageFormat::Gif => "image/gif".to_owned(),
    }
}

/// File extension for a MIME-style type string.
pub open spec fn extension_for(mime: Seq<char>) -> Seq<char> {
    if mime == "image/jpeg"@ {
        ".jpg"@
    } else if mime == "image/png"@ {
        ".png"@
    } else if mime == "image/gif"@ {
        ".gif"@
    } else if mime == "image/webp"@ {
        ".webp"@
    } else if mime == "image/bmp"@ {
        ".bmp"@
    } else {
        ".img"@
    }
}

} // verus!
