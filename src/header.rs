use vstd::prelude::*;

verus! {

/// The colour family of a clip's format.
#[derive(Clone, Copy, Debug, PartialEq, Eq, Structural)]
pub enum ColorFamily {
    Gray,
    RGB,
    YUV,
    YCoCg,
    Compat,
}

/// How samples are stored.
#[derive(Clone, Copy, Debug, PartialEq, Eq, Structural)]
pub enum SampleType {
    Integer,
    Float,
}

/// What the stream header needs to know of a clip's format.
#[derive(Clone, Copy, Debug, PartialEq, Eq, Structural)]
pub struct ClipFormat {
    pub color_family: ColorFamily,
    pub sample_type: SampleType,
    pub bits_per_sample: u8,
    pub sub_sampling_w: u8,
    pub sub_sampling_h: u8,
}

/// Chroma subsampling layouts that have a YUV4MPEG2 name.
#[derive(Clone, Copy, Debug, PartialEq, Eq, Structural)]
pub enum Chroma {
    /// Halved in both directions: `420`.
    C420,
    /// Halved horizontally: `422`.
    C422,
    /// Not subsampled: `444`.
    C444,
    /// Quartered in both directions: `410`.
    C410,
    /// Quartered horizontally: `411`.
    C411,
    /// Halved vertically: `440`.
    C440,
}

/// The sample depth suffix of a YUV colourspace name.
#[derive(Clone, Copy, Debug, PartialEq, Eq, Structural)]
pub enum Depth {
    /// Eight-bit integer samples: no suffix.
    Byte,
    /// Integer samples wider than a byte: `p` and the bit count.
    Bits(u8),
    /// Half-precision float samples: `ph`.
    Half,
    /// Single-precision float samples: `ps`.
    Single,
    /// Double-precision float samples: `pd`.
    Double,
}

/// The colourspace named in a YUV4MPEG2 stream header.
#[derive(Clone, Copy, Debug, PartialEq, Eq, Structural)]
pub enum Colorspace {
    /// Gray: `mono`, followed by the bit count when it exceeds eight.
    Mono { bits: Option<u8> },
    /// YUV with its subsampling and depth.
    Yuv { chroma: Chroma, depth: Depth },
}

/// Why a clip cannot be described by a YUV4MPEG2 header.
#[derive(Clone, Copy, Debug, PartialEq, Eq, Structural)]
pub enum HeaderError {
    /// No colourspace name exists for the format.
    NoIdentifier,
}

/// The name of a subsampling layout, if it has one.
pub open spec fn spec_chroma(w: u8, h: u8) -> Option<Chroma> {
    if w == 1 && h == 1 {
        Some(Chroma::C420)
    } else if w == 1 && h == 0 {
        Some(Chroma::C422)
    } else if w == 0 && h == 0 {
        Some(Chroma::C444)
    } else if w == 2 && h == 2 {
        Some(Chroma::C410)
    } else if w == 2 && h == 0 {
        Some(Chroma::C411)
    } else if w == 0 && h == 1 {
        Some(Chroma::C440)
    } else {
        None
    }
}

/// The depth suffix of a format, if it has one.
pub open spec fn spec_depth(sample_type: SampleType, bits: u8) -> Option<Depth> {
    match sample_type {
        SampleType::Integer => if bits > 8 {
            Some(Depth::Bits(bits))
        } else {
            Some(Depth::Byte)
        },
        SampleType::Float => if bits == 16 {
            Some(Depth::Half)
        } else if bits == 32 {
            Some(Depth::Single)
        } else if bits == 64 {
            Some(Depth::Double)
        } else {
            None
        },
    }
}

/// The colourspace a format is announced as, if it has a name.
pub open spec fn spec_colorspace(f: ClipFormat) -> Option<Colorspace> {
    match f.color_family {
        ColorFamily::Gray => Some(
            Colorspace::Mono {
                bits: if f.bits_per_sample > 8 {
                    Some(f.bits_per_sample)
                } else {
                    None
                },
            },
        ),
        ColorFamily::YUV => match (spec_chroma(f.sub_sampling_w, f.sub_sampling_h), spec_depth(f.sample_type, f.bits_per_sample)) {
            (Some(chroma), Some(depth)) => Some(Colorspace::Yuv { chroma, depth }),
            _ => None,
        },
        _ => None,
    }
}

/// Names the subsampling layout given by the two shifts.
pub fn chroma_of(w: u8, h: u8) -> (r: Option<Chroma>)
    ensures
        r == spec_chroma(w, h),
{
    if w == 1 && h == 1 {
        Some(Chroma::C420)
    } else if w == 1 && h == 0 {
        Some(Chroma::C422)
    } else if w == 0 && h == 0 {
        Some(Chroma::C444)
    } else if w == 2 && h == 2 {
        Some(Chroma::C410)
    } else if w == 2 && h == 0 {
        Some(Chroma::C411)
    } else if w == 0 && h == 1 {
        Some(Chroma::C440)
    } else {
        None
    }
}

/// Names the sample depth of a format.
pub fn depth_of(sample_type: SampleType, bits: u8) -> (r: Option<Depth>)
    ensures
        r == spec_depth(sample_type, bits),
{
    match sample_type {
        SampleType::Integer => if bits > 8 {
            Some(Depth::Bits(bits))
        } else {
            Some(Depth::Byte)
        },
        SampleType::Float => if bits == 16 {
            Some(Depth::Half)
        } else if bits == 32 {
            Some(Depth::Single)
        } else if bits == 64 {
            Some(Depth::Double)
        } else {
            None
        },
    }
}

/// The colourspace a YUV4MPEG2 header announces for a clip of format `f`.
/// Only gray and YUV formats with a named subsampling and depth have one.
pub fn y4m_colorspace(f: &ClipFormat) -> (r: Result<Colorspace, HeaderError>)
    ensures
        r matches Ok(c) ==> spec_colorspace(*f) == Some(c),
        r is Err <==> spec_colorspace(*f) is None,
{
    match f.color_family {
        ColorFamily::Gray => Ok(
            Colorspace::Mono {
                bits: if f.bits_per_sample > 8 {
                    Some(f.bits_per_sample)
                } else {
                    None
                },
            },
        ),
        ColorFamily::YUV => {
            match (chroma_of(f.sub_sampling_w, f.sub_sampling_h), depth_of(f.sample_type, f.bits_per_sample)) {
                (Some(chroma), Some(depth)) => Ok(Colorspace::Yuv { chroma, depth }),
                _ => Err(HeaderError::NoIdentifier),
            }
        },
        _ => Err(HeaderError::NoIdentifier),
    }
}

} // verus!
