//! Output formats of the image conversion.

use vstd::prelude::*;

verus! {

/// The image formats of the `image` crate, `image::ImageFormat`: an
/// enumeration whose variants carry no data. It is declared with its
/// variants, so that a contract can say which format a function returns.
#[verifier::external_type_specification]
pub struct ExImageFormat(::image::ImageFormat);

/// The format a converted image is written in.
#[derive(Debug, Copy, Clone, PartialEq, Eq, PartialOrd, Ord, Structural)]
pub enum OutputImageFormat {
    Png,
    Jpeg,
}

impl OutputImageFormat {
    /// The encoder's name for the format.
    pub fn to_image_format(&self) -> (f: ::image::ImageFormat)
        ensures
            f == match *self {
                OutputImageFormat::Png => ::image::ImageFormat::Png,
                OutputImageFormat::Jpeg => ::image::ImageFormat::Jpeg,
            },
    {
        match self {
            OutputImageFormat::Png => ::image::ImageFormat::Png,
            OutputImageFormat::Jpeg => ::image::ImageFormat::Jpeg,
        }
    }

    /// The file extension of the format, without a dot.
    pub fn to_extension(&self) -> (ext: &'static str)
        ensures
            ext@ == match *self {
                OutputImageFormat::Png => "png"@,
                OutputImageFormat::Jpeg => "jpeg"@,
            },
    {
        match self {
            OutputImageFormat::Png => "png",
            OutputImageFormat::Jpeg => "jpeg",
        }
    }
}

} // verus!
