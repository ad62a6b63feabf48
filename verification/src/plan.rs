//! What a conversion run does with its input: which archives it unpacks,
//! where their files go, and what becomes of each file.

use crate::image::OutputImageFormat;
use crate::text::{chars_of, join_path, str_eq};
use vstd::prelude::*;
use vstd::string::{StrSliceExecFns, StringExecFns};

verus! {

/// Where the archives come from: a game directory, or one archive.
#[derive(Debug, Clone)]
pub struct InputGroup {
    /// Game directory to extract files from.
    pub game_dir: Option<String>,
    /// The archive to extract.
    pub archive: Option<String>,
}

/// Whether a run unpacks the archives of a directory or a single one.
#[derive(Debug, Clone, Copy, PartialEq, Eq, Structural)]
pub enum ExtractMode {
    GameDir,
    Archive,
}

impl InputGroup {
    /// A game directory, where one is given, takes precedence.
    pub fn extract_mode(&self) -> (mode: ExtractMode)
        ensures
            mode == if self.game_dir is Some {
                ExtractMode::GameDir
            } else {
                ExtractMode::Archive
            },
    {
        if self.game_dir.is_some() {
            ExtractMode::GameDir
        } else {
            ExtractMode::Archive
        }
    }
}

/// What is done with an extracted file.
#[derive(Debug, Clone, Copy, PartialEq, Eq, Structural)]
pub enum Conversion {
    /// Converted to the output image format, into the image directory.
    Image,
    /// Copied to the sound directory.
    Sound,
    /// Copied to the script directory.
    Script,
    /// Left alone.
    Skip,
}

/// What is done with a file of a given extension.
pub open spec fn conversion_of(extension: Seq<char>) -> Conversion {
    if extension == "pcx"@ {
        Conversion::Image
    } else if extension == "wav"@ {
        Conversion::Sound
    } else if extension == "wdl"@ || extension == "wmp"@ {
        Conversion::Script
    } else {
        Conversion::Skip
    }
}

/// What is done with a file of the extension `extension`, given without
/// its dot.
pub fn conversion_for(extension: &str) -> (c: Conversion)
    ensures
        c == conversion_of(extension@),
{
    if str_eq(extension, "pcx") {
        Conversion::Image
    } else if str_eq(extension, "wav") {
        Conversion::Sound
    } else if str_eq(extension, "wdl") || str_eq(extension, "wmp") {
        Conversion::Script
    } else {
        Conversion::Skip
    }
}

/// Whether a file of the extension `extension` is an archive.
pub fn is_archive_extension(extension: &str) -> (r: bool)
    ensures
        r == (extension@ == "wrs"@ || extension@ == "WRS"@),
{
    str_eq(extension, "wrs") || str_eq(extension, "WRS")
}

/// Number of characters in front of the first dot of a name.
pub open spec fn stem_len(name: Seq<char>) -> nat
    decreases name.len(),
{
    if name.len() == 0 || name[0] == '.' {
        0
    } else {
        1 + stem_len(name.drop_first())
    }
}

/// The name of an archive: its file name up to the first dot.
pub fn archive_stem(file_name: &str) -> (stem: String)
    ensures
        stem@ == file_name@.take(stem_len(file_name@) as int),
{
    let chars = chars_of(file_name);
    let mut n: usize = 0;
    assert(chars@.skip(0) =~= chars@);
    while n < chars.len() && chars[n] != '.'
        invariant
            n <= chars@.len(),
            stem_len(chars@) == n + stem_len(chars@.skip(n as int)),
        decreases chars@.len() - n,
    {
        assert(chars@.skip(n as int).drop_first() =~= chars@.skip(n + 1));
        n += 1;
    }
    String::from_str(file_name.substring_char(0, n))
}

/// The directories of one archive's output.
#[derive(Debug, Clone, PartialEq, Eq)]
pub struct OutputLayout {
    /// The directory of the archive: the output directory and the name of
    /// the archive.
    pub root: String,
    /// Where the files go as they are extracted.
    pub original: String,
    /// Where what is made of them goes.
    pub converted: String,
    pub images: String,
    pub sound: String,
    pub script: String,
}

impl OutputLayout {
    /// The directories for the archive `archive_name` below `output`.
    pub fn new(output: &str, archive_name: &str) -> (layout: OutputLayout)
        ensures
            layout.root@ == output@ + "/"@ + archive_name@,
            layout.original@ == layout.root@ + "/"@ + "original"@,
            layout.converted@ == layout.root@ + "/"@ + "converted"@,
            layout.images@ == layout.converted@ + "/"@ + "images"@,
            layout.sound@ == layout.converted@ + "/"@ + "sound"@,
            layout.script@ == layout.converted@ + "/"@ + "script"@,
    {
        let root = join_path(output, archive_name);
        let original = join_path(root.as_str(), "original");
        let converted = join_path(root.as_str(), "converted");
        let images = join_path(converted.as_str(), "images");
        let sound = join_path(converted.as_str(), "sound");
        let script = join_path(converted.as_str(), "script");
        OutputLayout { root, original, converted, images, sound, script }
    }

    /// The directory that files of a kind are put in, if they are put
    /// anywhere.
    pub fn target(&self, conversion: Conversion) -> (dir: Option<&String>)
        ensures
            dir == match conversion {
                Conversion::Image => Some(&self.images),
                Conversion::Sound => Some(&self.sound),
                Conversion::Script => Some(&self.script),
                Conversion::Skip => None,
            },
    {
        match conversion {
            Conversion::Image => Some(&self.images),
            Conversion::Sound => Some(&self.sound),
            Conversion::Script => Some(&self.script),
            Conversion::Skip => None,
        }
    }
}

/// The output directory of a run that names none: `output` below the
/// directory the input lies in.
pub fn default_output(base: &str) -> (output: String)
    ensures
        output@ == base@ + "/"@ + "output"@,
{
    join_path(base, "output")
}

/// The path of the image that is made of the file with the stem `stem`:
/// in `output_dir`, with the extension of the format.
pub fn converted_image_path(output_dir: &str, stem: &str, format: OutputImageFormat) -> (path:
    String)
    ensures
        path@ == output_dir@ + "/"@ + stem@ + "."@ + match format {
            OutputImageFormat::Png => "png"@,
            OutputImageFormat::Jpeg => "jpeg"@,
        },
{
    let mut path = join_path(output_dir, stem);
    path.append(".");
    path.append(format.to_extension());
    path
}

} // verus!
