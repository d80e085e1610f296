//! How an image file is decoded: which decoders are tried, in which order, and
//! when ffmpeg is called in.
use std::path::{Path, PathBuf};

use image::{DynamicImage, ImageError};
use vstd::prelude::*;
use vstd::string::*;

use crate::color::{image_height, image_width, rgb8_bytes, sample_kind, SampleKind};
use crate::media::{is_raw, is_text, raw_extension};
use crate::paths::{from_text, join, joined, parent_of, path_from, path_text, to_string_lossy};

verus! {

/// `image::ImageError`, opaque.
#[verifier::external_type_specification]
#[verifier::external_body]
pub struct ExImageError(image::ImageError);

/// A step on the way to a decoded image.
#[derive(Clone, Copy, Debug, PartialEq, Eq, Structural)]
pub enum LoadStep {
    /// Open the file with the decoders of the `image` crate.
    OpenStandard,
    /// Decode a camera RAW file.
    DecodeRaw,
    /// Look for the ffmpeg program.
    FindFfmpeg,
    /// Have ffmpeg write the first frame. It succeeds if the program ends well,
    /// fails if it ends badly, and errs if it cannot be run.
    RunFfmpeg,
    /// Decode what ffmpeg wrote.
    DecodeFrame,
}

/// How a step came out.
#[derive(Clone, Copy, Debug, PartialEq, Eq, Structural)]
pub enum StepOutcome {
    /// It gave what it was to give: an image, a program, a frame.
    Succeeded,
    /// It gave nothing.
    Failed,
    /// It could not be carried out, for a reason that can be told.
    Errored,
}

/// What to do after a step.
#[derive(Clone, Copy, Debug, PartialEq, Eq, Structural)]
pub enum NextStep {
    /// Go on with another step.
    Try(LoadStep),
    /// Return the image that the step gave.
    Return,
    /// Return the error that the step met.
    Propagate,
    /// Return that the file could not be decoded.
    GiveUp,
}

/// ffmpeg can decode files of this extension: HEIC and AVIF, and camera RAW
/// that its own decoder did not take.
pub open spec fn ffmpeg_extension(ext: Seq<char>) -> bool {
    ext == "heic"@ || ext == "avif"@ || raw_extension(ext)
}

/// What follows a step, for a file of a lower case extension.
pub open spec fn after_step(step: LoadStep, outcome: StepOutcome, ext: Seq<char>) -> NextStep {
    let ffmpeg = if ffmpeg_extension(ext) {
        NextStep::Try(LoadStep::FindFfmpeg)
    } else {
        NextStep::GiveUp
    };
    match (step, outcome) {
        (LoadStep::OpenStandard, StepOutcome::Succeeded) => NextStep::Return,
        (LoadStep::OpenStandard, _) => if raw_extension(ext) {
            NextStep::Try(LoadStep::DecodeRaw)
        } else {
            ffmpeg
        },
        (LoadStep::DecodeRaw, StepOutcome::Succeeded) => NextStep::Return,
        (LoadStep::DecodeRaw, _) => ffmpeg,
        (LoadStep::FindFfmpeg, StepOutcome::Succeeded) => NextStep::Try(LoadStep::RunFfmpeg),
        (LoadStep::FindFfmpeg, _) => NextStep::GiveUp,
        (LoadStep::RunFfmpeg, StepOutcome::Succeeded) => NextStep::Try(LoadStep::DecodeFrame),
        (LoadStep::RunFfmpeg, StepOutcome::Failed) => NextStep::GiveUp,
        (LoadStep::RunFfmpeg, StepOutcome::Errored) => NextStep::Propagate,
        (LoadStep::DecodeFrame, StepOutcome::Succeeded) => NextStep::Return,
        (LoadStep::DecodeFrame, _) => NextStep::Propagate,
    }
}

/// Whether ffmpeg is called in for files of a lower case extension.
fn is_ffmpeg_extension(ext: &str) -> (r: bool)
    ensures
        r == ffmpeg_extension(ext@),
{
    is_text(ext, "heic") || is_text(ext, "avif") || is_raw(ext)
}

/// What to do after a step, for a file of a lower case extension. Loading
/// begins with [`LoadStep::OpenStandard`].
pub fn next_load_step(step: LoadStep, outcome: StepOutcome, ext: &str) -> (next: NextStep)
    ensures
        next == after_step(step, outcome, ext@),
{
    match outcome {
        StepOutcome::Succeeded => match step {
            LoadStep::OpenStandard | LoadStep::DecodeRaw | LoadStep::DecodeFrame => {
                NextStep::Return
            },
            LoadStep::FindFfmpeg => NextStep::Try(LoadStep::RunFfmpeg),
            LoadStep::RunFfmpeg => NextStep::Try(LoadStep::DecodeFrame),
        },
        _ => match step {
            LoadStep::OpenStandard if is_raw(ext) => NextStep::Try(LoadStep::DecodeRaw),
            LoadStep::OpenStandard | LoadStep::DecodeRaw => if is_ffmpeg_extension(ext) {
                NextStep::Try(LoadStep::FindFfmpeg)
            } else {
                NextStep::GiveUp
            },
            LoadStep::FindFfmpeg => NextStep::GiveUp,
            LoadStep::RunFfmpeg => match outcome {
                StepOutcome::Errored => NextStep::Propagate,
                _ => NextStep::GiveUp,
            },
            LoadStep::DecodeFrame => NextStep::Propagate,
        },
    }
}

/// The place of a step in the order of steps.
pub open spec fn step_number(step: LoadStep) -> int {
    match step {
        LoadStep::OpenStandard => 0,
        LoadStep::DecodeRaw => 1,
        LoadStep::FindFfmpeg => 2,
        LoadStep::RunFfmpeg => 3,
        LoadStep::DecodeFrame => 4,
    }
}

/// Loading ends: a step is followed by none but later ones, so that at most
/// five are taken.
pub proof fn law_loading_ends(step: LoadStep, outcome: StepOutcome, ext: Seq<char>)
    ensures
        after_step(step, outcome, ext) matches NextStep::Try(next) ==> step_number(step)
            < step_number(next) <= 4,
{
}

/// An image is returned when, and only when, a step has decoded one.
pub proof fn law_returns_what_was_decoded(step: LoadStep, outcome: StepOutcome, ext: Seq<char>)
    ensures
        after_step(step, outcome, ext) == NextStep::Return <==> outcome == StepOutcome::Succeeded
            && (step == LoadStep::OpenStandard || step == LoadStep::DecodeRaw || step
            == LoadStep::DecodeFrame),
{
}

/// A file that the standard decoders do not open goes on to ffmpeg exactly when
/// it is HEIC, AVIF or camera RAW, and to the RAW decoder first exactly when it
/// is camera RAW; any other is given up.
pub proof fn law_fallbacks_by_extension(outcome: StepOutcome, ext: Seq<char>)
    requires
        outcome != StepOutcome::Succeeded,
    ensures
        after_step(LoadStep::OpenStandard, outcome, ext) == NextStep::Try(LoadStep::DecodeRaw)
            <==> raw_extension(ext),
        after_step(LoadStep::OpenStandard, outcome, ext) == NextStep::Try(LoadStep::FindFfmpeg)
            <==> ffmpeg_extension(ext) && !raw_extension(ext),
        after_step(LoadStep::OpenStandard, outcome, ext) == NextStep::GiveUp
            <==> !ffmpeg_extension(ext),
        raw_extension(ext) ==> after_step(LoadStep::DecodeRaw, outcome, ext) == NextStep::Try(
            LoadStep::FindFfmpeg,
        ),
{
}

/// Why a decoded RAW file is no image.
#[derive(Clone, Copy, Debug, PartialEq, Eq, Structural)]
pub enum RawImageError {
    /// There are fewer bytes than the pixels of an image of that size take, or a
    /// row of them takes more than can be counted.
    BufferSize,
}

impl RawImageError {
    /// What is said of the error.
    pub fn message(&self) -> (text: String)
        ensures
            text@ == match *self {
                RawImageError::BufferSize => "raw decode produced an unexpected buffer size"@,
            },
    {
        match self {
            RawImageError::BufferSize => "raw decode produced an unexpected buffer size".to_owned(),
        }
    }
}

/// `image::RgbImage::from_raw`, made a `DynamicImage`: there is an image if the
/// bytes are enough for its pixels, at three bytes each, and those of a row can
/// be counted, though there may be no rows. It has that width and
/// height and 8-bit samples, and holds those bytes.
#[verifier::external_body]
fn rgb_from_raw(width: u32, height: u32, data: Vec<u8>) -> (img: Option<DynamicImage>)
    ensures
        img is Some <==> (3 * width <= usize::MAX && 3 * width * height <= data@.len()),
        img is Some ==> image_width(img->0) == width && image_height(img->0) == height
            && sample_kind(img->0) == SampleKind::Byte && rgb8_bytes(img->0) == data@,
{
    image::RgbImage::from_raw(width, height, data).map(DynamicImage::ImageRgb8)
}

/// The image of a decoded RAW file, given by its size and its RGB bytes. A size
/// is taken modulo 2^32.
pub fn raw_image(width: usize, height: usize, data: Vec<u8>) -> (img: Result<
    DynamicImage,
    RawImageError,
>)
    ensures
        img is Ok <==> (3 * (width as u32) <= usize::MAX && 3 * (width as u32) * (height as u32)
            <= data@.len()),
        img is Ok ==> image_width(img->Ok_0) == width as u32 && image_height(img->Ok_0)
            == height as u32 && sample_kind(img->Ok_0) == SampleKind::Byte && rgb8_bytes(img->Ok_0)
            == data@,
        img is Err ==> img->Err_0 == RawImageError::BufferSize,
{
    match rgb_from_raw(width as u32, height as u32, data) {
        Some(img) => Ok(img),
        None => Err(RawImageError::BufferSize),
    }
}

/// `image::load_from_memory` may make this of these bytes, with the decoders
/// that some process has.
pub uninterp spec fn may_decode(bytes: Seq<u8>, img: Result<DynamicImage, ImageError>) -> bool;

/// `image::load_from_memory`: what it gives comes of the bytes, as named by
/// [`may_decode`]. Which of the possible results it is stays open: there may be
/// decoders, and hooks that detect formats, that the process has registered with
/// the crate.
#[verifier::external_body]
fn load_from_memory(bytes: &[u8]) -> (img: Result<DynamicImage, ImageError>)
    ensures
        may_decode(bytes@, img),
{
    image::load_from_memory(bytes)
}

/// Decodes the frame that ffmpeg wrote, and says what to do then: return the
/// image, or the error if there is one. Which image it is, of those that the
/// bytes may be decoded to, is up to the decoders.
pub fn decode_frame(frame: &[u8], ext: &str) -> (decoded: (
    Result<DynamicImage, ImageError>,
    NextStep,
))
    ensures
        may_decode(frame@, decoded.0),
        decoded.0 is Ok ==> decoded.1 == NextStep::Return,
        decoded.0 is Err ==> decoded.1 == NextStep::Propagate,
{
    let img = load_from_memory(frame);
    let outcome = match &img {
        Ok(_) => StepOutcome::Succeeded,
        Err(_) => StepOutcome::Errored,
    };
    (img, next_load_step(LoadStep::DecodeFrame, outcome, ext))
}

/// What is said of a file that could not be decoded.
pub fn undecodable_message(path: &Path) -> (text: String)
    ensures
        text@ == "Could not decode image: "@ + path_text(path),
{
    let mut text = "Could not decode image: ".to_owned();
    text.append(to_string_lossy(path).as_str());
    text
}

/// An argument of the ffmpeg program.
#[derive(Clone, Copy, Debug)]
pub enum FfmpegArgument {
    /// The path of the file to decode.
    Input,
    /// A word as it stands.
    Word(&'static str),
}

/// The arguments that have ffmpeg write the first frame of a file to its
/// standard output, as a PNG.
pub fn ffmpeg_arguments() -> (arguments: Vec<FfmpegArgument>)
    ensures
        arguments@ == seq![
            FfmpegArgument::Word("-i"),
            FfmpegArgument::Input,
            FfmpegArgument::Word("-vframes"),
            FfmpegArgument::Word("1"),
            FfmpegArgument::Word("-f"),
            FfmpegArgument::Word("image2pipe"),
            FfmpegArgument::Word("-vcodec"),
            FfmpegArgument::Word("png"),
            FfmpegArgument::Word("-"),
        ],
{
    vec![
        FfmpegArgument::Word("-i"),
        FfmpegArgument::Input,
        FfmpegArgument::Word("-vframes"),
        FfmpegArgument::Word("1"),
        FfmpegArgument::Word("-f"),
        FfmpegArgument::Word("image2pipe"),
        FfmpegArgument::Word("-vcodec"),
        FfmpegArgument::Word("png"),
        FfmpegArgument::Word("-"),
    ]
}

/// Where ffmpeg may be in a directory.
pub open spec fn ffmpeg_in(dir: Option<&Path>) -> Seq<PathBuf> {
    match dir {
        Some(dir) => seq![joined(dir, "ffmpeg.exe"@), joined(dir, "ffmpeg"@)],
        None => Seq::empty(),
    }
}

/// The directory of a program that may not be known.
pub open spec fn directory_of(program: Option<&Path>) -> Option<&Path> {
    match program {
        Some(program) => parent_of(program),
        None => None,
    }
}

/// Writes where ffmpeg may be in a directory after `places`.
fn push_ffmpeg_in(places: &mut Vec<PathBuf>, dir: Option<&Path>)
    ensures
        final(places)@ == old(places)@ + ffmpeg_in(dir),
{
    if let Some(dir) = dir {
        places.push(join(dir, "ffmpeg.exe"));
        places.push(join(dir, "ffmpeg"));
    }
    assert(places@ =~= old(places)@ + ffmpeg_in(dir));
}

/// Where ffmpeg may be if it cannot be run by its name: beside the running
/// program, then in the working directory.
pub fn ffmpeg_places(program: Option<&Path>, working_dir: Option<&Path>) -> (places: Vec<PathBuf>)
    ensures
        places@ == ffmpeg_in(directory_of(program)) + ffmpeg_in(working_dir),
{
    let mut places: Vec<PathBuf> = Vec::new();
    let beside = match program {
        Some(program) => program.parent(),
        None => None,
    };
    push_ffmpeg_in(&mut places, beside);
    push_ffmpeg_in(&mut places, working_dir);
    assert(places@ =~= ffmpeg_in(directory_of(program)) + ffmpeg_in(working_dir));
    places
}

/// The path to run ffmpeg by: its name if that works, or else the first of the
/// places where it is.
pub fn choose_ffmpeg(runs_by_name: bool, places: &[PathBuf], present: &[bool]) -> (path: Option<
    PathBuf,
>)
    requires
        places@.len() == present@.len(),
    ensures
        runs_by_name ==> path == Some(path_from("ffmpeg"@)),
        !runs_by_name ==> (path is None <==> forall|i: int|
            0 <= i < present@.len() ==> !#[trigger] present@[i]),
        !runs_by_name && path is Some ==> exists|i: int|
            #![trigger present@[i]]
            0 <= i < present@.len() && present@[i] && path->0 == places@[i] && forall|j: int|
                0 <= j < i ==> !#[trigger] present@[j],
{
    if runs_by_name {
        return Some(from_text("ffmpeg"));
    }
    for i in 0..places.len()
        invariant
            !runs_by_name,
            places@.len() == present@.len(),
            forall|j: int| 0 <= j < i ==> !#[trigger] present@[j],
    {
        if present[i] {
            return Some(places[i].clone());
        }
    }
    None
}

/// Once ffmpeg is found it is run, and once it has run well its frame is
/// decoded, whatever the extension. Loading is given up after that only when
/// ffmpeg was not found or ended badly.
pub proof fn law_ffmpeg_that_is_found_is_used(outcome: StepOutcome, ext: Seq<char>)
    ensures
        outcome == StepOutcome::Succeeded ==> after_step(LoadStep::FindFfmpeg, outcome, ext)
            == NextStep::Try(LoadStep::RunFfmpeg),
        outcome != StepOutcome::Succeeded ==> after_step(LoadStep::FindFfmpeg, outcome, ext)
            == NextStep::GiveUp,
        outcome == StepOutcome::Succeeded ==> after_step(LoadStep::RunFfmpeg, outcome, ext)
            == NextStep::Try(LoadStep::DecodeFrame),
        outcome == StepOutcome::Failed ==> after_step(LoadStep::RunFfmpeg, outcome, ext)
            == NextStep::GiveUp,
        after_step(LoadStep::DecodeFrame, outcome, ext) != NextStep::GiveUp,
{
}

/// A file that none of the decoders before ffmpeg opened is handed to ffmpeg
/// exactly when it is HEIC, AVIF, or camera RAW of Nikon or Canon, and given up
/// otherwise. Camera RAW, and no other file, is tried by its own decoder first.
pub proof fn law_ffmpeg_is_the_last_resort(outcome: StepOutcome, ext: Seq<char>)
    requires
        outcome != StepOutcome::Succeeded,
    ensures
        ext == "nef"@ || ext == "cr2"@ ==> after_step(LoadStep::OpenStandard, outcome, ext)
            == NextStep::Try(LoadStep::DecodeRaw),
        ext == "heic"@ || ext == "avif"@ ==> after_step(LoadStep::OpenStandard, outcome, ext)
            == NextStep::Try(LoadStep::FindFfmpeg),
        ext != "nef"@ && ext != "cr2"@ && ext != "heic"@ && ext != "avif"@ ==> after_step(
            LoadStep::OpenStandard,
            outcome,
            ext,
        ) == NextStep::GiveUp,
        after_step(LoadStep::DecodeRaw, outcome, ext) == if ext == "nef"@ || ext == "cr2"@ || ext
            == "heic"@ || ext == "avif"@ {
            NextStep::Try(LoadStep::FindFfmpeg)
        } else {
            NextStep::GiveUp
        },
{
    reveal_strlit("heic");
    reveal_strlit("avif");
    reveal_strlit("nef");
    reveal_strlit("cr2");
    assert("heic"@.len() == 4 && "avif"@.len() == 4 && "nef"@.len() == 3 && "cr2"@.len() == 3);
}

/// An error is returned when, and only when, ffmpeg could not be run or what it
/// wrote could not be decoded.
pub proof fn law_errors_of_ffmpeg_are_returned(step: LoadStep, outcome: StepOutcome, ext: Seq<char>)
    ensures
        after_step(step, outcome, ext) == NextStep::Propagate <==> (step == LoadStep::RunFfmpeg
            && outcome == StepOutcome::Errored) || (step == LoadStep::DecodeFrame && outcome
            != StepOutcome::Succeeded),
{
}

/// ffmpeg is looked for in a directory under two names, that of Windows first,
/// and in no directory that is not known. The program's directory is its parent.
pub proof fn law_ffmpeg_has_two_names(dir: &Path, program: &Path)
    ensures
        ffmpeg_in(Some(dir)).len() == 2,
        ffmpeg_in(Some(dir))[0] == joined(dir, "ffmpeg.exe"@),
        ffmpeg_in(Some(dir))[1] == joined(dir, "ffmpeg"@),
        ffmpeg_in(None).len() == 0,
        directory_of(Some(program)) == parent_of(program),
        directory_of(None) is None,
{
}

} // verus!
