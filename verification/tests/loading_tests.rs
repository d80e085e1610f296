use std::io::Cursor;
use std::path::{Path, PathBuf};

use image::{DynamicImage, ImageFormat};
use metadata_similarity::loading::{
    choose_ffmpeg, decode_frame, ffmpeg_arguments, ffmpeg_places, next_load_step, raw_image,
    undecodable_message, FfmpegArgument, LoadStep, NextStep, RawImageError, StepOutcome,
};

/// The steps that are taken when every one of them fails.
fn steps_when_all_fail(ext: &str) -> Vec<LoadStep> {
    let mut steps = vec![LoadStep::OpenStandard];
    while let NextStep::Try(next) =
        next_load_step(steps[steps.len() - 1], StepOutcome::Failed, ext)
    {
        steps.push(next);
    }
    steps
}

#[test]
fn fallbacks_depend_on_the_extension() {
    let plain = vec![LoadStep::OpenStandard];
    let ffmpeg = vec![LoadStep::OpenStandard, LoadStep::FindFfmpeg];
    let raw = vec![LoadStep::OpenStandard, LoadStep::DecodeRaw, LoadStep::FindFfmpeg];
    assert_eq!(steps_when_all_fail("jpg"), plain);
    assert_eq!(steps_when_all_fail(""), plain);
    assert_eq!(steps_when_all_fail("heic"), ffmpeg);
    assert_eq!(steps_when_all_fail("avif"), ffmpeg);
    assert_eq!(steps_when_all_fail("nef"), raw);
    assert_eq!(steps_when_all_fail("cr2"), raw);
}

#[test]
fn a_decoded_image_is_returned() {
    for step in [LoadStep::OpenStandard, LoadStep::DecodeRaw, LoadStep::DecodeFrame] {
        assert_eq!(next_load_step(step, StepOutcome::Succeeded, "jpg"), NextStep::Return);
    }
}

#[test]
fn ffmpeg_is_found_run_and_decoded() {
    let next = |step, outcome| next_load_step(step, outcome, "heic");
    assert_eq!(
        next(LoadStep::FindFfmpeg, StepOutcome::Succeeded),
        NextStep::Try(LoadStep::RunFfmpeg)
    );
    assert_eq!(next(LoadStep::FindFfmpeg, StepOutcome::Failed), NextStep::GiveUp);
    assert_eq!(
        next(LoadStep::RunFfmpeg, StepOutcome::Succeeded),
        NextStep::Try(LoadStep::DecodeFrame)
    );
    assert_eq!(next(LoadStep::RunFfmpeg, StepOutcome::Failed), NextStep::GiveUp);
    assert_eq!(next(LoadStep::RunFfmpeg, StepOutcome::Errored), NextStep::Propagate);
    assert_eq!(next(LoadStep::DecodeFrame, StepOutcome::Errored), NextStep::Propagate);
}

#[test]
fn a_frame_is_decoded_from_its_bytes() {
    let mut png = Cursor::new(Vec::new());
    DynamicImage::new_rgb8(3, 2).write_to(&mut png, ImageFormat::Png).unwrap();
    let (img, next) = decode_frame(&png.into_inner(), "heic");
    let img = img.unwrap();
    assert_eq!((img.width(), img.height()), (3, 2));
    assert_eq!(next, NextStep::Return);
    let (img, next) = decode_frame(b"not an image", "heic");
    assert!(img.is_err());
    assert_eq!(next, NextStep::Propagate);
}

#[test]
fn raw_images_need_enough_bytes() {
    let img = raw_image(2, 1, vec![1, 2, 3, 4, 5, 6]).unwrap();
    assert_eq!((img.width(), img.height()), (2, 1));
    assert_eq!(img.to_rgb8().into_raw(), vec![1, 2, 3, 4, 5, 6]);
    let longer = raw_image(1, 1, vec![9; 10]).unwrap();
    assert_eq!(longer.to_rgb8().into_raw(), vec![9; 10]);
    assert_eq!(raw_image(2, 1, vec![0; 5]).unwrap_err(), RawImageError::BufferSize);
    assert_eq!(
        raw_image(u32::MAX as usize, u32::MAX as usize, vec![0; 5]).unwrap_err(),
        RawImageError::BufferSize
    );
    assert_eq!(raw_image(0, 7, vec![]).unwrap().width(), 0);
    // The bytes of a row are counted even where there are no rows.
    assert_eq!(
        raw_image(1_431_655_766, 0, vec![]).is_ok(),
        3 * 1_431_655_766u64 <= usize::MAX as u64
    );
    assert_eq!(raw_image((1usize << 32) + 2, 1, vec![0; 6]).unwrap().width(), 2);
}

#[test]
fn what_is_said_of_a_raw_file_without_enough_bytes() {
    assert_eq!(
        raw_image(2, 1, vec![0; 5]).unwrap_err().message(),
        "raw decode produced an unexpected buffer size"
    );
}

#[test]
fn what_is_said_of_an_undecodable_file() {
    assert_eq!(undecodable_message(Path::new("a/b.jpg")), "Could not decode image: a/b.jpg");
}

#[test]
fn ffmpeg_writes_one_png_to_its_output() {
    let words: Vec<&str> = ffmpeg_arguments()
        .iter()
        .map(|argument| match argument {
            FfmpegArgument::Input => "in.heic",
            FfmpegArgument::Word(word) => word,
        })
        .collect();
    assert_eq!(
        words,
        vec!["-i", "in.heic", "-vframes", "1", "-f", "image2pipe", "-vcodec", "png", "-"]
    );
}

#[test]
fn ffmpeg_is_looked_for_in_order() {
    let places = ffmpeg_places(Some(Path::new("/opt/app/viewer")), Some(Path::new("/work")));
    let expected: Vec<PathBuf> =
        ["/opt/app/ffmpeg.exe", "/opt/app/ffmpeg", "/work/ffmpeg.exe", "/work/ffmpeg"]
            .iter()
            .map(PathBuf::from)
            .collect();
    assert_eq!(places, expected);
    assert_eq!(ffmpeg_places(None, Some(Path::new("/work"))), expected[2..].to_vec());
    assert_eq!(ffmpeg_places(Some(Path::new("/")), None), Vec::<PathBuf>::new());

    let choose = |by_name, present: [bool; 4]| choose_ffmpeg(by_name, &places, &present);
    assert_eq!(choose(true, [true; 4]), Some(PathBuf::from("ffmpeg")));
    assert_eq!(choose(true, [false; 4]), Some(PathBuf::from("ffmpeg")));
    assert_eq!(choose(false, [false, true, true, true]), Some(PathBuf::from("/opt/app/ffmpeg")));
    assert_eq!(choose(false, [false, false, false, true]), Some(PathBuf::from("/work/ffmpeg")));
    assert_eq!(choose(false, [false; 4]), None);
}
