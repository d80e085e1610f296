use std::collections::hash_map::DefaultHasher;
use std::hash::{Hash, Hasher};
use std::path::Path;

use metadata_similarity::media::{
    get_video_thumbnail_path, is_image, is_raw, is_video, lowercase_extension, thumbnail_file_name,
};
use metadata_similarity::paths::{extension, name_extension};

#[test]
fn videos_by_extension() {
    for ext in ["mp4", "mkv", "mov", "webm", "avi", "m4v"] {
        let name = format!("clip.{}", ext);
        assert!(is_video(Path::new(&name)));
        assert!(!is_image(Path::new(&name)));
    }
}

#[test]
fn images_by_extension() {
    for ext in [
        "jpg", "jpeg", "png", "webp", "avif", "gif", "heic", "ithmb", "tif", "tiff", "nef", "cr2",
    ] {
        let name = format!("dir.mp4/photo.{}", ext);
        assert!(is_image(Path::new(&name)));
        assert!(!is_video(Path::new(&name)));
    }
}

#[test]
fn the_case_of_an_extension_does_not_matter() {
    assert!(is_video(Path::new("CLIP.MP4")));
    assert!(is_video(Path::new("clip.WebM")));
    assert!(is_image(Path::new("IMG_0234.JpEg")));
    // The Kelvin sign is a capital k.
    assert!(is_video(Path::new("clip.m\u{212a}v")));
    assert_eq!(lowercase_extension(Path::new("a.CR2")), "cr2");
    assert_eq!(lowercase_extension(Path::new("a.\u{c4}")), "\u{e4}");
    assert_eq!(lowercase_extension(Path::new("a")), "");
}

#[test]
fn only_the_extension_decides() {
    for stem in ["\u{c4}rger", "a.mp4", "x y", "photos/\u{65e5}\u{672c}"] {
        for ext in ["jpg", "JPG", "nef", "NeF", "cR2"] {
            let name = format!("{}.{}", stem, ext);
            assert!(is_image(Path::new(&name)));
            assert!(!is_video(Path::new(&name)));
        }
        for ext in ["mkv", "MKV"] {
            assert!(is_video(Path::new(&format!("{}.{}", stem, ext))));
        }
    }
}

#[test]
fn the_case_of_ascii_letters_does_not_matter_beside_others() {
    for (a, b) in [
        ("a.\u{c9}x", "a.\u{c9}X"),
        ("a.m\u{212a}v", "a.M\u{212a}V"),
        // The small letter of a sigma depends on what stands beside it.
        ("a.x\u{3a3}", "a.X\u{3a3}"),
        ("a.x\u{3a3}x", "a.X\u{3a3}X"),
        ("a.\u{3a3}x", "a.\u{3a3}X"),
        ("a.\u{130}i", "a.\u{130}I"),
    ] {
        let (a, b) = (Path::new(a), Path::new(b));
        assert_eq!(lowercase_extension(a), lowercase_extension(b));
        assert_eq!(is_video(a), is_video(b));
        assert_eq!(is_image(a), is_image(b));
    }
    assert_eq!(lowercase_extension(Path::new("a.X\u{3a3}")), "x\u{3c2}");
    assert_eq!(lowercase_extension(Path::new("a.X\u{3a3}X")), "x\u{3c3}x");
}

#[test]
fn names_without_an_extension_are_neither() {
    for name in ["mp4", ".mp4", "jpg", ".jpg", "clip.", "..", "", "a.mp4/..", "a.txt", "a.mp4.txt"] {
        assert!(!is_video(Path::new(name)));
        assert!(!is_image(Path::new(name)));
    }
}

#[test]
fn extensions_are_those_of_std() {
    for name in [
        "a.b", "a.b.c", ".a", ".a.b", "a", "a.", "..a", "...", "", "x/.a", "x.y/a", "x.y/a.z/",
        "x/..", "\u{e9}.\u{fc}", "a b.c d", "/", "./a.b/.",
    ] {
        let expected =
            Path::new(name).extension().map(|ext| ext.to_string_lossy().to_string());
        assert_eq!(extension(Path::new(name)), expected);
    }
    assert_eq!(name_extension("IMG_0234.tar.gz"), Some("gz".to_string()));
    assert_eq!(name_extension("..a"), Some("a".to_string()));
    assert_eq!(name_extension(".a"), None);
    assert_eq!(name_extension(".."), None);
    assert_eq!(name_extension("..."), Some(String::new()));
    assert_eq!(name_extension("a."), Some(String::new()));
}

#[test]
fn raw_extensions() {
    assert!(is_raw("nef"));
    assert!(is_raw("cr2"));
    assert!(!is_raw("NEF"));
    assert!(!is_raw("heic"));
    assert!(!is_raw(""));
}

#[test]
fn a_thumbnail_is_named_by_the_hash_of_its_video() {
    let video = "/home/me/clip.mp4";
    let mut hasher = DefaultHasher::new();
    video.hash(&mut hasher);
    let expected =
        Path::new("/data").join("output").join("thumbnails").join(format!("{:x}.jpg", hasher.finish()));
    let path = get_video_thumbnail_path(Path::new("/data"), Path::new(video));
    assert_eq!(path, expected);
    assert_eq!(path.file_name(), expected.file_name());
    assert!(is_image(&path));
    assert!(!is_video(&path));
}

#[test]
fn thumbnails_of_different_videos_differ() {
    let dir = Path::new("/data");
    let a = get_video_thumbnail_path(dir, Path::new("a.mp4"));
    let b = get_video_thumbnail_path(dir, Path::new("b.mp4"));
    assert_ne!(a, b);
    assert_eq!(a, get_video_thumbnail_path(dir, Path::new("a.mp4")));
}

#[test]
fn hashes_are_written_in_hexadecimal() {
    assert_eq!(thumbnail_file_name(0), "0.jpg");
    assert_eq!(thumbnail_file_name(0xbeef), "beef.jpg");
    assert_eq!(thumbnail_file_name(0x0123_4567_89ab_cdef), "123456789abcdef.jpg");
    assert_eq!(thumbnail_file_name(u64::MAX), "ffffffffffffffff.jpg");
}
