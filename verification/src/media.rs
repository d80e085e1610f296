//! Which files are photos and videos, and where a video's thumbnail is kept.
use std::collections::hash_map::DefaultHasher;
use std::hash::{Hash, Hasher};
use std::path::{Path, PathBuf};

use vstd::prelude::*;
use vstd::std_specs::hash::*;
use vstd::string::*;
use vstd::utf8::*;

use crate::paths::{
    begins_like_server, extension, extension_of, extension_of_name, file_name_of, is_plain_name,
    join, joined, last_dot, path_of, path_text, to_string_lossy,
};
use crate::text::{
    ascii_lowercase, digit_char, hexadecimal, lemma_same_lowercase, lowercase, push_hexadecimal,
    small_letter, to_lowercase,
};

verus! {

/// The extensions of videos.
pub open spec fn video_extension(ext: Seq<char>) -> bool {
    ||| ext == "mp4"@
    ||| ext == "mkv"@
    ||| ext == "mov"@
    ||| ext == "webm"@
    ||| ext == "avi"@
    ||| ext == "m4v"@
}

/// The extensions of images.
pub open spec fn image_extension(ext: Seq<char>) -> bool {
    ||| ext == "jpg"@
    ||| ext == "jpeg"@
    ||| ext == "png"@
    ||| ext == "webp"@
    ||| ext == "avif"@
    ||| ext == "gif"@
    ||| ext == "heic"@
    ||| ext == "ithmb"@
    ||| ext == "tif"@
    ||| ext == "tiff"@
    ||| raw_extension(ext)
}

/// The extensions of camera RAW files.
pub open spec fn raw_extension(ext: Seq<char>) -> bool {
    ext == "nef"@ || ext == "cr2"@
}

/// An extension as it is compared: in lower case, empty where a file has none.
pub open spec fn compared_extension(ext: Option<Seq<char>>) -> Seq<char> {
    match ext {
        Some(e) => lowercase(e),
        None => Seq::empty(),
    }
}

/// A file of this name is taken for a video.
pub open spec fn video_name(name: Seq<char>) -> bool {
    extension_of_name(name) is Some && video_extension(lowercase(extension_of_name(name)->0))
}

/// A file of this name is taken for an image.
pub open spec fn image_name(name: Seq<char>) -> bool {
    extension_of_name(name) is Some && image_extension(lowercase(extension_of_name(name)->0))
}

/// A file at this path is taken for a video.
pub open spec fn video_path(path: &Path) -> bool {
    file_name_of(path) is Some && video_name(file_name_of(path)->0)
}

/// A file at this path is taken for an image.
pub open spec fn image_path(path: &Path) -> bool {
    file_name_of(path) is Some && image_name(file_name_of(path)->0)
}

/// Neither has an extension, or both have the same one, up to the case of ASCII
/// letters.
pub open spec fn same_extension(a: Option<Seq<char>>, b: Option<Seq<char>>) -> bool {
    match (a, b) {
        (Some(a), Some(b)) => ascii_lowercase(a) == ascii_lowercase(b),
        (None, None) => true,
        _ => false,
    }
}

/// Whether `text` is the given one.
pub(crate) fn is_text(text: &str, given: &str) -> (r: bool)
    ensures
        r == (text@ == given@),
{
    text.to_owned() == given.to_owned()
}

/// Whether a lower case extension is that of a video.
pub fn is_video_extension(ext: &str) -> (r: bool)
    ensures
        r == video_extension(ext@),
{
    is_text(ext, "mp4") || is_text(ext, "mkv") || is_text(ext, "mov") || is_text(ext, "webm")
        || is_text(ext, "avi") || is_text(ext, "m4v")
}

/// Whether a lower case extension is that of an image.
pub fn is_image_extension(ext: &str) -> (r: bool)
    ensures
        r == image_extension(ext@),
{
    is_text(ext, "jpg") || is_text(ext, "jpeg") || is_text(ext, "png") || is_text(ext, "webp")
        || is_text(ext, "avif") || is_text(ext, "gif") || is_text(ext, "heic") || is_text(
        ext,
        "ithmb",
    ) || is_text(ext, "tif") || is_text(ext, "tiff") || is_raw(ext)
}

/// Whether a lower case extension is that of a camera RAW file, which needs a
/// decoder of its own.
pub fn is_raw(ext: &str) -> (r: bool)
    ensures
        r == raw_extension(ext@),
{
    is_text(ext, "nef") || is_text(ext, "cr2")
}

/// The extension of a path in lower case, empty if it has none.
pub fn lowercase_extension(path: &Path) -> (ext: String)
    ensures
        ext@ == compared_extension(extension_of(path)),
{
    match extension(path) {
        Some(ext) => to_lowercase(ext.as_str()),
        None => String::new(),
    }
}

/// Whether a path is that of a video, by its extension.
pub fn is_video(path: &Path) -> (r: bool)
    ensures
        r == video_path(path),
{
    match extension(path) {
        Some(ext) => is_video_extension(to_lowercase(ext.as_str()).as_str()),
        None => false,
    }
}

/// Whether a path is that of an image, by its extension.
pub fn is_image(path: &Path) -> (r: bool)
    ensures
        r == image_path(path),
{
    match extension(path) {
        Some(ext) => is_image_extension(to_lowercase(ext.as_str()).as_str()),
        None => false,
    }
}

/// What the `Hash` of a text writes to a hasher.
pub uninterp spec fn hash_writes(text: Seq<char>) -> Seq<Seq<u8>>;

/// `str::hash` into a `DefaultHasher`: writes what [`hash_writes`] names, which
/// depends on the text alone, after what was written before.
#[verifier::external_body]
fn hash_text(text: &str, hasher: &mut DefaultHasher)
    ensures
        final(hasher)@ == old(hasher)@ + hash_writes(text@),
{
    text.hash(hasher);
}

/// The hash of a text by a `DefaultHasher` that begins afresh.
pub open spec fn text_hash(text: Seq<char>) -> u64 {
    DefaultHasher::spec_finish(hash_writes(text))
}

/// The file name of the thumbnail for the video whose path reads `text`.
pub open spec fn thumbnail_name(text: Seq<char>) -> Seq<char> {
    hexadecimal(text_hash(text) as nat) + ".jpg"@
}

/// The path `output/thumbnails/<name>` below a directory.
pub open spec fn thumbnail_in(dir: &Path, name: Seq<char>) -> PathBuf {
    joined(path_of(&joined(path_of(&joined(dir, "output"@)), "thumbnails"@)), name)
}

/// The file name of the thumbnail for a video whose path has this hash.
pub fn thumbnail_file_name(hash: u64) -> (name: String)
    ensures
        name@ == hexadecimal(hash as nat) + ".jpg"@,
{
    let mut name = String::new();
    push_hexadecimal(&mut name, hash);
    name.append(".jpg");
    assert(name@ =~= hexadecimal(hash as nat) + ".jpg"@);
    name
}

/// Where the thumbnail of a video is kept below the application's data
/// directory: a file named by the hash of the video's path.
pub fn get_video_thumbnail_path(app_data_dir: &Path, video_path: &Path) -> (path: PathBuf)
    ensures
        path == thumbnail_in(app_data_dir, thumbnail_name(path_text(video_path))),
        path == joined(
            path_of(&joined(path_of(&joined(app_data_dir, "output"@)), "thumbnails"@)),
            hexadecimal(DefaultHasher::spec_finish(hash_writes(path_text(video_path))) as nat)
                + ".jpg"@,
        ),
        file_name_of(path_of(&path)) == Some(thumbnail_name(path_text(video_path)))
            || file_name_of(path_of(&path)) is None,
        !begins_like_server(path_text(app_data_dir)) && path_text(app_data_dir) != "\\"@
            ==> file_name_of(path_of(&path)) == Some(thumbnail_name(path_text(video_path))),
{
    let text = to_string_lossy(video_path);
    let mut hasher = DefaultHasher::new();
    hash_text(text.as_str(), &mut hasher);
    assert(hasher@ =~= hash_writes(text@));
    let hash = hasher.finish();
    let name = thumbnail_file_name(hash);
    proof {
        lemma_thumbnail_name_plain(hash as nat);
        reveal_strlit("output");
        reveal_strlit("thumbnails");
    }
    let output = join(app_data_dir, "output");
    let thumbnails = join(output.as_path(), "thumbnails");
    join(thumbnails.as_path(), name.as_str())
}

/// A number in hexadecimal is made of the digits `0` to `9` and `a` to `f`, one
/// at least.
proof fn lemma_hexadecimal_digits(n: nat)
    ensures
        hexadecimal(n).len() > 0,
        forall|i: int|
            0 <= i < hexadecimal(n).len() ==> '0' <= #[trigger] hexadecimal(n)[i] <= '9' || 'a'
                <= hexadecimal(n)[i] <= 'f',
    decreases n,
{
    if n >= 16 {
        lemma_hexadecimal_digits(n / 16);
    }
}

/// A thumbnail's name is plain, and its extension is `jpg`.
proof fn lemma_thumbnail_name_plain(n: nat)
    ensures
        is_plain_name(hexadecimal(n) + ".jpg"@),
        extension_of_name(hexadecimal(n) + ".jpg"@) == Some("jpg"@),
{
    lemma_hexadecimal_digits(n);
    reveal_strlit(".jpg");
    reveal_strlit("jpg");
    let name = hexadecimal(n) + ".jpg"@;
    let k = hexadecimal(n).len() as int;
    reveal_with_fuel(last_dot, 5);
    assert(name.drop_last().drop_last().drop_last().last() == '.');
    assert(last_dot(name) == k);
    reveal_strlit("..");
    assert(name[0] != ".."@[0]);
    assert(name.skip(k + 1) =~= "jpg"@);
}

/// Two numbers with the same hexadecimal digits are the same.
proof fn lemma_hexadecimal_injective(a: nat, b: nat)
    requires
        hexadecimal(a) == hexadecimal(b),
    ensures
        a == b,
    decreases a,
{
    lemma_hexadecimal_digits(a / 16);
    lemma_hexadecimal_digits(b / 16);
    assert(hexadecimal(a).last() == digit_char((a % 16) as int));
    assert(hexadecimal(b).last() == digit_char((b % 16) as int));
    if a >= 16 {
        assert(hexadecimal(a).drop_last() =~= hexadecimal(a / 16));
        assert(hexadecimal(b).len() >= 2);
        assert(hexadecimal(b).drop_last() =~= hexadecimal(b / 16));
        lemma_hexadecimal_injective(a / 16, b / 16);
    }
}

/// A thumbnail's name tells its video's hash: two videos share a name exactly
/// when the hashes of their paths agree.
pub proof fn law_thumbnail_name_tells_hash(a: Seq<char>, b: Seq<char>)
    ensures
        thumbnail_name(a) == thumbnail_name(b) <==> text_hash(a) == text_hash(b),
{
    let (x, y) = (hexadecimal(text_hash(a) as nat), hexadecimal(text_hash(b) as nat));
    if x + ".jpg"@ == y + ".jpg"@ {
        assert((x + ".jpg"@).len() == (y + ".jpg"@).len());
        assert(x =~= (x + ".jpg"@).take(x.len() as int));
        assert(y =~= (y + ".jpg"@).take(x.len() as int));
        lemma_hexadecimal_injective(text_hash(a) as nat, text_hash(b) as nat);
    }
}

/// The thumbnail of a video is itself taken for an image, and not for a video.
pub proof fn law_thumbnail_is_image(text: Seq<char>)
    ensures
        image_name(thumbnail_name(text)),
        !video_name(thumbnail_name(text)),
{
    lemma_thumbnail_name_plain(text_hash(text) as nat);
    reveal_strlit("jpg");
    assert(is_ascii_chars("jpg"@));
    assert(ascii_lowercase("jpg"@) =~= "jpg"@);
    lemma_no_extension_is_both("jpg"@);
}

/// No file is taken for an image and a video at once.
pub proof fn law_no_file_is_both(name: Seq<char>)
    ensures
        !(image_name(name) && video_name(name)),
{
    if extension_of_name(name) is Some {
        lemma_no_extension_is_both(lowercase(extension_of_name(name)->0));
    }
}

/// No extension stands for an image and a video at once.
proof fn lemma_no_extension_is_both(ext: Seq<char>)
    ensures
        !(image_extension(ext) && video_extension(ext)),
{
    reveal_strlit("mp4");
    reveal_strlit("mkv");
    reveal_strlit("mov");
    reveal_strlit("webm");
    reveal_strlit("avi");
    reveal_strlit("m4v");
    reveal_strlit("jpg");
    reveal_strlit("jpeg");
    reveal_strlit("png");
    reveal_strlit("webp");
    reveal_strlit("avif");
    reveal_strlit("gif");
    reveal_strlit("heic");
    reveal_strlit("ithmb");
    reveal_strlit("tif");
    reveal_strlit("tiff");
    reveal_strlit("nef");
    reveal_strlit("cr2");
    if video_extension(ext) {
        assert(ext[0] == 'm' || (ext[0] == 'w' && ext.len() == 4 && ext[3] == 'm') || (ext[0] == 'a'
            && ext.len() == 3));
    }
}

/// Every camera RAW file is an image.
pub proof fn law_raw_is_image(path: &Path)
    ensures
        raw_extension(compared_extension(extension_of(path))) ==> image_path(path),
{
    reveal_strlit("nef");
    reveal_strlit("cr2");
    assert("nef"@.len() == 3 && "cr2"@.len() == 3);
}

/// Of a path only the extension tells what its file is taken for, and the case
/// of ASCII letters does not matter in it.
pub proof fn law_extension_decides(a: &Path, b: &Path)
    requires
        same_extension(extension_of(a), extension_of(b)),
    ensures
        video_path(a) == video_path(b),
        image_path(a) == image_path(b),
        compared_extension(extension_of(a)) == compared_extension(extension_of(b)),
{
    if extension_of(a) is Some {
        lemma_same_lowercase(extension_of(a)->0, extension_of(b)->0);
    }
}

/// The case of ASCII letters does not matter: names that differ in it alone have
/// the same extension, and are taken for the same kind of file.
pub proof fn law_case_is_ignored(a: Seq<char>, b: Seq<char>)
    requires
        ascii_lowercase(a) == ascii_lowercase(b),
    ensures
        same_extension(extension_of_name(a), extension_of_name(b)),
        video_name(a) == video_name(b),
        image_name(a) == image_name(b),
{
    lemma_same_dot(a, b);
    let (la, lb) = (ascii_lowercase(a), ascii_lowercase(b));
    assert(la.len() == a.len() && lb.len() == b.len());
    assert forall|i: int| 0 <= i < a.len() implies (#[trigger] a[i] == '.') == (b[i] == '.') by {
        assert(la[i] == small_letter(a[i]) && lb[i] == small_letter(b[i]));
    }
    reveal_strlit("..");
    if a == ".."@ || b == ".."@ {
        assert((a[0] == '.') == (b[0] == '.') && (a[1] == '.') == (b[1] == '.'));
        assert(a =~= b);
    }
    if last_dot(a) > 0 {
        let k = last_dot(a) + 1;
        let (ea, eb) = (a.skip(k), b.skip(k));
        assert(ascii_lowercase(ea) =~= la.skip(k));
        assert(ascii_lowercase(eb) =~= lb.skip(k));
        lemma_same_lowercase(ea, eb);
    }
}

/// Names that differ in the case of letters alone have their last dot in the
/// same place.
proof fn lemma_same_dot(a: Seq<char>, b: Seq<char>)
    requires
        ascii_lowercase(a) == ascii_lowercase(b),
    ensures
        last_dot(a) == last_dot(b),
        last_dot(a) < a.len(),
    decreases a.len(),
{
    assert(ascii_lowercase(a).len() == a.len());
    assert(ascii_lowercase(b).len() == b.len());
    if a.len() > 0 {
        assert(ascii_lowercase(a).last() == small_letter(a.last()));
        assert(ascii_lowercase(b).last() == small_letter(b.last()));
        assert(ascii_lowercase(a.drop_last()) =~= ascii_lowercase(a).drop_last());
        assert(ascii_lowercase(b.drop_last()) =~= ascii_lowercase(b).drop_last());
        lemma_same_dot(a.drop_last(), b.drop_last());
    }
}

/// A thumbnail is named by the hash of the whole text of its video's path: what
/// a fresh hasher gives after the text, every character of it and nothing else,
/// was written to it. So two videos share a name exactly when the hasher gives
/// the same for both texts.
pub proof fn law_thumbnail_is_named_by_the_whole_path(
    dir: &Path,
    text: Seq<char>,
    other: Seq<char>,
)
    ensures
        thumbnail_name(text) == hexadecimal(
            DefaultHasher::spec_finish(hash_writes(text)) as nat,
        ) + seq!['.', 'j', 'p', 'g'],
        thumbnail_in(dir, thumbnail_name(text)) == joined(
            path_of(&joined(path_of(&joined(dir, "output"@)), "thumbnails"@)),
            thumbnail_name(text),
        ),
        thumbnail_name(text) == thumbnail_name(other) <==> DefaultHasher::spec_finish(
            hash_writes(text),
        ) == DefaultHasher::spec_finish(hash_writes(other)),
{
    reveal_strlit(".jpg");
    assert(".jpg"@ =~= seq!['.', 'j', 'p', 'g']);
    law_thumbnail_name_tells_hash(text, other);
}

/// A file is taken for a video, an image or camera RAW by these extensions in
/// lower case, and by no others. A file without an extension is neither.
pub proof fn law_kinds_of_files(path: &Path, ext: Seq<char>)
    requires
        extension_of(path) matches Some(e) ==> ext == lowercase(e),
    ensures
        video_path(path) <==> extension_of(path) is Some && seq![
            "mp4"@,
            "mkv"@,
            "mov"@,
            "webm"@,
            "avi"@,
            "m4v"@,
        ].contains(ext),
        image_path(path) <==> extension_of(path) is Some && seq![
            "jpg"@,
            "jpeg"@,
            "png"@,
            "webp"@,
            "avif"@,
            "gif"@,
            "heic"@,
            "ithmb"@,
            "tif"@,
            "tiff"@,
            "nef"@,
            "cr2"@,
        ].contains(ext),
        raw_extension(ext) <==> seq!["nef"@, "cr2"@].contains(ext),
        extension_of(path) is Some ==> compared_extension(extension_of(path)) == ext,
        extension_of(path) is None ==> compared_extension(extension_of(path)).len() == 0,
{
    let videos = seq!["mp4"@, "mkv"@, "mov"@, "webm"@, "avi"@, "m4v"@];
    let images = seq![
        "jpg"@,
        "jpeg"@,
        "png"@,
        "webp"@,
        "avif"@,
        "gif"@,
        "heic"@,
        "ithmb"@,
        "tif"@,
        "tiff"@,
        "nef"@,
        "cr2"@,
    ];
    let raws = seq!["nef"@, "cr2"@];
    assert(videos[0] == "mp4"@ && videos[1] == "mkv"@ && videos[2] == "mov"@ && videos[3]
        == "webm"@ && videos[4] == "avi"@ && videos[5] == "m4v"@);
    assert(images[0] == "jpg"@ && images[1] == "jpeg"@ && images[2] == "png"@ && images[3]
        == "webp"@ && images[4] == "avif"@ && images[5] == "gif"@ && images[6] == "heic"@
        && images[7] == "ithmb"@ && images[8] == "tif"@ && images[9] == "tiff"@ && images[10]
        == "nef"@ && images[11] == "cr2"@);
    assert(raws[0] == "nef"@ && raws[1] == "cr2"@);
    assert(videos.contains(ext) <==> video_extension(ext));
    assert(images.contains(ext) <==> image_extension(ext));
}

/// The same holds of extensions by themselves: these are a video's, an image's.
pub proof fn law_kinds_of_extensions(ext: Seq<char>)
    ensures
        video_extension(ext) <==> seq![
            "mp4"@,
            "mkv"@,
            "mov"@,
            "webm"@,
            "avi"@,
            "m4v"@,
        ].contains(ext),
        image_extension(ext) <==> raw_extension(ext) || seq![
            "jpg"@,
            "jpeg"@,
            "png"@,
            "webp"@,
            "avif"@,
            "gif"@,
            "heic"@,
            "ithmb"@,
            "tif"@,
            "tiff"@,
        ].contains(ext),
{
    let videos = seq!["mp4"@, "mkv"@, "mov"@, "webm"@, "avi"@, "m4v"@];
    let images = seq![
        "jpg"@,
        "jpeg"@,
        "png"@,
        "webp"@,
        "avif"@,
        "gif"@,
        "heic"@,
        "ithmb"@,
        "tif"@,
        "tiff"@,
    ];
    assert(videos[0] == "mp4"@ && videos[1] == "mkv"@ && videos[2] == "mov"@ && videos[3]
        == "webm"@ && videos[4] == "avi"@ && videos[5] == "m4v"@);
    assert(images[0] == "jpg"@ && images[1] == "jpeg"@ && images[2] == "png"@ && images[3]
        == "webp"@ && images[4] == "avif"@ && images[5] == "gif"@ && images[6] == "heic"@
        && images[7] == "ithmb"@ && images[8] == "tif"@ && images[9] == "tiff"@);
}

} // verus!
