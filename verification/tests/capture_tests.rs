use metadata_similarity::capture::{
    ascii_field, capture_from_fields, time_and_camera, FieldValue,
};

const ASCII: u16 = 2;
const SHORT: u16 = 3;
const LONG: u16 = 4;

/// An entry of a directory: its tag, its type and its value.
struct Entry {
    tag: u16,
    kind: u16,
    value: Vec<u8>,
}

fn text(tag: u16, value: &str) -> Entry {
    let mut bytes = value.as_bytes().to_vec();
    bytes.push(0);
    Entry { tag, kind: ASCII, value: bytes }
}

/// Writes a directory at the end of `out`, its long values after it.
fn write_directory(out: &mut Vec<u8>, entries: &[Entry]) {
    let mut values: Vec<u8> = Vec::new();
    let values_at = out.len() + 2 + 12 * entries.len() + 4;
    out.extend_from_slice(&(entries.len() as u16).to_le_bytes());
    for entry in entries {
        let count = match entry.kind {
            SHORT => entry.value.len() / 2,
            LONG => entry.value.len() / 4,
            _ => entry.value.len(),
        };
        out.extend_from_slice(&entry.tag.to_le_bytes());
        out.extend_from_slice(&entry.kind.to_le_bytes());
        out.extend_from_slice(&(count as u32).to_le_bytes());
        if entry.value.len() <= 4 {
            let mut inline = entry.value.clone();
            inline.resize(4, 0);
            out.extend_from_slice(&inline);
        } else {
            out.extend_from_slice(&((values_at + values.len()) as u32).to_le_bytes());
            values.extend_from_slice(&entry.value);
        }
    }
    out.extend_from_slice(&0u32.to_le_bytes());
    out.extend_from_slice(&values);
}

/// The TIFF bytes of an EXIF block: fields of the image, then fields of the
/// capture.
fn tiff(image: Vec<Entry>, capture: Vec<Entry>) -> Vec<u8> {
    let mut child: Vec<u8> = vec![0x49, 0x49, 0x2a, 0x00, 8, 0, 0, 0];
    write_directory(&mut child, &capture);
    let child_at = child.len() as u32;
    let mut entries = image;
    if !capture.is_empty() {
        entries.push(Entry { tag: 0x8769, kind: LONG, value: 8u32.to_le_bytes().to_vec() });
    }
    let mut out = child;
    out[4..8].copy_from_slice(&child_at.to_le_bytes());
    write_directory(&mut out, &entries);
    out
}

const MODEL: u16 = 0x110;
const DATE_TIME: u16 = 0x132;
const DATE_TIME_ORIGINAL: u16 = 0x9003;

#[test]
fn the_original_date_comes_first() {
    let bytes = tiff(
        vec![text(MODEL, " Canon EOS 5D  "), text(DATE_TIME, "2020:01:01 00:00:00")],
        vec![text(DATE_TIME_ORIGINAL, "2016:05:04 03:02:01")],
    );
    let capture = time_and_camera(Some(&bytes), Some(77));
    assert_eq!(capture.secs, Some(1_462_330_921));
    assert_eq!(capture.camera, Some("Canon EOS 5D".to_string()));
}

#[test]
fn the_date_of_change_comes_next() {
    let bytes = tiff(vec![text(DATE_TIME, "2001:09:09 01:46:40")], vec![]);
    let capture = time_and_camera(Some(&bytes), Some(77));
    assert_eq!(capture.secs, Some(1_000_000_000));
    assert_eq!(capture.camera, None);
}

#[test]
fn an_unreadable_original_date_hides_the_date_of_change() {
    let bytes = tiff(
        vec![text(DATE_TIME, "2001:09:09 01:46:40")],
        vec![text(DATE_TIME_ORIGINAL, "    :  :     :  :  ")],
    );
    assert_eq!(time_and_camera(Some(&bytes), Some(77)).secs, Some(77));
    assert_eq!(time_and_camera(Some(&bytes), None).secs, None);
}

#[test]
fn the_modification_time_comes_last() {
    let capture = time_and_camera(None, Some(1_700_000_000));
    assert_eq!(capture.secs, Some(1_700_000_000));
    assert_eq!(capture.camera, None);
    assert_eq!(time_and_camera(None, None).secs, None);
    assert_eq!(time_and_camera(Some(b"no exif"), Some(5)).secs, Some(5));
    assert_eq!(time_and_camera(None, Some(u64::MAX)).secs, Some(-1));
}

#[test]
fn a_camera_is_known_without_a_date() {
    let bytes = tiff(vec![text(MODEL, "X100\u{a0}\n")], vec![]);
    let capture = time_and_camera(Some(&bytes), None);
    assert_eq!(capture.secs, None);
    assert_eq!(capture.camera, Some("X100".to_string()));
}

#[test]
fn fields_that_are_not_text_do_not_count() {
    let number = Entry { tag: MODEL, kind: SHORT, value: vec![1, 0] };
    let bytes = tiff(vec![number], vec![]);
    assert_eq!(time_and_camera(Some(&bytes), None).camera, None);
}

fn date(value: &str) -> Option<FieldValue> {
    Some(FieldValue::Ascii(vec![value.as_bytes().to_vec()]))
}

#[test]
fn dates_are_read_by_their_form() {
    let secs = |value: &str| capture_from_fields(date(value), None, None, None).secs;
    assert_eq!(secs("1970:01:01 00:00:00"), Some(0));
    assert_eq!(secs("1970:01:02 00:00:01"), Some(86401));
    assert_eq!(secs("1970:01:01 00:00:00 and more"), Some(0));
    // Numbers are not held to any range.
    assert_eq!(secs("0000:00:00 00:00:00"), Some(-62_169_984_000));
    assert_eq!(secs("1970:01:01 99:99:99"), Some(99 * 3600 + 99 * 60 + 99));
    assert_eq!(secs("1970-01-01 00:00:00"), None);
    assert_eq!(secs("1970:01:01T00:00:00"), None);
    assert_eq!(secs("1970:01:01 00:00:0"), None);
    assert_eq!(secs("197a:01:01 00:00:00"), None);
    assert_eq!(secs("                   "), None);
    assert_eq!(secs(""), None);
}

#[test]
fn the_first_string_is_the_text_of_a_field() {
    let field = FieldValue::Ascii(vec![b"one".to_vec(), b"two".to_vec()]);
    assert_eq!(ascii_field(&field), Some("one".to_string()));
    assert_eq!(ascii_field(&FieldValue::Ascii(vec![])), None);
    assert_eq!(ascii_field(&FieldValue::Other), None);
    let broken = FieldValue::Ascii(vec![vec![0x61, 0xff, 0x62]]);
    assert_eq!(ascii_field(&broken), Some("a\u{fffd}b".to_string()));
}

#[test]
fn cameras_are_trimmed_as_std_trims() {
    for name in ["  a b  ", "\t\r\n", "", "x", "\u{3000}x\u{2003}", "\u{200b}x", "\u{85}\u{1680}y\u{202f}"] {
        let capture = capture_from_fields(None, None, date(name), None);
        assert_eq!(capture.camera, Some(name.trim().to_string()));
    }
}

#[test]
fn white_space_is_that_of_std() {
    for code in 0u32..0x11000 {
        if let Some(c) = char::from_u32(code) {
            let name = format!("{}x", c);
            let capture = capture_from_fields(None, None, date(&name), None);
            assert_eq!(capture.camera, Some(name.trim().to_string()));
        }
    }
}
