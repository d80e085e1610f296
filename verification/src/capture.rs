//! When a photo was taken and with which camera, from its EXIF fields, or from
//! the time its file was last modified.
use vstd::prelude::*;
use vstd::string::*;
use vstd::utf8::*;

use crate::calendar::{civil_days, exif_datetime_to_secs, CivilDateTime};
use crate::text::{
    from_utf8_lossy, is_white_space, law_text_keeps_utf8, law_trimming_takes_white_space_off,
    lossy_text, text_with_replacements, trim, trimmed,
};

verus! {

/// The EXIF fields that are read.
#[derive(Clone, Copy, Debug, PartialEq, Eq, Structural)]
pub enum ExifTag {
    /// When the picture was taken.
    DateTimeOriginal,
    /// When the image was last changed.
    DateTime,
    /// The model of the camera.
    Model,
}

/// The value of an EXIF field.
#[derive(Debug)]
pub enum FieldValue {
    /// Strings of bytes, meant to be ASCII.
    Ascii(Vec<Vec<u8>>),
    /// A value of any other type.
    Other,
}

impl FieldValue {
    /// The strings of an ASCII value.
    pub open spec fn strings(self) -> Option<Seq<Seq<u8>>> {
        match self {
            FieldValue::Ascii(v) => Some(v@.map_values(|s: Vec<u8>| s@)),
            FieldValue::Other => None,
        }
    }
}

/// The strings of a field that may be missing.
pub open spec fn strings_of(field: Option<FieldValue>) -> Option<Option<Seq<Seq<u8>>>> {
    match field {
        Some(value) => Some(value.strings()),
        None => None,
    }
}

/// `exif::Exif`, the fields of a parsed EXIF block, opaque.
#[verifier::external_type_specification]
#[verifier::external_body]
pub struct ExExif(exif::Exif);

/// What `exif::Reader::read_raw` parses in the TIFF bytes of an EXIF block,
/// `None` where it fails.
pub uninterp spec fn parsed_exif(tiff: Seq<u8>) -> Option<exif::Exif>;

/// The fields of the primary image that an EXIF block holds: the strings of
/// ASCII values, `None` for values of other types.
pub uninterp spec fn primary_fields(exif: exif::Exif) -> Map<ExifTag, Option<Seq<Seq<u8>>>>;

/// `exif::Reader::read_raw` with the default options, named by [`parsed_exif`].
#[verifier::external_body]
fn read_raw(tiff: &[u8]) -> (exif: Option<exif::Exif>)
    ensures
        exif == parsed_exif(tiff@),
{
    exif::Reader::new().read_raw(tiff.to_vec()).ok()
}

/// `exif::Exif::get_field` for the primary image: the field of that tag among
/// [`primary_fields`], if it is there.
#[verifier::external_body]
fn get_field(exif: &exif::Exif, tag: ExifTag) -> (value: Option<FieldValue>)
    ensures
        value is Some <==> primary_fields(*exif).contains_key(tag),
        value is Some ==> value->0.strings() == primary_fields(*exif)[tag],
{
    let tag = match tag {
        ExifTag::DateTimeOriginal => exif::Tag::DateTimeOriginal,
        ExifTag::DateTime => exif::Tag::DateTime,
        ExifTag::Model => exif::Tag::Model,
    };
    exif.get_field(tag, exif::In::PRIMARY).map(|field| match &field.value {
        exif::Value::Ascii(strings) => FieldValue::Ascii(strings.clone()),
        _ => FieldValue::Other,
    })
}

/// A digit of ASCII.
pub open spec fn is_digit(b: u8) -> bool {
    0x30 <= b <= 0x39
}

/// The number in two digits that stand from `i` on.
pub open spec fn number_at(data: Seq<u8>, i: int) -> int {
    (data[i] - 0x30) * 10 + (data[i + 1] - 0x30)
}

/// The bytes begin with a date and time of the form `YYYY:MM:DD hh:mm:ss`.
pub open spec fn is_datetime(data: Seq<u8>) -> bool {
    &&& data.len() >= 19
    &&& data[4] == 0x3a && data[7] == 0x3a && data[13] == 0x3a && data[16] == 0x3a
    &&& data[10] == 0x20
    &&& forall|i: int|
        0 <= i < 19 && i != 4 && i != 7 && i != 10 && i != 13 && i != 16 ==> is_digit(
            #[trigger] data[i],
        )
}

/// The date and time that the bytes begin with.
pub open spec fn datetime_in(data: Seq<u8>) -> Option<CivilDateTime> {
    if is_datetime(data) {
        Some(
            CivilDateTime {
                year: (number_at(data, 0) * 100 + number_at(data, 2)) as u16,
                month: number_at(data, 5) as u8,
                day: number_at(data, 8) as u8,
                hour: number_at(data, 11) as u8,
                minute: number_at(data, 14) as u8,
                second: number_at(data, 17) as u8,
            },
        )
    } else {
        None
    }
}

/// `exif::DateTime::from_ascii`: reads the six numbers of
/// `YYYY:MM:DD hh:mm:ss`, whatever their ranges and whatever follows them, and
/// fails on any other form, a blank one too.
#[verifier::external_body]
fn from_ascii(data: &[u8]) -> (dt: Option<CivilDateTime>)
    ensures
        dt == datetime_in(data@),
{
    exif::DateTime::from_ascii(data).ok().map(|dt| CivilDateTime {
        year: dt.year,
        month: dt.month,
        day: dt.day,
        hour: dt.hour,
        minute: dt.minute,
        second: dt.second,
    })
}

/// The text of a field: the first string of an ASCII value.
pub open spec fn field_text(field: Option<Option<Seq<Seq<u8>>>>) -> Option<Seq<char>> {
    match field {
        Some(Some(strings)) if strings.len() > 0 => Some(lossy_text(strings[0])),
        _ => None,
    }
}

/// The time in the text of a date field, in seconds.
pub open spec fn field_secs(field: Option<Option<Seq<Seq<u8>>>>) -> Option<int> {
    match field_text(field) {
        Some(text) => match datetime_in(encode_utf8(text)) {
            Some(dt) => Some(dt.secs()),
            None => None,
        },
        None => None,
    }
}

/// When a photo was taken: by its original date, by its date of change where it
/// has no original date, or else when its file was last modified.
pub open spec fn capture_secs(
    original: Option<Option<Seq<Seq<u8>>>>,
    changed: Option<Option<Seq<Seq<u8>>>>,
    mtime_secs: Option<u64>,
) -> Option<int> {
    let field = if original is Some { original } else { changed };
    match field_secs(field) {
        Some(secs) => Some(secs),
        None => match mtime_secs {
            Some(secs) => Some((secs as i64) as int),
            None => None,
        },
    }
}

/// The camera that a photo was taken with.
pub open spec fn capture_camera(model: Option<Option<Seq<Seq<u8>>>>) -> Option<Seq<char>> {
    match field_text(model) {
        Some(text) => Some(trimmed(text)),
        None => None,
    }
}

/// The field of a tag in an EXIF block that may be missing or not parse.
pub open spec fn field_in(tiff: Option<Seq<u8>>, tag: ExifTag) -> Option<Option<Seq<Seq<u8>>>> {
    match tiff {
        Some(bytes) => match parsed_exif(bytes) {
            Some(exif) if primary_fields(exif).contains_key(tag) => Some(primary_fields(exif)[tag]),
            _ => None,
        },
        None => None,
    }
}

/// What is known of how a photo was taken.
#[derive(Debug)]
pub struct Capture {
    /// The time, in seconds from 1970-01-01 00:00:00.
    pub secs: Option<i64>,
    /// The camera's model.
    pub camera: Option<String>,
}

impl Capture {
    /// The time as a number.
    pub open spec fn time(self) -> Option<int> {
        match self.secs {
            Some(secs) => Some(secs as int),
            None => None,
        }
    }

    /// The camera's model as text.
    pub open spec fn model(self) -> Option<Seq<char>> {
        match self.camera {
            Some(camera) => Some(camera@),
            None => None,
        }
    }
}

/// The text of a field: the first string of an ASCII value, if it has one.
pub fn ascii_field(value: &FieldValue) -> (text: Option<String>)
    ensures
        text is Some <==> field_text(Some(value.strings())) is Some,
        text is Some ==> text->0@ == field_text(Some(value.strings()))->0,
{
    match value {
        FieldValue::Ascii(strings) if strings.len() > 0 => {
            Some(from_utf8_lossy(strings[0].as_slice()))
        },
        _ => None,
    }
}

/// The time in a date field, in seconds.
fn secs_of_field(value: &FieldValue) -> (secs: Option<i64>)
    ensures
        secs is Some <==> field_secs(Some(value.strings())) is Some,
        secs is Some ==> secs->0 == field_secs(Some(value.strings()))->0,
{
    match ascii_field(value) {
        Some(text) => match from_ascii(text.as_str().as_bytes()) {
            Some(dt) => Some(exif_datetime_to_secs(&dt)),
            None => None,
        },
        None => None,
    }
}

/// When and with which camera a photo was taken, from the values of its EXIF
/// fields and the time its file was last modified.
pub fn capture_from_fields(
    original: Option<FieldValue>,
    changed: Option<FieldValue>,
    model: Option<FieldValue>,
    mtime_secs: Option<u64>,
) -> (capture: Capture)
    ensures
        capture.time() == capture_secs(strings_of(original), strings_of(changed), mtime_secs),
        capture.model() == capture_camera(strings_of(model)),
{
    let field = match original {
        Some(value) => Some(value),
        None => changed,
    };
    let exif_secs = match &field {
        Some(value) => secs_of_field(value),
        None => None,
    };
    let secs = match exif_secs {
        Some(secs) => Some(secs),
        None => match mtime_secs {
            Some(secs) => Some(secs as i64),
            None => None,
        },
    };
    let camera = match &model {
        Some(value) => match ascii_field(value) {
            Some(text) => Some(trim(text.as_str())),
            None => None,
        },
        None => None,
    };
    Capture { secs, camera }
}

/// When and with which camera a photo was taken: from the TIFF bytes of its
/// EXIF block, if it has one, and the time its file was last modified, in
/// seconds, if that is known.
///
/// EXIF times are naive local time and modification times are UTC, so a
/// distance between one of each can be off by a time zone.
pub fn time_and_camera(tiff: Option<&[u8]>, mtime_secs: Option<u64>) -> (capture: Capture)
    ensures
        ({
            let bytes = match tiff {
                Some(tiff) => Some(tiff@),
                None => None,
            };
            &&& capture.time() == capture_secs(
                field_in(bytes, ExifTag::DateTimeOriginal),
                field_in(bytes, ExifTag::DateTime),
                mtime_secs,
            )
            &&& capture.model() == capture_camera(field_in(bytes, ExifTag::Model))
        }),
{
    let exif = match tiff {
        Some(tiff) => read_raw(tiff),
        None => None,
    };
    match exif {
        Some(exif) => capture_from_fields(
            get_field(&exif, ExifTag::DateTimeOriginal),
            get_field(&exif, ExifTag::DateTime),
            get_field(&exif, ExifTag::Model),
            mtime_secs,
        ),
        None => capture_from_fields(None, None, None, mtime_secs),
    }
}

/// A time in the EXIF fields wins over the file's modification time, whatever
/// that is.
pub proof fn law_exif_time_is_preferred(
    original: Option<Option<Seq<Seq<u8>>>>,
    changed: Option<Option<Seq<Seq<u8>>>>,
    mtime_secs: Option<u64>,
)
    requires
        capture_secs(original, changed, None) is Some,
    ensures
        capture_secs(original, changed, mtime_secs) == capture_secs(original, changed, None),
{
}

/// A file whose modification time is known has a time, with or without EXIF.
pub proof fn law_modification_time_suffices(
    original: Option<Option<Seq<Seq<u8>>>>,
    changed: Option<Option<Seq<Seq<u8>>>>,
    mtime_secs: u64,
)
    ensures
        capture_secs(original, changed, Some(mtime_secs)) is Some,
{
}

/// A camera's name neither begins nor ends with white space.
pub proof fn law_camera_is_trimmed(model: Option<Option<Seq<Seq<u8>>>>)
    requires
        capture_camera(model) is Some,
    ensures
        ({
            let camera = capture_camera(model)->0;
            camera.len() > 0 ==> !is_white_space(camera.first()) && !is_white_space(camera.last())
        }),
{
    lemma_trimmed_ends(field_text(model)->0);
}

/// What is trimmed has no white space at its ends.
proof fn lemma_trimmed_ends(s: Seq<char>)
    ensures
        trimmed(s).len() > 0 ==> !is_white_space(trimmed(s).first()) && !is_white_space(
            trimmed(s).last(),
        ),
    decreases s.len(),
{
    if s.len() > 0 && is_white_space(s.first()) {
        lemma_trimmed_ends(s.drop_first());
    } else if s.len() > 0 && is_white_space(s.last()) {
        lemma_trimmed_ends(s.drop_last());
    }
}

/// A date field tells its moment. Where its first string, as text, begins with
/// `YYYY:MM:DD hh:mm:ss`, the photo was taken so many days after 1970-01-01, and
/// so many hours, minutes and seconds later, whatever the hour. The field is the
/// original date, or the date of change of a photo without an original date.
pub proof fn law_date_field_gives_its_moment(
    original: Option<Option<Seq<Seq<u8>>>>,
    changed: Option<Option<Seq<Seq<u8>>>>,
    mtime_secs: Option<u64>,
    strings: Seq<Seq<u8>>,
    data: Seq<u8>,
)
    requires
        original == Some(Some(strings)) || (original is None && changed == Some(Some(strings))),
        strings.len() > 0,
        data == if valid_utf8(strings[0]) {
            strings[0]
        } else {
            encode_utf8(text_with_replacements(strings[0]))
        },
        data.len() >= 19,
        data[4] == ':' as u8 && data[7] == ':' as u8 && data[10] == ' ' as u8 && data[13]
            == ':' as u8 && data[16] == ':' as u8,
        forall|i: int|
            0 <= i < 19 && i != 4 && i != 7 && i != 10 && i != 13 && i != 16 ==> '0' as u8
                <= #[trigger] data[i] <= '9' as u8,
    ensures
        capture_secs(original, changed, mtime_secs) == Some(
            civil_days(
                (data[0] - 48) * 1000 + (data[1] - 48) * 100 + (data[2] - 48) * 10 + (data[3] - 48),
                (data[5] - 48) * 10 + (data[6] - 48),
                (data[8] - 48) * 10 + (data[9] - 48),
            ) * 86400 + ((data[11] - 48) * 10 + (data[12] - 48)) * 3600 + ((data[14] - 48) * 10 + (
            data[15] - 48)) * 60 + (data[17] - 48) * 10 + (data[18] - 48),
        ),
{
    law_text_keeps_utf8(strings[0]);
    assert(is_digit(data[0]) && is_digit(data[1]) && is_digit(data[2]) && is_digit(data[3]));
    assert(is_digit(data[5]) && is_digit(data[6]) && is_digit(data[8]) && is_digit(data[9]));
    assert(is_digit(data[11]) && is_digit(data[12]) && is_digit(data[14]) && is_digit(data[15]));
    assert(is_digit(data[17]) && is_digit(data[18]));
    assert(is_datetime(data));
}

/// Without such a text the modification time is taken, modulo 2^64 where it
/// does not fit: where there is no date field, or the one that counts has no
/// string or begins otherwise. A date of change does not help a photo that has an
/// original date.
pub proof fn law_other_photos_go_by_their_files(
    original: Option<Option<Seq<Seq<u8>>>>,
    changed: Option<Option<Seq<Seq<u8>>>>,
    mtime_secs: Option<u64>,
    data: Seq<u8>,
)
    requires
        ({
            let field = if original is Some { original } else { changed };
            ||| field is None
            ||| field->0 is None
            ||| field->0->0.len() == 0
            ||| {
                let bytes = field->0->0[0];
                &&& data == if valid_utf8(bytes) {
                    bytes
                } else {
                    encode_utf8(text_with_replacements(bytes))
                }
                &&& data.len() < 19 || exists|i: int|
                    0 <= i < 19 && if i == 4 || i == 7 || i == 13 || i == 16 {
                        #[trigger] data[i] != ':' as u8
                    } else if i == 10 {
                        data[i] != ' ' as u8
                    } else {
                        data[i] < '0' as u8 || data[i] > '9' as u8
                    }
            }
        }),
    ensures
        mtime_secs is None ==> capture_secs(original, changed, mtime_secs) is None,
        mtime_secs matches Some(secs) ==> capture_secs(original, changed, mtime_secs) == Some(
            if secs <= i64::MAX {
                secs as int
            } else {
                secs - 0x1_0000_0000_0000_0000
            },
        ),
{
    let field = if original is Some { original } else { changed };
    if field is Some && field->0 is Some && field->0->0.len() > 0 {
        law_text_keeps_utf8(field->0->0[0]);
        assert(!is_datetime(data));
    }
    if let Some(secs) = mtime_secs {
        if secs <= i64::MAX {
            assert(secs as i64 == secs) by (bit_vector)
                requires
                    secs <= 0x7fff_ffff_ffff_ffffu64,
            ;
        } else {
            assert(secs as i64 == secs - 0x1_0000_0000_0000_0000) by (bit_vector)
                requires
                    secs > 0x7fff_ffff_ffff_ffffu64,
            ;
        }
    }
}

/// The camera is the text of the model field's first string but for white space
/// around it: the part of it from the first number returned up to the second. A
/// field without a string, or none, tells no camera.
pub proof fn law_camera_is_in_the_model_field(
    model: Option<Option<Seq<Seq<u8>>>>,
    text: Seq<char>,
) -> (part: (int, int))
    requires
        model is Some && model->0 is Some && model->0->0.len() > 0 ==> text == if valid_utf8(
            model->0->0[0],
        ) {
            decode_utf8(model->0->0[0])
        } else {
            text_with_replacements(model->0->0[0])
        },
    ensures
        capture_camera(model) is Some <==> model is Some && model->0 is Some && model->0->0.len()
            > 0,
        capture_camera(model) is Some ==> {
            &&& 0 <= part.0 <= part.1 <= text.len()
            &&& capture_camera(model)->0 == text.subrange(part.0, part.1)
            &&& forall|i: int|
                0 <= i < part.0 || part.1 <= i < text.len() ==> is_white_space(#[trigger] text[i])
            &&& part.0 < part.1 ==> !is_white_space(text[part.0]) && !is_white_space(
                text[part.1 - 1],
            )
        },
{
    law_trimming_takes_white_space_off(text)
}

/// A field is there exactly when the EXIF block is, parses and has the field.
pub proof fn law_fields_come_of_the_block(tiff: Seq<u8>, tag: ExifTag)
    ensures
        field_in(None, tag) is None,
        parsed_exif(tiff) is None ==> field_in(Some(tiff), tag) is None,
        parsed_exif(tiff) matches Some(exif) ==> {
            &&& field_in(Some(tiff), tag) is Some <==> primary_fields(exif).contains_key(tag)
            &&& field_in(Some(tiff), tag) is Some ==> field_in(Some(tiff), tag)->0
                == primary_fields(exif)[tag]
        },
{
}

/// Contracts speak of a capture by its own time and camera, and of a field by
/// its own strings.
pub proof fn law_captures_and_fields_are_taken_as_they_are(
    capture: Capture,
    field: Option<FieldValue>,
    i: int,
)
    ensures
        capture.time() is Some <==> capture.secs is Some,
        capture.secs is Some ==> capture.time()->0 == capture.secs->0,
        capture.model() is Some <==> capture.camera is Some,
        capture.camera is Some ==> capture.model()->0 == capture.camera->0@,
        strings_of(field) is Some <==> field is Some,
        field matches Some(value) ==> strings_of(field) == Some(value.strings()),
        field matches Some(FieldValue::Other) ==> strings_of(field) == Some(None::<Seq<Seq<u8>>>),
        field matches Some(FieldValue::Ascii(v)) ==> {
            &&& strings_of(field)->0 is Some
            &&& strings_of(field)->0->0.len() == v@.len()
            &&& 0 <= i < v@.len() ==> strings_of(field)->0->0[i] == v@[i]@
        },
{
}

/// The text of a field is all of its first string, decoded where it is UTF-8,
/// and there is one exactly where the field has a string.
pub proof fn law_field_text_is_the_first_string(strings: Seq<Seq<u8>>)
    ensures
        field_text(None) is None,
        field_text(Some(None)) is None,
        field_text(Some(Some(strings))) is Some <==> strings.len() > 0,
        strings.len() > 0 && valid_utf8(strings[0]) ==> field_text(Some(Some(strings))) == Some(
            decode_utf8(strings[0]),
        ),
        strings.len() > 0 && !valid_utf8(strings[0]) ==> field_text(Some(Some(strings))) == Some(
            text_with_replacements(strings[0]),
        ),
{
}

} // verus!
