# metadata_similarity

Ranks photos by how likely they are to show a person whose face could not be
seen, by their nearness in time to photos of that person that are confirmed, by
camera and by color.

- `src/` is the library, verified with Verus: the calendar, the reading of
  capture times and cameras from EXIF blocks, the matching of candidates with the
  nearest confirmed photos, the ranking, color palettes, which files are photos
  and videos, and the steps of decoding an image.
- `tests/` runs it on concrete values.
- `app/` reads files, runs ffmpeg, spreads work over threads and computes scores
  in floating point.

Calls into the `exif` and `image` crates, and the few functions of the standard
library that Verus has no specification for, stand behind items marked as
trusted, each with a comment on what is taken for granted of it.
