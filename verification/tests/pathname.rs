use std::path::Path;

use muscli::pathname::{file_name_of, file_stem_of, join_path, parent_of};

const SAMPLES: [&str; 37] = [
    "",
    "/",
    "//",
    ".",
    "..",
    "./",
    "./.",
    "a",
    "a/",
    "a//",
    "a/.",
    "a/./",
    "a/..",
    "/a",
    "/a/b.flac",
    "/a/b.c.flac",
    "/a/.hidden",
    "/a/.hidden.flac",
    "/a/b.",
    "/a/b..",
    "/a/...",
    "a/./b",
    "/music/Artist/01 Song.FLAC",
    "/music/a b/c d",
    "x/./.",
    "/.",
    "..a",
    "a..b",
    "./a",
    "././a",
    "../a",
    "//a",
    "/a/",
    "/a/./b/.",
    "a/b/",
    "a/./",
    "/./a",
];

#[test]
fn file_names_are_those_of_std() {
    for sample in SAMPLES {
        let expected = Path::new(sample).file_name().map(|n| n.to_string_lossy().into_owned());
        assert_eq!(file_name_of(sample), expected, "{sample:?}");
    }
}

#[test]
fn file_stems_are_those_of_std() {
    for sample in SAMPLES {
        let expected = Path::new(sample).file_stem().map(|n| n.to_string_lossy().into_owned());
        assert_eq!(file_stem_of(sample), expected, "{sample:?}");
    }
}

#[test]
fn joins_are_those_of_std() {
    for base in ["", "/", "/music", "/music/", "rel"] {
        for rel in ["a", "a/b", "/abs", ""] {
            let expected = Path::new(base).join(rel).to_string_lossy().into_owned();
            assert_eq!(join_path(base, rel), expected, "{base:?} {rel:?}");
        }
    }
}

#[test]
fn parents_are_those_of_std() {
    for sample in SAMPLES {
        let expected = Path::new(sample).parent().map(|n| n.to_string_lossy().into_owned());
        assert_eq!(parent_of(sample), expected, "{sample:?}");
    }
}
