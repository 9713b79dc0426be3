use crate_version_parse::CrateVersion;
use crate_version_parse::Error;

#[test]
fn parse() {
    let tests = &[
        (
            "zstd-sys-1.4.15+zstd.1.4.4",
            CrateVersion {
                name: "zstd-sys",
                version: "1.4.15+zstd.1.4.4",
            },
        ),
        (
            "winapi-i686-pc-windows-gnu-0.4.0",
            CrateVersion {
                name: "winapi-i686-pc-windows-gnu",
                version: "0.4.0",
            },
        ),
        (
            "wasi-0.9.0+wasi-snapshot-preview1",
            CrateVersion {
                name: "wasi",
                version: "0.9.0+wasi-snapshot-preview1",
            },
        ),
        (
            "ppv-lite86-0.2.5",
            CrateVersion {
                name: "ppv-lite86",
                version: "0.2.5",
            },
        ),
        (
            "log-0.4.8",
            CrateVersion {
                name: "log",
                version: "0.4.8",
            },
        ),
    ];

    for (input, expected) in tests {
        let crate_ = CrateVersion::try_parse(input).unwrap();
        assert_eq!(crate_, *expected);
    }
}

#[test]
fn degenerate_no_boundary() {
    // No hyphen-digit boundary at all: the split point falls back to 0, the
    // name comes back empty, and the version loses the input's first char.
    let crate_ = CrateVersion::try_parse("noversionhere").unwrap();
    assert_eq!(crate_.name, "");
    assert_eq!(crate_.version, "oversionhere");
}

#[test]
fn single_character_input() {
    let crate_ = CrateVersion::try_parse("x").unwrap();
    assert_eq!(crate_.name, "");
    assert_eq!(crate_.version, "");
}

#[test]
fn empty_input_is_missing_version() {
    let err = CrateVersion::try_parse("").unwrap_err();
    assert!(matches!(err, Error::MissingVersion { pos } if pos == 1));
}

#[test]
fn rightmost_boundary_wins() {
    // Two hyphen-digit boundaries: the one closest to the end is chosen.
    let crate_ = CrateVersion::try_parse("foo-1-2").unwrap();
    assert_eq!(crate_.name, "foo-1");
    assert_eq!(crate_.version, "2");

    let crate_ = CrateVersion::try_parse("serde-json-1.0.0-alpha-2").unwrap();
    assert_eq!(crate_.name, "serde-json-1.0.0-alpha");
    assert_eq!(crate_.version, "2");
}

#[test]
fn hyphenated_names_not_missplit() {
    // Digit-bearing tokens such as `i686` or `lite86` are not preceded by a
    // hyphen-digit pattern, so they never attract the split.
    let crate_ = CrateVersion::try_parse("winapi-i686-pc-windows-gnu-0.4.0").unwrap();
    assert_eq!(crate_.name, "winapi-i686-pc-windows-gnu");
    assert_eq!(crate_.version, "0.4.0");

    let crate_ = CrateVersion::try_parse("ppv-lite86-0.2.5").unwrap();
    assert_eq!(crate_.name, "ppv-lite86");
    assert_eq!(crate_.version, "0.2.5");
}

#[test]
fn multibyte_name_splits_cleanly() {
    // Offset arithmetic is done in characters, so a multi-byte character in
    // the name never shifts or corrupts the split.
    let crate_ = CrateVersion::try_parse("h\u{e9}llo-1.0").unwrap();
    assert_eq!(crate_.name, "h\u{e9}llo");
    assert_eq!(crate_.version, "1.0");
}

#[test]
fn reassembly_round_trip() {
    let inputs = &[
        "zstd-sys-1.4.15+zstd.1.4.4",
        "winapi-i686-pc-windows-gnu-0.4.0",
        "wasi-0.9.0+wasi-snapshot-preview1",
        "ppv-lite86-0.2.5",
        "log-0.4.8",
        "foo-1-2",
    ];
    for input in inputs {
        let crate_ = CrateVersion::try_parse(input).unwrap();
        let glued = format!("{}-{}", crate_.name, crate_.version);
        assert_eq!(&glued, input);
    }
}

#[test]
fn parse_is_deterministic() {
    let inputs = &["log-0.4.8", "noversionhere", "x", ""];
    for input in inputs {
        let first = CrateVersion::try_parse(input);
        let second = CrateVersion::try_parse(input);
        match (first, second) {
            (Ok(a), Ok(b)) => assert_eq!(a, b),
            (Err(Error::MissingVersion { pos: a }), Err(Error::MissingVersion { pos: b })) => {
                assert_eq!(a, b)
            }
            _ => panic!("results for {:?} disagree", input),
        }
    }
}

#[test]
fn error_messages() {
    let err = Error::MissingName { pos: 123 };
    assert_eq!(err.message(), "missing name at approx: 123");

    let err = Error::MissingVersion { pos: 0 };
    assert_eq!(err.message(), "missing version at approx: 0");

    let err = CrateVersion::try_parse("").unwrap_err();
    assert_eq!(err.message(), "missing version at approx: 1");
}
