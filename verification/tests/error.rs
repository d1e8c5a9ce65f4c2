use svg_sheet::error::AppError;

#[test]
fn display_read_write_errors() {
    let e = AppError::ReadDir {
        path: "/x".into(),
        source: std::io::Error::other("boom"),
    };
    let s = e.message();
    assert!(s.contains("failed to read directory"));

    let e = AppError::ReadFile {
        path: "f.svg".into(),
        source: std::io::Error::other("boom"),
    };
    let s = e.message();
    assert!(s.contains("failed to read file"));

    let e = AppError::WriteFile {
        path: "out.svg".into(),
        source: std::io::Error::other("boom"),
    };
    let s = e.message();
    assert!(s.contains("failed to write file"));
}

#[test]
fn display_parse_and_no_svg() {
    let e = AppError::ParseSvg {
        path: "p.svg".into(),
        message: "bad".into(),
    };
    let s = e.message();
    assert!(s.contains("failed to parse svg"));

    let e = AppError::NoSvgFiles { path: "dir".into() };
    let s = e.message();
    assert!(s.contains("no SVG files"));
}

#[test]
fn display_id_related() {
    let e = AppError::IdCollision {
        id: "dup".into(),
        first_path: "a".into(),
        second_path: "b".into(),
    };
    assert!(e.message().contains("duplicate id"));

    let e = AppError::RootIdReferenced {
        path: "p.svg".into(),
        id: "root".into(),
    };
    assert!(e.message().contains("root <svg> id"));

    let e = AppError::InvalidIdAfterSanitize {
        path: "p.svg".into(),
        original: "💥".into(),
    };
    assert!(e.message().contains("empty after sanitization"));
}

#[test]
fn display_invalid_attrs_and_warnings() {
    let e = AppError::InvalidDimension {
        path: "p.svg".into(),
        attr: "width".into(),
        value: "0".into(),
    };
    assert!(e.message().contains("invalid width='0'"));

    let e = AppError::InvalidViewBox {
        path: "p.svg".into(),
        value: "0 0 0 0".into(),
    };
    assert!(e.message().contains("invalid viewBox"));

    let e = AppError::WarningsPresent { count: 3 };
    assert!(e.message().contains("aborting due to 3 warning(s)"));
}

#[test]
fn messages_are_exact() {
    let e = AppError::ReadDir {
        path: "/x".into(),
        source: std::io::Error::other("boom"),
    };
    assert_eq!(e.message(), "failed to read directory: /x");
    let e = AppError::ReadFile {
        path: "f.svg".into(),
        source: std::io::Error::other("boom"),
    };
    assert_eq!(e.message(), "failed to read file: f.svg");
    let e = AppError::WriteFile {
        path: "out.svg".into(),
        source: std::io::Error::other("boom"),
    };
    assert_eq!(e.message(), "failed to write file: out.svg");
    let e = AppError::ParseSvg {
        path: "p.svg".into(),
        message: "bad".into(),
    };
    assert_eq!(e.message(), "failed to parse svg (p.svg): bad");
    let e = AppError::NoSvgFiles { path: "dir".into() };
    assert_eq!(e.message(), "no SVG files found in directory: dir");
    let e = AppError::IdCollision {
        id: "dup".into(),
        first_path: "a".into(),
        second_path: "b".into(),
    };
    assert_eq!(
        e.message(),
        "duplicate id 'dup' found in b; already defined in a"
    );
    let e = AppError::RootIdReferenced {
        path: "p.svg".into(),
        id: "root".into(),
    };
    assert_eq!(
        e.message(),
        "root <svg> id 'root' in p.svg is referenced inside the document; root ids are moved to data-id"
    );
    let e = AppError::InvalidIdAfterSanitize {
        path: "p.svg".into(),
        original: "123".into(),
    };
    assert_eq!(e.message(), "id '123' in p.svg is empty after sanitization");
    let e = AppError::InvalidDimension {
        path: "p.svg".into(),
        attr: "height".into(),
        value: "-1".into(),
    };
    assert_eq!(
        e.message(),
        "invalid height='-1' in p.svg; expected positive number (optionally 'px')"
    );
    let e = AppError::InvalidViewBox {
        path: "p.svg".into(),
        value: "0 0 0 0".into(),
    };
    assert_eq!(
        e.message(),
        "invalid viewBox='0 0 0 0' in p.svg; expected four numbers with positive width/height"
    );
}

#[test]
fn warning_counts_are_written_in_decimal() {
    for (count, text) in [(0usize, "0"), (7, "7"), (10, "10"), (305, "305"), (1234567890, "1234567890")] {
        let e = AppError::WarningsPresent { count };
        assert_eq!(
            e.message(),
            format!("aborting due to {text} warning(s) (use --no-fail-on-warn to ignore)")
        );
    }
}

#[test]
fn source_is_kept_for_read_and_write_errors_only() {
    let e = AppError::ReadDir {
        path: "/x".into(),
        source: std::io::Error::other("boom"),
    };
    assert_eq!(e.source().map(|s| s.to_string()), Some("boom".to_string()));
    let e = AppError::ReadFile {
        path: "/x".into(),
        source: std::io::Error::other("bang"),
    };
    assert_eq!(e.source().map(|s| s.to_string()), Some("bang".to_string()));
    let e = AppError::WriteFile {
        path: "/x".into(),
        source: std::io::Error::other("bump"),
    };
    assert_eq!(e.source().map(|s| s.to_string()), Some("bump".to_string()));
    let e = AppError::NoSvgFiles { path: "dir".into() };
    assert!(e.source().is_none());
    let e = AppError::WarningsPresent { count: 1 };
    assert!(e.source().is_none());
}
