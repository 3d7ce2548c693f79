use ida_mcp::number::{hex_address, number_text, parse_address};
use ida_mcp::path::{
    path_components, path_extension, path_file_name, path_has_extension, path_join, path_parent,
    path_with_extension, paths_equal, PathStyle,
};
use ida_mcp::text::{contains_text, eq_ignoring_case, is_whitespace, trim_padding};
use std::path::{Path, MAIN_SEPARATOR};

fn native() -> PathStyle {
    if MAIN_SEPARATOR == '\\' {
        PathStyle::Windows
    } else {
        PathStyle::Unix
    }
}

#[test]
fn white_space_is_what_std_takes_for_it() {
    for code in 0..=0x10ffffu32 {
        if let Some(c) = char::from_u32(code) {
            assert_eq!(is_whitespace(c), c.is_whitespace(), "{code:#x}");
        }
    }
}

const PATHS: [&str; 40] = [
    "",
    "/",
    "//",
    ".",
    "..",
    "./",
    "../",
    "/..",
    "/.",
    "a",
    "a/",
    "a//",
    "a/.",
    "a/./",
    "a/..",
    "a/../",
    "./a",
    "../a",
    "/a",
    "//a",
    "/a/b",
    "/a//b",
    "/a/./b",
    "/a/../b",
    "a/b/c",
    "a.i64",
    "a.b.i64",
    ".i64",
    "..i64",
    "a.",
    "a..",
    "...",
    "/a/b.exe",
    "/a/b.exe/",
    "/a/b.exe/.",
    "/a.d/b",
    "/a/.hidden.x",
    "caf\u{e9}/\u{4e2d}.idb",
    "a b/c d.e f",
    "./.",
];

#[test]
fn paths_are_taken_apart_as_std_does() {
    for path in PATHS {
        let std_path = Path::new(path);
        assert_eq!(
            path_file_name(native(), path),
            std_path.file_name().and_then(|name| name.to_str()),
            "{path}"
        );
        assert_eq!(
            path_extension(native(), path),
            std_path.extension().and_then(|ext| ext.to_str()),
            "{path}"
        );
        assert_eq!(
            path_parent(native(), path),
            std_path.parent().and_then(|parent| parent.to_str()),
            "{path}"
        );
    }
}

#[test]
fn extensions_are_replaced_as_std_does() {
    for path in PATHS {
        for ext in ["", "id0", "tar.gz"] {
            let mut changed = Path::new(path).to_path_buf();
            changed.set_extension(ext);
            assert_eq!(
                path_with_extension(native(), path, ext),
                changed.to_str().expect("text"),
                "{path} {ext}"
            );
        }
    }
}

#[test]
fn paths_are_compared_as_std_does() {
    for left in PATHS {
        for right in PATHS {
            assert_eq!(
                paths_equal(native(), left, right),
                Path::new(left) == Path::new(right),
                "{left} {right}"
            );
        }
    }
}

#[test]
fn extensions_are_compared_without_regard_to_case() {
    assert!(path_has_extension(native(), "/a/B.I64", "i64"));
    assert!(!path_has_extension(native(), "/a/B.I64x", "i64"));
    assert!(!path_has_extension(native(), "/a/i64", "i64"));
    assert!(eq_ignoring_case("I64", "i64"));
    assert!(!eq_ignoring_case("\u{c9}", "\u{e9}"));
}

#[test]
fn padding_is_trimmed_at_both_ends() {
    assert_eq!(trim_padding(" \t a b \n", false), "a b");
    assert_eq!(trim_padding("\u{a0}x\u{3000}", false), "x");
    assert_eq!(trim_padding("x\0", false), "x\0");
    assert_eq!(trim_padding("\0 x y\0 \0", true), "x y");
    assert_eq!(trim_padding(" \0 ", true), "");
}

#[test]
fn parts_are_found_as_std_does() {
    for (whole, part) in [
        ("main", "main"),
        ("main", "ai"),
        ("main", "in"),
        ("main", "mains"),
        ("main", "x"),
        ("main", ""),
        ("", ""),
        ("", "a"),
        ("aab", "ab"),
        ("\u{4e2d}\u{6587}", "\u{6587}"),
    ] {
        assert_eq!(contains_text(whole, part), whole.contains(part), "{whole} {part}");
    }
}

#[test]
fn addresses_are_read_as_std_does() {
    for text in [
        "0",
        "10",
        " 42 ",
        "+7",
        "-1",
        "-0",
        "",
        "+",
        "0x",
        "0x+",
        "0x10",
        "0X1F",
        "0xdeadBEEF",
        "0x+ff",
        "0xg",
        "x10",
        "ff",
        "1_000",
        "18446744073709551615",
        "18446744073709551616",
        "0xffffffffffffffff",
        "0x10000000000000000",
        "0x000000000000000000001",
        "00000000000000000000000000042",
        "0 x10",
        "\u{663}",
    ] {
        let trimmed = text.trim();
        let expected = if trimmed.starts_with("0x") || trimmed.starts_with("0X") {
            u64::from_str_radix(&trimmed[2..], 16).ok()
        } else {
            trimmed.parse::<u64>().ok()
        };
        assert_eq!(
            parse_address(text),
            expected.ok_or(format!("Invalid address format: {trimmed}")),
            "{text}"
        );
    }
}

#[test]
fn addresses_are_shown_as_std_does_and_read_back() {
    for n in [0, 1, 9, 10, 15, 16, 255, 0x401000, 0xfedc_ba98_7654_3210, u64::MAX] {
        assert_eq!(hex_address(n), format!("{n:#x}"));
        assert_eq!(number_text(n, 10), format!("{n}"));
        assert_eq!(parse_address(&hex_address(n)), Ok(n));
    }
}

#[test]
fn windows_paths_have_two_separators_and_a_drive_or_share() {
    let windows = PathStyle::Windows;
    for (path, name, parent) in [
        ("C:\\d\\o.i64", Some("o.i64"), Some("C:\\d")),
        ("C:/d/o.i64", Some("o.i64"), Some("C:/d")),
        ("C:\\o.i64", Some("o.i64"), Some("C:\\")),
        ("C:o.i64", Some("o.i64"), Some("C:")),
        ("C:\\", None, None),
        ("C:", None, None),
        ("d\\o.i64", Some("o.i64"), Some("d")),
        ("o.i64", Some("o.i64"), Some("")),
        ("\\o.i64", Some("o.i64"), Some("\\")),
        ("\\\\server\\share\\o.i64", Some("o.i64"), Some("\\\\server\\share\\")),
        ("\\\\server\\share", None, None),
        ("\\\\?\\C:\\d\\o.i64", Some("o.i64"), Some("\\\\?\\C:\\d")),
    ] {
        assert_eq!(path_file_name(windows, path), name, "{path}");
        assert_eq!(path_parent(windows, path), parent, "{path}");
    }
    assert_eq!(path_extension(windows, "C:\\d\\.i64"), None);
    assert_eq!(path_extension(windows, "C:.i64"), None);
    assert_eq!(path_extension(windows, "C:\\d.x\\a"), None);
    assert_eq!(
        path_with_extension(windows, "C:\\d.x\\a", "id0"),
        "C:\\d.x\\a.id0"
    );
    assert_eq!(path_with_extension(windows, "C:", "id0"), "C:");
}

#[test]
fn windows_paths_are_compared_by_drive_and_components() {
    let equal = |left: &str, right: &str| paths_equal(PathStyle::Windows, left, right);
    assert!(equal("C:\\d\\a.i64", "C:/d/a.i64"));
    assert!(equal("C:\\d\\a.i64", "c:\\d\\\\.\\a.i64\\"));
    assert!(!equal("C:\\d\\a.i64", "D:\\d\\a.i64"));
    assert!(!equal("C:\\d\\a.i64", "C:d\\a.i64"));
    assert!(!equal("C:\\d\\a.i64", "\\d\\a.i64"));
    assert!(!equal("C:\\d\\a.i64", "C:\\D\\a.i64"));
    assert!(equal("\\\\srv\\shr\\a", "//srv/shr/a"));
    assert!(!equal("\\\\srv\\shr\\a", "\\\\srv\\other\\a"));
    assert!(!paths_equal(PathStyle::Unix, "d\\a", "d/a"));
}

#[test]
fn a_written_address_is_read_in_every_form() {
    for text in ["0xfedc", "0XFEDC", "0xFEDC", "0XfeDc", "65244", " 65244\t", "\n0XFEDC "] {
        assert_eq!(parse_address(text), Ok(0xfedc), "{text}");
    }
}

#[test]
fn padding_makes_no_difference() {
    for before in ["", " ", "\0 \t"] {
        for after in ["", "\0", " \0\0 "] {
            assert_eq!(trim_padding(&format!("{before}/a b{after}"), true), "/a b");
            assert_eq!(trim_padding(&format!("{before}{after}"), true), "");
        }
    }
}

#[test]
fn paths_are_joined_as_std_does() {
    for path in PATHS {
        for part in ["", "a", "a/b", "/a", ".", "..", "./a", "a/"] {
            assert_eq!(
                path_join(native(), path, part),
                Path::new(path).join(part).to_str().expect("text"),
                "{path} {part}"
            );
        }
    }
}

#[test]
fn components_are_listed_as_std_does() {
    for path in PATHS {
        let listed: Vec<String> = Path::new(path)
            .components()
            .map(|component| component.as_os_str().to_str().expect("text").to_string())
            .filter(|component| component != "/" && component != "\\")
            .collect();
        assert_eq!(path_components(native(), path), listed, "{path}");
    }
}

#[test]
fn verbatim_drives_are_compared_without_regard_to_case() {
    let equal = |left: &str, right: &str| paths_equal(PathStyle::Windows, left, right);
    assert!(equal("\\\\?\\c:\\x", "\\\\?\\C:\\x"));
    assert!(equal("\\\\?\\c:\\x\\\\y\\", "\\\\?\\C:\\x\\y"));
    assert!(!equal("\\\\?\\c:\\x", "C:\\x"));
    assert!(!equal("\\\\?\\c:\\x", "//?/c:/x"));
    assert!(!equal("\\\\?\\C:", "\\\\?\\C:\\"));
    assert!(!equal("\\\\?\\Ca:\\x", "\\\\?\\ca:\\x"));
    assert!(!equal("\\\\?\\UNC\\s\\h\\x", "\\\\?\\UNC\\S\\h\\x"));
    assert!(equal("\\\\?\\UNC\\s\\h\\x", "\\\\?\\UNC\\s\\h\\\\x"));
}

#[test]
fn verbatim_paths_are_separated_by_backslashes_alone() {
    let windows = PathStyle::Windows;
    assert_eq!(
        path_components(windows, "\\\\?\\C:\\a/b\\.\\c"),
        vec!["a/b", ".", "c"]
    );
    assert_eq!(path_components(windows, "C:\\a/b\\.\\c"), vec!["a", "b", "c"]);
    assert_eq!(path_file_name(windows, "\\\\?\\C:\\d\\a/b.i64"), Some("a/b.i64"));
    assert_eq!(path_file_name(windows, "\\\\?\\C:\\d\\."), None);
    assert_eq!(path_parent(windows, "\\\\?\\C:\\d\\.\\o"), Some("\\\\?\\C:\\d\\."));
    assert_eq!(path_parent(windows, "C:\\d\\.\\o"), Some("C:\\d"));
    assert!(!paths_equal(windows, "\\\\?\\C:\\d\\.\\o", "\\\\?\\C:\\d\\o"));
    assert!(!paths_equal(windows, "\\\\?\\C:\\d/o", "\\\\?\\C:\\d\\o"));
}

#[test]
fn windows_prefixes_hold_no_file_name() {
    let windows = PathStyle::Windows;
    for path in [
        "\\\\?\\UNC\\s\\h.i64",
        "\\\\?\\UNC\\s.i64",
        "\\\\?\\pics.i64",
        "\\\\?\\C:",
        "\\\\?\\",
        "\\\\.\\COM42.i64",
        "\\\\.\\",
        "//./x.i64",
        "\\\\s\\h.i64",
        "//?/C:",
    ] {
        assert_eq!(path_file_name(windows, path), None, "{path}");
        assert_eq!(path_extension(windows, path), None, "{path}");
        assert_eq!(path_parent(windows, path), None, "{path}");
        assert_eq!(path_with_extension(windows, path, "id0"), path);
    }
    assert_eq!(
        path_file_name(windows, "\\\\?\\UNC\\s\\h\\o.i64"),
        Some("o.i64")
    );
    assert_eq!(
        path_parent(windows, "\\\\?\\UNC\\s\\h\\o.i64"),
        Some("\\\\?\\UNC\\s\\h\\")
    );
    assert_eq!(path_file_name(windows, "\\\\server.i64"), Some("server.i64"));
    assert_eq!(path_parent(windows, "\\\\.\\dev\\o"), Some("\\\\.\\dev\\"));
}

#[test]
fn a_dot_behind_a_drive_counts_for_nothing() {
    let windows = PathStyle::Windows;
    assert!(paths_equal(windows, "C:.\\a", "C:a"));
    assert!(!paths_equal(windows, ".\\a", "a"));
    assert_eq!(path_file_name(windows, "C:."), None);
    assert_eq!(path_parent(windows, "C:.\\a"), Some("C:."));
    assert_eq!(path_parent(windows, "C:a"), Some("C:"));
}

#[test]
fn windows_paths_are_joined_by_prefix_and_root() {
    let windows = PathStyle::Windows;
    for (path, part, joined) in [
        ("C:\\d", "a", "C:\\d\\a"),
        ("C:\\d\\", "a", "C:\\d\\a"),
        ("C:", "a", "C:a"),
        ("", "a", "a"),
        ("C:\\d", "\\a", "C:\\a"),
        ("C:\\d", "D:a", "D:a"),
        ("C:\\d", "D:\\a", "D:\\a"),
        ("\\\\?\\C:\\\\d\\.\\", "a", "\\\\?\\C:\\d\\.\\a"),
        ("\\\\?\\C:\\d\\e", "..\\./a", "\\\\?\\C:\\d\\a"),
        ("\\\\?\\C:\\d", "\\a", "\\\\?\\C:\\a"),
        ("\\\\?\\C:\\d", "/", "\\\\?\\C:\\"),
        ("\\\\?\\C:\\d", "", "\\\\?\\C:\\d\\"),
    ] {
        assert_eq!(path_join(windows, path, part), joined, "{path} {part}");
    }
}
