use sweepx_platform::sequence::reversed;
use sweepx_platform::unix_path::{
    join_unix_path, same_unix_path, unix_name_of, unix_path_components, UnixComponent,
};
use sweepx_platform::windows_path::{
    find_prefix, join_path, key_le, lossy_units, path_components, path_is_absolute,
    path_order_key, PathComponent, PrefixKind,
    WindowsPath,
};

fn wide(text: &str) -> Vec<u16> {
    text.encode_utf16().collect()
}

fn join(base: &str, other: &str) -> String {
    String::from_utf16(&join_path(&wide(base), &wide(other))).unwrap()
}

fn kind(text: &str) -> Option<(PrefixKind, usize)> {
    find_prefix(&wide(text)).map(|prefix| (prefix.kind, prefix.length))
}

#[test]
fn prefixes_are_told_apart() {
    assert_eq!(kind(r"C:\x"), Some((PrefixKind::Disk, 2)));
    assert_eq!(kind(r"c:x"), Some((PrefixKind::Disk, 2)));
    assert_eq!(kind(r"\\server\share\x"), Some((PrefixKind::Unc, 14)));
    assert_eq!(kind("//server/share"), Some((PrefixKind::Unc, 14)));
    assert_eq!(kind(r"\\server"), None);
    assert_eq!(kind(r"\\server\"), None);
    assert_eq!(kind(r"\\?\C:\x"), Some((PrefixKind::VerbatimDisk, 6)));
    assert_eq!(kind(r"\\?\C:x"), Some((PrefixKind::Verbatim, 7)));
    assert_eq!(kind(r"\\?\UNC\s\h\x"), Some((PrefixKind::VerbatimUnc, 11)));
    assert_eq!(kind(r"\\?\UNC\s"), Some((PrefixKind::VerbatimUnc, 9)));
    assert_eq!(kind(r"\\?\pictures\x"), Some((PrefixKind::Verbatim, 12)));
    assert_eq!(kind("//?/C:/x"), Some((PrefixKind::Unc, 6)));
    assert_eq!(kind(r"\\.\COM42\x"), Some((PrefixKind::DeviceNs, 9)));
    assert_eq!(kind(r"\x"), None);
    assert_eq!(kind("1:x"), None);
    assert_eq!(kind(""), None);
}

#[test]
fn absolute_paths_have_a_prefix_and_a_root() {
    for absolute in [r"C:\", r"C:/x", r"\\s\h", r"\\?\C:", r"\\.\COM1"] {
        assert!(path_is_absolute(&wide(absolute)), "{absolute}");
    }
    for relative in [r"C:", r"C:x", r"\x", "x", "", r"..\x"] {
        assert!(!path_is_absolute(&wide(relative)), "{relative}");
    }
}

#[test]
fn joining_follows_windows_rules() {
    assert_eq!(join(r"C:\a", "b"), r"C:\a\b");
    assert_eq!(join(r"C:\a\", "b"), r"C:\a\b");
    assert_eq!(join(r"C:\a/", "b"), r"C:\a/b");
    assert_eq!(join("C:", "b"), "C:b");
    assert_eq!(join("", "b"), "b");
    assert_eq!(join(r"C:\a", ""), "C:\\a\\");
    assert_eq!(join(r"C:\a", r"\b"), r"C:\b");
    assert_eq!(join(r"C:\a", r"D:b"), r"D:b");
    assert_eq!(join(r"C:\a", r"D:\b"), r"D:\b");
    assert_eq!(join(r"\\s\h\a", r"\b"), r"\\s\h\b");
    assert_eq!(join(r"\\?\C:\a", r"b\.\c\..\d"), r"\\?\C:\a\b\d");
    assert_eq!(join(r"\\?\C:\a", r"\b"), r"\\?\C:\b");
    assert_eq!(join(r"\\?\C:", "b"), r"\\?\C:\b");
    assert_eq!(join(r"\\?\C:/a", "b"), r"\\?\C:\a\b");
    assert_eq!(join(r"\\?\UNC\s\h\a", "b/c"), r"\\?\UNC\s\h\a\b\c");
    assert_eq!(join(r"\\?\C:\a", ""), "\\\\?\\C:\\a\\");
}

#[test]
fn windows_paths_are_equal_by_components() {
    let path = |text: &str| WindowsPath::new(wide(text));
    assert_eq!(path(r"c:\a\\b\."), path(r"C:\a/b"));
    assert_ne!(path(r"C:\a"), path(r"C:\A"));
    assert_ne!(path(r"C:\a"), path(r"\\?\C:\a"));
    assert_ne!(path(r"\\?\C:\a\."), path(r"\\?\C:\a"));
    assert_eq!(path(r"\\s\h"), path(r"\\s\h\"));
    assert_ne!(path(r"\\?\UNC\s\h"), path(r"\\s\h"));
    assert_eq!(path(r"\\?\C:/a"), path(r"\\?\C:\a"));
    assert_ne!(path(r"\\?\C:/a/b"), path(r"\\?\C:\a\b"));
    assert_eq!(path(r"C:\a").clone(), path(r"C:\a"));
}

#[test]
fn path_order_compares_component_by_component() {
    let le = |a: &str, b: &str| {
        key_le(&path_order_key(&wide(a)), &path_order_key(&wide(b)))
    };
    let ordered = [
        r"\\?\x",
        r"\\?\C:\x",
        r"\\s\h",
        r"C:\a",
        r"C:\a\z",
        r"C:\a b",
        r"C:\b",
        "C:\\\u{ffff}",
        "C:\\\u{10000}",
        r"D:\",
        r"\x",
        r".\x",
        r"..\x",
        "x",
    ];
    for (i, a) in ordered.iter().enumerate() {
        for (j, b) in ordered.iter().enumerate() {
            assert_eq!(le(a, b), i <= j, "{a} {b}");
        }
    }
    assert!(le(r"C:\a", r"c:/a") && le(r"c:/a", r"C:\a"));
}

#[test]
fn unpaired_surrogates_are_replaced() {
    assert_eq!(
        lossy_units(&[0x61, 0xd800, 0x62, 0xdc00, 0xd83d, 0xde00, 0xd800]),
        vec![0x61, 0xfffd, 0x62, 0xfffd, 0xd83d, 0xde00, 0xfffd]
    );
}

#[test]
fn unix_paths_join_compare_and_end_in_names() {
    assert_eq!(join_unix_path(b"/a", b"b"), b"/a/b");
    assert_eq!(join_unix_path(b"/a/", b"b"), b"/a/b");
    assert_eq!(join_unix_path(b"", b"b"), b"b");
    assert_eq!(join_unix_path(b"/a", b"/b"), b"/b");
    assert!(same_unix_path(b"/a//b/./", b"/a/b"));
    assert!(!same_unix_path(b"/a/../b", b"/b"));
    assert_eq!(unix_name_of(b"/a/b/."), Some(b"b".to_vec()));
    assert_eq!(unix_name_of(b"/a/.."), None);
    assert_eq!(unix_name_of(b"/"), None);
    assert_eq!(reversed(vec![1, 2, 3]), vec![3, 2, 1]);
}

#[test]
fn joined_names_are_one_component_more() {
    for base in ["/", "/a", "/a/b/", "/a//.", "./a", "a"] {
        let below = join_unix_path(base.as_bytes(), b"name");
        let mut expected = unix_path_components(base.as_bytes());
        expected.push(UnixComponent::Normal(b"name".to_vec()));
        assert_eq!(unix_path_components(&below), expected, "{base}");
    }
    for base in [r"C:\", r"c:/a", r"C:\a\b\", r"C:\a\.\b"] {
        let below = join_path(&wide(base), &wide("name"));
        let components = path_components(&below);
        assert_eq!(
            components.len(),
            path_components(&wide(base)).len() + 1,
            "{base}"
        );
        assert!(matches!(
            components.last(),
            Some(PathComponent::Normal(text)) if *text == wide("name")
        ));
    }
}
