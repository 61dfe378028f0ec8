use numera::paths::{
    comes_before, conflict_safe_name, copy_optional, extension_of, names_image, names_jpeg,
    sort_paths, stem_of, FilePath,
};
use numera::text;

fn path(s: &str) -> FilePath {
    FilePath::parse(s.as_bytes())
}

fn shown(paths: &[FilePath]) -> Vec<String> {
    paths.iter().map(|p| p.display_text()).collect()
}

#[test]
fn numbers_are_written_in_decimal() {
    assert_eq!(text::decimal_text(0), "0");
    assert_eq!(text::decimal_text(907), "907");
    assert_eq!(text::decimal_text(u64::MAX), "18446744073709551615");
    let mut out = "x".to_string();
    text::push_signed(&mut out, -12);
    text::push_signed(&mut out, i64::MIN);
    text::push_signed(&mut out, 5);
    assert_eq!(out, "x-12-92233720368547758085");
}

#[test]
fn written_numbers_can_be_read() {
    for n in [0u32, 7, 10, 4096, u32::MAX] {
        assert_eq!(text::parse_u32(&text::decimal_text(n as u64)), Some(n));
    }
    assert_eq!(text::parse_u32("+5"), Some(5));
    assert_eq!(text::parse_u32("0007"), Some(7));
    assert_eq!(text::parse_u32("4294967296"), None);
    assert_eq!(text::parse_u32(""), None);
    assert_eq!(text::parse_u32("+"), None);
    assert_eq!(text::parse_u32("-1"), None);
    assert_eq!(text::parse_u32("1 "), None);
    assert_eq!(text::parse_i32("-2147483648"), Some(i32::MIN));
    assert_eq!(text::parse_i32("2147483648"), None);
    assert_eq!(text::parse_unsigned("300", 299), None);
}

#[test]
fn digits_are_kept_alone() {
    assert_eq!(text::digits_only("No. 4-2 b"), "42");
    assert_eq!(text::digits_only(&text::digits_only("a1b2")), "12");
    assert_eq!(text::digits_only("٣x"), "");
}

#[test]
fn space_is_trimmed_on_both_sides() {
    assert_eq!(text::trim(" \t\u{a0}82 a\u{3000}\n"), "82 a");
    assert_eq!(text::trim(""), "");
    assert_eq!(text::trim(" \n "), "");
}

#[test]
fn texts_are_searched_and_replaced() {
    assert!(text::contains("a{filename}b", "{filename}"));
    assert!(!text::contains("filename", "{filename}"));
    assert_eq!(text::replace("<x><x>", "<x>", "82"), "8282");
    assert_eq!(text::replace("plain", "<x>", "82"), "plain");
    assert_eq!(text::replace("aaa", "aa", "b"), "ba");
    assert_eq!(text::to_lower("ÄBc"), "Äbc");
    let list = vec!["a".to_string(), "b".to_string(), "c".to_string()];
    assert_eq!(text::join(&list, ", "), "a, b, c");
    assert_eq!(text::join(&Vec::new(), ", "), "");
}

#[test]
fn paths_are_taken_apart() {
    let p = path("/a//b/./c/../82.JPG/");
    assert_eq!(p.display_text(), "/a//b/./c/../82.JPG/");
    assert_eq!(p.file_name_text(), Some("82.JPG".to_string()));
    assert_eq!(p.file_stem_text(), Some("82".to_string()));
    assert_eq!(p.file_extension_text(), Some("JPG".to_string()));
    assert_eq!(p.parent().unwrap().display_text(), "/a//b/./c/..");
    assert_eq!(path("a/..").file_name_text(), None);
    assert_eq!(path("/").file_name_text(), None);
    assert_eq!(path("./x").display_text(), "./x");
    assert_eq!(path("").display_text(), "");
    assert_eq!(path(".hidden").file_extension_text(), None);
    assert_eq!(path("a.tar.gz").file_stem_text(), Some("a.tar".to_string()));
}

#[test]
fn names_that_are_no_text_have_none() {
    let p = path("a").join(&[0xff, b'.', b'p', b'n', b'g']);
    assert_eq!(p.file_name_text(), None);
    assert_eq!(p.file_stem_text(), None);
    assert_eq!(p.file_extension_text(), Some("png".to_string()));
    assert_eq!(p.display_text(), "a/\u{fffd}.png");
}

#[test]
fn joining_starts_anew_at_the_root() {
    assert_eq!(path("a").join_text("b/c").display_text(), "a/b/c");
    assert_eq!(path("a").join_text("/b").display_text(), "/b");
    assert_eq!(path("").join_text("b").display_text(), "b");
    assert_eq!(path("a").join_text("ü").file_name_text(), Some("ü".to_string()));
}

#[test]
fn paths_are_ordered_by_their_parts() {
    let mut list = vec![path("b"), path("a/b"), path("a-b"), path("a"), path("/z")];
    sort_paths(&mut list);
    assert_eq!(shown(&list), vec!["/z", "a", "a/b", "a-b", "b"]);
    assert!(comes_before(&path("a/b"), &path("a-b")));
    assert!(!comes_before(&path("a"), &path("a")));
    let mut std_list: Vec<std::path::PathBuf> = ["b", "a/b", "a-b", "a", "/z"]
        .iter()
        .map(std::path::PathBuf::from)
        .collect();
    std_list.sort();
    let std_shown: Vec<String> = std_list.iter().map(|p| p.display().to_string()).collect();
    assert_eq!(shown(&list), std_shown);
}

#[test]
fn images_are_told_by_their_extension() {
    assert!(names_image(b"a.PnG"));
    assert!(names_image(b"a.jpeg"));
    assert!(!names_image(b"png"));
    assert!(!names_image(b".jpg"));
    assert!(!names_image(b"a.gif"));
    assert!(names_jpeg(b"a.JPG"));
    assert!(!names_jpeg(b"a.png"));
    assert_eq!(stem_of(b"a.b"), b"a".to_vec());
    assert_eq!(extension_of(b"a."), Some(Vec::new()));
    assert_eq!(extension_of(b"a"), None);
}

#[test]
fn taken_names_get_a_counter() {
    assert_eq!(conflict_safe_name(b"82.jpg", 0), b"82.jpg".to_vec());
    assert_eq!(conflict_safe_name(b"82.jpg", 1), b"82_1.jpg".to_vec());
    assert_eq!(conflict_safe_name(b"82", 12), b"82_12".to_vec());
    assert_eq!(conflict_safe_name(b"\xff.jpg", 3), b"image_3.jpg".to_vec());
    assert_ne!(conflict_safe_name(b"82_1.jpg", 1), conflict_safe_name(b"82_1.jpg", 0));
}

#[test]
fn copies_of_paths_are_the_same() {
    let p = Some(path("a/b"));
    assert!(copy_optional(&p).unwrap().same(&path("a//b")));
    assert!(copy_optional(&None).is_none());
    assert!(!path("a/b").same(&path("a/c")));
}

#[test]
fn paths_stay_as_they_are_written() {
    let given = ["/a//b/", "a/./b", "./x", ".", "", "/", "//x", "a/b/..", "a//", "b", "/b", "./"];
    for text in given {
        let ours = path(text);
        let theirs = std::path::PathBuf::from(text);
        assert_eq!(ours.display_text(), theirs.display().to_string());
        assert_eq!(
            ours.parent().map(|p| p.display_text()),
            theirs.parent().map(|p| p.display().to_string()),
            "{}",
            text
        );
        assert_eq!(
            ours.file_name_text(),
            theirs.file_name().map(|n| n.to_str().unwrap().to_string()),
            "{}",
            text
        );
        for piece in ["c", "", "/c", "./c", "c//d/"] {
            assert_eq!(
                ours.join_text(piece).display_text(),
                theirs.join(piece).display().to_string()
            );
        }
        for other in given {
            let their_other = std::path::PathBuf::from(other);
            assert_eq!(ours.same(&path(other)), theirs == their_other, "{} {}", text, other);
            assert_eq!(comes_before(&ours, &path(other)), theirs < their_other);
        }
    }
}

#[test]
fn equal_paths_keep_their_order() {
    let mut list = vec![path("b"), path("a//x"), path("a/x"), path("a/./x")];
    sort_paths(&mut list);
    assert_eq!(shown(&list), vec!["a//x", "a/x", "a/./x", "b"]);
}
