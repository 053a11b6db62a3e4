use resonate::number::{parse_number, push_decimal, push_padded};
use resonate::order::{sort_order, SortKey};
use resonate::path::{
    extension, file_name, file_stem, join, parent, same_path, set_extension,
};
use resonate::text::{
    chars_of, concat_all, contains, equal_ignoring_case, is_white_space, owned, position_of,
    replace_char,
    same_text, starts_with, strip_prefix, text_before, text_of, trim,
};
use resonate::text_map::TextMap;

#[test]
fn texts_are_taken_apart_and_put_together() {
    let chars = chars_of("añ♪");
    assert_eq!(chars, vec!['a', 'ñ', '♪']);
    assert_eq!(text_of(&chars, 1, 3), "ñ♪");
    assert_eq!(owned("x"), "x");
    assert!(same_text("ab", "ab"));
    assert!(!same_text("ab", "aB"));
    assert!(starts_with("lv2:http", "lv2:"));
    assert_eq!(strip_prefix("digit-7", "digit-").as_deref(), Some("7"));
    assert_eq!(strip_prefix("digi", "digit-"), None);
    assert!(contains("Audio/Source", "Source"));
    assert!(contains("abc", ""));
    assert!(!contains("abc", "abd"));
    assert_eq!(replace_char("a_b_", '_', "__"), "a__b__");
    assert_eq!(trim(" \t a b \n"), "a b");
    assert_eq!(trim("\u{2003}x\u{00a0}"), "x");
    assert!(equal_ignoring_case("Fast LookAhead", "fast lookahead"));
    assert!(!equal_ignoring_case("Ä", "ä"));
    assert_eq!(concat_all(&vec!["a", "", "bc"]), "abc");
    assert!(text_before("a", "ab"));
    assert!(text_before("Z", "a"));
    assert!(!text_before("a", "a"));
    let texts = vec!["x".to_string(), "y".to_string(), "x".to_string()];
    assert_eq!(position_of(&texts, "x"), Some(0));
    assert_eq!(position_of(&texts, "z"), None);
}

#[test]
fn numbers_are_written_and_read() {
    let mut out = String::new();
    push_decimal(&mut out, 0);
    push_padded(&mut out, 7, 3);
    push_decimal(&mut out, u64::MAX);
    assert_eq!(out, "000718446744073709551615");
    assert_eq!(parse_number("007", 255), Some(7));
    assert_eq!(parse_number("+9", 255), Some(9));
    assert_eq!(parse_number("256", 255), None);
    assert_eq!(parse_number("", 255), None);
    assert_eq!(parse_number("-1", 255), None);
    assert_eq!(parse_number("1x", 255), None);
    assert_eq!(parse_number("99999999999999999999", u64::MAX), None);
}

#[test]
fn paths_are_taken_apart_like_the_system_does() {
    for p in [
        "/a/b.wav", "b.wav", "/a/b/", "/", "", ".", "..", "a/..", "/a//b/./c.tar.gz", ".hidden",
        "/x/.hidden.wav", "a.", "/a/b/.", "./a", "a/./b", "//a", "a.b/c",
    ] {
        let path = std::path::Path::new(p);
        assert_eq!(file_name(p).as_deref(), path.file_name().and_then(|x| x.to_str()), "{p}");
        assert_eq!(file_stem(p).as_deref(), path.file_stem().and_then(|x| x.to_str()), "{p}");
        assert_eq!(extension(p).as_deref(), path.extension().and_then(|x| x.to_str()), "{p}");
        assert_eq!(
            parent(p),
            path.parent().map(|x| x.to_str().unwrap().to_string()),
            "{p}"
        );
        let mut changed = path.to_path_buf();
        changed.set_extension("ogg");
        assert_eq!(set_extension(p, "ogg"), changed.to_str().unwrap(), "{p}");
        for q in ["x", "/x", "", "x/y"] {
            assert_eq!(join(p, q), path.join(q).to_str().unwrap(), "{p} {q}");
        }
        for q in ["/a/b.wav", "/a/b", "/a/./b//", "a", "./a", "a/b", "/a//b.wav", "/", ""] {
            assert_eq!(same_path(p, q), path == std::path::Path::new(q), "{p} {q}");
        }
    }
}

#[test]
fn a_name_is_the_same_in_every_folder() {
    assert_eq!(file_name(&join("/a/b", "x.wav")), file_name(&join("", "x.wav")));
}

#[test]
fn sorting_is_by_rank_then_text_and_stable() {
    let keys = vec![
        SortKey::new(1, "b"),
        SortKey::new(0, "z"),
        SortKey::new(1, "a"),
        SortKey::new(0, "z"),
        SortKey::new(usize::MAX, ""),
    ];
    assert_eq!(sort_order(&keys), vec![1, 3, 2, 0, 4]);
    assert!(sort_order(&Vec::new()).is_empty());
}

#[test]
fn a_map_holds_one_value_under_each_text() {
    let mut m: TextMap<u32> = TextMap::new();
    assert_eq!(m.len(), 0);
    m.insert("a".to_string(), 1);
    m.insert("b".to_string(), 2);
    m.insert("a".to_string(), 3);
    assert_eq!(m.len(), 2);
    assert_eq!(m.get("a"), Some(&3));
    assert_eq!(m.get("c"), None);
    if let Some(v) = m.get_mut("b") {
        *v = 9;
    }
    assert!(m.get_mut("c").is_none());
    assert_eq!(m.key_at(1), "b");
    assert_eq!(m.value_at(1), &9);
    let copy = m.duplicate();
    assert_eq!(m.remove("a"), Some(3));
    assert_eq!(m.remove("a"), None);
    assert_eq!(m.len(), 1);
    assert_eq!(copy.len(), 2);
}

#[test]
fn white_space_is_what_unicode_says() {
    for c in '\0'..=char::MAX {
        assert_eq!(is_white_space(c), c.is_whitespace());
    }
}
