use codex_monitor::text::{is_blank, name_before};

#[test]
fn white_space_is_what_trimming_removes() {
    for c in '\u{0}'..=char::MAX {
        let line = c.to_string();
        assert_eq!(is_blank(&line), line.trim().is_empty(), "{:?}", c);
    }
}

#[test]
fn blank_lines() {
    assert!(is_blank(""));
    assert!(is_blank(" \t\r\u{a0}\u{3000}"));
    assert!(!is_blank("  x  "));
    assert!(!is_blank("\u{200b}"));
}

#[test]
fn names_come_in_the_order_of_std() {
    let names = [
        "", "a", "A", "ab", "abc", "b", "z", "Z", "\u{e9}", "\u{e9}a", "\u{ffff}", "\u{10000}",
        "\u{1f600}", "a\u{0}", "a ", "10", "9",
    ];
    for a in names {
        for b in names {
            assert_eq!(name_before(a, b), a <= b, "{a:?} {b:?}");
        }
    }
}

#[test]
fn the_order_of_names_is_total_and_has_no_ties_between_different_names() {
    assert!(name_before("a", "b"));
    assert!(!name_before("b", "a"));
    assert!(name_before("b", "c"));
    assert!(name_before("a", "c"));
    assert!(name_before("same", "same"));
}
