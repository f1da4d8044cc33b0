use device_lock::text::{contains, equal, find, index_of, matches_at, substitute};

#[test]
fn find_reports_the_first_occurrence() {
    assert_eq!(find(b"abcabc", b"bc"), Some(1));
    assert_eq!(find(b"aab", b"ab"), Some(1));
    assert_eq!(find(b"abc", b"abc"), Some(0));
    assert_eq!(find(b"xxabc", b"abc"), Some(2));
}

#[test]
fn find_reports_absence() {
    assert_eq!(find(b"ab", b"abc"), None);
    assert_eq!(find(b"abcabd", b"abe"), None);
    assert_eq!(find(b"", b"a"), None);
}

#[test]
fn find_of_the_empty_pattern_is_the_start() {
    assert_eq!(find(b"abc", b""), Some(0));
    assert_eq!(find(b"", b""), Some(0));
}

#[test]
fn matches_at_respects_the_bounds() {
    assert!(matches_at(b"abc", b"bc", 1));
    assert!(!matches_at(b"abc", b"bc", 2));
    assert!(!matches_at(b"abc", b"bc", 0));
    assert!(matches_at(b"abc", b"", 3));
    assert!(!matches_at(b"abc", b"", 4));
    assert!(!matches_at(b"abc", b"abcd", 0));
}

#[test]
fn contains_agrees_with_find() {
    assert!(contains(b"GET /lock?password=x", b"/lock?password="));
    assert!(!contains(b"GET /unlock?password=x", b"/lock?password="));
    assert!(contains(b"a\r\n\r\n", b"\r\n\r\n"));
    assert!(!contains(b"a\r\n\r", b"\r\n\r\n"));
}

#[test]
fn index_of_finds_the_next_byte_or_the_end() {
    assert_eq!(index_of(b"a b c", b' ', 0), 1);
    assert_eq!(index_of(b"a b c", b' ', 1), 1);
    assert_eq!(index_of(b"a b c", b' ', 2), 3);
    assert_eq!(index_of(b"a b c", b' ', 4), 5);
    assert_eq!(index_of(b"a b c", b' ', 9), 5);
    assert_eq!(index_of(b"", b' ', 0), 0);
}

#[test]
fn equal_compares_length_and_bytes() {
    assert!(equal(b"abc123", b"abc123"));
    assert!(!equal(b"abc123", b"abc124"));
    assert!(!equal(b"abc123", b"abc12"));
    assert!(!equal(b"abc12", b"abc123"));
    assert!(equal(b"", b""));
}

#[test]
fn substitute_replaces_every_occurrence() {
    assert_eq!(
        substitute(b"<a class=no-error> <b class=no-error>", b"no-error", b"error"),
        b"<a class=error> <b class=error>".to_vec()
    );
    assert_eq!(substitute(b"no-error", b"no-error", b"error"), b"error".to_vec());
}

#[test]
fn substitute_leaves_other_text_alone() {
    assert_eq!(substitute(b"nothing here", b"no-error", b"error"), b"nothing here".to_vec());
    assert_eq!(substitute(b"no-erro", b"no-error", b"error"), b"no-erro".to_vec());
    assert_eq!(substitute(b"", b"no-error", b"error"), Vec::<u8>::new());
}

#[test]
fn substitute_goes_left_to_right_without_overlap() {
    assert_eq!(substitute(b"aaa", b"aa", b"b"), b"ba".to_vec());
    assert_eq!(substitute(b"aaaa", b"aa", b"b"), b"bb".to_vec());
    assert_eq!(substitute(b"no-no-error", b"no-error", b"error"), b"no-error".to_vec());
}

#[test]
fn substitute_can_lengthen_the_text() {
    assert_eq!(substitute(b"a.b.c", b".", b"::"), b"a::b::c".to_vec());
}

#[test]
fn substitute_with_an_empty_pattern_changes_nothing() {
    assert_eq!(substitute(b"abc", b"", b"x"), b"abc".to_vec());
}

#[test]
fn substitute_agrees_with_the_standard_replace() {
    let texts = [
        "", "no-error", "no-errorno-error", "xno-errory", "no-no-error", "nno-errorr", "error",
        "no-erro", "o-error", "a no-error b no-error c", "\u{e9}no-error\u{4e2d}",
    ];
    let patterns = [("no-error", "error"), ("e", "ee"), ("rr", ""), ("no", "no-no"), ("\u{e9}", "e")];
    for text in texts {
        for (from, to) in patterns {
            assert_eq!(
                substitute(text.as_bytes(), from.as_bytes(), to.as_bytes()),
                text.replace(from, to).into_bytes(),
                "{:?} {:?} {:?}",
                text,
                from,
                to
            );
        }
    }
}

#[test]
fn find_and_contains_agree_with_the_standard_search() {
    let texts = ["", "a", "GET /lock?password=x", "aaab", "abababc", "\r\n\r\n", "x\r\n\r"];
    let patterns = ["", "a", "ab", "abc", "/lock?password=", "\r\n\r\n", "b"];
    for text in texts {
        for pattern in patterns {
            assert_eq!(find(text.as_bytes(), pattern.as_bytes()), text.find(pattern));
            assert_eq!(contains(text.as_bytes(), pattern.as_bytes()), text.contains(pattern));
        }
    }
}
