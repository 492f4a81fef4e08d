use front_vec::FrontString;

#[test]
fn basic_string_ops() {
    let mut s = FrontString::new();
    s.push_str_front("cadabra");
    s.push_str_front("abra");
    assert!(s == "abracadabra");
}

#[test]
fn fmt_debug() {
    let s1 = format!("{:?}", FrontString::from_str("asdf").to_string());
    let s2 = format!("{:?}", String::from("asdf"));
    assert!(s1 == s2);
}

#[test]
fn fmt_display() {
    let s1 = format!("{}", FrontString::from_str("asdf").to_string());
    let s2 = String::from("asdf");
    assert!(s1 == s2);
}

#[test]
fn char_to_bytes() {
    let expected: [u8; 3] = [0xE3, 0x81, 0xAC];

    let ch = 'ぬ';
    let mut buf = [0; 4];
    let bytes = ch.encode_utf8(&mut buf);
    assert!(bytes.as_bytes() == &expected);
}

#[test]
fn unicode_characters() {
    let full = "いろはにほへとちりぬるを";
    let first = 'い';
    let middle = "ろはにほ";
    let ch = 'へ';
    let end = "とちりぬるを";

    let mut s = FrontString::from_str(end);
    s.push_char_front(ch);
    s.push_str_front(middle);
    s.push_char_front(first);

    assert!(s == full);
}

#[test]
fn truncation() {
    let full = "いろはにほへとちりぬるを";
    let end = "とちりぬるを";
    let mut s = FrontString::from_str(full);
    s.truncate(end.len());
    assert!(s == end);
}

#[test]
fn extend_truncate_extend() {
    let mut s = FrontString::from_str("tion");
    assert!(s == "tion");
    s.push_str_front("revolu");
    assert!(s == "revolution");
    s.truncate("tion".len());
    assert!(s == "tion");
    s.push_str_front("evolu");
    assert!(s == "evolution");
}

#[test]
fn round_trip_pops_original_characters() {
    let text = "いろはにほへとちりぬるを";
    let mut s = FrontString::from_str(text);
    let mut popped = String::new();
    loop {
        match s.pop_char_front() {
            Some(c) => popped.push(c),
            None => break,
        }
    }
    assert_eq!(popped, text);
    assert_eq!(s.len(), 0);

    let ascii = "abracadabra";
    let mut s2 = FrontString::from_str(ascii);
    let mut popped2 = String::new();
    while let Some(c) = s2.pop_char_front() {
        popped2.push(c);
    }
    assert_eq!(popped2, ascii);
}

#[test]
fn string_pop_from_empty_is_none_repeatedly() {
    let mut s = FrontString::new();
    assert_eq!(s.pop_char_front(), None);
    assert_eq!(s.pop_char_front(), None);
    assert_eq!(s.len(), 0);
    assert!(s == "");
}

#[test]
fn pop_decodes_each_width() {
    // One, two, three and four byte encodings, popped in order.
    let mut s = FrontString::from_str("a\u{00E9}\u{3042}\u{1F600}");
    assert_eq!(s.pop_char_front(), Some('a'));
    assert_eq!(s.pop_char_front(), Some('\u{00E9}'));
    assert_eq!(s.pop_char_front(), Some('\u{3042}'));
    assert_eq!(s.pop_char_front(), Some('\u{1F600}'));
    assert_eq!(s.pop_char_front(), None);
}

#[test]
fn char_boundaries_follow_encoding() {
    // "と" and the rest are three bytes each; offsets 1 and 2 split it.
    let s = FrontString::from_str("とち");
    assert!(s.is_char_boundary(0));
    assert!(!s.is_char_boundary(1));
    assert!(!s.is_char_boundary(2));
    assert!(s.is_char_boundary(3));
    assert!(s.is_char_boundary(6));
    assert!(!s.is_char_boundary(7));
}

#[test]
fn truncate_to_full_length_is_noop() {
    let mut s = FrontString::from_str("tion");
    s.truncate(4);
    assert!(s == "tion");
    s.truncate(99);
    assert!(s == "tion");
    s.truncate(0);
    assert!(s == "");
}

#[test]
fn push_char_capacity_is_exact() {
    let mut s = FrontString::new();
    assert_eq!(s.capacity(), 0);
    s.push_char_front('へ');
    // Three bytes reserved exactly for the three-byte encoding.
    assert_eq!(s.capacity(), 3);
    assert_eq!(s.len(), 3);
}

#[test]
fn string_reserve_front_reports_reallocation() {
    let mut s = FrontString::with_capacity(8);
    assert!(!s.reserve_front(8));
    assert_eq!(s.capacity(), 8);
    assert!(s.reserve_front(9));
    assert_eq!(s.capacity(), 17);
}

#[test]
fn prepend_from_bytes_iter_prepends_utf8() {
    let mut s = FrontString::from_str("world!");
    let prefix = "Hello, ";
    s.prepend_from_bytes_iter(prefix.as_bytes());
    assert!(s == "Hello, world!");
}

#[test]
fn from_string_and_to_string() {
    let s = FrontString::from_string(String::from("いろは"));
    assert!(s == "いろは");
    assert_eq!(s.to_string(), String::from("いろは"));
}

#[test]
fn duplicate_copies_string() {
    let s = FrontString::from_str("abc");
    let t = s.duplicate();
    assert!(t == "abc");
    assert_eq!(t.capacity(), s.capacity());
}

#[test]
fn string_default_is_empty() {
    let s: FrontString = Default::default();
    assert_eq!(s.len(), 0);
    assert_eq!(s.capacity(), 0);
    assert!(s.is_empty());
}
