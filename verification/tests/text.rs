use bower::text::{
    char_is_whitespace, chars_of, find, push_decimal, skip_whitespace, skip_whitespace_back,
    string_of,
};

#[test]
fn chars_and_back() {
    let chars = chars_of("héllo, wörld");
    assert_eq!(chars.len(), 12);
    assert_eq!(chars[1], 'é');
    assert_eq!(string_of(&chars, 0, chars.len()), "héllo, wörld");
    assert_eq!(string_of(&chars, 7, 12), "wörld");
    assert_eq!(string_of(&chars, 3, 3), "");
    assert_eq!(chars_of("").len(), 0);
}

#[test]
fn white_space_is_what_std_calls_white_space() {
    let mut code: u32 = 0;
    while code <= 0x3100 {
        if let Some(c) = char::from_u32(code) {
            assert_eq!(char_is_whitespace(c), c.is_whitespace());
        }
        code += 1;
    }
    assert!(char_is_whitespace(' '));
    assert!(char_is_whitespace('\n'));
    assert!(char_is_whitespace('\u{3000}'));
    assert!(!char_is_whitespace('a'));
    assert!(!char_is_whitespace('\u{200b}'));
}

#[test]
fn skipping_white_space_trims() {
    let chars = chars_of(" \t a b \n");
    let from = skip_whitespace(&chars, 0, chars.len());
    assert_eq!(from, 3);
    let to = skip_whitespace_back(&chars, from, chars.len());
    assert_eq!(to, 6);
    assert_eq!(string_of(&chars, from, to), "a b");
    let blank = chars_of("   ");
    assert_eq!(skip_whitespace(&blank, 0, 3), 3);
    assert_eq!(skip_whitespace_back(&blank, 0, 3), 0);
    assert_eq!(skip_whitespace_back(&blank, 1, 3), 1);
    assert_eq!(skip_whitespace(&blank, 1, 2), 2);
}

#[test]
fn find_gives_the_first_occurrence() {
    let hay = chars_of("abcabcabd");
    assert_eq!(find(&hay, &chars_of("abc")), Some(0));
    assert_eq!(find(&hay, &chars_of("bca")), Some(1));
    assert_eq!(find(&hay, &chars_of("abd")), Some(6));
    assert_eq!(find(&hay, &chars_of("abe")), None);
    assert_eq!(find(&hay, &chars_of("")), Some(0));
    assert_eq!(find(&hay, &chars_of("abcabcabd")), Some(0));
    assert_eq!(find(&hay, &chars_of("abcabcabda")), None);
    assert_eq!(find(&chars_of(""), &chars_of("")), Some(0));
    assert_eq!(find(&chars_of(""), &chars_of("a")), None);
}

#[test]
fn find_agrees_with_std() {
    let hays = vec!["", "a", "aa", "aaa", "abab", "xxabxxab", "é-é-é"];
    let needles = vec!["", "a", "aa", "ab", "b", "xab", "é-"];
    for hay in &hays {
        for needle in &needles {
            let expected = hay.find(needle).map(|at| hay[..at].chars().count());
            assert_eq!(find(&chars_of(hay), &chars_of(needle)), expected);
        }
    }
}

#[test]
fn decimal_is_appended() {
    let mut s = String::from("n=");
    push_decimal(&mut s, 305);
    assert_eq!(s, "n=305");
    push_decimal(&mut s, -12);
    assert_eq!(s, "n=305-12");
    push_decimal(&mut s, 0);
    assert_eq!(s, "n=305-120");
}
