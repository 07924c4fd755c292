use pocketcam::text::{
    chars, decimal_chars, find, lower_chars, parse_number, push_decimal, push_padded, remove_all,
    replace_all, same, same_in_any_case, starts_with, tail, text, trim,
};

fn v(s: &str) -> Vec<char> {
    s.chars().collect()
}

#[test]
fn texts_are_built_character_by_character() {
    assert_eq!(chars("a·😀"), v("a·😀"));
    assert_eq!(text(&v("a·😀")), "a·😀");
    let mut s = String::from("n=");
    push_decimal(&mut s, 0);
    push_decimal(&mut s, 1234567890123);
    push_padded(&mut s, 7, 3);
    push_padded(&mut s, 12345, 3);
    assert_eq!(s, "n=0123456789012300712345");
}

#[test]
fn numbers_read_back_as_they_were_written() {
    for n in [0u32, 9, 10, 8443, u32::MAX] {
        let d = decimal_chars(n as u128);
        assert_eq!(d, v(&n.to_string()));
        assert_eq!(parse_number(&d, u32::MAX), Some(n));
    }
    assert_eq!(parse_number(&v("+8443"), 65535), Some(8443));
    assert_eq!(parse_number(&v("65536"), 65535), None);
    assert_eq!(parse_number(&v(""), 65535), None);
    assert_eq!(parse_number(&v("+"), 65535), None);
    assert_eq!(parse_number(&v("8 4"), 65535), None);
    assert_eq!(parse_number(&v("99999999999999999999"), u32::MAX), None);
}

#[test]
fn texts_are_searched_and_replaced() {
    assert_eq!(find(&v("abcabc"), &v("ca"), 0), Some(2));
    assert_eq!(find(&v("abcabc"), &v("ab"), 1), Some(3));
    assert_eq!(find(&v("abc"), &v("d"), 0), None);
    assert_eq!(text(&replace_all(&v("aaa"), "aa", "b")), "ba");
    assert_eq!(text(&remove_all(&v("AMD AMD x"), "AMD ")), "x");
    assert_eq!(text(&trim(&v(" \t a b \u{3000}\n"))), "a b");
    assert_eq!(text(&trim(&v(" \n"))), "");
    assert_eq!(text(&tail(&v("C:\\a/b.exe"), '\\', '/')), "b.exe");
    assert_eq!(text(&tail(&v("b.exe"), '\\', '/')), "b.exe");
    assert_eq!(text(&lower_chars(&v("AÄZ"))), "aÄz");
    assert!(starts_with(&v("3dx"), "3d"));
    assert!(!starts_with(&v("3"), "3d"));
    assert!(same("a", "a") && !same("a", "A"));
    assert!(same_in_any_case(&v("TrUe"), "TRUE"));
}
