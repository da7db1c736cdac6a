use manga_scraper::decimal::{count_text, int_text, parse_count_chars};
use manga_scraper::text::{
    chars_equal, chars_of, contains_chars, replace_chars, split_chars, string_from_chars,
    text_contains, text_equal, text_replace,
};

const SAMPLES: [&str; 9] = ["", "a", "aaa", "a,}b,}", ",,}", "x/y/z", "héllo wörld", "a\nb\n", "//"];

#[test]
fn replace_matches_std() {
    for s in SAMPLES {
        for (p, r) in [(",}", "}"), ("a", "bb"), ("aa", "c"), ("/", ""), ("\n", "\\n"), ("ö", "o")] {
            assert_eq!(text_replace(s, p, r), s.replace(p, r), "{:?} {:?} {:?}", s, p, r);
        }
    }
    assert_eq!(text_replace("a,}b,}", ",}", "}"), "a}b}");
    assert_eq!(text_replace("aaa", "aa", "b"), "ba");
}

#[test]
fn contains_matches_std() {
    for s in SAMPLES {
        for p in ["", "a", "aa", ",}", "/", "wör", "zz"] {
            assert_eq!(text_contains(s, p), s.contains(p), "{:?} {:?}", s, p);
            assert_eq!(contains_chars(&chars_of(s), &chars_of(p)), s.contains(p));
        }
    }
}

#[test]
fn split_matches_std() {
    for s in SAMPLES {
        for sep in ['/', '\n', ',', 'a'] {
            let pieces: Vec<String> =
                split_chars(&chars_of(s), sep).iter().map(string_from_chars).collect();
            let expected: Vec<String> = s.split(sep).map(|p| p.to_string()).collect();
            assert_eq!(pieces, expected);
        }
    }
}

#[test]
fn equality_of_texts() {
    assert!(text_equal("abc", "abc"));
    assert!(!text_equal("abc", "abd"));
    assert!(!text_equal("ab", "abc"));
    assert!(chars_equal(&chars_of(""), &vec![]));
}

#[test]
fn replace_chars_by_vectors() {
    let r = replace_chars(&chars_of("x,}y"), &chars_of(",}"), &chars_of("}"));
    assert_eq!(string_from_chars(&r), "x}y");
}

#[test]
fn decimal_texts_match_display() {
    for n in [0u64, 7, 10, 99, 1234567890, u64::MAX] {
        assert_eq!(count_text(n), n.to_string());
    }
    for i in [0i32, -7, 42, i32::MIN, i32::MAX] {
        assert_eq!(int_text(i), i.to_string());
    }
}

#[test]
fn count_parsing_matches_std() {
    for s in ["0", "12", "+5", "", "+", "-1", "1a", " 1", "007", "18446744073709551615", "18446744073709551616", "99999999999999999999"] {
        assert_eq!(parse_count_chars(&chars_of(s)), s.parse::<usize>().ok(), "{:?}", s);
    }
}
