use qims_backend::text::{
    before, begins, blank, char_is_alphanumeric, char_is_digit, char_is_space,
    char_to_lower, chars_of, collapsed, decimal_of, finishes, holds, last_position, lowered,
    matches_at, number_of, position, position_from, push_all, roman_number, same, signed_decimal_of, string_of,
    substring, trimmed, trimmed_start, trimmed_str, word_list,
};

const SAMPLES: [&str; 12] = [
    "",
    " ",
    "a",
    "page 2 of 6",
    "\u{a0}\u{2003}x\u{3000}",
    "É over ß",
    "a\tb\n c",
    "zebra",
    "zeb",
    "\u{10ffff}",
    "\u{ffff}",
    "..a..b..",
];

#[test]
fn characters_are_classified_as_in_std() {
    for c in '\0'..=char::MAX {
        assert_eq!(char_is_space(c), c.is_whitespace());
        assert_eq!(char_is_digit(c), c.is_ascii_digit());
        assert_eq!(char_is_alphanumeric(c), c.is_ascii_alphanumeric());
        assert_eq!(char_to_lower(c), c.to_ascii_lowercase());
    }
}

#[test]
fn characters_make_up_their_string() {
    for s in SAMPLES {
        assert_eq!(chars_of(s), s.chars().collect::<Vec<char>>());
        assert_eq!(string_of(&chars_of(s)), s);
    }
    assert_eq!(substring(&chars_of("häuser"), 1, 4), "äus");
    let mut cs = chars_of("ab");
    push_all(&mut cs, "çd");
    assert_eq!(string_of(&cs), "abçd");
}

#[test]
fn texts_are_compared_and_ordered_as_in_std() {
    for a in SAMPLES {
        for b in SAMPLES {
            assert_eq!(same(a, b), a == b);
            assert_eq!(before(a, b), a < b);
        }
    }
}

#[test]
fn searching_finds_what_std_finds() {
    for s in SAMPLES {
        let cs = chars_of(s);
        for pat in ["", "a", "..", " ", "zebra", "x\u{3000}"] {
            let at = |byte: usize| s[..byte].chars().count();
            assert_eq!(position(&cs, pat), s.find(pat).map(at));
            assert_eq!(last_position(&cs, pat), s.rfind(pat).map(at));
            assert_eq!(holds(&cs, pat), s.contains(pat));
            assert_eq!(begins(&cs, pat), s.starts_with(pat));
            assert_eq!(finishes(&cs, pat), s.ends_with(pat));
        }
    }
}

#[test]
fn the_first_position_is_found_from_a_given_one() {
    let cs = chars_of("abcabc");
    assert_eq!(position_from(&cs, "abc", 0), Some(0));
    assert_eq!(position_from(&cs, "abc", 1), Some(3));
    assert_eq!(position_from(&cs, "abc", 4), None);
    assert_eq!(position_from(&cs, "", 6), Some(6));
    assert_eq!(position_from(&cs, "", 7), None);
    assert!(matches_at(&cs, &['b', 'c'], 4));
    assert!(!matches_at(&cs, &['b', 'c'], 5));
}

#[test]
fn trimming_and_words_are_those_of_std() {
    for s in SAMPLES {
        assert_eq!(trimmed_str(s), s.trim());
        assert_eq!(string_of(&trimmed(&chars_of(s))), s.trim());
        assert_eq!(string_of(&trimmed_start(&chars_of(s))), s.trim_start());
        assert_eq!(blank(s), s.trim().is_empty());
        assert_eq!(collapsed(s), s.split_whitespace().collect::<Vec<&str>>().join(" "));
        assert_eq!(string_of(&lowered(&chars_of(s))), s.to_ascii_lowercase());
    }
    for s in SAMPLES {
        assert_eq!(word_list(&chars_of(s)), s.split_whitespace().collect::<Vec<&str>>());
    }
    assert_eq!(collapsed("  one\t\ttwo \n three "), "one two three");
}

#[test]
fn trimming_and_folding_twice_change_nothing() {
    for s in SAMPLES {
        assert_eq!(trimmed_str(&trimmed_str(s)), trimmed_str(s));
        let low = lowered(&chars_of(s));
        assert_eq!(lowered(&low), low);
    }
}

#[test]
fn numbers_are_written_in_decimal() {
    for n in [0u128, 9, 10, 12345, u64::MAX as u128, u128::MAX] {
        assert_eq!(decimal_of(n), format!("{n}"));
    }
    for n in [0i64, -1, 10, -98, i64::MAX, i64::MIN] {
        assert_eq!(signed_decimal_of(n), format!("{n}"));
    }
}

#[test]
fn roman_numerals_are_recognised() {
    for s in ["i", "iv", "ix", "xiv", "xl", "xc", "cd", "cm", "mcmxciv", "mmmcmxcix", "mix"] {
        assert!(roman_number(s));
    }
    for s in ["", "iiii", "vv", "ic", "mmmm", "a", "I", "ivi", "xi ", "12"] {
        assert!(!roman_number(s));
    }
}

#[test]
fn numbers_read_back() {
    for n in [0u32, 7, 10, 4294967295] {
        assert_eq!(number_of(&chars_of(&decimal_of(n as u128)), u32::MAX), Some(n));
    }
    assert_eq!(number_of(&chars_of("007"), 10), Some(7));
    assert_eq!(number_of(&chars_of("11"), 10), None);
    assert_eq!(number_of(&chars_of("4294967296"), u32::MAX), None);
    assert_eq!(number_of(&chars_of("99999999999999999999"), u32::MAX), None);
    assert_eq!(number_of(&[], u32::MAX), None);
    assert_eq!(number_of(&chars_of("1.5"), u32::MAX), None);
    assert_eq!(number_of(&chars_of("-1"), u32::MAX), None);
}
