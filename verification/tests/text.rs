use sql_engine::text::{
    blank, chars_of, is_text_less, join_commas, same_text, split_commas, trim, unquote,
};

fn owned(items: &[&str]) -> Vec<String> {
    items.iter().map(|s| s.to_string()).collect()
}

#[test]
fn chars_are_read_in_order() {
    assert_eq!(chars_of("año"), ['a', 'ñ', 'o']);
    assert!(chars_of("").is_empty());
}

#[test]
fn same_text_compares_every_character() {
    assert!(same_text("", ""));
    assert!(same_text("abc", "abc"));
    assert!(!same_text("abc", "abd"));
    assert!(!same_text("abc", "ab"));
    assert!(!same_text("ab", "abc"));
    assert!(!same_text("Abc", "abc"));
}

#[test]
fn dictionary_order() {
    assert!(is_text_less("a", "b"));
    assert!(!is_text_less("b", "a"));
    assert!(!is_text_less("a", "a"));
    assert!(is_text_less("", "a"));
    assert!(!is_text_less("a", ""));
    assert!(!is_text_less("", ""));
    assert!(is_text_less("ab", "abc"));
    assert!(!is_text_less("abc", "ab"));
    assert!(is_text_less("abc", "abd"));
    assert!(is_text_less("10", "9"));
    assert!(is_text_less("Z", "a"));
    assert!(is_text_less("z", "é"));
    assert!(is_text_less("é", "\u{10000}"));
}

#[test]
fn dictionary_order_is_the_order_of_strings() {
    let samples = ["", "a", "ab", "b", "B", "10", "9", "é", "z", "\u{ffff}", "\u{10000}", "ñandú"];
    for a in samples {
        for b in samples {
            assert_eq!(is_text_less(a, b), a < b);
            assert_eq!(same_text(a, b), a == b);
        }
    }
}

#[test]
fn split_cuts_at_every_comma() {
    assert_eq!(split_commas("a,b,c"), ["a", "b", "c"]);
    assert_eq!(split_commas("abc"), ["abc"]);
    assert_eq!(split_commas(""), [""]);
    assert_eq!(split_commas(","), ["", ""]);
    assert_eq!(split_commas("a,,b,"), ["a", "", "b", ""]);
    assert_eq!(split_commas(" a , b "), [" a ", " b "]);
    assert_eq!(split_commas("Juan,Pérez,30"), ["Juan", "Pérez", "30"]);
}

#[test]
fn join_writes_commas_between_the_pieces() {
    assert_eq!(join_commas(&owned(&["a", "b", "c"])), "a,b,c");
    assert_eq!(join_commas(&owned(&["abc"])), "abc");
    assert_eq!(join_commas(&owned(&[])), "");
    assert_eq!(join_commas(&owned(&["", ""])), ",");
    assert_eq!(join_commas(&owned(&["Alen", "", ""])), "Alen,,");
}

#[test]
fn split_and_join_undo_each_other() {
    for line in ["", "a", "a,b", ",", "a,,b,", "Juan,Pérez,30"] {
        assert_eq!(join_commas(&split_commas(line)), line);
    }
    for pieces in [owned(&["a"]), owned(&[""]), owned(&["a", "", "b"]), owned(&["", ""])] {
        assert_eq!(split_commas(&join_commas(&pieces)), pieces);
    }
}

#[test]
fn trim_takes_white_space_off_both_ends() {
    assert_eq!(trim("  a b  "), "a b");
    assert_eq!(trim("a"), "a");
    assert_eq!(trim(""), "");
    assert_eq!(trim(" \t\r\n"), "");
    assert_eq!(trim("name,age\n"), "name,age");
    assert_eq!(trim("\u{a0}x\u{3000}"), "x");
}

#[test]
fn trim_is_the_trim_of_strings() {
    for s in ["", " ", "a", " a", "a ", "\ta\n", "\u{2003}a\u{2028}", "\u{200b}a", "a\u{85}"] {
        assert_eq!(trim(s), s.trim());
    }
    for code in 0..0x3100u32 {
        if let Some(c) = char::from_u32(code) {
            assert_eq!(blank(c), c.is_whitespace());
        }
    }
}

#[test]
fn unquote_takes_out_every_quote() {
    assert_eq!(unquote("'Alen', 25"), "Alen, 25");
    assert_eq!(unquote("abc"), "abc");
    assert_eq!(unquote(""), "");
    assert_eq!(unquote("'''"), "");
    assert_eq!(unquote("a'b'c'"), "abc");
    assert_eq!(unquote("\"a\""), "\"a\"");
}
