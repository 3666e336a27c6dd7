use cargo_add::feature::{contains_char, is_separator_char, parse_feature};

fn std_split(s: &str) -> Vec<String> {
    s.split_whitespace()
        .flat_map(|piece| piece.split(','))
        .filter(|piece| !piece.is_empty())
        .map(String::from)
        .collect()
}

#[test]
fn splits_on_commas_and_spaces() {
    assert_eq!(parse_feature("a,b c"), vec!["a".to_string(), "b".to_string(), "c".to_string()]);
}

#[test]
fn empty_input_gives_no_tokens() {
    assert_eq!(parse_feature(""), Vec::<String>::new());
}

#[test]
fn separators_alone_give_no_tokens() {
    assert_eq!(parse_feature(" , "), Vec::<String>::new());
    assert_eq!(parse_feature(",,,"), Vec::<String>::new());
    assert_eq!(parse_feature(" \t\n"), Vec::<String>::new());
}

#[test]
fn single_token_is_kept_whole() {
    assert_eq!(parse_feature("derive"), vec!["derive".to_string()]);
    assert_eq!(parse_feature("serde/derive"), vec!["serde/derive".to_string()]);
}

#[test]
fn repeated_separators_leave_no_empty_token() {
    assert_eq!(parse_feature("a,,b"), vec!["a".to_string(), "b".to_string()]);
    assert_eq!(parse_feature("  a  ,  b  "), vec!["a".to_string(), "b".to_string()]);
    assert_eq!(parse_feature(",a,"), vec!["a".to_string()]);
}

#[test]
fn token_order_is_input_order() {
    assert_eq!(
        parse_feature("z y,x w"),
        vec!["z".to_string(), "y".to_string(), "x".to_string(), "w".to_string()]
    );
}

#[test]
fn duplicates_are_kept_by_the_splitter() {
    assert_eq!(parse_feature("a a,a"), vec!["a".to_string(), "a".to_string(), "a".to_string()]);
}

#[test]
fn unicode_white_space_separates() {
    assert_eq!(parse_feature("a\u{2003}b\u{a0}c\u{3000}d"), vec![
        "a".to_string(),
        "b".to_string(),
        "c".to_string(),
        "d".to_string()
    ]);
    assert_eq!(parse_feature("\u{85}x\u{1680}"), vec!["x".to_string()]);
}

#[test]
fn characters_outside_ascii_stay_in_tokens() {
    assert_eq!(parse_feature("f\u{e9}e,\u{4e2d}\u{6587}"), vec![
        "f\u{e9}e".to_string(),
        "\u{4e2d}\u{6587}".to_string()
    ]);
    // U+200B is no white space
    assert_eq!(parse_feature("a\u{200b}b"), vec!["a\u{200b}b".to_string()]);
}

#[test]
fn splitter_agrees_with_std_on_samples() {
    let samples = [
        "",
        " ",
        ",",
        "a",
        "a,b c",
        "a b,c",
        " a ,, b\t\tc\n",
        "serde/derive,tokio/rt full",
        "\u{b}x\u{c}y\r\nz",
        "a\u{2028}b\u{2029}c\u{202f}d\u{205f}e",
        "\u{2000}\u{2001}\u{2002}\u{2004}\u{2005}\u{2006}\u{2007}\u{2008}\u{2009}\u{200a}q",
        "dep:x ,, y/z/w",
    ];
    for s in samples {
        assert_eq!(parse_feature(s), std_split(s), "input {:?}", s);
    }
}

#[test]
fn separator_test_agrees_with_std_on_every_char() {
    let mut c = 0u32;
    while c <= 0x10ffff {
        if let Some(ch) = char::from_u32(c) {
            assert_eq!(is_separator_char(ch), ch == ',' || ch.is_whitespace(), "U+{:04X}", c);
        }
        c += 1;
    }
}

#[test]
fn contains_char_finds_a_slash() {
    assert!(contains_char("a/b", '/'));
    assert!(contains_char("/", '/'));
    assert!(!contains_char("ab", '/'));
    assert!(!contains_char("", '/'));
    assert!(contains_char("\u{e9}/", '/'));
}
