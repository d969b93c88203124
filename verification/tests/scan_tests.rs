use perscrutar_lib::chars::{
    ascii_letter, escapable_char, label_char, space_char, value_char, value_punctuation,
};
use perscrutar_lib::parser::characters;
use perscrutar_lib::scan::{
    alphabeticlabel, alphabeticlabel_comment, alphanumericplus, assemble, bibentry_at, eolcomment,
    key_value_at, kvlist_at, label_at, pair_begins_at, parse_str, separator_at, sp, string_brc,
    string_spm, string_value, Failure, ParseError,
};

#[test]
fn character_classes() {
    for c in [' ', '\t', '\r', '\n'] {
        assert!(space_char(c));
    }
    assert!(!space_char('a'));
    assert!(!space_char('\u{a0}'));
    assert!(ascii_letter('a') && ascii_letter('z') && ascii_letter('A') && ascii_letter('Z'));
    assert!(!ascii_letter('@') && !ascii_letter('[') && !ascii_letter('`') && !ascii_letter('{'));
    assert!(!ascii_letter('ö') && !ascii_letter('\u{141}') && !ascii_letter('5'));
    assert!(label_char('-') && label_char('_') && label_char('q'));
    assert!(!label_char('.') && !label_char('1') && !label_char(' '));
    for c in ['-', '_', '.', ',', ';', ':', '/', ' ', '^', '$', '+', '*', '\n'] {
        assert!(value_punctuation(c));
        assert!(value_char(c));
    }
    assert!(!value_punctuation('\\') && !value_punctuation('#') && !value_punctuation('\t'));
    assert!(value_char('a') && value_char('Z') && value_char('0') && value_char('9'));
    assert!(value_char('ö') && value_char('数') && value_char('٣'));
    for c in ['\\', '#', '"', '{', '}', '=', '@', '\t', '\r', '(', '!', '€', '\u{a0}'] {
        assert!(!value_char(c));
    }
    assert!(escapable_char('"') && escapable_char('n') && escapable_char('\\'));
    assert!(!escapable_char('t') && !escapable_char('{'));
}

#[test]
fn sp_skips_whitespace_only() {
    let s = characters("  \t\r\n x ");
    assert_eq!(sp(&s, 0), 6);
    assert_eq!(sp(&s, 6), 6);
    assert_eq!(sp(&s, 7), 8);
    assert_eq!(sp(&s, 8), 8);
    assert_eq!(sp(&characters(""), 0), 0);
}

#[test]
fn alphabeticlabel_takes_the_longest_run() {
    assert_eq!(alphabeticlabel(&characters("Cox-CFT,"), 0), 7);
    assert_eq!(alphabeticlabel(&characters("abc1"), 0), 3);
    assert_eq!(alphabeticlabel(&characters("a_b c"), 0), 3);
    assert_eq!(alphabeticlabel(&characters("1abc"), 0), 0);
    assert_eq!(alphabeticlabel(&characters("1abc"), 1), 4);
    assert_eq!(alphabeticlabel(&characters(""), 0), 0);
}

#[test]
fn runs_and_escapes() {
    let s = characters("ab\\nc d#e");
    assert_eq!(alphanumericplus(&s, 0), 2);
    assert_eq!(parse_str(&s, 0), 7);
    assert_eq!(alphanumericplus(&s, 4), 7);
    assert_eq!(parse_str(&characters("ab\\"), 0), 2);
    assert_eq!(parse_str(&characters("ab\\t"), 0), 2);
    assert_eq!(parse_str(&characters("\\\\\\\"x\""), 0), 5);
    assert_eq!(parse_str(&characters("#a"), 0), 0);
    assert_eq!(parse_str(&characters(""), 0), 0);
}

#[test]
fn eolcomment_needs_its_newline() {
    assert_eq!(eolcomment(&characters("#abc\nrest"), 0), Some(5));
    assert_eq!(eolcomment(&characters("#\n"), 0), Some(2));
    assert_eq!(eolcomment(&characters("#abc"), 0), None);
    assert_eq!(eolcomment(&characters("x#a\n"), 0), None);
    assert_eq!(eolcomment(&characters("x#a\n"), 1), Some(4));
    assert_eq!(eolcomment(&characters(""), 0), None);
}

#[test]
fn label_with_comment_and_whitespace() {
    assert_eq!(alphabeticlabel_comment(&characters("title#c\n ="), 0), (5, 8));
    assert_eq!(alphabeticlabel_comment(&characters("title ="), 0), (5, 5));
    assert_eq!(alphabeticlabel_comment(&characters("title #c\n"), 0), (5, 5));
    assert_eq!(alphabeticlabel_comment(&characters("#c\n"), 0), (0, 3));
    assert_eq!(label_at(&characters("title#c\n  ="), 0), (5, 10));
    assert_eq!(label_at(&characters("book {"), 0), (4, 5));
}

#[test]
fn assemble_joins_runs() {
    let i = "{a b#c\n#d\ne\\nf}";
    let s = characters(i);
    assert_eq!(assemble(i, &s, 1), (14, String::from("a be\\nf")));
    assert_eq!(assemble(i, &s, 0), (0, String::new()));
    assert_eq!(assemble(i, &s, s.len()), (s.len(), String::new()));
}

#[test]
fn delimited_strings() {
    let i = "\"abc\" x";
    let s = characters(i);
    assert_eq!(string_spm(i, &s, 0), Ok((5, String::from("abc"))));
    assert_eq!(
        string_brc(i, &s, 0),
        Err(Failure::Recoverable(ParseError { position: 0, expected: '{' }))
    );
    assert_eq!(string_value(i, &s, 0), Ok((5, String::from("abc"))));
    let i = "{a#c\nb}";
    let s = characters(i);
    assert_eq!(string_brc(i, &s, 0), Ok((7, String::from("ab"))));
    assert_eq!(
        string_spm(i, &s, 0),
        Err(Failure::Recoverable(ParseError { position: 0, expected: '"' }))
    );
    assert_eq!(string_value(i, &s, 0), Ok((7, String::from("ab"))));
    let i = "{}";
    assert_eq!(string_brc(i, &characters(i), 0), Ok((2, String::new())));
    let i = "{abc";
    assert_eq!(
        string_brc(i, &characters(i), 0),
        Err(Failure::Fatal(ParseError { position: 4, expected: '}' }))
    );
    let i = "x\"abc";
    assert_eq!(
        string_value(i, &characters(i), 1),
        Err(Failure::Fatal(ParseError { position: 5, expected: '"' }))
    );
    let i = "abc";
    assert_eq!(
        string_value(i, &characters(i), 0),
        Err(Failure::Recoverable(ParseError { position: 0, expected: '{' }))
    );
    assert_eq!(
        string_value(i, &characters(i), 3),
        Err(Failure::Recoverable(ParseError { position: 3, expected: '{' }))
    );
}

#[test]
fn key_value_from_a_position() {
    let i = "xx a = {1}, b";
    let s = characters(i);
    assert_eq!(key_value_at(i, &s, 2), Ok((10, (String::from("a"), String::from("1")))));
    assert_eq!(
        key_value_at(i, &s, 11),
        Err(Failure::Fatal(ParseError { position: 13, expected: '=' }))
    );
}

#[test]
fn where_a_pair_begins() {
    assert!(pair_begins_at(&characters(" a"), 0));
    assert!(pair_begins_at(&characters("= {x}"), 0));
    assert!(pair_begins_at(&characters("  \n= {x}"), 0));
    assert!(pair_begins_at(&characters("#c\n= {x}"), 0));
    assert!(!pair_begins_at(&characters("}"), 0));
    assert!(!pair_begins_at(&characters("  "), 0));
    assert!(!pair_begins_at(&characters(""), 0));
    assert!(!pair_begins_at(&characters("1 = {x}"), 0));
    assert!(!pair_begins_at(&characters("#c\n a = {x}"), 0));
    assert!(!pair_begins_at(&characters(", a = {x}"), 0));
}

#[test]
fn separators() {
    assert_eq!(separator_at(&characters(" , # c\n x"), 0), Some(7));
    assert_eq!(separator_at(&characters(",#c\nx"), 0), Some(4));
    assert_eq!(separator_at(&characters(", x"), 0), Some(1));
    assert_eq!(separator_at(&characters("  ,"), 0), Some(3));
    assert_eq!(separator_at(&characters(", # no newline"), 0), Some(1));
    assert_eq!(separator_at(&characters(" x"), 0), None);
    assert_eq!(separator_at(&characters("#c\n,"), 0), None);
    assert_eq!(separator_at(&characters(""), 0), None);
}

#[test]
fn field_list_from_a_position() {
    let i = "{k, a = {1} ,\n b = \"2\"\n } ";
    let s = characters(i);
    let (end, fields) = match kvlist_at(i, &s, 3) {
        Ok(found) => found,
        Err(e) => panic!("{:?}", e),
    };
    assert_eq!(end, 24);
    assert_eq!(fields.len(), 2);
    assert_eq!(fields.get("a").cloned(), Some(String::from("1")));
    assert_eq!(fields.get("b").cloned(), Some(String::from("2")));
    let (end, fields) = match kvlist_at(i, &s, 24) {
        Ok(found) => found,
        Err(e) => panic!("{:?}", e),
    };
    assert_eq!(end, 24);
    assert_eq!(fields.len(), 0);
}

#[test]
fn entry_from_a_position() {
    let i = "junk @misc#m\n {key#k\n , a = {1}} @";
    let s = characters(i);
    let (end, entry) = match bibentry_at(i, &s, 4) {
        Ok(found) => found,
        Err(e) => panic!("{:?}", e),
    };
    assert_eq!(end, 32);
    assert_eq!(entry.type_label, "misc");
    assert_eq!(entry.citation_key, "key");
    assert_eq!(entry.fields.get("a").cloned(), Some(String::from("1")));
    assert_eq!(
        bibentry_at(i, &s, 0).err(),
        Some(Failure::Recoverable(ParseError { position: 0, expected: '@' }))
    );
    assert_eq!(
        bibentry_at(i, &s, 32).err(),
        Some(Failure::Fatal(ParseError { position: 34, expected: '{' }))
    );
}
