use perscrutar_lib::data::{BibType, Entry, Fields};
use perscrutar_lib::parser::{bibentry, characters, key_value, kvlist, parse_entry, parse_str_with_comments};
use perscrutar_lib::scan::{Failure, ParseError};

fn owned(label: &str, value: &str) -> (String, String) {
    (String::from(label), String::from(value))
}

fn remainder(input: &str, position: usize) -> String {
    input.chars().skip(position).collect()
}

fn value_of(fields: &Fields, label: &str) -> Option<String> {
    fields.get(label).cloned()
}

#[test]
fn test_comment() {
    let r1t = r#"This is valid#This is a comment
Test more also this line # ends with a comment too
#starts with a comment
#gogogo
Ok, no comment."#;
    let r1 = parse_str_with_comments(r1t);
    println!("{:?}", r1);
    assert_eq!(r1, Ok(("", String::from("This is validTest more also this line Ok, no comment."))));
}

#[test]
fn test_kv_one() {
    let r1 = key_value(" Author = {Some Author}");
    assert_eq!(r1, Ok(("", owned("Author", "Some Author"))));

    let r2 = key_value("   Author = \"Sömé Àüthör\",");
    assert_eq!(r2, Ok((",", owned("Author", "Sömé Àüthör"))));

    let i3 = "   Author = {Sömé Àüthör\",";
    let r3 = key_value(i3);
    assert_eq!(r3, Err(Failure::Fatal(ParseError { position: 24, expected: '}' })));
    assert_eq!(remainder(i3, 24), "\",");

    let r4 = key_value("{Author Sömé Àüthör");
    assert!(r4.is_err());

    let r5 = key_value("title = {Primes of the form $x^2 + ny^2$: Fermat, Class Field Theory, and Complex Multiplication},");
    assert!(r5.is_err() == false);

    let r6 = key_value("title = {Primes of the form $x^2 + ny^2$: Fermat, Class Field Theory, and Complex Multiplication}, # some comment");
    println!("{:?}", r6);

    let r7 = key_value("title = {Primes of # some comment\nthe form $x^2 + ny^2$: Fermat, Class Field Theory, and Complex Multiplication}");
    assert!(r7.is_err() == false);

    let r8 = key_value("ti # tle = {Primes of # some comment");
    println!("{:?}", r8);

    let r9t = r#"
            Author = {Some Author and
                # some
                Sömé Àüthör};
        "#;

    let r9 = key_value(r9t);
    assert!(r9.is_err() == false);
}

#[test]
fn test_kvpairs() {
    let b1 = r#"
        author = {Some Author},
        title = {Some fancy title},
        isbn = "111-111123212-1111"
           
        "#;

    let r1 = kvlist(b1);
    assert!(r1.is_err() == false);
}

#[test]
fn test_bibentry() {
    let b1 = r#"
        @book{Ref-Name,
            author = {Some Author},
            title = {Some fancy title} ,
            isbn = {111-111123212-1111}
        }
        "#;

    let b2 = r#"
@book{Cox-CFT,
    author = {David A. Cox},
    title = {Primes of the form $x^2 + ny^2$: Fermat, Class Field Theory, and Complex Multiplication},
    edition = {2nd ed.},
    publisher = {John Wiley and Sons Inc},
    year = {2013},
    ISBN = {978-1-118-39018-4},
    doi = {10.1002/9781118400722}
}
        "#;

    let b2a = r#"
@book { Cox-CFT,
    author = {David A. Cox},
    title = {Primes of the form $x^2 + ny^2$: Fermat, Class Field Theory, and Complex Multiplication},
    edition = {2nd ed.},
    publisher = {John Wiley and Sons Inc},
    year = {2013},
    ISBN = {978-1-118-39018-4},
    doi = {10.1002/9781118400722}
}
        "#;

    let b3 = r#"
@book{Cox-CFT,
    author = {David A. Cox},
    title = {Primes of the form $x^2 + ny^2$: Fermat, 
        Class Field Theory, and Complex Multiplication},
    # edition = {2nd ed.},
    publisher = {John Wiley and Sons Inc},
    # comment:
    year = {2013},
    ISBN = {978-1-118-39018-4}, # comment
    doi = {10.1002/9781118400722}
}
        "#;

    let r1 = bibentry(b1);
    assert!(r1.is_err() == false);

    let r2 = bibentry(b2);
    assert!(r2.is_err() == false);

    let r2a = bibentry(b2a);
    assert!(r2a.is_err() == false);

    let r3 = bibentry(b3);
    assert!(r3.is_err() == false);
}

#[test]
fn bibentry_gives_the_parts_of_each_entry() {
    let b3 = "\n@book{Cox-CFT,\n    author = {David A. Cox},\n    title = {Primes of the form $x^2 + ny^2$: Fermat, \n        Class Field Theory},\n    # edition = {2nd ed.},\n    publisher = {John Wiley and Sons Inc},\n    ISBN = {978-1-118-39018-4}, # comment\n    doi = {10.1002/9781118400722}\n}\n        ";
    let (rest, (type_label, citation_key, fields)) = match bibentry(b3) {
        Ok(found) => found,
        Err(e) => panic!("{:?}", e),
    };
    assert_eq!(rest, "\n        ");
    assert_eq!(type_label, "book");
    assert_eq!(citation_key, "Cox-CFT");
    assert_eq!(fields.len(), 5);
    assert_eq!(value_of(&fields, "author"), Some(String::from("David A. Cox")));
    assert_eq!(
        value_of(&fields, "title"),
        Some(String::from("Primes of the form $x^2 + ny^2$: Fermat, \n        Class Field Theory"))
    );
    assert_eq!(value_of(&fields, "publisher"), Some(String::from("John Wiley and Sons Inc")));
    assert_eq!(value_of(&fields, "ISBN"), Some(String::from("978-1-118-39018-4")));
    assert_eq!(value_of(&fields, "doi"), Some(String::from("10.1002/9781118400722")));
    assert_eq!(value_of(&fields, "edition"), None);
    assert!(!fields.contains_key("edition"));
}

#[test]
fn entry_end_to_end() {
    let input = "@book{Cox-CFT,\n    author = {David A. Cox},\n    year = {2013}\n}";
    let (rest, entry): (&str, Entry) = match parse_entry(input) {
        Ok(found) => found,
        Err(e) => panic!("{:?}", e),
    };
    assert_eq!(rest, "");
    assert_eq!(entry.type_label, "book");
    assert_eq!(entry.citation_key, "Cox-CFT");
    assert_eq!(entry.fields.len(), 2);
    assert_eq!(value_of(&entry.fields, "author"), Some(String::from("David A. Cox")));
    assert_eq!(value_of(&entry.fields, "year"), Some(String::from("2013")));
}

#[test]
fn entry_leaves_what_follows_it() {
    let input = "  @misc{k, a = {1}}\n@book{next";
    let (rest, entry) = match parse_entry(input) {
        Ok(found) => found,
        Err(e) => panic!("{:?}", e),
    };
    assert_eq!(rest, "\n@book{next");
    assert_eq!(entry.type_label, "misc");
    assert_eq!(entry.citation_key, "k");
    assert_eq!(value_of(&entry.fields, "a"), Some(String::from("1")));
}

#[test]
fn comment_and_unicode_in_a_value() {
    let r = key_value("author = {Sömé # note\nÀüthör}");
    assert_eq!(r, Ok(("", owned("author", "Sömé Àüthör"))));
}

#[test]
fn comment_leaves_no_separator_behind() {
    assert_eq!(parse_str_with_comments("a#note\nb"), Ok(("", String::from("ab"))));
    assert_eq!(parse_str_with_comments("a #note\nb"), Ok(("", String::from("a b"))));
    assert_eq!(parse_str_with_comments("a#one\n#two\nb}"), Ok(("}", String::from("ab"))));
}

#[test]
fn comment_removed_equals_comment_absent() {
    let with = parse_str_with_comments("Primes of # some comment\nthe form}");
    let without = parse_str_with_comments("Primes of the form}");
    assert_eq!(with, without);
    assert_eq!(with, Ok(("}", String::from("Primes of the form"))));
}

#[test]
fn unterminated_comment_ends_the_body() {
    assert_eq!(
        parse_str_with_comments("abc # no newline"),
        Ok(("# no newline", String::from("abc ")))
    );
    let r = key_value("a = {abc # no newline}");
    assert_eq!(r, Err(Failure::Fatal(ParseError { position: 9, expected: '}' })));
}

#[test]
fn value_round_trips_in_both_delimiters() {
    let value = "Primes of the form $x^2 + ny^2$: Fermat; a/b, c_d-e.f*g\nSömé 42";
    let braced = format!("title = {{{}}}", value);
    assert_eq!(key_value(&braced), Ok(("", owned("title", value))));
    let quoted = format!("title = \"{}\"", value);
    assert_eq!(key_value(&quoted), Ok(("", owned("title", value))));
}

#[test]
fn escapes_stay_in_escaped_form() {
    assert_eq!(key_value("t = \"a\\\"b\""), Ok(("", owned("t", "a\\\"b"))));
    assert_eq!(key_value("t = {a\\nb\\\\c}"), Ok(("", owned("t", "a\\nb\\\\c"))));
}

#[test]
fn backslash_without_escape_is_not_taken() {
    assert_eq!(parse_str_with_comments("ab\\qc"), Ok(("\\qc", String::from("ab"))));
    assert_eq!(parse_str_with_comments("ab\\"), Ok(("\\", String::from("ab"))));
    let r = key_value("t = {a\\qb}");
    assert_eq!(r, Err(Failure::Fatal(ParseError { position: 6, expected: '}' })));
}

#[test]
fn unterminated_string_is_fatal() {
    let r = key_value("title = {abc");
    assert_eq!(r, Err(Failure::Fatal(ParseError { position: 12, expected: '}' })));
    let r = key_value("title = \"abc");
    assert_eq!(r, Err(Failure::Fatal(ParseError { position: 12, expected: '"' })));
}

#[test]
fn quoted_string_does_not_close_with_a_brace() {
    let r = key_value("title = \"abc}");
    assert_eq!(r, Err(Failure::Fatal(ParseError { position: 12, expected: '"' })));
}

#[test]
fn missing_equals_is_fatal() {
    assert_eq!(
        key_value("  title {abc}"),
        Err(Failure::Fatal(ParseError { position: 8, expected: '=' }))
    );
    assert_eq!(
        key_value("{Author Sömé Àüthör"),
        Err(Failure::Fatal(ParseError { position: 0, expected: '=' }))
    );
}

#[test]
fn value_that_does_not_open_is_recoverable() {
    assert_eq!(
        key_value("year = 2013"),
        Err(Failure::Recoverable(ParseError { position: 7, expected: '{' }))
    );
}

#[test]
fn label_takes_a_comment_directly_after_it() {
    assert_eq!(key_value("title#what\n = {x}"), Ok(("", owned("title", "x"))));
}

#[test]
fn label_is_letters_hyphen_and_underscore() {
    assert_eq!(key_value("a-b_C = {x}"), Ok(("", owned("a-b_C", "x"))));
    assert_eq!(
        key_value("ab1 = {x}"),
        Err(Failure::Fatal(ParseError { position: 2, expected: '=' }))
    );
    assert_eq!(
        key_value("aö = {x}"),
        Err(Failure::Fatal(ParseError { position: 1, expected: '=' }))
    );
    assert_eq!(
        key_value("a\u{141} = {x}"),
        Err(Failure::Fatal(ParseError { position: 1, expected: '=' }))
    );
}

#[test]
fn empty_label_is_taken_where_equals_follows() {
    assert_eq!(key_value(" = {x}"), Ok(("", owned("", "x"))));
}

#[test]
fn value_takes_letters_and_digits_of_any_script() {
    assert_eq!(key_value("a = {Ωμέγα ٣ 数}"), Ok(("", owned("a", "Ωμέγα ٣ 数"))));
    assert_eq!(
        key_value("a = {5 €}"),
        Err(Failure::Fatal(ParseError { position: 7, expected: '}' }))
    );
    assert_eq!(
        key_value("a = {x@y}"),
        Err(Failure::Fatal(ParseError { position: 6, expected: '}' }))
    );
}

#[test]
fn duplicate_label_keeps_the_last_value() {
    let (rest, fields) = match kvlist("a={1}, a={2}") {
        Ok(found) => found,
        Err(e) => panic!("{:?}", e),
    };
    assert_eq!(rest, "");
    assert_eq!(fields.len(), 1);
    assert_eq!(value_of(&fields, "a"), Some(String::from("2")));
}

#[test]
fn trailing_comma_adds_no_pair() {
    let (rest_with, with) = match kvlist("a = {1}, b = \"2\" , \n }") {
        Ok(found) => found,
        Err(e) => panic!("{:?}", e),
    };
    let (rest_without, without) = match kvlist("a = {1}, b = \"2\" \n }") {
        Ok(found) => found,
        Err(e) => panic!("{:?}", e),
    };
    assert_eq!(rest_with, "}");
    assert_eq!(rest_without, "}");
    assert_eq!(with.len(), 2);
    assert_eq!(without.len(), 2);
    assert_eq!(value_of(&with, "a"), value_of(&without, "a"));
    assert_eq!(value_of(&with, "b"), value_of(&without, "b"));
    assert_eq!(value_of(&with, "b"), Some(String::from("2")));
}

#[test]
fn trailing_comma_may_carry_a_comment() {
    let (rest, fields) = match kvlist("a = {1}, # last\n  }") {
        Ok(found) => found,
        Err(e) => panic!("{:?}", e),
    };
    assert_eq!(rest, "}");
    assert_eq!(fields.len(), 1);
}

#[test]
fn entry_with_trailing_comma() {
    let (rest, entry) = match parse_entry("@article{key, year = {2013},\n}") {
        Ok(found) => found,
        Err(e) => panic!("{:?}", e),
    };
    assert_eq!(rest, "");
    assert_eq!(entry.fields.len(), 1);
    assert_eq!(value_of(&entry.fields, "year"), Some(String::from("2013")));
}

#[test]
fn empty_field_list() {
    let (rest, fields) = match kvlist("  \n }") {
        Ok(found) => found,
        Err(e) => panic!("{:?}", e),
    };
    assert_eq!(rest, "}");
    assert_eq!(fields.len(), 0);
    let (rest, entry) = match parse_entry("@misc{key,}") {
        Ok(found) => found,
        Err(e) => panic!("{:?}", e),
    };
    assert_eq!(rest, "");
    assert_eq!(entry.citation_key, "key");
    assert_eq!(entry.fields.len(), 0);
}

#[test]
fn pair_that_begins_and_fails_is_fatal_in_a_list() {
    assert_eq!(
        kvlist("a = {1}, year = 2013").err(),
        Some(Failure::Fatal(ParseError { position: 16, expected: '{' }))
    );
    assert_eq!(
        kvlist("a = {1}, year {2013}").err(),
        Some(Failure::Fatal(ParseError { position: 14, expected: '=' }))
    );
    assert_eq!(
        kvlist("a = {1}, b = {2").err(),
        Some(Failure::Fatal(ParseError { position: 15, expected: '}' }))
    );
}

#[test]
fn entry_without_at_is_recoverable() {
    assert_eq!(
        parse_entry("  book{key, a = {1}}").err(),
        Some(Failure::Recoverable(ParseError { position: 2, expected: '@' }))
    );
    assert_eq!(
        parse_entry("").err(),
        Some(Failure::Recoverable(ParseError { position: 0, expected: '@' }))
    );
}

#[test]
fn entry_failures_after_at_are_fatal() {
    assert_eq!(
        parse_entry("@book key, a = {1}}").err(),
        Some(Failure::Fatal(ParseError { position: 6, expected: '{' }))
    );
    assert_eq!(
        parse_entry("@book{key a = {1}}").err(),
        Some(Failure::Fatal(ParseError { position: 10, expected: ',' }))
    );
    assert_eq!(
        parse_entry("@book{key, a = {1}").err(),
        Some(Failure::Fatal(ParseError { position: 18, expected: '}' }))
    );
    assert_eq!(
        parse_entry("@book{key, a = {1} b = {2}}").err(),
        Some(Failure::Fatal(ParseError { position: 19, expected: '}' }))
    );
    assert_eq!(
        parse_entry("@book{key, title = {abc").err(),
        Some(Failure::Fatal(ParseError { position: 23, expected: '}' }))
    );
}

#[test]
fn entry_with_empty_type_label_is_taken() {
    let (rest, entry) = match parse_entry("@{key, a = {1}}") {
        Ok(found) => found,
        Err(e) => panic!("{:?}", e),
    };
    assert_eq!(rest, "");
    assert_eq!(entry.type_label, "");
    assert_eq!(entry.citation_key, "key");
}

#[test]
fn characters_are_those_of_the_text() {
    assert_eq!(characters("aö数"), vec!['a', 'ö', '数']);
    assert_eq!(characters(""), Vec::<char>::new());
}

#[test]
fn fields_insert_and_get() {
    let mut fields = Fields::new();
    assert_eq!(fields.len(), 0);
    fields.insert(String::from("a"), String::from("1"));
    fields.insert(String::from("b"), String::from("2"));
    fields.insert(String::from("a"), String::from("3"));
    assert_eq!(fields.len(), 2);
    assert_eq!(value_of(&fields, "a"), Some(String::from("3")));
    assert_eq!(value_of(&fields, "b"), Some(String::from("2")));
    assert_eq!(value_of(&fields, "c"), None);
}

#[test]
fn bib_types_are_distinct() {
    assert_ne!(BibType::Article, BibType::Book);
    assert_eq!(BibType::PhdThesis, BibType::PhdThesis);
}
