use verb_memorizer::{
    is_two_forms_correct, remove_extra_whitespaces, replace_commas_with_whitespaces,
};

fn refusal(raw: &str) -> String {
    format!("The string '{}' does not satisfy the pattern 'word word'", raw)
}

#[test]
fn commas_become_spaces() {
    assert_eq!(replace_commas_with_whitespaces("a,b,,c"), "a b  c");
    assert_eq!(replace_commas_with_whitespaces(","), " ");
    assert_eq!(replace_commas_with_whitespaces(""), "");
    assert_eq!(replace_commas_with_whitespaces("no comma"), "no comma");
}

#[test]
fn runs_of_whitespace_become_one_space() {
    assert_eq!(remove_extra_whitespaces("a   b"), "a b");
    assert_eq!(remove_extra_whitespaces("a \t\n b"), "a b");
    assert_eq!(remove_extra_whitespaces("a\tb"), "a b");
    assert_eq!(remove_extra_whitespaces("  a  b  "), " a b ");
    assert_eq!(remove_extra_whitespaces("a\u{a0}\u{2003}b\u{3000}c"), "a b c");
    assert_eq!(remove_extra_whitespaces(""), "");
    assert_eq!(remove_extra_whitespaces("abc"), "abc");
    assert_eq!(remove_extra_whitespaces("\u{200b}"), "\u{200b}");
}

#[test]
fn two_words_are_accepted_whatever_stands_between() {
    for raw in [
        "saw seen",
        "saw,seen",
        "saw, seen",
        "saw ,seen",
        "saw , , seen",
        "saw\tseen",
        "saw \r\n seen",
        "saw\u{a0}seen",
        "saw\u{2003}\u{3000}seen",
        "saw,,,,seen",
    ] {
        assert_eq!(is_two_forms_correct(raw), Ok("saw seen".to_string()), "{:?}", raw);
    }
}

#[test]
fn words_hold_letters_digits_marks_and_underscores() {
    assert_eq!(is_two_forms_correct("Abc_1 d2"), Ok("Abc_1 d2".to_string()));
    assert_eq!(is_two_forms_correct("été, çà"), Ok("été çà".to_string()));
    assert_eq!(
        is_two_forms_correct("e\u{301}te\u{301}  x"),
        Ok("e\u{301}te\u{301} x".to_string())
    );
    assert_eq!(is_two_forms_correct("٣ 4"), Ok("٣ 4".to_string()));
    assert_eq!(is_two_forms_correct("SAW Seen"), Ok("SAW Seen".to_string()));
}

#[test]
fn fewer_or_more_than_two_words_are_refused() {
    for raw in ["", " ", ",", "a", "abcdef", " a", "a ", "a,", ",a", "a b c", "a,b,c", "a b ", " a b"] {
        assert_eq!(is_two_forms_correct(raw), Err(refusal(raw)), "{:?}", raw);
    }
}

#[test]
fn other_characters_are_refused() {
    for raw in ["a-b c", "a b!", "saw.seen", "a\u{200b}b", "a\u{180e}b", "a 'b'", "a;b"] {
        assert_eq!(is_two_forms_correct(raw), Err(refusal(raw)), "{:?}", raw);
    }
}

#[test]
fn an_accepted_answer_is_accepted_again_unchanged() {
    for raw in ["saw, seen", "Abc     def", "x\t,\ty", "été,çà"] {
        let once = is_two_forms_correct(raw).unwrap();
        assert_eq!(is_two_forms_correct(&once), Ok(once.clone()));
    }
}

#[test]
fn the_refusal_quotes_the_answer_as_given() {
    assert_eq!(
        is_two_forms_correct("a,b,c"),
        Err("The string 'a,b,c' does not satisfy the pattern 'word word'".to_string())
    );
}
