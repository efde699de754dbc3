use verb_memorizer::{
    check, find_by_infinitive, grade_answer, grade_forms, list_infinitives,
    position_of_infinitive, read_irregular_verbs, split_forms, validate, CheckError,
    IrregularVerb, NotFound, ResultMsg,
};

fn verb(infinitive: &str, past: &str, past_participle: &str) -> IrregularVerb {
    IrregularVerb::new(
        infinitive.to_string(),
        past.to_string(),
        past_participle.to_string(),
    )
}

fn json(result: &ResultMsg) -> String {
    let mut object = serde_json::Map::new();
    object.insert(
        "is_success".to_string(),
        serde_json::Value::Bool(result.is_success),
    );
    object.insert(
        "msg".to_string(),
        serde_json::Value::String(result.msg.clone()),
    );
    serde_json::to_string(&serde_json::Value::Object(object)).unwrap()
}

#[test]
fn a_new_verb_is_trimmed() {
    let v = IrregularVerb::new(" see ".to_string(), "\tsaw".to_string(), "seen\n".to_string());
    assert_eq!(v, verb("see", "saw", "seen"));
    assert_eq!(v.infinitive, "see");
    assert_eq!(v.past, "saw");
    assert_eq!(v.past_participle, "seen");
    let inner = IrregularVerb::new("give up".to_string(), " ".to_string(), "".to_string());
    assert_eq!(inner.infinitive, "give up");
    assert_eq!(inner.past, "");
    assert_eq!(inner.past_participle, "");
}

#[test]
fn the_default_verb_is_empty_and_a_clone_is_equal() {
    let empty = IrregularVerb::default();
    assert_eq!(empty, verb("", "", ""));
    let see = verb("see", "saw", "seen");
    assert_eq!(see.clone(), see);
    assert_eq!(see.triple(), "see - saw - seen");
    assert_eq!(empty.triple(), " -  - ");
}

#[test]
fn grading_is_exact() {
    let see = verb("see", "saw", "seen");
    assert_eq!(
        validate("saw".to_string(), &&see, "seen".to_string()),
        (true, "".to_string())
    );
    for (past, past_participle) in [
        ("see", "seen"),
        ("saw", "see"),
        ("Saw", "seen"),
        ("saw", "seen "),
        ("seen", "saw"),
        ("", ""),
    ] {
        assert_eq!(
            validate(past.to_string(), &&see, past_participle.to_string()),
            (false, "see - saw - seen".to_string())
        );
    }
}

#[test]
fn stored_forms_are_held_as_they_are() {
    let see = verb("See", "Saw", "Seen");
    assert_eq!(
        validate("Saw".to_string(), &&see, "Seen".to_string()),
        (true, "".to_string())
    );
    assert_eq!(
        validate("saw".to_string(), &&see, "seen".to_string()),
        (false, "See - Saw - Seen".to_string())
    );
}

#[test]
fn a_result_holds_what_it_was_given() {
    let result = ResultMsg::new(false, "see - saw - seen".to_string());
    assert!(!result.is_success);
    assert_eq!(result.msg, "see - saw - seen");
    assert_eq!(result.clone(), result);
    assert_eq!(json(&result), "{\"is_success\":false,\"msg\":\"see - saw - seen\"}");
}

#[test]
fn the_first_two_words_are_split_off() {
    assert_eq!(split_forms("saw seen"), ("saw".to_string(), "seen".to_string()));
    assert_eq!(
        split_forms("  saw \t seen  gone"),
        ("saw".to_string(), "seen".to_string())
    );
    assert_eq!(split_forms("saw"), ("saw".to_string(), "".to_string()));
    assert_eq!(split_forms("  "), ("".to_string(), "".to_string()));
    assert_eq!(split_forms(""), ("".to_string(), "".to_string()));
}

#[test]
fn forms_are_graded_in_lower_case() {
    let see = verb("see", "saw", "seen");
    assert_eq!(grade_forms(&see, "SAW Seen"), ResultMsg::new(true, "".to_string()));
    assert_eq!(
        grade_forms(&see, "saw see"),
        ResultMsg::new(false, "see - saw - seen".to_string())
    );
    let be = verb("être", "était", "été");
    assert_eq!(grade_forms(&be, "ÉTAIT ÉTÉ"), ResultMsg::new(true, "".to_string()));
    let upper = verb("See", "Saw", "Seen");
    assert_eq!(
        grade_forms(&upper, "Saw Seen"),
        ResultMsg::new(false, "See - Saw - Seen".to_string())
    );
}

#[test]
fn a_free_text_answer_is_graded_or_refused() {
    let see = verb("see", "saw", "seen");
    assert_eq!(grade_answer(&see, "Saw, SEEN"), Ok(ResultMsg::new(true, "".to_string())));
    assert_eq!(
        grade_answer(&see, "saw,saw"),
        Ok(ResultMsg::new(false, "see - saw - seen".to_string()))
    );
    assert_eq!(
        grade_answer(&see, "sawseen"),
        Err("The string 'sawseen' does not satisfy the pattern 'word word'".to_string())
    );
}

#[test]
fn the_earliest_of_equal_infinitives_is_found() {
    let verbs = vec![
        verb("be", "was", "been"),
        verb("lie", "lay", "lain"),
        verb("see", "saw", "seen"),
        verb("lie", "lied", "lied"),
    ];
    assert_eq!(position_of_infinitive(&verbs, "lie"), Some(1));
    assert_eq!(find_by_infinitive(&verbs, "lie"), Ok(&verbs[1]));
    assert_eq!(find_by_infinitive(&verbs, "lie").unwrap().past, "lay");
    assert_eq!(position_of_infinitive(&verbs, "be"), Some(0));
    assert_eq!(position_of_infinitive(&verbs, "see"), Some(2));
}

#[test]
fn the_infinitive_sought_is_trimmed_and_held_exactly() {
    let verbs = vec![verb("be", "was", "been"), verb("see", "saw", "seen")];
    assert_eq!(find_by_infinitive(&verbs, " see\t"), Ok(&verbs[1]));
    assert_eq!(position_of_infinitive(&verbs, "See"), None);
    assert_eq!(position_of_infinitive(&verbs, "se"), None);
    assert_eq!(position_of_infinitive(&verbs, ""), None);
    assert_eq!(position_of_infinitive(&vec![], "be"), None);
}

#[test]
fn a_verb_that_is_not_there_is_named() {
    let verbs = vec![verb("be", "was", "been")];
    let missing = find_by_infinitive(&verbs, " go").unwrap_err();
    assert_eq!(missing, NotFound { infinitive: " go".to_string() });
    assert_eq!(
        missing.message("irregular_verbs.txt"),
        "Can't find verb ' go' in file 'irregular_verbs.txt'"
    );
}

#[test]
fn infinitives_are_listed_in_the_order_of_the_verbs() {
    let verbs = vec![
        verb("be", "was", "been"),
        verb("see", "saw", "seen"),
        verb("be", "was", "been"),
    ];
    assert_eq!(list_infinitives(&verbs), "be\nsee\nbe\n");
    assert_eq!(list_infinitives(&vec![]), "");
}

#[test]
fn a_wrong_answer_is_checked_as_a_failure() {
    let verbs = read_irregular_verbs(b"be, was, been").unwrap();
    let result = check(&verbs, "be", "was ben").unwrap();
    assert_eq!(result, ResultMsg::new(false, "be - was - been".to_string()));
    assert_eq!(json(&result), "{\"is_success\":false,\"msg\":\"be - was - been\"}");
}

#[test]
fn a_right_answer_is_checked_as_a_success() {
    let verbs = read_irregular_verbs(b"be, was, been").unwrap();
    let result = check(&verbs, "be", "was been").unwrap();
    assert_eq!(result, ResultMsg::new(true, "".to_string()));
    assert_eq!(json(&result), "{\"is_success\":true,\"msg\":\"\"}");
    assert_eq!(check(&verbs, " be", "Was,  BEEN"), Ok(ResultMsg::new(true, "".to_string())));
}

#[test]
fn a_malformed_answer_is_not_graded() {
    let verbs = read_irregular_verbs(b"be, was, been").unwrap();
    assert_eq!(
        check(&verbs, "be", "wasbeen"),
        Err(CheckError::MalformedAnswer(
            "The string 'wasbeen' does not satisfy the pattern 'word word'".to_string()
        ))
    );
    assert_eq!(
        check(&verbs, "go", "wentgone"),
        Err(CheckError::MalformedAnswer(
            "The string 'wentgone' does not satisfy the pattern 'word word'".to_string()
        ))
    );
}

#[test]
fn a_verb_that_is_not_there_is_not_checked() {
    let verbs = read_irregular_verbs(b"be, was, been").unwrap();
    assert_eq!(
        check(&verbs, "go", "went gone"),
        Err(CheckError::NotFound(NotFound { infinitive: "go".to_string() }))
    );
    assert_eq!(
        check(&vec![], "be", "was been"),
        Err(CheckError::NotFound(NotFound { infinitive: "be".to_string() }))
    );
}
