use verb_memorizer::{Feedback, IrregularVerb, Quiz};

fn verbs() -> Vec<IrregularVerb> {
    vec![
        IrregularVerb::new("be".to_string(), "was".to_string(), "been".to_string()),
        IrregularVerb::new("see".to_string(), "saw".to_string(), "seen".to_string()),
        IrregularVerb::new("go".to_string(), "went".to_string(), "gone".to_string()),
    ]
}

#[test]
fn a_quiz_asks_each_verb_once_and_counts_the_right_answers() {
    let mut quiz = Quiz::new(verbs());
    assert_eq!(quiz.total(), 3);
    assert_eq!(quiz.answered(), 0);
    assert_eq!(quiz.correct(), 0);
    assert!(!quiz.is_finished());
    assert_eq!(quiz.current().unwrap().infinitive, "be");

    assert_eq!(quiz.answer("Was, been"), Some(Feedback::Correct));
    assert_eq!((quiz.answered(), quiz.correct()), (1, 1));
    assert_eq!(quiz.current().unwrap().infinitive, "see");

    assert_eq!(
        quiz.answer("saw saw"),
        Some(Feedback::Incorrect { expected: "see - saw - seen".to_string() })
    );
    assert_eq!((quiz.answered(), quiz.correct()), (2, 1));
    assert_eq!(quiz.current().unwrap().infinitive, "go");

    assert_eq!(
        quiz.answer("went"),
        Some(Feedback::Malformed {
            reason: "The string 'went' does not satisfy the pattern 'word word'".to_string(),
            expected: "go - went - gone".to_string(),
        })
    );
    assert_eq!((quiz.answered(), quiz.correct()), (2, 1));
    assert!(!quiz.is_finished());
    assert_eq!(quiz.current().unwrap().infinitive, "go");

    assert_eq!(quiz.answer("Went gone"), Some(Feedback::Correct));
    assert_eq!((quiz.answered(), quiz.correct()), (3, 2));
    assert!(quiz.is_finished());
    assert_eq!(quiz.current(), None);
    assert_eq!(quiz.summary(), "Correct answers: 2/3");
}

#[test]
fn an_answer_that_is_not_two_words_is_asked_again() {
    let mut quiz = Quiz::new(verbs());
    for raw in ["", "was", "wasbeen", "was been gone", "was-been"] {
        assert_eq!(
            quiz.answer(raw),
            Some(Feedback::Malformed {
                reason: format!("The string '{}' does not satisfy the pattern 'word word'", raw),
                expected: "be - was - been".to_string(),
            })
        );
        assert_eq!((quiz.total(), quiz.answered(), quiz.correct()), (3, 0, 0));
        assert_eq!(quiz.current().unwrap().infinitive, "be");
    }
    assert_eq!(
        quiz.answer("were been"),
        Some(Feedback::Incorrect { expected: "be - was - been".to_string() })
    );
    assert_eq!((quiz.answered(), quiz.correct()), (1, 0));
    assert_eq!(quiz.current().unwrap().infinitive, "see");
}

#[test]
fn a_finished_quiz_takes_no_answer() {
    let mut quiz = Quiz::new(vec![IrregularVerb::new(
        "be".to_string(),
        "was".to_string(),
        "been".to_string(),
    )]);
    assert_eq!(quiz.answer("was been"), Some(Feedback::Correct));
    assert_eq!(quiz.answer("was been"), None);
    assert_eq!((quiz.total(), quiz.answered(), quiz.correct()), (1, 1, 1));
    assert_eq!(quiz.summary(), "Correct answers: 1/1");
}

#[test]
fn a_quiz_without_verbs_is_finished() {
    let mut quiz = Quiz::new(vec![]);
    assert!(quiz.is_finished());
    assert_eq!(quiz.current(), None);
    assert_eq!(quiz.answer("was been"), None);
    assert_eq!(quiz.summary(), "Correct answers: 0/0");
}

#[test]
fn the_summary_counts_in_decimal() {
    let mut all = Vec::new();
    for _ in 0..4 {
        all.extend(verbs());
    }
    let mut quiz = Quiz::new(all);
    assert_eq!(quiz.summary(), "Correct answers: 0/12");
    for round in 0..4 {
        assert_eq!(quiz.answer("was been"), Some(Feedback::Correct));
        assert_eq!(quiz.answer("saw seen"), Some(Feedback::Correct));
        let last = if round < 2 { "went gone" } else { "goed goed" };
        assert!(quiz.answer(last).is_some());
    }
    assert!(quiz.is_finished());
    assert_eq!(quiz.correct(), 10);
    assert_eq!(quiz.summary(), "Correct answers: 10/12");
}

#[test]
fn feedback_has_its_words() {
    assert_eq!(Feedback::Correct.line(), "Correct");
    assert_eq!(
        Feedback::Incorrect { expected: "see - saw - seen".to_string() }.line(),
        "Incorrect. The correct answer is: see - saw - seen"
    );
    assert_eq!(
        Feedback::Malformed {
            reason: "The string 'x' does not satisfy the pattern 'word word'".to_string(),
            expected: "see - saw - seen".to_string(),
        }
        .line(),
        "The string 'x' does not satisfy the pattern 'word word'.\nThe correct answer is: see - saw - seen"
    );
}
