//! A quiz over the verbs, one answer of two words for each verb in the order
//! given, with the count of the right answers. An answer that is not two
//! words is asked for again.
use crate::grading::{answer_graded, grade_answer};
use crate::text::{decimal, push_decimal};
use crate::verb::{IrregularVerb, VerbForms};
use vstd::prelude::*;
use vstd::string::*;

verus! {

/// What is said of an answer.
#[derive(Debug, PartialEq, Eq)]
pub enum Feedback {
    /// Both forms are right.
    Correct,
    /// A form is wrong; `expected` holds the verb's forms in one line.
    Incorrect { expected: String },
    /// The answer is not two words, and the verb is asked again; `reason`
    /// says so, and `expected` holds the verb's forms in one line.
    Malformed { reason: String, expected: String },
}

/// A `Feedback` with its texts as sequences of characters.
pub enum FeedbackView {
    Correct,
    Incorrect { expected: Seq<char> },
    Malformed { reason: Seq<char>, expected: Seq<char> },
}

impl View for Feedback {
    type V = FeedbackView;

    open spec fn view(&self) -> FeedbackView {
        match self {
            Feedback::Correct => FeedbackView::Correct,
            Feedback::Incorrect { expected } => FeedbackView::Incorrect { expected: expected@ },
            Feedback::Malformed { reason, expected } => FeedbackView::Malformed {
                reason: reason@,
                expected: expected@,
            },
        }
    }
}

/// What is said of the answer `raw` to `verb`.
pub open spec fn feedback(verb: VerbForms, raw: Seq<char>) -> FeedbackView {
    match answer_graded(verb, raw) {
        Ok(verdict) => if verdict.0 {
            FeedbackView::Correct
        } else {
            FeedbackView::Incorrect { expected: verdict.1 }
        },
        Err(reason) => FeedbackView::Malformed { reason, expected: verb.triple() },
    }
}

impl FeedbackView {
    /// The feedback in words.
    pub open spec fn line(self) -> Seq<char> {
        match self {
            FeedbackView::Correct => "Correct"@,
            FeedbackView::Incorrect { expected } => "Incorrect. The correct answer is: "@
                + expected,
            FeedbackView::Malformed { reason, expected } => reason
                + ".\nThe correct answer is: "@ + expected,
        }
    }
}

impl Feedback {
    /// The feedback in words.
    pub fn line(&self) -> (r: String)
        ensures
            r@ == self@.line(),
    {
        match self {
            Feedback::Correct => String::from_str("Correct"),
            Feedback::Incorrect { expected } => {
                let mut r = String::from_str("Incorrect. The correct answer is: ");
                r.append(expected.as_str());
                r
            },
            Feedback::Malformed { reason, expected } => {
                let mut r = reason.clone();
                r.append(".\nThe correct answer is: ");
                r.append(expected.as_str());
                r
            },
        }
    }
}

/// The state of a quiz: the verbs, how many of them were answered, and how
/// many of the answers were right.
pub struct QuizState {
    pub verbs: Seq<IrregularVerb>,
    pub answered: nat,
    pub correct: nat,
}

/// A quiz over verbs. Each verb is asked once, in the order given.
pub struct Quiz {
    verbs: Vec<IrregularVerb>,
    answered: usize,
    correct: usize,
}

impl View for Quiz {
    type V = QuizState;

    closed spec fn view(&self) -> QuizState {
        QuizState {
            verbs: self.verbs@,
            answered: self.answered as nat,
            correct: self.correct as nat,
        }
    }
}

impl QuizState {
    /// Whether every verb was answered.
    pub open spec fn is_finished(self) -> bool {
        self.answered >= self.verbs.len()
    }

    /// The line that ends a quiz.
    pub open spec fn summary(self) -> Seq<char> {
        "Correct answers: "@ + decimal(self.correct) + seq!['/'] + decimal(self.verbs.len())
    }
}

impl Quiz {
    #[verifier::type_invariant]
    spec fn well_formed(&self) -> bool {
        self.correct <= self.answered <= self.verbs@.len()
    }

    /// A quiz over `verbs` in which nothing was answered yet.
    pub fn new(verbs: Vec<IrregularVerb>) -> (quiz: Quiz)
        ensures
            quiz@ == (QuizState { verbs: verbs@, answered: 0, correct: 0 }),
    {
        Quiz { verbs, answered: 0, correct: 0 }
    }

    /// The number of verbs.
    pub fn total(&self) -> (r: usize)
        ensures
            r == self@.verbs.len(),
    {
        self.verbs.len()
    }

    /// The number of verbs that were answered: no more than there are verbs.
    pub fn answered(&self) -> (r: usize)
        ensures
            r == self@.answered,
            r <= self@.verbs.len(),
    {
        proof {
            use_type_invariant(self);
        }
        self.answered
    }

    /// The number of right answers: no more than were given.
    pub fn correct(&self) -> (r: usize)
        ensures
            r == self@.correct,
            r <= self@.answered,
    {
        proof {
            use_type_invariant(self);
        }
        self.correct
    }

    /// Whether every verb was answered.
    pub fn is_finished(&self) -> (r: bool)
        ensures
            r == self@.is_finished(),
    {
        self.answered >= self.verbs.len()
    }

    /// The verb to answer next, where one is left.
    pub fn current(&self) -> (r: Option<&IrregularVerb>)
        ensures
            match r {
                Some(verb) => !self@.is_finished() && *verb == self@.verbs[self@.answered as int],
                None => self@.is_finished(),
            },
    {
        if self.answered < self.verbs.len() {
            Some(&self.verbs[self.answered])
        } else {
            None
        }
    }

    /// Takes the answer to the current verb and says what it is worth. After
    /// an answer of two words, right or wrong, the quiz moves on to the next
    /// verb. An answer that is not two words is no answer yet: the verb stays
    /// current and is asked again, and no count changes. Where no verb is
    /// left, nothing changes and nothing is said.
    pub fn answer(&mut self, raw: &str) -> (r: Option<Feedback>)
        ensures
            final(self)@.verbs == old(self)@.verbs,
            match r {
                Some(said) => {
                    &&& !old(self)@.is_finished()
                    &&& said@ == feedback(old(self)@.verbs[old(self)@.answered as int]@, raw@)
                    &&& final(self)@.answered == old(self)@.answered + if said is Malformed {
                        0nat
                    } else {
                        1nat
                    }
                    &&& final(self)@.correct == old(self)@.correct + if said is Correct {
                        1nat
                    } else {
                        0nat
                    }
                },
                None => old(self)@.is_finished() && final(self)@ == old(self)@,
            },
    {
        proof {
            use_type_invariant(&*self);
        }
        if self.answered >= self.verbs.len() {
            return None;
        }
        let verb = &self.verbs[self.answered];
        let said = match grade_answer(verb, raw) {
            Ok(result) => if result.is_success {
                Feedback::Correct
            } else {
                Feedback::Incorrect { expected: result.msg }
            },
            Err(reason) => Feedback::Malformed { reason, expected: verb.triple() },
        };
        match said {
            Feedback::Correct => {
                self.answered = self.answered + 1;
                self.correct = self.correct + 1;
            },
            Feedback::Incorrect { .. } => {
                self.answered = self.answered + 1;
            },
            Feedback::Malformed { .. } => {},
        }
        Some(said)
    }

    /// The line that ends a quiz: how many answers were right, of how many
    /// verbs.
    pub fn summary(&self) -> (r: String)
        ensures
            r@ == self@.summary(),
    {
        let mut r = String::from_str("Correct answers: ");
        push_decimal(&mut r, self.correct);
        r.push('/');
        push_decimal(&mut r, self.verbs.len());
        r
    }
}

} // verus!
