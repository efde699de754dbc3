//! Irregular verbs, and the grading of an answer against one of them.
use crate::text::{is_trimmed, lemma_trimmed_is_trimmed, trim, trimmed};
use vstd::prelude::*;
use vstd::string::*;

verus! {

/// The three forms of an irregular verb, as sequences of characters.
pub struct VerbForms {
    pub infinitive: Seq<char>,
    pub past: Seq<char>,
    pub past_participle: Seq<char>,
}

/// An irregular verb: its infinitive, its past form and its past participle.
#[derive(Debug, PartialEq, Eq)]
pub struct IrregularVerb {
    pub infinitive: String,
    pub past: String,
    pub past_participle: String,
}

impl View for IrregularVerb {
    type V = VerbForms;

    open spec fn view(&self) -> VerbForms {
        VerbForms {
            infinitive: self.infinitive@,
            past: self.past@,
            past_participle: self.past_participle@,
        }
    }
}

impl VerbForms {
    /// Whether no form begins or ends with whitespace.
    pub open spec fn is_trimmed(self) -> bool {
        &&& is_trimmed(self.infinitive)
        &&& is_trimmed(self.past)
        &&& is_trimmed(self.past_participle)
    }

    /// The forms in one line: infinitive, past and past participle, with
    /// `" - "` between them.
    pub open spec fn triple(self) -> Seq<char> {
        self.infinitive + seq![' ', '-', ' '] + self.past + seq![' ', '-', ' ']
            + self.past_participle
    }

    /// Whether `past` and `past_participle` are exactly the two forms expected.
    pub open spec fn answered_by(self, past: Seq<char>, past_participle: Seq<char>) -> bool {
        past == self.past && past_participle == self.past_participle
    }

    /// The verdict on an answer: success with an empty message, or failure with
    /// the expected forms in one line.
    pub open spec fn graded(self, past: Seq<char>, past_participle: Seq<char>) -> (bool, Seq<char>) {
        if self.answered_by(past, past_participle) {
            (true, Seq::empty())
        } else {
            (false, self.triple())
        }
    }
}

impl IrregularVerb {
    /// A verb of the three forms given, each without its leading and trailing
    /// whitespace.
    pub fn new(infinitive: String, past: String, past_participle: String) -> (verb: IrregularVerb)
        ensures
            verb@.infinitive == trimmed(infinitive@),
            verb@.past == trimmed(past@),
            verb@.past_participle == trimmed(past_participle@),
            verb@.is_trimmed(),
    {
        proof {
            lemma_trimmed_is_trimmed(infinitive@);
            lemma_trimmed_is_trimmed(past@);
            lemma_trimmed_is_trimmed(past_participle@);
        }
        IrregularVerb {
            infinitive: trim(infinitive.as_str()),
            past: trim(past.as_str()),
            past_participle: trim(past_participle.as_str()),
        }
    }

    /// The forms in one line, as they are shown for a wrong answer.
    pub fn triple(&self) -> (line: String)
        ensures
            line@ == self@.triple(),
    {
        proof {
            reveal_strlit(" - ");
            assert(" - "@ =~= seq![' ', '-', ' ']);
        }
        let mut line = self.infinitive.clone();
        line.append(" - ");
        line.append(self.past.as_str());
        line.append(" - ");
        line.append(self.past_participle.as_str());
        line
    }
}

impl Clone for IrregularVerb {
    /// A verb of the same three forms.
    fn clone(&self) -> (verb: IrregularVerb)
        ensures
            verb@ == self@,
    {
        IrregularVerb {
            infinitive: self.infinitive.clone(),
            past: self.past.clone(),
            past_participle: self.past_participle.clone(),
        }
    }
}

impl Default for IrregularVerb {
    /// The verb whose three forms are empty.
    fn default() -> (verb: IrregularVerb)
        ensures
            verb@.infinitive.len() == 0,
            verb@.past.len() == 0,
            verb@.past_participle.len() == 0,
    {
        IrregularVerb {
            infinitive: String::new(),
            past: String::new(),
            past_participle: String::new(),
        }
    }
}

/// Grades an answer against `verb`: success with an empty message where both
/// forms are exactly the expected ones, else failure with the expected forms
/// in one line.
pub fn validate(past: String, verb: &&IrregularVerb, past_participle: String) -> (r: (
    bool,
    String,
))
    ensures
        (r.0, r.1@) == verb@.graded(past@, past_participle@),
{
    if past == verb.past && past_participle == verb.past_participle {
        (true, String::new())
    } else {
        (false, verb.triple())
    }
}

/// The outcome of a check: whether the answer was right, and the message for
/// a wrong one.
#[derive(Debug, PartialEq, Eq)]
pub struct ResultMsg {
    pub is_success: bool,
    pub msg: String,
}

impl Clone for ResultMsg {
    /// A result with the same verdict and the same message.
    fn clone(&self) -> (r: ResultMsg)
        ensures
            r.is_success == self.is_success,
            r.msg@ == self.msg@,
    {
        ResultMsg { is_success: self.is_success, msg: self.msg.clone() }
    }
}

impl ResultMsg {
    /// The result with the verdict and the message given.
    pub fn new(is_success: bool, msg: String) -> (r: ResultMsg)
        ensures
            r.is_success == is_success,
            r.msg == msg,
    {
        ResultMsg { is_success, msg }
    }
}

} // verus!
