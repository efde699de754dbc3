//! Grading a free-text answer: the answer is brought into form, its two words
//! are put in lower case, and they are held against the forms of a verb.
use crate::answer::{
    is_separation, is_two_forms_correct, is_word, lemma_two_words_are_accepted, normalized,
};
use crate::store::{find_by_infinitive, found, NotFound};
use crate::text::{
    chars_of, lemma_skip_white_space_is, lemma_skip_word_is, next_word, skip_white_space,
    skip_word, string_of, white_space,
};
use crate::verb::{validate, IrregularVerb, ResultMsg, VerbForms};
use vstd::prelude::*;
use vstd::string::*;

verus! {

/// What `str::to_lowercase` returns for a text: the text in lower case, by
/// the rules of Unicode, which know no locale.
pub uninterp spec fn lowercase(s: Seq<char>) -> Seq<char>;

/// `str::to_lowercase` gives the lower case of `s`, which depends on the
/// characters of `s` alone.
#[verifier::external_body]
fn to_lowercase(s: &str) -> (r: String)
    ensures
        r@ == lowercase(s@),
{
    s.to_lowercase()
}

/// The first two words of `s`, where a word is a run of characters that are
/// no whitespace; an empty sequence stands for a word that is not there.
pub open spec fn two_words(s: Seq<char>) -> (Seq<char>, Seq<char>) {
    let a = skip_white_space(s, 0);
    let b = skip_word(s, a);
    let c = skip_white_space(s, b);
    let d = skip_word(s, c);
    (s.subrange(a, b), s.subrange(c, d))
}

/// The first two words of `answer`.
pub fn split_forms(answer: &str) -> (r: (String, String))
    ensures
        (r.0@, r.1@) == two_words(answer@),
{
    let v = chars_of(answer);
    let (a, b) = next_word(&v, 0);
    let (c, d) = next_word(&v, b);
    (string_of(&v, a, b), string_of(&v, c, d))
}

/// The verdict on an answer in the form `word word`: the grading of its first
/// two words in lower case.
pub open spec fn forms_graded(verb: VerbForms, answer: Seq<char>) -> (bool, Seq<char>) {
    verb.graded(lowercase(two_words(answer).0), lowercase(two_words(answer).1))
}

/// The verdict on a free-text answer to `verb`: the message of refusal where
/// the answer is not two words, else the grading of its two words in lower
/// case.
pub open spec fn answer_graded(verb: VerbForms, raw: Seq<char>) -> Result<
    (bool, Seq<char>),
    Seq<char>,
> {
    match normalized(raw) {
        Ok(answer) => Ok(forms_graded(verb, answer)),
        Err(message) => Err(message),
    }
}

/// Grades an answer in the form `word word` against `verb`: its first two
/// words are put in lower case and held against the past form and the past
/// participle.
pub fn grade_forms(verb: &IrregularVerb, answer: &str) -> (r: ResultMsg)
    ensures
        (r.is_success, r.msg@) == forms_graded(verb@, answer@),
{
    let (past, past_participle) = split_forms(answer);
    let past = to_lowercase(past.as_str());
    let past_participle = to_lowercase(past_participle.as_str());
    let validation_result = validate(past, &verb, past_participle);
    ResultMsg::new(validation_result.0, validation_result.1)
}

/// Grades a free-text answer to `verb`: the answer is brought into form and
/// then graded; one that is not two words is refused with the message that
/// says so.
pub fn grade_answer(verb: &IrregularVerb, raw: &str) -> (r: Result<ResultMsg, String>)
    ensures
        match r {
            Ok(result) => answer_graded(verb@, raw@) == Ok::<(bool, Seq<char>), Seq<char>>(
                (result.is_success, result.msg@),
            ),
            Err(message) => answer_graded(verb@, raw@) == Err::<(bool, Seq<char>), Seq<char>>(
                message@,
            ),
        },
{
    match is_two_forms_correct(raw) {
        Ok(answer) => Ok(grade_forms(verb, answer.as_str())),
        Err(message) => Err(message),
    }
}

/// The two words of `first`, a space and `second` are `first` and `second`.
pub proof fn lemma_two_words_of_a_pair(first: Seq<char>, second: Seq<char>)
    requires
        first.len() > 0,
        forall|k: int| 0 <= k < first.len() ==> !white_space(#[trigger] first[k]),
        forall|k: int| 0 <= k < second.len() ==> !white_space(#[trigger] second[k]),
    ensures
        two_words(first + seq![' '] + second) == (first, second),
{
    let s = first + seq![' '] + second;
    let b = first.len() as int;
    assert(s[b] == ' ');
    lemma_skip_white_space_is(s, 0, 0);
    lemma_skip_word_is(s, 0, b);
    if second.len() > 0 {
        assert(s[b + 1] == second[0]);
    }
    lemma_skip_white_space_is(s, b, b + 1);
    lemma_skip_word_is(s, b + 1, s.len() as int);
    assert(s.subrange(0, b) =~= first);
    assert(s.subrange(b + 1, s.len() as int) =~= second);
}

/// An answer of two words, with separators between them, is graded by the
/// two words in lower case.
pub proof fn lemma_two_words_are_graded(
    verb: VerbForms,
    first: Seq<char>,
    between: Seq<char>,
    second: Seq<char>,
)
    requires
        is_word(first),
        is_separation(between),
        is_word(second),
    ensures
        answer_graded(verb, first + between + second) == Ok::<(bool, Seq<char>), Seq<char>>(
            verb.graded(lowercase(first), lowercase(second)),
        ),
{
    lemma_two_words_are_accepted(first, between, second);
    lemma_two_words_of_a_pair(first, second);
}

/// Why an answer could not be checked.
#[derive(Debug, PartialEq, Eq)]
pub enum CheckError {
    /// The answer is not two words; the message says so.
    MalformedAnswer(String),
    /// No verb has the infinitive asked for.
    NotFound(NotFound),
}

/// Checks one answer: the answer is brought into form, the verb is found by
/// its infinitive, and the answer is graded against it. An answer that is not
/// two words is refused before the verb is sought.
pub fn check(verbs: &Vec<IrregularVerb>, verb: &str, forms: &str) -> (r: Result<
    ResultMsg,
    CheckError,
>)
    ensures
        match r {
            Ok(result) => {
                &&& found(verbs@, verb@) is Some
                &&& answer_graded(found(verbs@, verb@)->Some_0@, forms@) == Ok::<
                    (bool, Seq<char>),
                    Seq<char>,
                >((result.is_success, result.msg@))
            },
            Err(CheckError::MalformedAnswer(message)) => normalized(forms@) == Err::<
                Seq<char>,
                Seq<char>,
            >(message@),
            Err(CheckError::NotFound(e)) => {
                &&& normalized(forms@) is Ok
                &&& found(verbs@, verb@) is None
                &&& e.infinitive@ == verb@
            },
        },
{
    let answer = match is_two_forms_correct(forms) {
        Ok(answer) => answer,
        Err(message) => {
            return Err(CheckError::MalformedAnswer(message));
        },
    };
    let filtered_verb = match find_by_infinitive(verbs, verb) {
        Ok(filtered_verb) => filtered_verb,
        Err(e) => {
            return Err(CheckError::NotFound(e));
        },
    };
    Ok(grade_forms(filtered_verb, answer.as_str()))
}

} // verus!
