//! Free-text answers: two words, with commas or whitespace between them, are
//! brought into the form `word word`; anything else is refused.
use crate::text::{chars_of, is_whitespace, white_space};
use regex::Regex;
use vstd::prelude::*;
use vstd::string::*;

verus! {

/// Whether `c` is in the class that the pattern syntax of the regex crate
/// writes `\w`: the Unicode word characters.
pub uninterp spec fn unicode_word(c: char) -> bool;

/// Compiles `pattern` with `Regex::new` and searches `text` with
/// `Regex::is_match`. For the one pattern admitted, which is anchored at both
/// ends, there is a match exactly where the whole text is one or more word
/// characters, then one or more whitespace characters, then one or more word
/// characters.
#[verifier::external_body]
fn regex_is_match(pattern: &str, text: &str) -> (r: bool)
    requires
        pattern@ == r"^\w+\s+\w+$"@,
    ensures
        r == (exists|head: Seq<char>, gap: Seq<char>, tail: Seq<char>|
            #[trigger] (head + gap + tail) == text@ && head.len() > 0 && gap.len() > 0
                && tail.len() > 0 && (forall|k: int|
                0 <= k < head.len() ==> unicode_word(#[trigger] head[k])) && (forall|k: int|
                0 <= k < gap.len() ==> white_space(#[trigger] gap[k])) && (forall|k: int|
                0 <= k < tail.len() ==> unicode_word(#[trigger] tail[k]))),
{
    match Regex::new(pattern) {
        Ok(re) => re.is_match(text),
        Err(_) => false,
    }
}

/// A character of a word: a Unicode word character, which is neither
/// whitespace nor a comma.
pub open spec fn word_char(c: char) -> bool {
    unicode_word(c) && !white_space(c) && c != ','
}

/// `s` with a space in place of each comma.
pub open spec fn commas_to_spaces(s: Seq<char>) -> Seq<char> {
    s.map_values(|c: char| if c == ',' { ' ' } else { c })
}

/// `s` with one space in place of each maximal run of whitespace.
pub open spec fn collapsed(s: Seq<char>) -> Seq<char>
    decreases s.len(),
{
    if s.len() == 0 {
        s
    } else if !white_space(s.last()) {
        collapsed(s.drop_last()).push(s.last())
    } else if s.len() >= 2 && white_space(s[s.len() - 2]) {
        collapsed(s.drop_last())
    } else {
        collapsed(s.drop_last()).push(' ')
    }
}

/// Whether `s` is a word up to `i`, whitespace from `i` up to `j`, and a word
/// from `j` on.
pub open spec fn two_forms_at(s: Seq<char>, i: int, j: int) -> bool {
    &&& 0 < i < j < s.len()
    &&& forall|k: int| 0 <= k < i ==> word_char(#[trigger] s[k])
    &&& forall|k: int| i <= k < j ==> white_space(#[trigger] s[k])
    &&& forall|k: int| j <= k < s.len() ==> word_char(#[trigger] s[k])
}

/// Whether `s` is two words with whitespace between them, and nothing else.
pub open spec fn two_forms(s: Seq<char>) -> bool {
    exists|i: int, j: int| two_forms_at(s, i, j)
}

/// The message for an answer that is not two words.
pub open spec fn malformed_answer(raw: Seq<char>) -> Seq<char> {
    "The string '"@ + raw + "' does not satisfy the pattern 'word word'"@
}

/// What an answer is brought to: for two words, with commas or whitespace
/// between them, the words with one space between them; for anything else,
/// the message that says so.
pub open spec fn normalized(raw: Seq<char>) -> Result<Seq<char>, Seq<char>> {
    let s = commas_to_spaces(raw);
    if two_forms(s) {
        Ok(collapsed(s))
    } else {
        Err(malformed_answer(raw))
    }
}

/// Puts a space in place of each comma.
pub fn replace_commas_with_whitespaces(s: &str) -> (r: String)
    ensures
        r@ == commas_to_spaces(s@),
{
    let mut r = String::new();
    for c in it: s.chars()
        invariant
            it.seq() == s@,
            r@ == commas_to_spaces(s@.take(it.index() as int)),
    {
        assert(s@.take(it.index() + 1) =~= s@.take(it.index() as int).push(c));
        r.push(
            if c == ',' {
                ' '
            } else {
                c
            },
        );
        assert(r@ =~= commas_to_spaces(s@.take(it.index() + 1)));
    }
    assert(s@.take(s@.len() as int) =~= s@);
    r
}

/// Puts one space in place of each maximal run of whitespace.
pub fn remove_extra_whitespaces(s: &str) -> (r: String)
    ensures
        r@ == collapsed(s@),
{
    let mut r = String::new();
    let mut previous_char_was_whitespace = false;
    for c in it: s.chars()
        invariant
            it.seq() == s@,
            r@ == collapsed(s@.take(it.index() as int)),
            previous_char_was_whitespace == (it.index() > 0 && white_space(s@[it.index() - 1])),
    {
        proof {
            let before = s@.take(it.index() as int);
            let now = s@.take(it.index() + 1);
            assert(now.drop_last() =~= before);
            assert(now.last() == c);
        }
        if is_whitespace(c) {
            if !previous_char_was_whitespace {
                r.push(' ');
            }
            previous_char_was_whitespace = true;
        } else {
            r.push(c);
            previous_char_was_whitespace = false;
        }
    }
    assert(s@.take(s@.len() as int) =~= s@);
    r
}

/// Whether `s` is free of whitespace up to `i`, whitespace from `i` up to `j`,
/// and free of whitespace from `j` on.
pub open spec fn gap_at(s: Seq<char>, i: int, j: int) -> bool {
    &&& 0 < i < j < s.len()
    &&& forall|k: int| 0 <= k < i ==> !white_space(#[trigger] s[k])
    &&& forall|k: int| i <= k < j ==> white_space(#[trigger] s[k])
    &&& forall|k: int| j <= k < s.len() ==> !white_space(#[trigger] s[k])
}

/// The bounds of the one run of whitespace inside `v`, where `v` holds one
/// such run and neither begins nor ends with it.
fn find_gap(v: &Vec<char>) -> (r: Option<(usize, usize)>)
    ensures
        match r {
            Some((i, j)) => gap_at(v@, i as int, j as int),
            None => forall|i: int, j: int| !gap_at(v@, i, j),
        },
{
    let n = v.len();
    let mut i: usize = 0;
    while i < n && !is_whitespace(v[i])
        invariant
            i <= n == v.len(),
            forall|k: int| 0 <= k < i ==> !white_space(#[trigger] v@[k]),
        decreases n - i,
    {
        i += 1;
    }
    if i == 0 || i == n {
        assert forall|a: int, b: int| !gap_at(v@, a, b) by {
            if gap_at(v@, a, b) {
                assert(white_space(v@[a]));
            }
        }
        return None;
    }
    let mut j: usize = i;
    while j < n && is_whitespace(v[j])
        invariant
            i <= j <= n == v.len(),
            forall|k: int| i <= k < j ==> white_space(#[trigger] v@[k]),
        decreases n - j,
    {
        j += 1;
    }
    let mut k: usize = j;
    while k < n && !is_whitespace(v[k])
        invariant
            j <= k <= n == v.len(),
            forall|m: int| j <= m < k ==> !white_space(#[trigger] v@[m]),
        decreases n - k,
    {
        k += 1;
    }
    if j == n || k < n {
        assert forall|a: int, b: int| !gap_at(v@, a, b) by {
            if gap_at(v@, a, b) {
                assert(white_space(v@[a]));
                assert(!white_space(v@[a - 1]));
                assert(white_space(v@[i as int]));
                assert(a == i);
                assert(!white_space(v@[b]));
                assert(white_space(v@[b - 1]));
                if b < j {
                    assert(white_space(v@[b]));
                }
                if b > j {
                    assert(!white_space(v@[j as int]));
                }
                assert(b == j);
                if k < n {
                    assert(white_space(v@[k as int]));
                }
            }
        }
        return None;
    }
    Some((i, j))
}

/// Brings an answer into the form `word word`. Commas count as spaces. An
/// answer of two words, with whitespace between them and none around them, is
/// returned with one space between the words; any other is refused with a
/// message that quotes it. Letters keep their case.
pub fn is_two_forms_correct(input: &str) -> (r: Result<String, String>)
    ensures
        match r {
            Ok(s) => normalized(input@) == Ok::<Seq<char>, Seq<char>>(s@),
            Err(e) => normalized(input@) == Err::<Seq<char>, Seq<char>>(e@),
        },
{
    let input_without_commas = replace_commas_with_whitespaces(input);
    let matched = regex_is_match(r"^\w+\s+\w+$", input_without_commas.as_str());
    // The word class is known here by its name alone. That the two words hold
    // no whitespace is therefore looked for, not taken from the match.
    let v = chars_of(input_without_commas.as_str());
    let gap = find_gap(&v);
    let ghost s = input_without_commas@;
    if matched && gap.is_some() {
        proof {
            let (i, j) = gap.unwrap();
            let (head, space, tail) = choose|head: Seq<char>, space: Seq<char>, tail: Seq<char>|
                #[trigger] (head + space + tail) == s && head.len() > 0 && space.len() > 0
                    && tail.len() > 0 && (forall|k: int|
                    0 <= k < head.len() ==> unicode_word(#[trigger] head[k])) && (forall|k: int|
                    0 <= k < space.len() ==> white_space(#[trigger] space[k])) && (forall|k: int|
                    0 <= k < tail.len() ==> unicode_word(#[trigger] tail[k]));
            let a = head.len() as int;
            let b = a + space.len();
            assert(s[a] == space[0]);
            assert(s[b - 1] == space[space.len() - 1]);
            assert(white_space(s[a]));
            assert(white_space(s[b - 1]));
            assert(i <= a < j);
            assert(i <= b - 1 < j);
            assert forall|k: int| 0 <= k < i implies word_char(#[trigger] s[k]) by {
                assert(s[k] == head[k]);
            }
            assert forall|k: int| j <= k < s.len() implies word_char(#[trigger] s[k]) by {
                assert(s[k] == tail[k - b]);
            }
            assert(two_forms_at(s, i as int, j as int));
        }
        Ok(remove_extra_whitespaces(input_without_commas.as_str()))
    } else {
        proof {
            if two_forms(s) {
                let (i, j) = choose|i: int, j: int| two_forms_at(s, i, j);
                assert(gap_at(s, i, j));
                let head = s.subrange(0, i);
                let space = s.subrange(i, j);
                let tail = s.subrange(j, s.len() as int);
                assert(head + space + tail =~= s);
                assert forall|k: int| 0 <= k < head.len() implies unicode_word(
                    #[trigger] head[k],
                ) by {
                    assert(word_char(s[k]));
                }
                assert forall|k: int| 0 <= k < space.len() implies white_space(
                    #[trigger] space[k],
                ) by {
                    assert(white_space(s[i + k]));
                }
                assert forall|k: int| 0 <= k < tail.len() implies unicode_word(
                    #[trigger] tail[k],
                ) by {
                    assert(word_char(s[j + k]));
                }
                assert(false);
            }
        }
        let mut message = String::from_str("The string '");
        message.append(input);
        message.append("' does not satisfy the pattern 'word word'");
        Err(message)
    }
}

/// A character that stands between the two words of an answer: whitespace or
/// a comma.
pub open spec fn separator(c: char) -> bool {
    white_space(c) || c == ','
}

/// Whether `s` is a word: one or more word characters.
pub open spec fn is_word(s: Seq<char>) -> bool {
    s.len() > 0 && forall|k: int| 0 <= k < s.len() ==> word_char(#[trigger] s[k])
}

/// Whether `s` is one or more separators.
pub open spec fn is_separation(s: Seq<char>) -> bool {
    s.len() > 0 && forall|k: int| 0 <= k < s.len() ==> separator(#[trigger] s[k])
}

/// Whether `s` holds at most one run of characters that are no separators.
pub open spec fn at_most_one_token(s: Seq<char>) -> bool {
    forall|i: int, j: int, k: int|
        0 <= i < j < k < s.len() && !separator(#[trigger] s[i]) && !separator(#[trigger] s[k])
            ==> !separator(#[trigger] s[j])
}

/// A sequence without whitespace is left as it is.
pub proof fn lemma_collapsed_without_whitespace(s: Seq<char>)
    requires
        forall|k: int| 0 <= k < s.len() ==> !white_space(#[trigger] s[k]),
    ensures
        collapsed(s) == s,
    decreases s.len(),
{
    if s.len() > 0 {
        lemma_collapsed_without_whitespace(s.drop_last());
        assert(s.drop_last().push(s.last()) =~= s);
    }
}

/// A run of whitespace behind a sequence without whitespace becomes one space.
pub proof fn lemma_collapsed_trailing_run(head: Seq<char>, run: Seq<char>)
    requires
        forall|k: int| 0 <= k < head.len() ==> !white_space(#[trigger] head[k]),
        run.len() > 0,
        forall|k: int| 0 <= k < run.len() ==> white_space(#[trigger] run[k]),
    ensures
        collapsed(head + run) == head.push(' '),
    decreases run.len(),
{
    let s = head + run;
    assert(s.drop_last() =~= head + run.drop_last());
    assert(s.last() == run.last());
    if run.len() == 1 {
        assert(head + run.drop_last() =~= head);
        lemma_collapsed_without_whitespace(head);
        if s.len() >= 2 {
            assert(s[s.len() - 2] == head[head.len() - 1]);
        }
    } else {
        assert(s[s.len() - 2] == run[run.len() - 2]);
        lemma_collapsed_trailing_run(head, run.drop_last());
    }
}

/// A run of whitespace between two sequences without whitespace becomes one
/// space.
pub proof fn lemma_collapsed_inner_run(head: Seq<char>, run: Seq<char>, tail: Seq<char>)
    requires
        forall|k: int| 0 <= k < head.len() ==> !white_space(#[trigger] head[k]),
        run.len() > 0,
        forall|k: int| 0 <= k < run.len() ==> white_space(#[trigger] run[k]),
        forall|k: int| 0 <= k < tail.len() ==> !white_space(#[trigger] tail[k]),
    ensures
        collapsed(head + run + tail) == head.push(' ') + tail,
    decreases tail.len(),
{
    let s = head + run + tail;
    if tail.len() == 0 {
        assert(s =~= head + run);
        lemma_collapsed_trailing_run(head, run);
        assert(head.push(' ') + tail =~= head.push(' '));
    } else {
        assert(s.drop_last() =~= head + run + tail.drop_last());
        assert(s.last() == tail.last());
        lemma_collapsed_inner_run(head, run, tail.drop_last());
        assert((head.push(' ') + tail.drop_last()).push(tail.last()) =~= head.push(' ') + tail);
    }
}

/// Two words with separators between them are accepted, and come back with
/// one space between them.
pub proof fn lemma_two_words_are_accepted(first: Seq<char>, between: Seq<char>, second: Seq<char>)
    requires
        is_word(first),
        is_separation(between),
        is_word(second),
    ensures
        normalized(first + between + second) == Ok::<Seq<char>, Seq<char>>(
            first + seq![' '] + second,
        ),
{
    let raw = first + between + second;
    let s = commas_to_spaces(raw);
    let run = commas_to_spaces(between);
    let i = first.len() as int;
    let j = i + between.len();
    assert(s =~= first + run + second);
    assert(two_forms_at(s, i, j));
    lemma_collapsed_inner_run(first, run, second);
    assert(first.push(' ') + second =~= first + seq![' '] + second);
}

/// An accepted answer is two words with separators between them, and comes
/// back as the two words with one space between them.
pub proof fn lemma_accepted_is_two_words(raw: Seq<char>) -> (at: (int, int))
    requires
        normalized(raw) is Ok,
    ensures
        0 < at.0 < at.1 < raw.len(),
        is_word(raw.subrange(0, at.0)),
        is_separation(raw.subrange(at.0, at.1)),
        is_word(raw.subrange(at.1, raw.len() as int)),
        normalized(raw) == Ok::<Seq<char>, Seq<char>>(
            raw.subrange(0, at.0) + seq![' '] + raw.subrange(at.1, raw.len() as int),
        ),
{
    let s = commas_to_spaces(raw);
    let (i, j) = choose|i: int, j: int| two_forms_at(s, i, j);
    let first = raw.subrange(0, i);
    let between = raw.subrange(i, j);
    let second = raw.subrange(j, raw.len() as int);
    assert forall|k: int| 0 <= k < first.len() implies word_char(#[trigger] first[k]) by {
        assert(word_char(s[k]));
    }
    assert forall|k: int| 0 <= k < between.len() implies separator(#[trigger] between[k]) by {
        assert(white_space(s[i + k]));
    }
    assert forall|k: int| 0 <= k < second.len() implies word_char(#[trigger] second[k]) by {
        assert(word_char(s[j + k]));
    }
    assert(first + between + second =~= raw);
    lemma_two_words_are_accepted(first, between, second);
    (i, j)
}

/// An answer with no word or only one is refused.
pub proof fn lemma_fewer_than_two_words_are_refused(raw: Seq<char>)
    requires
        at_most_one_token(raw),
    ensures
        normalized(raw) == Err::<Seq<char>, Seq<char>>(malformed_answer(raw)),
{
    if normalized(raw) is Ok {
        let (i, j) = lemma_accepted_is_two_words(raw);
        assert(word_char(raw.subrange(0, i)[0]));
        assert(separator(raw.subrange(i, j)[0]));
        assert(word_char(raw.subrange(j, raw.len() as int)[0]));
        assert(!separator(raw[0]) && separator(raw[i]) && !separator(raw[j]));
    }
}

/// An accepted answer, normalized once more, comes back unchanged.
pub proof fn lemma_normalized_is_idempotent(raw: Seq<char>)
    requires
        normalized(raw) is Ok,
    ensures
        normalized(normalized(raw)->Ok_0) == normalized(raw),
{
    let (i, j) = lemma_accepted_is_two_words(raw);
    let first = raw.subrange(0, i);
    let second = raw.subrange(j, raw.len() as int);
    lemma_two_words_are_accepted(first, seq![' '], second);
}

} // verus!
