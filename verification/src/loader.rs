//! Reading verbs from lines of text: one verb a line, its three forms with
//! commas between them.
use crate::text::{chars_of, string_of, trimmed};
use crate::verb::{IrregularVerb, VerbForms};
use vstd::prelude::*;
use vstd::slice::slice_subrange;
use vstd::string::*;
use vstd::utf8::{decode_utf8, valid_utf8};

verus! {

/// The character that stands between the forms in a line.
pub const DELIMITER: char = ',';

/// A form of a verb, by its place in a line.
#[derive(Debug, Clone, Copy, PartialEq, Eq, Structural)]
pub enum Field {
    Infinitive,
    Past,
    PastParticiple,
}

/// Why verbs could not be read.
#[derive(Debug, Clone, Copy, PartialEq, Eq, Structural)]
pub enum LoadError {
    /// The source could not be opened, or a line of it is no text.
    SourceUnreadable,
    /// A line ends before the form named.
    MissingField(Field),
}

/// The place of the first delimiter in `s` at or behind `from`, or the length
/// of `s` where there is none.
pub open spec fn next_delimiter(s: Seq<char>, from: int) -> int
    decreases s.len() - from,
{
    if from >= s.len() {
        s.len() as int
    } else if s[from] == DELIMITER {
        from
    } else {
        next_delimiter(s, from + 1)
    }
}

/// What a line holds: the three forms, each trimmed, where the line has them.
/// The infinitive ends at the first delimiter, the past form at the second,
/// the past participle at the third or at the end of the line. An empty line
/// lacks the infinitive, a line without a delimiter the past form, a line
/// with one delimiter the past participle.
pub open spec fn parsed_line(line: Seq<char>) -> Result<VerbForms, LoadError> {
    let first = next_delimiter(line, 0);
    let second = next_delimiter(line, first + 1);
    let third = next_delimiter(line, second + 1);
    if line.len() == 0 {
        Err(LoadError::MissingField(Field::Infinitive))
    } else if first >= line.len() {
        Err(LoadError::MissingField(Field::Past))
    } else if second >= line.len() {
        Err(LoadError::MissingField(Field::PastParticiple))
    } else {
        Ok(
            VerbForms {
                infinitive: trimmed(line.subrange(0, first)),
                past: trimmed(line.subrange(first + 1, second)),
                past_participle: trimmed(line.subrange(second + 1, third)),
            },
        )
    }
}

/// The first delimiter at or behind `from` stands at `at` where none stands
/// before `at`, and `at` is a delimiter or the end.
proof fn lemma_next_delimiter_is(s: Seq<char>, from: int, at: int)
    requires
        0 <= from <= at <= s.len(),
        forall|k: int| from <= k < at ==> #[trigger] s[k] != DELIMITER,
        at < s.len() ==> s[at] == DELIMITER,
    ensures
        next_delimiter(s, from) == at,
    decreases at - from,
{
    if from < at {
        lemma_next_delimiter_is(s, from + 1, at);
    }
}

fn find_delimiter(v: &Vec<char>, from: usize) -> (at: usize)
    requires
        from <= v.len(),
    ensures
        from <= at <= v.len(),
        at == next_delimiter(v@, from as int),
{
    let mut at: usize = from;
    while at < v.len() && v[at] != DELIMITER
        invariant
            from <= at <= v.len(),
            forall|k: int| from <= k < at ==> #[trigger] v@[k] != DELIMITER,
        decreases v.len() - at,
    {
        at += 1;
    }
    proof {
        lemma_next_delimiter_is(v@, from as int, at as int);
    }
    at
}

/// Reads one verb from a line.
pub fn parse_line(line: &str) -> (r: Result<IrregularVerb, LoadError>)
    ensures
        match r {
            Ok(verb) => parsed_line(line@) == Ok::<VerbForms, LoadError>(verb@),
            Err(e) => parsed_line(line@) == Err::<VerbForms, LoadError>(e),
        },
        r is Ok ==> r->Ok_0@.is_trimmed(),
{
    let v = chars_of(line);
    let n = v.len();
    if n == 0 {
        return Err(LoadError::MissingField(Field::Infinitive));
    }
    let first = find_delimiter(&v, 0);
    if first >= n {
        return Err(LoadError::MissingField(Field::Past));
    }
    let second = find_delimiter(&v, first + 1);
    if second >= n {
        return Err(LoadError::MissingField(Field::PastParticiple));
    }
    let third = find_delimiter(&v, second + 1);
    Ok(
        IrregularVerb::new(
            string_of(&v, 0, first),
            string_of(&v, first + 1, second),
            string_of(&v, second + 1, third),
        ),
    )
}

/// Whether `s` holds no delimiter.
pub open spec fn is_field(s: Seq<char>) -> bool {
    forall|k: int| 0 <= k < s.len() ==> #[trigger] s[k] != DELIMITER
}

/// A line of three fields gives the verb of these fields, each trimmed.
pub proof fn lemma_three_fields_give_a_verb(
    infinitive: Seq<char>,
    past: Seq<char>,
    past_participle: Seq<char>,
)
    requires
        is_field(infinitive),
        is_field(past),
        is_field(past_participle),
    ensures
        parsed_line(infinitive + seq![DELIMITER] + past + seq![DELIMITER] + past_participle)
            == Ok::<VerbForms, LoadError>(
            VerbForms {
                infinitive: trimmed(infinitive),
                past: trimmed(past),
                past_participle: trimmed(past_participle),
            },
        ),
{
    let line = infinitive + seq![DELIMITER] + past + seq![DELIMITER] + past_participle;
    let first = infinitive.len() as int;
    let second = first + 1 + past.len();
    let third = second + 1 + past_participle.len();
    lemma_next_delimiter_is(line, 0, first);
    lemma_next_delimiter_is(line, first + 1, second);
    lemma_next_delimiter_is(line, second + 1, third);
    assert(line.subrange(0, first) =~= infinitive);
    assert(line.subrange(first + 1, second) =~= past);
    assert(line.subrange(second + 1, third) =~= past_participle);
}

/// What follows a third delimiter is not read.
pub proof fn lemma_further_fields_are_ignored(
    infinitive: Seq<char>,
    past: Seq<char>,
    past_participle: Seq<char>,
    rest: Seq<char>,
)
    requires
        is_field(infinitive),
        is_field(past),
        is_field(past_participle),
    ensures
        parsed_line(
            infinitive + seq![DELIMITER] + past + seq![DELIMITER] + past_participle
                + seq![DELIMITER] + rest,
        ) == parsed_line(
            infinitive + seq![DELIMITER] + past + seq![DELIMITER] + past_participle,
        ),
{
    let line = infinitive + seq![DELIMITER] + past + seq![DELIMITER] + past_participle
        + seq![DELIMITER] + rest;
    let first = infinitive.len() as int;
    let second = first + 1 + past.len();
    let third = second + 1 + past_participle.len();
    lemma_next_delimiter_is(line, 0, first);
    lemma_next_delimiter_is(line, first + 1, second);
    lemma_next_delimiter_is(line, second + 1, third);
    assert(line.subrange(0, first) =~= infinitive);
    assert(line.subrange(first + 1, second) =~= past);
    assert(line.subrange(second + 1, third) =~= past_participle);
    lemma_three_fields_give_a_verb(infinitive, past, past_participle);
}

/// A line of two fields lacks the past participle.
pub proof fn lemma_two_fields_lack_the_past_participle(infinitive: Seq<char>, past: Seq<char>)
    requires
        is_field(infinitive),
        is_field(past),
    ensures
        parsed_line(infinitive + seq![DELIMITER] + past) == Err::<VerbForms, LoadError>(
            LoadError::MissingField(Field::PastParticiple),
        ),
{
    let line = infinitive + seq![DELIMITER] + past;
    let first = infinitive.len() as int;
    lemma_next_delimiter_is(line, 0, first);
    lemma_next_delimiter_is(line, first + 1, line.len() as int);
}

/// A line of one field lacks the past form, and an empty line the infinitive.
pub proof fn lemma_one_field_lacks_the_past(infinitive: Seq<char>)
    requires
        is_field(infinitive),
    ensures
        parsed_line(infinitive) == Err::<VerbForms, LoadError>(
            LoadError::MissingField(
                if infinitive.len() == 0 {
                    Field::Infinitive
                } else {
                    Field::Past
                },
            ),
        ),
{
    lemma_next_delimiter_is(infinitive, 0, infinitive.len() as int);
}

/// The byte that ends a line.
pub const LINE_FEED: u8 = 10;

/// The byte that may stand before the line feed, and then belongs to the
/// line's end.
pub const CARRIAGE_RETURN: u8 = 13;

/// The place of the first line feed in `bytes` at or behind `from`, or the
/// length of `bytes` where there is none.
pub open spec fn next_line_feed(bytes: Seq<u8>, from: int) -> int
    decreases bytes.len() - from,
{
    if from >= bytes.len() {
        bytes.len() as int
    } else if bytes[from] == LINE_FEED {
        from
    } else {
        next_line_feed(bytes, from + 1)
    }
}

/// `line` without the carriage return at its end, where it has one.
pub open spec fn without_carriage_return(line: Seq<u8>) -> Seq<u8> {
    if line.len() > 0 && line.last() == CARRIAGE_RETURN {
        line.drop_last()
    } else {
        line
    }
}

/// The lines of `bytes` from `from` on. A line ends with a line feed, or with
/// a carriage return and a line feed, which are not part of it; the last line
/// may do without, and is then taken as it stands.
pub open spec fn lines_from(bytes: Seq<u8>, from: int) -> Seq<Seq<u8>>
    decreases bytes.len() - from,
    via lines_from_decreases
{
    let end = next_line_feed(bytes, from);
    if from < 0 || from >= bytes.len() {
        Seq::empty()
    } else if end >= bytes.len() {
        seq![bytes.subrange(from, bytes.len() as int)]
    } else {
        seq![without_carriage_return(bytes.subrange(from, end))] + lines_from(bytes, end + 1)
    }
}

/// The first line feed at or behind `from` stands at `from` or behind it.
proof fn lemma_next_line_feed_bounds(bytes: Seq<u8>, from: int)
    requires
        0 <= from <= bytes.len(),
    ensures
        from <= next_line_feed(bytes, from) <= bytes.len(),
    decreases bytes.len() - from,
{
    if from < bytes.len() && bytes[from] != LINE_FEED {
        lemma_next_line_feed_bounds(bytes, from + 1);
    }
}

#[via_fn]
proof fn lines_from_decreases(bytes: Seq<u8>, from: int) {
    if 0 <= from < bytes.len() {
        lemma_next_line_feed_bounds(bytes, from);
    }
}

/// The lines of a source.
pub open spec fn source_lines(bytes: Seq<u8>) -> Seq<Seq<u8>> {
    lines_from(bytes, 0)
}

/// What a line of bytes holds: a verb where the bytes are text in UTF-8 and
/// the text has the three forms.
pub open spec fn read_line(line: Seq<u8>) -> Result<VerbForms, LoadError> {
    if valid_utf8(line) {
        parsed_line(decode_utf8(line))
    } else {
        Err(LoadError::SourceUnreadable)
    }
}

/// `std::str::from_utf8` gives the text that `bytes` encode in UTF-8, and
/// fails exactly where they encode none.
#[verifier::external_body]
fn text_of(bytes: &[u8]) -> (r: Option<&str>)
    ensures
        r is Some <==> valid_utf8(bytes@),
        r is Some ==> r->Some_0@ == decode_utf8(bytes@),
{
    std::str::from_utf8(bytes).ok()
}

/// The first line feed at or behind `from` stands at `at` where none stands
/// before `at`, and `at` is a line feed or the end.
proof fn lemma_next_line_feed_is(bytes: Seq<u8>, from: int, at: int)
    requires
        0 <= from <= at <= bytes.len(),
        forall|k: int| from <= k < at ==> #[trigger] bytes[k] != LINE_FEED,
        at < bytes.len() ==> bytes[at] == LINE_FEED,
    ensures
        next_line_feed(bytes, from) == at,
    decreases at - from,
{
    if from < at {
        lemma_next_line_feed_is(bytes, from + 1, at);
    }
}

/// The lines of `source`, in order.
pub fn split_lines<'a>(source: &'a [u8]) -> (lines: Vec<&'a [u8]>)
    ensures
        lines@.map_values(|line: &[u8]| line@) == source_lines(source@),
{
    let n = source.len();
    let mut lines: Vec<&[u8]> = Vec::new();
    let mut from: usize = 0;
    while from < n
        invariant
            from <= n == source@.len(),
            lines@.map_values(|line: &[u8]| line@) + lines_from(source@, from as int)
                == source_lines(source@),
        decreases n - from,
    {
        let mut end: usize = from;
        while end < n && source[end] != LINE_FEED
            invariant
                from <= end <= n == source@.len(),
                forall|k: int| from <= k < end ==> #[trigger] source@[k] != LINE_FEED,
            decreases n - end,
        {
            end += 1;
        }
        proof {
            lemma_next_line_feed_is(source@, from as int, end as int);
        }
        let ghost before = lines@.map_values(|line: &[u8]| line@);
        let stop = if end < n && end > from && source[end - 1] == CARRIAGE_RETURN {
            end - 1
        } else {
            end
        };
        let line = slice_subrange(source, from, stop);
        lines.push(line);
        proof {
            let whole = source@.subrange(from as int, end as int);
            if end < n {
                assert(whole.len() > 0 ==> whole.last() == source@[end - 1]);
                assert(line@ =~= without_carriage_return(whole));
            }
            assert(lines@.map_values(|line: &[u8]| line@) =~= before.push(line@));
            assert(before.push(line@) + lines_from(source@, end + 1) =~= before + (seq![line@]
                + lines_from(source@, end + 1)));
        }
        from = if end < n {
            end + 1
        } else {
            end
        };
    }
    assert(lines@.map_values(|line: &[u8]| line@) + Seq::<Seq<u8>>::empty()
        =~= lines@.map_values(|line: &[u8]| line@));
    lines
}

/// Reads the verbs of a source, one from each line, in the order of the
/// lines. The first line that is no text or lacks a form ends the reading
/// with its error; no line is passed over.
pub fn read_irregular_verbs(source: &[u8]) -> (r: Result<Vec<IrregularVerb>, LoadError>)
    ensures
        match r {
            Ok(verbs) => {
                &&& verbs@.len() == source_lines(source@).len()
                &&& forall|i: int|
                    0 <= i < verbs@.len() ==> read_line(#[trigger] source_lines(source@)[i])
                        == Ok::<VerbForms, LoadError>(verbs@[i]@)
                &&& forall|i: int| 0 <= i < verbs@.len() ==> (#[trigger] verbs@[i])@.is_trimmed()
            },
            Err(e) => exists|i: int|
                {
                    &&& 0 <= i < source_lines(source@).len()
                    &&& read_line(#[trigger] source_lines(source@)[i]) == Err::<
                        VerbForms,
                        LoadError,
                    >(e)
                    &&& forall|j: int|
                        0 <= j < i ==> read_line(#[trigger] source_lines(source@)[j]) is Ok
                },
        },
{
    let lines = split_lines(source);
    let ghost all = source_lines(source@);
    let mut verbs: Vec<IrregularVerb> = Vec::new();
    let mut i: usize = 0;
    while i < lines.len()
        invariant
            i <= lines.len(),
            all == source_lines(source@),
            lines@.map_values(|line: &[u8]| line@) == all,
            verbs@.len() == i,
            forall|j: int|
                0 <= j < i ==> read_line(#[trigger] all[j]) == Ok::<VerbForms, LoadError>(
                    verbs@[j]@,
                ),
            forall|j: int| 0 <= j < i ==> (#[trigger] verbs@[j])@.is_trimmed(),
        decreases lines.len() - i,
    {
        assert(all[i as int] == lines@[i as int]@);
        let text = match text_of(lines[i]) {
            Some(text) => text,
            None => {
                return Err(LoadError::SourceUnreadable);
            },
        };
        match parse_line(text) {
            Ok(verb) => {
                verbs.push(verb);
            },
            Err(e) => {
                return Err(e);
            },
        }
        i += 1;
    }
    Ok(verbs)
}

/// The message for a path at which nothing exists.
pub open spec fn invalid_path(path: Seq<char>) -> Seq<char> {
    "Invalid path: "@ + path
}

/// Decides on the path of a source, given whether anything exists at it: the
/// path is handed back where something does, and the message that names it
/// where nothing does.
pub fn is_path_exists(path: &str, exists: bool) -> (r: Result<String, String>)
    ensures
        match r {
            Ok(accepted) => exists && accepted@ == path@,
            Err(message) => !exists && message@ == invalid_path(path@),
        },
{
    if exists {
        Ok(String::from_str(path))
    } else {
        let mut message = String::from_str("Invalid path: ");
        message.append(path);
        Err(message)
    }
}

impl LoadError {
    /// The error in words.
    pub open spec fn spec_message(self) -> Seq<char> {
        match self {
            LoadError::SourceUnreadable => "Error reading line: stream did not contain valid UTF-8"@,
            LoadError::MissingField(Field::Infinitive) => "Error parsing infinitive form"@,
            LoadError::MissingField(Field::Past) => "Error parsing past form"@,
            LoadError::MissingField(Field::PastParticiple) => "Error parsing past participle form"@,
        }
    }

    /// The error in words.
    pub fn message(&self) -> (r: String)
        ensures
            r@ == self.spec_message(),
    {
        match self {
            LoadError::SourceUnreadable => String::from_str(
                "Error reading line: stream did not contain valid UTF-8",
            ),
            LoadError::MissingField(Field::Infinitive) => String::from_str(
                "Error parsing infinitive form",
            ),
            LoadError::MissingField(Field::Past) => String::from_str("Error parsing past form"),
            LoadError::MissingField(Field::PastParticiple) => String::from_str(
                "Error parsing past participle form",
            ),
        }
    }
}

} // verus!
