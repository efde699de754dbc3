//! The verbs that were read, in the order of their lines: finding one by its
//! infinitive, and listing the infinitives.
use crate::text::{trim, trimmed};
use crate::verb::IrregularVerb;
use vstd::prelude::*;
use vstd::string::*;

verus! {

/// The place of the first verb at or behind `from` whose infinitive is
/// `infinitive`, or the number of verbs where there is none.
pub open spec fn next_with_infinitive(
    verbs: Seq<IrregularVerb>,
    infinitive: Seq<char>,
    from: int,
) -> int
    decreases verbs.len() - from,
{
    if from >= verbs.len() {
        verbs.len() as int
    } else if verbs[from]@.infinitive == infinitive {
        from
    } else {
        next_with_infinitive(verbs, infinitive, from + 1)
    }
}

/// The first verb whose infinitive is `infinitive` without its leading and
/// trailing whitespace, where there is one.
pub open spec fn found(verbs: Seq<IrregularVerb>, infinitive: Seq<char>) -> Option<IrregularVerb> {
    let at = next_with_infinitive(verbs, trimmed(infinitive), 0);
    if at < verbs.len() {
        Some(verbs[at])
    } else {
        None
    }
}

/// The first verb with the infinitive stands at `at` where none stands before
/// `at`, and `at` is such a verb or the end.
proof fn lemma_next_with_infinitive_is(
    verbs: Seq<IrregularVerb>,
    infinitive: Seq<char>,
    from: int,
    at: int,
)
    requires
        0 <= from <= at <= verbs.len(),
        forall|k: int| from <= k < at ==> (#[trigger] verbs[k])@.infinitive != infinitive,
        at < verbs.len() ==> verbs[at]@.infinitive == infinitive,
    ensures
        next_with_infinitive(verbs, infinitive, from) == at,
    decreases at - from,
{
    if from < at {
        lemma_next_with_infinitive_is(verbs, infinitive, from + 1, at);
    }
}

/// No verb before the one that is found has the infinitive, and the one that
/// is found has it.
proof fn lemma_next_with_infinitive_bounds(
    verbs: Seq<IrregularVerb>,
    infinitive: Seq<char>,
    from: int,
)
    requires
        0 <= from <= verbs.len(),
    ensures
        from <= next_with_infinitive(verbs, infinitive, from) <= verbs.len(),
        forall|k: int|
            from <= k < next_with_infinitive(verbs, infinitive, from) ==> (
            #[trigger] verbs[k])@.infinitive != infinitive,
        next_with_infinitive(verbs, infinitive, from) < verbs.len() ==> verbs[next_with_infinitive(
            verbs,
            infinitive,
            from,
        )]@.infinitive == infinitive,
    decreases verbs.len() - from,
{
    if from < verbs.len() && verbs[from]@.infinitive != infinitive {
        lemma_next_with_infinitive_bounds(verbs, infinitive, from + 1);
    }
}

/// Where several verbs share an infinitive, the one that stands first is
/// found: whichever of them `at` is, the verb found stands at `at` or before
/// it, has the infinitive, and no verb before it has.
pub proof fn lemma_found_is_the_earliest(
    verbs: Seq<IrregularVerb>,
    infinitive: Seq<char>,
    at: int,
)
    requires
        0 <= at < verbs.len(),
        verbs[at]@.infinitive == trimmed(infinitive),
    ensures
        ({
            let first = next_with_infinitive(verbs, trimmed(infinitive), 0);
            &&& 0 <= first <= at
            &&& found(verbs, infinitive) == Some(verbs[first])
            &&& verbs[first]@.infinitive == trimmed(infinitive)
            &&& forall|k: int|
                0 <= k < first ==> (#[trigger] verbs[k])@.infinitive != trimmed(infinitive)
        }),
{
    lemma_next_with_infinitive_bounds(verbs, trimmed(infinitive), 0);
}

/// The place of the first verb whose infinitive is `infinitive` without its
/// leading and trailing whitespace.
pub fn position_of_infinitive(verbs: &Vec<IrregularVerb>, infinitive: &str) -> (r: Option<usize>)
    ensures
        match r {
            Some(at) => at == next_with_infinitive(verbs@, trimmed(infinitive@), 0) && at
                < verbs.len(),
            None => next_with_infinitive(verbs@, trimmed(infinitive@), 0) == verbs.len(),
        },
{
    let target = trim(infinitive);
    let mut at: usize = 0;
    while at < verbs.len()
        invariant
            at <= verbs.len(),
            target@ == trimmed(infinitive@),
            forall|k: int| 0 <= k < at ==> (#[trigger] verbs@[k])@.infinitive != target@,
        decreases verbs.len() - at,
    {
        if verbs[at].infinitive == target {
            proof {
                lemma_next_with_infinitive_is(verbs@, target@, 0, at as int);
            }
            return Some(at);
        }
        at += 1;
    }
    proof {
        lemma_next_with_infinitive_is(verbs@, target@, 0, at as int);
    }
    None
}

/// That no verb has the infinitive asked for.
#[derive(Debug, PartialEq, Eq)]
pub struct NotFound {
    /// The infinitive as it was asked for.
    pub infinitive: String,
}

impl NotFound {
    /// The message that names the verb and the source in which it was sought.
    pub open spec fn spec_message(self, source: Seq<char>) -> Seq<char> {
        "Can't find verb '"@ + self.infinitive@ + "' in file '"@ + source + "'"@
    }

    /// The message that names the verb and the source in which it was sought.
    pub fn message(&self, source: &str) -> (r: String)
        ensures
            r@ == self.spec_message(source@),
    {
        let mut r = String::from_str("Can't find verb '");
        r.append(self.infinitive.as_str());
        r.append("' in file '");
        r.append(source);
        r.append("'");
        r
    }
}

/// Finds the first verb whose infinitive is `infinitive` without its leading
/// and trailing whitespace.
pub fn find_by_infinitive<'a>(verbs: &'a Vec<IrregularVerb>, infinitive: &str) -> (r: Result<
    &'a IrregularVerb,
    NotFound,
>)
    ensures
        match r {
            Ok(verb) => found(verbs@, infinitive@) == Some(*verb),
            Err(e) => found(verbs@, infinitive@) is None && e.infinitive@ == infinitive@,
        },
{
    match position_of_infinitive(verbs, infinitive) {
        Some(at) => Ok(&verbs[at]),
        None => Err(NotFound { infinitive: String::from_str(infinitive) }),
    }
}

/// The infinitives, one a line, in the order of the verbs.
pub open spec fn listed(verbs: Seq<IrregularVerb>) -> Seq<char>
    decreases verbs.len(),
{
    if verbs.len() == 0 {
        Seq::empty()
    } else {
        listed(verbs.drop_last()) + verbs.last()@.infinitive + seq!['\n']
    }
}

/// Lists the infinitives, one a line, in the order of the verbs.
pub fn list_infinitives(verbs: &Vec<IrregularVerb>) -> (r: String)
    ensures
        r@ == listed(verbs@),
{
    let mut r = String::new();
    let mut i: usize = 0;
    while i < verbs.len()
        invariant
            i <= verbs.len(),
            r@ == listed(verbs@.take(i as int)),
        decreases verbs.len() - i,
    {
        proof {
            assert(verbs@.take(i + 1).drop_last() =~= verbs@.take(i as int));
        }
        r.append(verbs[i].infinitive.as_str());
        r.push('\n');
        i += 1;
    }
    assert(verbs@.take(verbs@.len() as int) =~= verbs@);
    r
}

} // verus!
