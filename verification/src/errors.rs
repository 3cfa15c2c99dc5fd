//! Turning a daemon failure into the envelope a caller can act on.
//!
//! Next steps are not optional: an agent told "invalid argument" and nothing else does not
//! stop, it guesses. Everything here exists so that no error path can skip them.
use vstd::prelude::*;
use crate::text::{blank, is_blank, str_views};
use crate::wire::{actionable, refusal, EnvelopeView, ErrorCode, ErrorEnvelope, NextSteps};

verus! {

/// The step used when a caller hands in a blank one.
pub const LAST_RESORT: &'static str = "run `nysia --help` to see the verb's flags";

/// The steps made of `first` and `rest`: a blank first one is replaced, a blank later one is
/// dropped.
pub open spec fn steps_of(first: Seq<char>, rest: Seq<Seq<char>>) -> Seq<Seq<char>> {
    seq![
        if blank(first) {
            LAST_RESORT@
        } else {
            first
        },
    ] + rest.filter(|s: Seq<char>| !blank(s))
}

/// The steps for an error: a blank `first` is replaced by [`LAST_RESORT`], so the list is
/// never empty.
pub fn steps(first: &str, rest: &Vec<&str>) -> (out: NextSteps)
    ensures
        out@ == steps_of(first@, str_views(rest@)),
{
    let given = if is_blank(first) {
        LAST_RESORT
    } else {
        first
    };
    proof {
        reveal_strlit("run `nysia --help` to see the verb's flags");
        assert(!blank(LAST_RESORT@)) by {
            assert(LAST_RESORT@[0] == 'r');
        }
    }
    let opened = NextSteps::new(given);
    let mut out = opened.unwrap();
    let ghost pred = |s: Seq<char>| !blank(s);
    let mut i: usize = 0;
    proof {
        reveal(Seq::filter);
        assert(str_views(rest@).take(0).filter(pred) =~= Seq::empty());
    }
    while i < rest.len()
        invariant
            i <= rest.len(),
            pred == (|s: Seq<char>| !blank(s)),
            out@ == seq![given@] + str_views(rest@).take(i as int).filter(pred),
        decreases rest.len() - i,
    {
        proof {
            reveal(Seq::filter);
            assert(str_views(rest@).take(i + 1).drop_last() =~= str_views(rest@).take(i as int));
            assert(str_views(rest@).take(i + 1).last() == rest@[i as int]@);
        }
        out = out.and(rest[i]);
        i = i + 1;
        assert(out@ =~= seq![given@] + str_views(rest@).take(i as int).filter(pred));
    }
    assert(str_views(rest@).take(i as int) =~= str_views(rest@));
    out
}

/// No later steps.
pub fn no_more() -> (out: Vec<&'static str>)
    ensures
        str_views(out@) == Seq::<Seq<char>>::empty(),
{
    let out: Vec<&'static str> = Vec::new();
    assert(str_views(out@) =~= Seq::empty());
    out
}

/// One later step.
pub fn one<'a>(a: &'a str) -> (out: Vec<&'a str>)
    ensures
        str_views(out@) == seq![a@],
{
    let out: Vec<&'a str> = vec![a];
    assert(str_views(out@) =~= seq![a@]);
    out
}

/// Two later steps.
pub fn two<'a>(a: &'a str, b: &'a str) -> (out: Vec<&'a str>)
    ensures
        str_views(out@) == seq![a@, b@],
{
    let out: Vec<&'a str> = vec![a, b];
    assert(str_views(out@) =~= seq![a@, b@]);
    out
}

/// Three later steps.
pub fn three<'a>(a: &'a str, b: &'a str, c: &'a str) -> (out: Vec<&'a str>)
    ensures
        str_views(out@) == seq![a@, b@, c@],
{
    let out: Vec<&'a str> = vec![a, b, c];
    assert(str_views(out@) =~= seq![a@, b@, c@]);
    out
}

/// An error envelope, with its steps.
pub fn envelope(code: ErrorCode, message: String, first: &str, rest: &Vec<&str>) -> (out:
    ErrorEnvelope)
    ensures
        out@ == refusal(code, message@, steps_of(first@, str_views(rest@))),
{
    ErrorEnvelope::new(code, message, steps(first, rest))
}

/// Whatever steps a failure names, the list its envelope carries can be acted on.
pub proof fn law_steps_are_always_actionable(first: Seq<char>, rest: Seq<Seq<char>>)
    ensures
        actionable(steps_of(first, rest)),
{
    let pred = |s: Seq<char>| !blank(s);
    reveal_strlit("run `nysia --help` to see the verb's flags");
    assert(!blank(LAST_RESORT@)) by {
        assert(LAST_RESORT@[0] == 'r');
    }
    let kept = rest.filter(pred);
    broadcast use vstd::seq_lib::group_filter_ensures;
    assert forall|i: int| 0 <= i < steps_of(first, rest).len() implies !blank(
        #[trigger] steps_of(first, rest)[i],
    ) by {
        if i > 0 {
            assert(steps_of(first, rest)[i] == kept[i - 1]);
            assert(pred(kept[i - 1]));
        }
    }
}

/// What a failure in keeping the status record answers with. `said` is the failure's own
/// sentence, which names an action and a path and never a row.
pub open spec fn store_failure(said: Seq<char>) -> EnvelopeView {
    refusal(
        ErrorCode::Internal,
        said,
        steps_of(
            "retry the verb; a hook that cannot be recorded is spooled and drained at the next daemon start"@,
            seq![
                "check that the daemon's runtime directory is writable and not full"@,
                "see docs/plans/v0.2-delivery-plan.md §2.3 for what the spool guarantees"@,
            ],
        ),
    )
}

/// The envelope of a failure in keeping the status record.
pub fn store_envelope(said: String) -> (out: ErrorEnvelope)
    ensures
        out@ == store_failure(said@),
{
    let rest = two(
        "check that the daemon's runtime directory is writable and not full",
        "see docs/plans/v0.2-delivery-plan.md §2.3 for what the spool guarantees",
    );
    envelope(
        ErrorCode::Internal,
        said,
        "retry the verb; a hook that cannot be recorded is spooled and drained at the next daemon start",
        &rest,
    )
}

/// What was said first is said first, and every step that says anything follows in its order;
/// one that says nothing is left out.
pub proof fn law_every_step_is_kept_in_order(
    first: Seq<char>,
    rest: Seq<Seq<char>>,
    step: Seq<char>,
)
    ensures
        !blank(first) ==> steps_of(first, rest)[0] == first,
        !blank(first) ==> steps_of(first, Seq::empty()) == seq![first],
        !blank(step) ==> steps_of(first, rest.push(step)) == steps_of(first, rest).push(step),
        blank(step) ==> steps_of(first, rest.push(step)) == steps_of(first, rest),
{
    reveal(Seq::filter);
    let says = |s: Seq<char>| !blank(s);
    assert(rest.push(step).drop_last() =~= rest);
    assert(rest.push(step).filter(says) == if says(step) {
        rest.filter(says).push(step)
    } else {
        rest.filter(says)
    });
    let none = Seq::<Seq<char>>::empty();
    assert(none.filter(says) =~= none);
    assert(steps_of(first, none) =~= seq![if blank(first) { LAST_RESORT@ } else { first }]);
    if !blank(step) {
        assert(steps_of(first, rest.push(step)) =~= steps_of(first, rest).push(step));
    }
}

/// A store that failed says what the store said, and is not worth sending again as it is.
pub proof fn law_a_store_failure_says_what_the_store_said(said: Seq<char>)
    ensures
        store_failure(said).message == said,
        store_failure(said).code == ErrorCode::Internal,
        !store_failure(said).retryable,
        store_failure(said).command.len() == 0,
        actionable(store_failure(said).steps),
{
    law_steps_are_always_actionable(
        "retry the verb; a hook that cannot be recorded is spooled and drained at the next daemon start"@,
        seq![
            "check that the daemon's runtime directory is writable and not full"@,
            "see docs/plans/v0.2-delivery-plan.md §2.3 for what the spool guarantees"@,
        ],
    );
}

} // verus!
