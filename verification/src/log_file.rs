//! The daemon's log: what may be asked of it, and how it is kept small.
//!
//! A log never carries terminal bytes or a caller's paths. Some of the crates underneath log
//! exactly those, so their targets are held down, and a directive that could lift one of them
//! is refused rather than honoured. A log that has grown past its cap is copied aside and
//! truncated in place, so that a process still appending to it goes on writing to the same
//! file.
use vstd::prelude::*;
use crate::text::{
    before_char, begins_with, blank, decimal, decimal_of, first_index, has_char, joined_by,
    law_a_number_reads_back, law_the_parts_make_up_the_whole,
    law_trimming_removes_only_white_space, lemma_first_index_is,
    lemma_trimmed_start_skips, split, split_on, starts_with, str_views, trim as trim_text,
    trimmed, white_space,
};

verus! {

/// Targets whose own logging carries terminal bytes, and the level each is held to.
pub const CONFINED_TARGETS: [&'static str; 3] = [
    "vte=off",
    "alacritty_terminal=warn",
    "portable_pty=off",
];

/// The environment variable every binary takes its filter from.
pub const LOG_ENV: &'static str = "NYSIA_LOG";

/// The separately named way to ask for a log that [`CONFINED_TARGETS`] does not hold.
pub const UNCONFINED_ENV: &'static str = "NYSIA_LOG_UNCONFINED";

/// How large one log file may get before it is rotated: 8 MiB.
pub const MAX_LOG_BYTES: u64 = 8 * 1024 * 1024;

/// How many rotated copies are kept beside the live log.
pub const KEPT_ROTATIONS: usize = 3;

/// Every log file for one endpoint, at the cap: 32 MiB.
pub const MAX_TOTAL_LOG_BYTES: u64 = 4 * 8 * 1024 * 1024;

/// The whole ceiling is one cap for the live log and one for each copy kept.
pub proof fn law_the_ceiling_is_the_product()
    ensures
        MAX_TOTAL_LOG_BYTES == MAX_LOG_BYTES * (KEPT_ROTATIONS + 1),
{
    assert(MAX_LOG_BYTES * (KEPT_ROTATIONS + 1) == 8 * 1024 * 1024 * 4) by (nonlinear_arith)
        requires
            MAX_LOG_BYTES == 8 * 1024 * 1024,
            KEPT_ROTATIONS == 3,
    ;
}

/// Whether a process was asked, by [`UNCONFINED_ENV`]'s own name, to drop the confinement:
/// `value` is what that variable holds. Empty counts as unset.
pub fn confinement_lifted(value: Option<&str>) -> (out: bool)
    ensures
        out == (value is Some && value->0@.len() > 0),
{
    match value {
        Some(value) => !value.is_empty(),
        None => false,
    }
}

/// The crate a directive names: what stands before its `=`.
pub open spec fn directive_target(directive: Seq<char>) -> Seq<char> {
    directive.take(first_index(directive, '='))
}

/// Whether `target` begins with the name of a confined crate.
pub open spec fn names_a_confined_crate(target: Seq<char>) -> bool {
    exists|i: int|
        0 <= i < CONFINED_TARGETS@.len() && begins_with(
            target,
            directive_target((#[trigger] CONFINED_TARGETS@[i])@),
        )
}

/// Whether a directive could enable a callsite [`CONFINED_TARGETS`] is holding down: it carries
/// a span or field selector, or its target begins with a confined crate's name.
pub open spec fn reaches(directive: Seq<char>) -> bool {
    trimmed(directive).contains('[') || names_a_confined_crate(
        trimmed(directive_target(trimmed(directive))),
    )
}

/// Whether `directive` could enable a callsite [`CONFINED_TARGETS`] is holding down.
pub fn reaches_a_confined_target(directive: &str) -> (out: bool)
    ensures
        out == reaches(directive@),
{
    let plain = trim_text(directive);
    if has_char(plain.as_str(), '[') {
        return true;
    }
    let target = trim_text(before_char(plain.as_str(), '=').as_str());
    let mut i: usize = 0;
    while i < CONFINED_TARGETS.len()
        invariant
            i <= CONFINED_TARGETS@.len(),
            target@ == trimmed(directive_target(trimmed(directive@))),
            forall|k: int|
                0 <= k < i ==> !begins_with(
                    target@,
                    directive_target((#[trigger] CONFINED_TARGETS@[k])@),
                ),
        decreases CONFINED_TARGETS@.len() - i,
    {
        let krate = before_char(CONFINED_TARGETS[i], '=');
        if starts_with(target.as_str(), krate.as_str()) {
            assert(begins_with(target@, directive_target(CONFINED_TARGETS@[i as int]@)));
            return true;
        }
        i = i + 1;
    }
    false
}

/// A [`LOG_ENV`] value, split in two by [`screen_directives`].
#[derive(Debug, Clone, PartialEq, Eq)]
pub struct Screened<'a> {
    /// The directives that cannot reach a confined target, in the order written.
    pub honoured: Vec<&'a str>,
    /// The directives that could have, and were dropped instead.
    pub refused: Vec<&'a str>,
}

/// The directives a value asks for: its comma-separated parts, the empty ones dropped.
pub open spec fn directives(asked: Seq<char>) -> Seq<Seq<char>> {
    split(asked, ',').filter(|d: Seq<char>| d.len() > 0)
}

/// Split a [`LOG_ENV`] value into the directives that can be honoured and the ones that would
/// undo [`CONFINED_TARGETS`].
///
/// This screens rather than rewrites: a refused directive is dropped whole, and a survivor is
/// spelled exactly as it was written.
pub fn screen_directives<'a>(asked: &'a str) -> (out: Screened<'a>)
    ensures
        str_views(out.honoured@) == directives(asked@).filter(|d: Seq<char>| !reaches(d)),
        str_views(out.refused@) == directives(asked@).filter(|d: Seq<char>| reaches(d)),
{
    let parts = split_on(asked, ',');
    let mut honoured: Vec<&'a str> = Vec::new();
    let mut refused: Vec<&'a str> = Vec::new();
    let ghost all = split(asked@, ',');
    let ghost present = |d: Seq<char>| d.len() > 0;
    let ghost bad = |d: Seq<char>| reaches(d);
    let ghost good = |d: Seq<char>| !reaches(d);
    let mut i: usize = 0;
    proof {
        reveal(Seq::filter);
        assert(str_views(honoured@) =~= all.take(0).filter(present).filter(good));
        assert(str_views(refused@) =~= all.take(0).filter(present).filter(bad));
    }
    while i < parts.len()
        invariant
            i <= parts.len(),
            str_views(parts@) == all,
            present == (|d: Seq<char>| d.len() > 0),
            bad == (|d: Seq<char>| reaches(d)),
            good == (|d: Seq<char>| !reaches(d)),
            str_views(honoured@) == all.take(i as int).filter(present).filter(good),
            str_views(refused@) == all.take(i as int).filter(present).filter(bad),
        decreases parts.len() - i,
    {
        let part = parts[i];
        let ghost before = all.take(i as int).filter(present);
        let ghost was_honoured = str_views(honoured@);
        let ghost was_refused = str_views(refused@);
        proof {
            reveal(Seq::filter);
            assert(all.take(i + 1).drop_last() =~= all.take(i as int));
            assert(part@ == all[i as int]);
            assert(before.push(part@).drop_last() =~= before);
        }
        if !part.is_empty() {
            if reaches_a_confined_target(part) {
                refused.push(part);
                assert(str_views(refused@) =~= was_refused.push(part@));
            } else {
                honoured.push(part);
                assert(str_views(honoured@) =~= was_honoured.push(part@));
            }
        }
        i = i + 1;
    }
    assert(all.take(i as int) =~= all);
    Screened { honoured, refused }
}

/// Every directive the screen honours is one that cannot reach a confined target, and every one
/// it refuses could have.
pub proof fn law_the_screen_honours_nothing_that_reaches(asked: Seq<char>)
    ensures
        forall|d: Seq<char>|
            directives(asked).filter(|d: Seq<char>| !reaches(d)).contains(d) ==> !reaches(d),
        forall|d: Seq<char>|
            directives(asked).filter(|d: Seq<char>| reaches(d)).contains(d) ==> reaches(d),
        directives(asked).filter(|d: Seq<char>| !reaches(d)).len() + directives(asked).filter(
            |d: Seq<char>| reaches(d),
        ).len() == directives(asked).len(),
{
    broadcast use vstd::seq_lib::group_filter_ensures;
    let all = directives(asked);
    lemma_partition(all);
    let good = |d: Seq<char>| !reaches(d);
    let bad = |d: Seq<char>| reaches(d);
    assert forall|d: Seq<char>| all.filter(good).contains(d) implies !reaches(d) by {
        let i = choose|i: int| 0 <= i < all.filter(good).len() && all.filter(good)[i] == d;
        assert(good(all.filter(good)[i]));
    }
    assert forall|d: Seq<char>| all.filter(bad).contains(d) implies reaches(d) by {
        let i = choose|i: int| 0 <= i < all.filter(bad).len() && all.filter(bad)[i] == d;
        assert(bad(all.filter(bad)[i]));
    }
}

proof fn lemma_partition(all: Seq<Seq<char>>)
    ensures
        all.filter(|d: Seq<char>| !reaches(d)).len() + all.filter(
            |d: Seq<char>| reaches(d),
        ).len() == all.len(),
    decreases all.len(),
{
    reveal(Seq::filter);
    if all.len() > 0 {
        lemma_partition(all.drop_last());
    }
}

/// What the reader is told about a directive [`screen_directives`] refused.
pub open spec fn refusal_said(directive: Seq<char>) -> Seq<char> {
    LOG_ENV@ + ": `"@ + directive
        + "` was not applied. It could switch off the rule that keeps terminal bytes and a caller's paths out of this log. Set "@
        + UNCONFINED_ENV@ + "=1 as well to have it anyway, and then do not share the file."@
}

/// What to tell the reader about a directive [`screen_directives`] refused.
pub fn refusal_note(directive: &str) -> (out: String)
    ensures
        out@ == refusal_said(directive@),
{
    LOG_ENV.to_owned().concat(": `").concat(directive).concat(
        "` was not applied. It could switch off the rule that keeps terminal bytes and a caller's paths out of this log. Set ",
    ).concat(UNCONFINED_ENV).concat(
        "=1 as well to have it anyway, and then do not share the file.",
    )
}

/// What the reader is told when [`UNCONFINED_ENV`] is set.
pub open spec fn unconfined_said() -> Seq<char> {
    UNCONFINED_ENV@ + " is set. "@ + LOG_ENV@
        + " is being honoured in full, so this log can carry terminal output, a window title, an environment block and a caller's paths. It is not a file to attach to an issue."@
}

/// What to tell the reader when [`UNCONFINED_ENV`] is set.
pub fn unconfined_note() -> (out: String)
    ensures
        out@ == unconfined_said(),
{
    UNCONFINED_ENV.to_owned().concat(" is set. ").concat(LOG_ENV).concat(
        " is being honoured in full, so this log can carry terminal output, a window title, an environment block and a caller's paths. It is not a file to attach to an issue.",
    )
}

/// Where the `index`th rotation of `live` lives.
pub open spec fn rotation_of(live: Seq<char>, index: nat) -> Seq<char> {
    live + "."@ + decimal(index)
}

/// Where the `index`th rotation of `live` lives: `<live>.1`, `<live>.2`, and so on.
pub fn rotation_path(live: &str, index: usize) -> (out: String)
    ensures
        out@ == rotation_of(live@, index as nat),
{
    live.to_owned().concat(".").concat(decimal_of(index as u64).as_str())
}

/// What a trim did.
#[derive(Clone, Copy, Debug, PartialEq, Eq, Structural)]
pub enum Trimmed {
    /// The log was within the cap, or there was no log. Nothing moved.
    Untouched,
    /// The log was over the cap: its contents were moved into the first rotation and the live
    /// file was truncated in place.
    Rotated {
        /// How many bytes were moved out of the live log.
        bytes: u64,
    },
}

/// What a trim is to do.
#[derive(Debug)]
pub struct TrimPlan {
    /// What it amounts to.
    pub trimmed: Trimmed,
    /// The rotations to rename first, in this order: each from its index to the one after it,
    /// where there is a file at it. The live log is then copied into the first rotation and
    /// truncated.
    pub shift: Vec<usize>,
}

/// What a trim of a log of that size amounts to; `None` when there is no log.
pub open spec fn trim_decision(size: Option<u64>, cap: u64) -> Trimmed {
    match size {
        Some(bytes) if bytes > cap => Trimmed::Rotated { bytes },
        _ => Trimmed::Untouched,
    }
}

/// The indices a rotation moves up by one, oldest first.
pub open spec fn shift_order(kept: nat) -> Seq<usize>
    decreases kept,
{
    if kept <= 1 {
        Seq::empty()
    } else {
        seq![(kept - 1) as usize] + shift_order((kept - 1) as nat)
    }
}

/// What to do about a log of that size, keeping `kept` rotations beside it.
pub fn trim_to(size: Option<u64>, cap: u64, kept: usize) -> (out: TrimPlan)
    ensures
        out.trimmed == trim_decision(size, cap),
        out.trimmed is Untouched ==> out.shift@.len() == 0,
        out.trimmed is Rotated ==> out.shift@ == shift_order(kept as nat),
{
    let mut shift: Vec<usize> = Vec::new();
    if let Some(bytes) = size {
        if bytes > cap {
            let mut index: usize = kept;
            assert(shift@ + shift_order(kept as nat) =~= shift_order(kept as nat));
            while index > 1
                invariant
                    index <= kept,
                    shift@ + shift_order(index as nat) == shift_order(kept as nat),
                decreases index,
            {
                let ghost before = shift@;
                shift.push(index - 1);
                assert(before + (seq![(index - 1) as usize] + shift_order((index - 1) as nat))
                    =~= shift@ + shift_order((index - 1) as nat));
                index = index - 1;
            }
            assert(shift@ + shift_order(index as nat) =~= shift@);
            return TrimPlan { trimmed: Trimmed::Rotated { bytes }, shift };
        }
    }
    TrimPlan { trimmed: Trimmed::Untouched, shift }
}

/// What to do about a log of that size: rotate it once it has grown past [`MAX_LOG_BYTES`],
/// keeping [`KEPT_ROTATIONS`].
pub fn trim(size: Option<u64>) -> (out: TrimPlan)
    ensures
        out.trimmed == trim_decision(size, MAX_LOG_BYTES),
        out.trimmed is Untouched ==> out.shift@.len() == 0,
        out.trimmed is Rotated ==> out.shift@ == shift_order(KEPT_ROTATIONS as nat),
{
    trim_to(size, MAX_LOG_BYTES, KEPT_ROTATIONS)
}

/// The rotations after renaming, in order, each index in `shift` to the one after it.
/// `files` maps an index to what the rotation there holds.
pub open spec fn shifted(files: Map<nat, Seq<u8>>, shift: Seq<usize>) -> Map<nat, Seq<u8>>
    decreases shift.len(),
{
    if shift.len() == 0 {
        files
    } else {
        let from = shift[0] as nat;
        let next = if files.dom().contains(from) {
            files.remove(from).insert(from + 1, files[from])
        } else {
            files
        };
        shifted(next, shift.skip(1))
    }
}

/// The rotations after a trim has carried out its plan on a log that held `live`.
pub open spec fn rotated(files: Map<nat, Seq<u8>>, live: Seq<u8>, kept: nat) -> Map<nat, Seq<u8>> {
    shifted(files, shift_order(kept)).insert(1, live)
}

/// A rotation loses nothing it was to keep: the live log becomes the first rotation, each one
/// before the last moves to the next index, and no more than `kept` are there afterwards.
/// Nothing is there that was not: what a later index holds came from the one before it, or,
/// where that one was missing, stayed at the end.
pub proof fn law_a_rotation_keeps_the_newest(files: Map<nat, Seq<u8>>, live: Seq<u8>, kept: nat)
    requires
        1 <= kept <= usize::MAX,
        forall|i: nat| #[trigger] files.dom().contains(i) ==> 1 <= i <= kept,
    ensures
        rotated(files, live, kept).dom().contains(1),
        rotated(files, live, kept)[1] == live,
        forall|i: nat|
            1 <= i < kept && #[trigger] files.dom().contains(i) ==> rotated(
                files,
                live,
                kept,
            ).dom().contains(i + 1) && rotated(files, live, kept)[i + 1] == files[i],
        forall|i: nat| #[trigger]
            rotated(files, live, kept).dom().contains(i) ==> 1 <= i <= kept && (i == 1
                || files.dom().contains((i - 1) as nat) || (i == kept && files.dom().contains(i)
                && rotated(files, live, kept)[i] == files[i])),
{
    lemma_shifted(files, kept);
}

proof fn lemma_shifted(files: Map<nat, Seq<u8>>, kept: nat)
    requires
        1 <= kept <= usize::MAX,
    ensures
        ({
            let after = shifted(files, shift_order(kept));
            &&& forall|i: nat|
                1 <= i < kept && #[trigger] files.dom().contains(i) ==> after.dom().contains(i + 1)
                    && after[i + 1] == files[i]
            &&& forall|i: nat|
                2 <= i < kept && #[trigger] after.dom().contains(i) ==> files.dom().contains(
                    (i - 1) as nat,
                )
            &&& kept > 1 && !files.dom().contains((kept - 1) as nat) ==> after.dom().contains(kept)
                == files.dom().contains(kept) && (files.dom().contains(kept) ==> after[kept]
                == files[kept])
            &&& forall|i: nat|
                i == 0 || i > kept ==> #[trigger] after.dom().contains(i) == files.dom().contains(i)
                    && (files.dom().contains(i) ==> after[i] == files[i])
            &&& kept == 1 ==> after == files
        }),
    decreases kept,
{
    if kept > 1 {
        let order = shift_order(kept);
        let from = (kept - 1) as nat;
        assert(order[0] == from);
        assert(order.skip(1) =~= shift_order(from));
        let next = if files.dom().contains(from) {
            files.remove(from).insert(from + 1, files[from])
        } else {
            files
        };
        let after = shifted(files, order);
        assert(after == shifted(next, shift_order(from)));
        lemma_shifted(next, from);
        assert(after.dom().contains(kept) == next.dom().contains(kept));
        assert forall|i: nat| 1 <= i < kept && #[trigger] files.dom().contains(i) implies
            after.dom().contains(i + 1) && after[i + 1] == files[i] by {
            if i < from {
                assert(next.dom().contains(i));
            }
        }
        assert forall|i: nat| 2 <= i < kept && #[trigger] after.dom().contains(i) implies
            files.dom().contains((i - 1) as nat) by {
            if i < from {
                assert(next.dom().contains((i - 1) as nat));
            } else {
                assert(i == from && !next.dom().contains(from));
                if !next.dom().contains((from - 1) as nat) {
                    assert(after.dom().contains(from) == next.dom().contains(from));
                }
            }
        }
        assert forall|i: nat| i == 0 || i > kept implies #[trigger] after.dom().contains(i)
            == files.dom().contains(i) && (files.dom().contains(i) ==> after[i] == files[i]) by {
            assert(after.dom().contains(i) == next.dom().contains(i));
            assert(next.dom().contains(i) == files.dom().contains(i));
            if files.dom().contains(i) {
                assert(next[i] == files[i]);
            }
        }
    }
}

/// What a directive is for is what stands before its first equals sign, or all of it.
pub proof fn law_a_directive_is_for_what_stands_before_the_equals_sign(
    target: Seq<char>,
    level: Seq<char>,
)
    requires
        !target.contains('='),
    ensures
        directive_target(target.push('=') + level) == target,
        directive_target(target) == target,
{
    let s = target.push('=') + level;
    assert forall|i: int| 0 <= i < target.len() implies #[trigger] s[i] != '=' by {
        assert(s[i] == target[i]);
        assert(target.contains(target[i]));
    }
    lemma_first_index_is(s, '=', target.len() as int);
    assert(s.take(target.len() as int) =~= target);
    assert forall|i: int| 0 <= i < target.len() implies #[trigger] target[i] != '=' by {
        assert(target.contains(target[i]));
    }
    lemma_first_index_is(target, '=', target.len() as int);
    assert(target.take(target.len() as int) =~= target);
}

/// What was asked for is split at its commas: each part that is not empty is a directive, none
/// holds a comma, and the parts with their commas are all that was asked for.
pub proof fn law_what_was_asked_for_is_split_at_its_commas(asked: Seq<char>, i: int)
    ensures
        0 <= i < directives(asked).len() ==> directives(asked)[i].len() > 0 && !directives(
            asked,
        )[i].contains(','),
        joined_by(split(asked, ','), ',') == asked,
        forall|k: int|
            0 <= k < split(asked, ',').len() && #[trigger] split(asked, ',')[k].len() > 0
                ==> directives(asked).contains(split(asked, ',')[k]),
{
    let parts = split(asked, ',');
    let full = |d: Seq<char>| d.len() > 0;
    law_the_parts_make_up_the_whole(asked, ',');
    assert forall|k: int| 0 <= k < parts.len() && #[trigger] parts[k].len() > 0 implies directives(
        asked,
    ).contains(parts[k]) by {
        parts.lemma_filter_contains(full, k);
    }
    if 0 <= i < directives(asked).len() {
        parts.lemma_filter_pred(full, i);
        let k = lemma_kept_was_a_part(parts, full, i);
        assert(directives(asked)[i] == parts[k]);
        if parts[k].contains(',') {
            let j = choose|j: int| 0 <= j < parts[k].len() && parts[k][j] == ',';
            assert(parts[k][j] != ',');
        }
    }
}

proof fn lemma_kept_was_a_part(
    parts: Seq<Seq<char>>,
    p: spec_fn(Seq<char>) -> bool,
    i: int,
) -> (k: int)
    requires
        0 <= i < parts.filter(p).len(),
    ensures
        0 <= k < parts.len(),
        parts.filter(p)[i] == parts[k],
    decreases parts.len(),
{
    reveal(Seq::filter);
    let head = parts.drop_last();
    if i < head.filter(p).len() {
        lemma_kept_was_a_part(head, p, i)
    } else {
        parts.len() - 1
    }
}

/// A refused directive is named in what is said of it.
pub proof fn law_a_refused_directive_is_named(directive: Seq<char>)
    ensures
        ({
            let lead = LOG_ENV@ + ": `"@;
            refusal_said(directive).subrange(
                lead.len() as int,
                lead.len() as int + directive.len() as int,
            ) == directive
        }),
        ({
            let end = "NYSIA_LOG_UNCONFINED=1 as well to have it anyway, and then do not share the file."@;
            refusal_said(directive).skip(refusal_said(directive).len() - end.len()) == end
        }),
{
    let end = "NYSIA_LOG_UNCONFINED=1 as well to have it anyway, and then do not share the file."@;
    reveal_strlit(
        "NYSIA_LOG_UNCONFINED=1 as well to have it anyway, and then do not share the file.",
    );
    reveal_strlit("NYSIA_LOG_UNCONFINED");
    reveal_strlit("=1 as well to have it anyway, and then do not share the file.");
    assert(UNCONFINED_ENV@ + "=1 as well to have it anyway, and then do not share the file."@
        =~= end);
    assert(refusal_said(directive).skip(refusal_said(directive).len() - end.len()) =~= end);
    let lead = LOG_ENV@ + ": `"@;
    assert(refusal_said(directive).subrange(
        lead.len() as int,
        lead.len() as int + directive.len() as int,
    ) =~= directive);
}

/// Each rotation has a name of its own, which begins with the live log's and is not it.
pub proof fn law_each_rotation_has_its_own_name(live: Seq<char>, one: nat, two: nat)
    ensures
        rotation_of(live, one) == rotation_of(live, two) ==> one == two,
        rotation_of(live, one) != live,
        rotation_of(live, one).take(live.len() as int) == live,
        rotation_of(live, one).skip(live.len() as int) == seq!['.'] + decimal(one),
{
    reveal_strlit(".");
    let a = rotation_of(live, one);
    let b = rotation_of(live, two);
    law_a_number_reads_back(one);
    law_a_number_reads_back(two);
    assert(a.take(live.len() as int) =~= live);
    assert(a.skip(live.len() as int) =~= seq!['.'] + decimal(one));
    if a == b {
        assert(a.skip(live.len() as int + 1) =~= decimal(one));
        assert(b.skip(live.len() as int + 1) =~= decimal(two));
    }
    assert(a.len() > live.len());
}

/// A log is rotated once it is over the cap and not before, and all of it is moved out.
pub proof fn law_a_log_over_the_cap_is_rotated(size: u64, cap: u64)
    ensures
        trim_decision(Some(size), cap) is Rotated <==> size > cap,
        size > cap ==> trim_decision(Some(size), cap) == (Trimmed::Rotated { bytes: size }),
        trim_decision(None, cap) is Untouched,
        trim_decision(Some(size), 0x80_0000) == trim_decision(Some(size), MAX_LOG_BYTES),
{
}

/// The rotations are moved from the oldest down, so that none is written over before it has
/// been moved: each but the last is moved once.
pub proof fn law_the_oldest_rotation_moves_first(kept: nat, i: int)
    requires
        1 <= kept <= usize::MAX,
    ensures
        shift_order(kept).len() == kept - 1,
        0 <= i < kept - 1 ==> shift_order(kept)[i] == kept - 1 - i,
    decreases kept,
{
    if kept > 1 {
        let less = (kept - 1) as nat;
        law_the_oldest_rotation_moves_first(less, i - 1);
        law_the_oldest_rotation_moves_first(less, 0);
        if 0 < i < kept - 1 {
            assert(shift_order(kept)[i] == shift_order(less)[i - 1]);
        }
    }
}

/// A directive for a confined crate, or for anything whose name begins with one's, is refused
/// at whatever level, and so is one that selects by span or field.
pub proof fn law_a_directive_for_a_confined_crate_is_refused(
    gap: Seq<char>,
    name: Seq<char>,
    rest: Seq<char>,
    level: Seq<char>,
)
    requires
        name == "vte"@ || name == "alacritty_terminal"@ || name == "portable_pty"@,
        blank(gap),
        forall|i: int| 0 <= i < rest.len() ==> !white_space(#[trigger] rest[i]) && rest[i] != '=',
        level.len() > 0 && !white_space(level.last()),
    ensures
        reaches(gap + ((name + rest).push('=') + level)),
        reaches(gap + (name + rest)),
{
    reveal_strlit("vte");
    reveal_strlit("alacritty_terminal");
    reveal_strlit("portable_pty");
    reveal_strlit("vte=off");
    reveal_strlit("alacritty_terminal=warn");
    reveal_strlit("portable_pty=off");
    let target = name + rest;
    assert forall|i: int| 0 <= i < target.len() implies !white_space(#[trigger] target[i])
        && target[i] != '=' by {
        if i < name.len() {
            assert(target[i] == name[i]);
        } else {
            assert(target[i] == rest[i - name.len()]);
        }
    }
    assert(!target.contains('='));
    law_a_directive_is_for_what_stands_before_the_equals_sign(target, level);
    let body = target.push('=') + level;
    assert(body[0] == target[0]);
    assert(body.last() == level.last());
    lemma_trimmed_start_skips(gap, body);
    assert(trimmed(gap + body) == body);
    assert(target.last() == target[target.len() - 1]);
    lemma_trimmed_start_skips(gap, target);
    assert(trimmed(gap + target) == target);
    lemma_trimmed_start_skips(Seq::empty(), target);
    assert(Seq::<char>::empty() + target =~= target);
    assert(trimmed(target) == target);
    lemma_confined_names();
    assert(target.take(name.len() as int) =~= name);
    assert(names_a_confined_crate(target)) by {
        if name == "vte"@ {
            assert(begins_with(target, directive_target(CONFINED_TARGETS@[0]@)));
        } else if name == "alacritty_terminal"@ {
            assert(begins_with(target, directive_target(CONFINED_TARGETS@[1]@)));
        } else {
            assert(begins_with(target, directive_target(CONFINED_TARGETS@[2]@)));
        }
    }
}

proof fn lemma_confined_names()
    ensures
        CONFINED_TARGETS@.len() == 3,
        directive_target(CONFINED_TARGETS@[0]@) == "vte"@,
        directive_target(CONFINED_TARGETS@[1]@) == "alacritty_terminal"@,
        directive_target(CONFINED_TARGETS@[2]@) == "portable_pty"@,
{
    reveal_strlit("vte");
    reveal_strlit("alacritty_terminal");
    reveal_strlit("portable_pty");
    reveal_strlit("vte=off");
    reveal_strlit("alacritty_terminal=warn");
    reveal_strlit("portable_pty=off");
    assert(CONFINED_TARGETS@[0]@ == "vte=off"@);
    assert(CONFINED_TARGETS@[1]@ == "alacritty_terminal=warn"@);
    assert(CONFINED_TARGETS@[2]@ == "portable_pty=off"@);
    let a = "vte"@;
    let b = "alacritty_terminal"@;
    let c = "portable_pty"@;
    let x = "vte=off"@;
    let y = "alacritty_terminal=warn"@;
    let z = "portable_pty=off"@;
    law_a_directive_is_for_what_stands_before_the_equals_sign(a, x.skip(4));
    assert(x =~= a.push('=') + x.skip(4));
    law_a_directive_is_for_what_stands_before_the_equals_sign(b, y.skip(19));
    assert(y =~= b.push('=') + y.skip(19));
    law_a_directive_is_for_what_stands_before_the_equals_sign(c, z.skip(13));
    assert(z =~= c.push('=') + z.skip(13));
}

/// A directive that selects by span or field is refused whatever it is for.
pub proof fn law_a_selector_is_refused(directive: Seq<char>)
    requires
        directive.contains('['),
    ensures
        reaches(directive),
{
    let cut = law_trimming_removes_only_white_space(directive);
    let at = choose|i: int| 0 <= i < directive.len() && directive[i] == '[';
    let plain = trimmed(directive);
    let from = cut.0.len() as int;
    if at < from {
        assert(directive[at] == cut.0[at]);
    } else if at < from + plain.len() {
        assert(directive[at] == plain[at - from]);
    } else {
        assert(directive[at] == cut.1[at - from - plain.len()]);
    }
    assert(!white_space('['));
}

/// A directive that selects nothing and is for no confined crate is honoured.
pub proof fn law_any_other_directive_is_honoured(directive: Seq<char>)
    requires
        !directive.contains('['),
        reaches(directive),
    ensures
        ({
            let target = trimmed(directive_target(trimmed(directive)));
            begins_with(target, "vte"@) || begins_with(target, "alacritty_terminal"@)
                || begins_with(target, "portable_pty"@)
        }),
{
    lemma_confined_names();
    let cut = law_trimming_removes_only_white_space(directive);
    let plain = trimmed(directive);
    if plain.contains('[') {
        let i = choose|i: int| 0 <= i < plain.len() && plain[i] == '[';
        assert(directive[cut.0.len() + i] == '[');
    }
}

} // verus!
