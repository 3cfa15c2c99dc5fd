//! Who the kernel says is calling, and which session they descend from.
//!
//! Authorisation is by account and by nothing finer: everything the daemon owns is already
//! reachable by anything running as its user. Identification walks the caller's process tree
//! up to a session leader the daemon spawned.
use std::collections::HashMap;
use vstd::prelude::*;
use crate::text::{
    all_digits, blank, chars_of, decimal, decimal_of, hex, hex_of, is_digit,
    law_a_number_reads_back, law_the_second_word_follows_the_first, lemma_hex_is_injective,
    number, parse_digits, second_word, second_word_of, white_space,
};
use crate::wire::{Incarnation, SessionHandle};

verus! {

/// How far up a process tree the ancestry walk will look before giving up.
pub const MAX_ANCESTRY_DEPTH: usize = 64;

/// Why the peer could not be identified.
#[derive(Debug)]
pub enum PeerError {
    /// The kernel would not say who the peer is; the text is its own.
    Credentials(String),
    /// The platform cannot answer this question, so nothing may be assumed from it.
    Unsupported,
}

impl PeerError {
    /// What happened.
    pub fn message(&self) -> (out: String)
        ensures
            out@ == (match self {
                PeerError::Credentials(said) =>
                    "could not read peer credentials from the kernel: "@ + said@,
                PeerError::Unsupported => "peer credentials are not available on this platform"@,
            }),
    {
        match self {
            PeerError::Credentials(said) => {
                "could not read peer credentials from the kernel: ".to_owned().concat(
                    said.as_str(),
                )
            },
            PeerError::Unsupported => {
                "peer credentials are not available on this platform".to_owned()
            },
        }
    }
}

/// What the kernel says about the process at the other end.
#[derive(Debug, Clone, PartialEq, Eq)]
pub struct PeerCredentials {
    /// The peer's process id, where the platform reports one.
    pub pid: Option<u32>,
    /// The peer's user, spelled the way this platform spells one.
    pub user: String,
    /// This daemon's own user.
    pub daemon_user: String,
}

/// The sentence a refused peer is told, whoever it is.
pub open spec fn refusal_sentence() -> Seq<char> {
    "the connecting process does not run as the account this daemon serves"@
}

impl PeerCredentials {
    /// Whether the peer runs as the account this daemon does.
    pub open spec fn authorized(&self) -> bool {
        self.user@.len() > 0 && self.user@ == self.daemon_user@
    }

    /// What a Unix kernel's answer amounts to. A pid it spells as a negative number is no pid.
    pub fn from_unix(pid: Option<i32>, uid: u32, daemon_uid: u32) -> (out: PeerCredentials)
        ensures
            out.pid == (match pid {
                Some(pid) if pid >= 0 => Some(pid as u32),
                _ => None,
            }),
            out.user@ == decimal(uid as nat),
            out.daemon_user@ == decimal(daemon_uid as nat),
    {
        let pid: Option<u32> = match pid {
            Some(pid) => if pid >= 0 {
                Some(pid as u32)
            } else {
                None
            },
            None => None,
        };
        PeerCredentials {
            pid,
            user: decimal_of(uid as u64),
            daemon_user: decimal_of(daemon_uid as u64),
        }
    }

    /// What the Windows kernel's answer amounts to. An account it would not name is the empty
    /// one, which is never let in.
    pub fn from_windows(pid: u32, sid: Option<String>, daemon_sid: Option<String>) -> (out:
        PeerCredentials)
        ensures
            out.pid == Some(pid),
            out.user@ == (match sid {
                Some(sid) => sid@,
                None => Seq::empty(),
            }),
            out.daemon_user@ == (match daemon_sid {
                Some(sid) => sid@,
                None => Seq::empty(),
            }),
    {
        let user = match sid {
            Some(sid) => sid,
            None => String::new(),
        };
        let daemon_user = match daemon_sid {
            Some(sid) => sid,
            None => String::new(),
        };
        PeerCredentials { pid: Some(pid), user, daemon_user }
    }

    /// Whether the peer runs as the account this daemon does. The whole of the authorisation.
    pub fn authorize(&self) -> (out: bool)
        ensures
            out == self.authorized(),
    {
        !self.user.as_str().is_empty() && self.user == self.daemon_user
    }

    /// What to tell a refused peer. Never the credentials themselves.
    pub fn refusal_detail(&self) -> (out: String)
        ensures
            out@ == refusal_sentence(),
    {
        "the connecting process does not run as the account this daemon serves".to_owned()
    }

    /// The peer, for the daemon's own log.
    pub fn describe(&self) -> (out: String)
        ensures
            out@ == (match self.pid {
                Some(pid) => "pid "@ + decimal(pid as nat) + " as "@ + self.user@,
                None => "unknown pid as "@ + self.user@,
            }),
    {
        match self.pid {
            Some(pid) => "pid ".to_owned().concat(decimal_of(pid as u64).as_str()).concat(
                " as ",
            ).concat(self.user.as_str()),
            None => "unknown pid as ".to_owned().concat(self.user.as_str()),
        }
    }
}

/// A Windows account as it is compared: the hex of its SID's own bytes. A SID of no length
/// names nobody.
pub fn sid_to_hex(sid: &[u8]) -> (out: Option<String>)
    ensures
        out is Some <==> sid@.len() > 0,
        out is Some ==> out->0@ == hex(sid@),
{
    if sid.len() == 0 {
        None
    } else {
        Some(hex_of(sid))
    }
}

/// Two SIDs are spelled alike exactly when they are the same bytes, so comparing spellings
/// compares accounts.
pub proof fn law_accounts_are_one_exactly_when_their_sids_are(a: Seq<u8>, b: Seq<u8>)
    ensures
        hex(a) == hex(b) <==> a == b,
{
    if hex(a) == hex(b) {
        lemma_hex_is_injective(a, b);
    }
}

/// The session a caller turned out to be speaking from.
#[derive(Debug)]
pub struct CallerSession {
    /// The session the caller descends from.
    pub handle: SessionHandle,
    /// That session's incarnation.
    pub incarnation: Incarnation,
    /// How many process hops separated the caller from the session leader.
    pub depth: usize,
}

/// The process `n` hops above `pid`. A parent of zero, or of itself, is no parent.
pub open spec fn above(parents: Map<u32, u32>, pid: u32, n: nat) -> Option<u32>
    decreases n,
{
    if n == 0 {
        Some(pid)
    } else {
        match above(parents, pid, (n - 1) as nat) {
            Some(child) => if parents.dom().contains(child) && parents[child] != 0
                && parents[child] != child {
                Some(parents[child])
            } else {
                None
            },
            None => None,
        }
    }
}

/// Whether the nearest session leader above `pid` is `depth` hops up.
pub open spec fn nearest_leader(
    parents: Map<u32, u32>,
    leaders: Set<u32>,
    pid: u32,
    depth: nat,
) -> bool {
    &&& above(parents, pid, depth) is Some
    &&& leaders.contains(above(parents, pid, depth)->0)
    &&& forall|j: nat|
        j < depth ==> (#[trigger] above(parents, pid, j) is Some && !leaders.contains(
            above(parents, pid, j)->0,
        ))
}

proof fn lemma_above_prefix(parents: Map<u32, u32>, pid: u32, j: nat, n: nat)
    requires
        j <= n,
        above(parents, pid, n) is Some,
    ensures
        above(parents, pid, j) is Some,
    decreases n - j,
{
    if j < n {
        lemma_above_prefix(parents, pid, j + 1, n);
    }
}

proof fn lemma_above_repeats(parents: Map<u32, u32>, pid: u32, i: nat, j: nat, k: nat)
    requires
        above(parents, pid, i) == above(parents, pid, j),
    ensures
        above(parents, pid, i + k) == above(parents, pid, j + k),
    decreases k,
{
    if k > 0 {
        lemma_above_repeats(parents, pid, i, j, (k - 1) as nat);
        assert(i + k - 1 == i + (k - 1) as nat);
        assert(j + k - 1 == j + (k - 1) as nat);
    }
}

/// A walk that has come back to where it was before meeting a leader will never meet one.
proof fn lemma_a_cycle_has_no_leader(
    parents: Map<u32, u32>,
    leaders: Set<u32>,
    pid: u32,
    i: nat,
    j: nat,
    depth: nat,
)
    requires
        i < j,
        above(parents, pid, i) == above(parents, pid, j),
        j <= depth,
    ensures
        !nearest_leader(parents, leaders, pid, depth),
{
    if nearest_leader(parents, leaders, pid, depth) {
        let k = (depth - j) as nat;
        lemma_above_repeats(parents, pid, i, j, k);
        assert(i + k < depth);
        assert(above(parents, pid, i + k) is Some);
    }
}

/// Whether `out` is the session `pid` descends from: the one its nearest leader leads, or none
/// where no leader is within [`MAX_ANCESTRY_DEPTH`] hops.
pub open spec fn descent(
    out: Option<CallerSession>,
    pid: u32,
    leaders: Map<u32, (SessionHandle, Incarnation)>,
    parents: Map<u32, u32>,
) -> bool {
    match out {
        Some(found) => {
            &&& found.depth < MAX_ANCESTRY_DEPTH
            &&& nearest_leader(parents, leaders.dom(), pid, found.depth as nat)
            &&& (found.handle, found.incarnation) == leaders[above(
                parents,
                pid,
                found.depth as nat,
            )->0]
        },
        None => forall|depth: nat|
            depth < MAX_ANCESTRY_DEPTH ==> !nearest_leader(parents, leaders.dom(), pid, depth),
    }
}

/// Walk `pid` up its process tree until it reaches a session this daemon owns.
///
/// `leaders` maps a session leader's pid to the session it leads, and `parents` a process to
/// the one the kernel names as its parent. `None` when the caller descends from nothing the
/// daemon owns, within [`MAX_ANCESTRY_DEPTH`] hops.
pub fn ancestry(
    pid: u32,
    leaders: &HashMap<u32, (SessionHandle, Incarnation)>,
    parents: &HashMap<u32, u32>,
) -> (out: Option<CallerSession>)
    ensures
        descent(out, pid, leaders@, parents@),
{
    broadcast use vstd::std_specs::hash::group_hash_axioms;

    let mut seen: Vec<u32> = Vec::new();
    let mut current: u32 = pid;
    let mut depth: usize = 0;
    while depth < MAX_ANCESTRY_DEPTH
        invariant
            depth <= MAX_ANCESTRY_DEPTH,
            seen@.len() == depth,
            above(parents@, pid, depth as nat) == Some(current),
            forall|j: int|
                0 <= j < depth ==> above(parents@, pid, j as nat) == Some(#[trigger] seen@[j]),
            forall|j: nat|
                j < depth ==> (#[trigger] above(parents@, pid, j) is Some
                    && !leaders@.dom().contains(above(parents@, pid, j)->0)),
        decreases MAX_ANCESTRY_DEPTH - depth,
    {
        if let Some(found) = leaders.get(&current) {
            assert(nearest_leader(parents@, leaders@.dom(), pid, depth as nat));
            return Some(
                CallerSession { handle: found.0.clone(), incarnation: found.1.clone(), depth },
            );
        }
        let mut known: bool = false;
        let mut i: usize = 0;
        while i < seen.len()
            invariant
                i <= seen.len(),
                known == exists|j: int| 0 <= j < i && #[trigger] seen@[j] == current,
            decreases seen.len() - i,
        {
            if seen[i] == current {
                known = true;
            }
            i = i + 1;
        }
        if known {
            proof {
                let j = choose|j: int| 0 <= j < seen@.len() && #[trigger] seen@[j] == current;
                assert forall|d: nat| d < MAX_ANCESTRY_DEPTH implies !nearest_leader(
                    parents@,
                    leaders@.dom(),
                    pid,
                    d,
                ) by {
                    if nearest_leader(parents@, leaders@.dom(), pid, d) {
                        if d >= depth {
                            lemma_a_cycle_has_no_leader(
                                parents@,
                                leaders@.dom(),
                                pid,
                                j as nat,
                                depth as nat,
                                d,
                            );
                        }
                    }
                }
            }
            return None;
        }
        seen.push(current);
        let mut next: Option<u32> = None;
        if let Some(parent) = parents.get(&current) {
            if *parent != 0 && *parent != current {
                next = Some(*parent);
            }
        }
        match next {
            Some(parent) => {
                proof {
                    assert(above(parents@, pid, (depth + 1) as nat) == Some(parent));
                }
                current = parent;
            },
            None => {
                proof {
                    assert(above(parents@, pid, (depth + 1) as nat) is None);
                    assert forall|d: nat| d < MAX_ANCESTRY_DEPTH implies !nearest_leader(
                        parents@,
                        leaders@.dom(),
                        pid,
                        d,
                    ) by {
                        if nearest_leader(parents@, leaders@.dom(), pid, d) && d > depth {
                            lemma_above_prefix(parents@, pid, (depth + 1) as nat, d);
                        }
                    }
                }
                return None;
            },
        }
        depth = depth + 1;
    }
    None
}

/// A caller has at most one nearest leader: the depth is unique.
pub proof fn law_the_nearest_leader_is_unique(
    parents: Map<u32, u32>,
    leaders: Set<u32>,
    pid: u32,
    a: nat,
    b: nat,
)
    requires
        nearest_leader(parents, leaders, pid, a),
        nearest_leader(parents, leaders, pid, b),
    ensures
        a == b,
{
    if a < b {
        assert(above(parents, pid, a) is Some);
    } else if b < a {
        assert(above(parents, pid, b) is Some);
    }
}

/// What follows the last `)` of `s`, if there is one.
pub open spec fn after_last_paren(s: Seq<char>) -> Option<Seq<char>>
    decreases s.len(),
{
    if s.len() == 0 {
        None
    } else if s.last() == ')' {
        Some(Seq::empty())
    } else {
        match after_last_paren(s.drop_last()) {
            Some(tail) => Some(tail.push(s.last())),
            None => None,
        }
    }
}

/// The number a text spells, with an optional `+` before its digits, when it fits a `u32`.
pub open spec fn unsigned_number(s: Seq<char>) -> Option<u32> {
    let digits = if s.len() > 0 && s[0] == '+' {
        s.skip(1)
    } else {
        s
    };
    if all_digits(digits) && number(digits) <= u32::MAX {
        Some(number(digits) as u32)
    } else {
        None
    }
}

/// The parent a Linux `stat` record names: its second word after the last `)`. The name in the
/// brackets may itself hold spaces and brackets, so nothing before the last one is read.
pub open spec fn stat_parent(stat: Seq<char>) -> Option<u32> {
    match after_last_paren(stat) {
        Some(tail) => match second_word(tail) {
            Some(word) => unsigned_number(word),
            None => None,
        },
        None => None,
    }
}

proof fn lemma_after_last_paren(s: Seq<char>, at: int)
    requires
        0 <= at <= s.len(),
        forall|k: int| at <= k < s.len() ==> #[trigger] s[k] != ')',
        at > 0 ==> s[at - 1] == ')',
    ensures
        at == 0 ==> after_last_paren(s) is None,
        at > 0 ==> after_last_paren(s) == Some(s.skip(at)),
    decreases s.len(),
{
    if s.len() > 0 {
        if at < s.len() {
            assert(s[s.len() - 1] != ')');
            lemma_after_last_paren(s.drop_last(), at);
            assert(s.drop_last().skip(at).push(s.last()) =~= s.skip(at));
        } else {
            assert(s.skip(at) =~= Seq::empty());
        }
    }
}

/// The parent process id a Linux `/proc/<pid>/stat` record names, or `None` when the record
/// does not say.
pub fn parent_of(stat: &str) -> (out: Option<u32>)
    ensures
        out == stat_parent(stat@),
{
    let cs = chars_of(stat);
    let mut at: usize = cs.len();
    while at > 0 && cs[at - 1] != ')'
        invariant
            at <= cs.len(),
            cs@ == stat@,
            forall|k: int| at <= k < cs.len() ==> #[trigger] stat@[k] != ')',
        decreases at,
    {
        at = at - 1;
    }
    proof {
        lemma_after_last_paren(stat@, at as int);
    }
    if at == 0 {
        return None;
    }
    let word = match second_word_of(&cs, at) {
        Some(word) => word,
        None => {
            return None;
        },
    };
    let from: usize = if word.len() > 0 && word[0] == '+' {
        1
    } else {
        0
    };
    assert(word@.skip(0) =~= word@);
    match parse_digits(&word, from, 0xffff_ffff) {
        Some(parent) => Some(parent as u32),
        None => None,
    }
}

/// The parent a process table gives for `pid`: that of the first entry for it. Each entry is a
/// process and its parent.
pub open spec fn table_parent(table: Seq<(u32, u32)>, pid: u32) -> Option<u32>
    decreases table.len(),
{
    if table.len() == 0 {
        None
    } else if table[0].0 == pid {
        Some(table[0].1)
    } else {
        table_parent(table.skip(1), pid)
    }
}

/// The parent process id a snapshot of the process table gives for `pid`, or `None` when it
/// holds no such process.
pub fn parent_in_table(table: &[(u32, u32)], pid: u32) -> (out: Option<u32>)
    ensures
        out == table_parent(table@, pid),
{
    let mut i: usize = 0;
    assert(table@.skip(0) =~= table@);
    while i < table.len()
        invariant
            i <= table.len(),
            table_parent(table@, pid) == table_parent(table@.skip(i as int), pid),
        decreases table.len() - i,
    {
        assert(table@.skip(i as int).skip(1) =~= table@.skip(i + 1));
        if table[i].0 == pid {
            return Some(table[i].1);
        }
        i = i + 1;
    }
    None
}

/// A peer is this account exactly when both are named alike and are named at all.
pub proof fn law_only_the_same_account_is_authorized(
    peer: PeerCredentials,
    uid: u32,
    daemon_uid: u32,
)
    ensures
        peer.authorized() ==> peer.user@ == peer.daemon_user@ && peer.user@.len() > 0,
        peer.user@.len() == 0 ==> !peer.authorized(),
        peer.user@ != peer.daemon_user@ ==> !peer.authorized(),
        peer.user@ == decimal(uid as nat) && peer.daemon_user@ == decimal(daemon_uid as nat) ==> (
        peer.authorized() <==> uid == daemon_uid),
{
    law_a_number_reads_back(uid as nat);
    law_a_number_reads_back(daemon_uid as nat);
}

/// Going up some hops and then some more is going up both at once; one hop goes to the parent,
/// and the top of the tree has none.
pub proof fn law_hops_add_up(parents: Map<u32, u32>, pid: u32, m: nat, n: nat)
    ensures
        above(parents, pid, 0) == Some(pid),
        parents.dom().contains(pid) && parents[pid] != 0 && parents[pid] != pid ==> above(
            parents,
            pid,
            1,
        ) == Some(parents[pid]),
        !parents.dom().contains(pid) || parents[pid] == 0 || parents[pid] == pid ==> above(
            parents,
            pid,
            1,
        ) is None,
        above(parents, pid, m) matches Some(mid) ==> above(parents, pid, m + n) == above(
            parents,
            mid,
            n,
        ),
        above(parents, pid, m) is None ==> above(parents, pid, m + n) is None,
    decreases n,
{
    assert(above(parents, pid, 0) == Some(pid));
    if n > 0 {
        law_hops_add_up(parents, pid, m, (n - 1) as nat);
        assert((m + n - 1) as nat == m + (n - 1) as nat);
    }
}

/// A caller descends from the nearest session leader above it within sixty-four processes, its
/// own among them; one that has no leader there descends from none.
pub proof fn law_a_caller_descends_from_its_nearest_leader(
    out: Option<CallerSession>,
    pid: u32,
    leaders: Map<u32, (SessionHandle, Incarnation)>,
    parents: Map<u32, u32>,
    hops: nat,
)
    requires
        descent(out, pid, leaders, parents),
        hops < 64,
    ensures
        leaders.dom().contains(pid) ==> out is Some && out->0.depth == 0 && (
            out->0.handle,
            out->0.incarnation,
        ) == leaders[pid],
        out is None ==> (above(parents, pid, hops) is Some ==> !leaders.dom().contains(
            above(parents, pid, hops)->0,
        )),
        out matches Some(found) ==> found.depth < 64 && above(parents, pid, found.depth as nat)
            is Some && leaders.dom().contains(above(parents, pid, found.depth as nat)->0) && (
            found.handle,
            found.incarnation,
        ) == leaders[above(parents, pid, found.depth as nat)->0],
        out matches Some(found) ==> hops < found.depth ==> above(parents, pid, hops) is Some
            && !leaders.dom().contains(above(parents, pid, hops)->0),
{
    assert(above(parents, pid, 0) == Some(pid));
    if leaders.dom().contains(pid) {
        assert(nearest_leader(parents, leaders.dom(), pid, 0));
        if let Some(found) = out {
            law_the_nearest_leader_is_unique(
                parents,
                leaders.dom(),
                pid,
                0,
                found.depth as nat,
            );
        }
    }
    if out is None && above(parents, pid, hops) is Some && leaders.dom().contains(
        above(parents, pid, hops)->0,
    ) {
        lemma_some_leader_is_nearest(parents, leaders.dom(), pid, hops);
    }
}

proof fn lemma_some_leader_is_nearest(
    parents: Map<u32, u32>,
    leaders: Set<u32>,
    pid: u32,
    hops: nat,
)
    requires
        above(parents, pid, hops) is Some,
        leaders.contains(above(parents, pid, hops)->0),
    ensures
        exists|depth: nat| depth <= hops && #[trigger] nearest_leader(parents, leaders, pid, depth),
    decreases hops,
{
    if exists|j: nat|
        j < hops && #[trigger] above(parents, pid, j) is Some && leaders.contains(
            above(parents, pid, j)->0,
        ) {
        let j = choose|j: nat|
            j < hops && #[trigger] above(parents, pid, j) is Some && leaders.contains(
                above(parents, pid, j)->0,
            );
        lemma_some_leader_is_nearest(parents, leaders, pid, j);
    } else {
        assert forall|j: nat| j < hops implies #[trigger] above(parents, pid, j) is Some by {
            law_hops_add_up(parents, pid, j, (hops - j) as nat);
        }
        assert(nearest_leader(parents, leaders, pid, hops));
    }
}

/// A number spelled in base ten, with or without a plus sign, is read as that number if a
/// process id can be that large.
pub proof fn law_a_process_id_reads_back(n: nat)
    ensures
        n <= u32::MAX ==> unsigned_number(decimal(n)) == Some(n as u32),
        n <= u32::MAX ==> unsigned_number(seq!['+'] + decimal(n)) == Some(n as u32),
        n > u32::MAX ==> unsigned_number(decimal(n)) is None,
        unsigned_number(Seq::empty()) is None,
{
    law_a_number_reads_back(n);
    assert(is_digit(decimal(n)[0]));
    let plus = seq!['+'] + decimal(n);
    assert(plus.skip(1) =~= decimal(n));
}

/// What follows the last closing bracket is what follows it, whatever brackets stand before.
pub proof fn law_the_name_ends_at_the_last_bracket(before: Seq<char>, after: Seq<char>)
    requires
        !after.contains(')'),
    ensures
        after_last_paren(before.push(')') + after) == Some(after),
        after_last_paren(after) is None,
    decreases after.len(),
{
    let s = before.push(')') + after;
    if after.len() > 0 {
        let rest = after.drop_last();
        assert(s.drop_last() =~= before.push(')') + rest);
        assert(s.last() == after.last());
        assert(after[after.len() - 1] == after.last());
        assert(!rest.contains(')')) by {
            if rest.contains(')') {
                let i = choose|i: int| 0 <= i < rest.len() && rest[i] == ')';
                assert(after[i] == ')');
            }
        }
        law_the_name_ends_at_the_last_bracket(before, rest);
        assert(rest.push(after.last()) =~= after);
    } else {
        assert(s =~= before.push(')'));
        assert(after =~= Seq::empty());
    }
}

/// The parent in a process's record is the second word behind its name, whatever the name holds.
pub proof fn law_the_parent_is_the_second_word_behind_the_name(
    before: Seq<char>,
    state: Seq<char>,
    parent: u32,
    rest: Seq<char>,
)
    requires
        state.len() > 0,
        forall|i: int|
            0 <= i < state.len() ==> !white_space(#[trigger] state[i]) && state[i] != ')',
        !rest.contains(')'),
    ensures
        stat_parent(
            before.push(')') + (seq![' '] + state + seq![' '] + decimal(parent as nat) + (seq![' ']
                + rest)),
        ) == Some(parent),
{
    law_a_process_id_reads_back(parent as nat);
    law_a_number_reads_back(parent as nat);
    let space = seq![' '];
    let word = decimal(parent as nat);
    let tail = space + state + space + word + (space + rest);
    assert(blank(space)) by {
        assert(white_space(' '));
    }
    assert forall|i: int| 0 <= i < word.len() implies !white_space(#[trigger] word[i]) && word[i]
        != ')' by {
        assert(is_digit(word[i]));
    }
    law_the_second_word_follows_the_first(space, state, space, word, space + rest);
    assert(!tail.contains(')')) by {
        if tail.contains(')') {
            let i = choose|i: int| 0 <= i < tail.len() && tail[i] == ')';
            let a = 1 + state.len();
            let b = a + 1 + word.len();
            if i == 0 || i == a || i == b {
            } else if i < a {
                assert(tail[i] == state[i - 1]);
            } else if i < b {
                assert(tail[i] == word[i - a - 1]);
            } else {
                assert(tail[i] == rest[i - b - 1]);
                assert(rest.contains(')'));
            }
        }
    }
    law_the_name_ends_at_the_last_bracket(before, tail);
}

/// A process's parent in a table is the one in its first row, and there is none only where it
/// has no row.
pub proof fn law_a_table_gives_the_parent_in_the_first_row(table: Seq<(u32, u32)>, pid: u32)
    ensures
        table_parent(table, pid) is None <==> forall|i: int|
            0 <= i < table.len() ==> (#[trigger] table[i]).0 != pid,
        table_parent(table, pid) matches Some(parent) ==> exists|i: int|
            0 <= i < table.len() && #[trigger] table[i] == (pid, parent) && forall|j: int|
                0 <= j < i ==> (#[trigger] table[j]).0 != pid,
    decreases table.len(),
{
    if table.len() > 0 && table[0].0 != pid {
        let rest = table.skip(1);
        law_a_table_gives_the_parent_in_the_first_row(rest, pid);
        if let Some(parent) = table_parent(rest, pid) {
            let i = choose|i: int|
                0 <= i < rest.len() && #[trigger] rest[i] == (pid, parent) && forall|j: int|
                    0 <= j < i ==> (#[trigger] rest[j]).0 != pid;
            assert(table[i + 1] == (pid, parent));
            assert forall|j: int| 0 <= j < i + 1 implies (#[trigger] table[j]).0 != pid by {
                if j > 0 {
                    assert(rest[j - 1] == table[j]);
                }
            }
        } else {
            assert forall|i: int| 0 <= i < table.len() implies (#[trigger] table[i]).0 != pid by {
                if i > 0 {
                    assert(rest[i - 1] == table[i]);
                }
            }
        }
    } else if table.len() > 0 {
        assert(table[0] == (pid, table[0].1));
    }
}

} // verus!
