//! The daemon's half of agent status: what becomes of a hook, what a drain of the spool did,
//! and who hears about a change.
//!
//! What a row holds is never looked at here: a row can carry a question verbatim, and nothing
//! this module says or keeps repeats one.
use vstd::prelude::*;
use crate::stream::registry::{
    is_handed, same_connections, AttachedStream, ConnectionKey, StreamRegistry,
};
use crate::stream::sink::{copied, law_only_output_spends, sent, Offer, SendOutcome, SinkView};
use crate::wire::StreamId;

verus! {

/// What became of one restored row.
#[derive(Clone, Copy, Debug, PartialEq, Eq, Structural)]
pub enum Restored {
    /// It was written, flagged as unconfirmed.
    Applied,
    /// A live row already supersedes it.
    Superseded,
    /// The store refused it.
    Failed,
}

/// What a drain of the spool did once the store had seen it.
#[derive(Clone, Copy, Debug, PartialEq, Eq, Structural)]
pub struct RestoreSummary {
    /// Rows written, flagged as unconfirmed.
    pub applied: usize,
    /// Rows a live row already superseded.
    pub superseded: usize,
    /// Rows the store refused.
    pub failed: usize,
}

/// How many of the outcomes are that one.
pub open spec fn tally(outcomes: Seq<Restored>, which: Restored) -> nat
    decreases outcomes.len(),
{
    if outcomes.len() == 0 {
        0
    } else {
        tally(outcomes.drop_last(), which) + if outcomes.last() == which {
            1nat
        } else {
            0
        }
    }
}

/// Every restored row is counted, and once.
pub proof fn law_every_restored_row_is_counted_once(outcomes: Seq<Restored>)
    ensures
        tally(outcomes, Restored::Applied) + tally(outcomes, Restored::Superseded) + tally(
            outcomes,
            Restored::Failed,
        ) == outcomes.len(),
    decreases outcomes.len(),
{
    if outcomes.len() > 0 {
        law_every_restored_row_is_counted_once(outcomes.drop_last());
    }
}

/// What recording a live hook came to.
#[derive(Debug)]
pub enum Recorded<A, E> {
    /// The event maps to no state at all.
    Unmapped,
    /// The row could not be written.
    NotWritten(E),
    /// The row was written and the pane's status could not be read back.
    NotRead(E),
    /// The row was written, and the pane's status is this; `None` where its lead has not
    /// reported yet.
    Written(Option<A>),
}

/// A change to be broadcast: a pane's whole status, whose part of it changed, and whether it
/// may raise a notification.
#[derive(Debug)]
pub struct AgentStatusChange<A, C, N> {
    /// The pane's whole status after the change.
    pub status: A,
    /// Whose part of it changed.
    pub changed: C,
    /// Whether the row that was written may raise a notification.
    pub notify: N,
}

/// A status service: the store it persists through and the streams watching it.
#[derive(Debug)]
pub struct AgentStatusService<S> {
    store: S,
    subscribers: Vec<AttachedStream>,
}

impl<S> AgentStatusService<S> {
    /// The store behind it.
    pub closed spec fn kept_in(&self) -> S {
        self.store
    }

    /// The streams watching it, in the order they subscribed.
    pub closed spec fn watching(&self) -> Seq<AttachedStream> {
        self.subscribers@
    }

    /// Serve status out of an already-open store.
    pub fn with_store(store: S) -> (out: Self)
        ensures
            out.kept_in() == store,
            out.watching() == Seq::<AttachedStream>::empty(),
    {
        AgentStatusService { store, subscribers: Vec::new() }
    }

    /// The store behind this service.
    pub fn store(&self) -> (out: &S)
        ensures
            *out == self.kept_in(),
    {
        &self.store
    }

    /// Count what became of the rows a drain produced.
    pub fn restore(&self, outcomes: &Vec<Restored>) -> (out: RestoreSummary)
        ensures
            out.applied == tally(outcomes@, Restored::Applied),
            out.superseded == tally(outcomes@, Restored::Superseded),
            out.failed == tally(outcomes@, Restored::Failed),
    {
        let mut summary = RestoreSummary { applied: 0, superseded: 0, failed: 0 };
        let mut i: usize = 0;
        while i < outcomes.len()
            invariant
                i <= outcomes.len(),
                summary.applied == tally(outcomes@.take(i as int), Restored::Applied),
                summary.superseded == tally(outcomes@.take(i as int), Restored::Superseded),
                summary.failed == tally(outcomes@.take(i as int), Restored::Failed),
                summary.applied + summary.superseded + summary.failed == i,
            decreases outcomes.len() - i,
        {
            assert(outcomes@.take(i + 1).drop_last() =~= outcomes@.take(i as int));
            match outcomes[i] {
                Restored::Applied => {
                    summary.applied = summary.applied + 1;
                },
                Restored::Superseded => {
                    summary.superseded = summary.superseded + 1;
                },
                Restored::Failed => {
                    summary.failed = summary.failed + 1;
                },
            }
            i = i + 1;
        }
        assert(outcomes@.take(i as int) =~= outcomes@);
        summary
    }

    /// The change a live hook produced. An event mapped to nothing was received and produces
    /// none, and so does a pane whose subagent reported before its lead did.
    pub fn record<A, C, N, E>(&self, recorded: Recorded<A, E>, changed: C, notify: N) -> (out: Result<
        Option<AgentStatusChange<A, C, N>>,
        E,
    >)
        ensures
            out == (match recorded {
                Recorded::Unmapped => Ok::<Option<AgentStatusChange<A, C, N>>, E>(None),
                Recorded::NotWritten(err) => Err(err),
                Recorded::NotRead(err) => Err(err),
                Recorded::Written(None) => Ok(None),
                Recorded::Written(Some(status)) => Ok(
                    Some(AgentStatusChange { status, changed, notify }),
                ),
            }),
    {
        match recorded {
            Recorded::Unmapped => Ok(None),
            Recorded::NotWritten(err) => Err(err),
            Recorded::NotRead(err) => Err(err),
            Recorded::Written(None) => Ok(None),
            Recorded::Written(Some(status)) => Ok(
                Some(AgentStatusChange { status, changed, notify }),
            ),
        }
    }

    /// Start sending changes to a stream. To be called once the answer carrying its id has
    /// been written: a frame that overtook that answer would name an id its client does not
    /// know.
    pub fn subscribe(&mut self, stream: AttachedStream)
        ensures
            final(self).kept_in() == old(self).kept_in(),
            final(self).watching() == old(self).watching().push(stream),
    {
        self.subscribers.push(stream);
    }

    /// Stop sending changes to one id on one connection and close it, reporting whether it was
    /// there.
    pub fn unsubscribe(
        &mut self,
        streams: &mut StreamRegistry,
        connection: ConnectionKey,
        stream_id: StreamId,
    ) -> (out: bool)
        requires
            old(streams).wf(),
        ensures
            final(streams).wf(),
            final(self).kept_in() == old(self).kept_in(),
            ({
                let stream = AttachedStream { connection, stream: stream_id };
                &&& out == old(self).watching().contains(stream)
                &&& final(self).watching() == old(self).watching().filter(
                    |one: AttachedStream| one != stream,
                )
                &&& !out ==> *final(streams) == *old(streams)
                &&& out ==> same_connections(*old(streams), *final(streams))
                &&& out ==> final(streams).watched(stream) == (match old(streams).watched(stream) {
                    Some(sink) => Some(SinkView { closed: true, ..sink }),
                    None => None,
                })
                &&& forall|other: AttachedStream|
                    other != stream ==> #[trigger] final(streams).watched(other) == old(
                        streams,
                    ).watched(other)
            }),
    {
        let stream = AttachedStream { connection, stream: stream_id };
        let ghost pred = |one: AttachedStream| one != stream;
        let mut kept: Vec<AttachedStream> = Vec::new();
        let mut found = false;
        let mut i: usize = 0;
        proof {
            reveal(Seq::filter);
            assert(self.subscribers@.take(0).filter(pred) =~= Seq::empty());
        }
        while i < self.subscribers.len()
            invariant
                i <= self.subscribers.len(),
                pred == (|one: AttachedStream| one != stream),
                kept@ == self.subscribers@.take(i as int).filter(pred),
                found == self.subscribers@.take(i as int).contains(stream),
            decreases self.subscribers.len() - i,
        {
            let one = self.subscribers[i];
            proof {
                reveal(Seq::filter);
                let next = self.subscribers@.take(i + 1);
                assert(next.drop_last() =~= self.subscribers@.take(i as int));
                assert(next =~= self.subscribers@.take(i as int).push(one));
                assert(next.contains(stream) == (found || one == stream)) by {
                    if self.subscribers@.take(i as int).contains(stream) {
                        let at = choose|at: int|
                            0 <= at < i && self.subscribers@.take(i as int)[at] == stream;
                        assert(next[at] == stream);
                    }
                    if one == stream {
                        assert(next[i as int] == stream);
                    }
                }
            }
            if one == stream {
                found = true;
            } else {
                kept.push(one);
            }
            i = i + 1;
        }
        assert(self.subscribers@.take(i as int) =~= self.subscribers@);
        self.subscribers = kept;
        if found {
            streams.close_watched(stream);
        }
        found
    }

    /// How many subscriptions are live.
    pub fn subscribers(&self) -> (out: usize)
        ensures
            out == self.watching().len(),
    {
        self.subscribers.len()
    }

    /// Forget every subscription riding one connection.
    pub fn forget_connection(&mut self, connection: ConnectionKey)
        ensures
            final(self).kept_in() == old(self).kept_in(),
            final(self).watching() == old(self).watching().filter(
                |one: AttachedStream| one.connection != connection,
            ),
    {
        let ghost pred = |one: AttachedStream| one.connection != connection;
        let mut kept: Vec<AttachedStream> = Vec::new();
        let mut i: usize = 0;
        proof {
            reveal(Seq::filter);
            assert(self.subscribers@.take(0).filter(pred) =~= Seq::empty());
        }
        while i < self.subscribers.len()
            invariant
                i <= self.subscribers.len(),
                pred == (|one: AttachedStream| one.connection != connection),
                kept@ == self.subscribers@.take(i as int).filter(pred),
            decreases self.subscribers.len() - i,
        {
            let one = self.subscribers[i];
            proof {
                reveal(Seq::filter);
                assert(self.subscribers@.take(i + 1).drop_last() =~= self.subscribers@.take(
                    i as int,
                ));
            }
            if one.connection != connection {
                kept.push(one);
            }
            i = i + 1;
        }
        assert(self.subscribers@.take(i as int) =~= self.subscribers@);
        self.subscribers = kept;
    }
}

/// Whether `after` is what the registry becomes when one stream is handed a status, with that
/// outcome. A stream that is no longer open counts as closed.
pub open spec fn one_handed(
    before: StreamRegistry,
    after: StreamRegistry,
    stream: AttachedStream,
    payload: Seq<u8>,
    outcome: SendOutcome,
) -> bool {
    &&& same_connections(before, after)
    &&& match before.watched(stream) {
        Some(sink) => after.watched(stream) is Some && is_handed(
            sink,
            after.watched(stream)->0,
            payload,
            outcome,
        ),
        None => outcome is Closed && after.watched(stream) is None,
    }
    &&& forall|other: AttachedStream|
        other != stream ==> #[trigger] after.watched(other) == before.watched(other)
}

/// Whether the registry goes through `through` as each of `to` in turn is handed a status, with
/// those outcomes.
pub open spec fn handed_round(
    through: Seq<StreamRegistry>,
    to: Seq<AttachedStream>,
    payload: Seq<u8>,
    outcomes: Seq<SendOutcome>,
) -> bool {
    &&& outcomes.len() == to.len()
    &&& through.len() == to.len() + 1
    &&& forall|i: int|
        0 <= i < to.len() ==> one_handed(through[i], through[i + 1], to[i], payload, #[trigger] outcomes[i])
}

/// The streams whose outcome is not that they are closed, in order.
pub open spec fn not_closed(to: Seq<AttachedStream>, outcomes: Seq<SendOutcome>) -> Seq<
    AttachedStream,
>
    decreases to.len(),
{
    if to.len() == 0 {
        Seq::empty()
    } else {
        let before = not_closed(to.drop_last(), outcomes.drop_last());
        if outcomes.last() is Closed {
            before
        } else {
            before.push(to.last())
        }
    }
}

impl<S> AgentStatusService<S> {
    /// Send a change, as it was rendered, to every subscriber, forgetting the ones that have
    /// gone. One that will not render goes to nobody.
    ///
    /// A change that does not fit is dropped rather than queued: the next one carries the
    /// pane's whole status, so a subscriber that missed one is correct again then.
    pub fn broadcast(&mut self, streams: &mut StreamRegistry, payload: Option<Vec<u8>>)
        requires
            old(streams).wf(),
        ensures
            final(streams).wf(),
            final(self).kept_in() == old(self).kept_in(),
            match payload {
                None => final(self).watching() == old(self).watching() && *final(streams) == *old(
                    streams,
                ),
                Some(bytes) => exists|through: Seq<StreamRegistry>, outcomes: Seq<SendOutcome>|
                    #[trigger] handed_round(through, old(self).watching(), bytes@, outcomes) && through[0]
                        == *old(streams) && through.last() == *final(streams)
                        && final(self).watching() == not_closed(old(self).watching(), outcomes),
            },
    {
        let bytes = match payload {
            Some(bytes) => bytes,
            None => {
                return ;
            },
        };
        let ghost all = self.subscribers@;
        let ghost mut through: Seq<StreamRegistry> = seq![*streams];
        let ghost mut outcomes: Seq<SendOutcome> = Seq::empty();
        let mut kept: Vec<AttachedStream> = Vec::new();
        let mut i: usize = 0;
        proof {
            assert(all.take(0) =~= Seq::empty());
        }
        while i < self.subscribers.len()
            invariant
                i <= self.subscribers.len(),
                all == self.subscribers@,
                streams.wf(),
                through[0] == *old(streams),
                through.last() == *streams,
                handed_round(through, all.take(i as int), bytes@, outcomes),
                kept@ == not_closed(all.take(i as int), outcomes),
            decreases self.subscribers.len() - i,
        {
            let stream = self.subscribers[i];
            let ghost before = *streams;
            let again = copied(&bytes, 0, bytes.len());
            assert(again@ =~= bytes@);
            let outcome = streams.send_status(stream, again);
            proof {
                assert(one_handed(before, *streams, stream, bytes@, outcome));
                let passed = through;
                let were = outcomes;
                through = through.push(*streams);
                outcomes = outcomes.push(outcome);
                let to = all.take(i + 1);
                assert(to.drop_last() =~= all.take(i as int));
                assert(outcomes.drop_last() =~= were);
                assert forall|j: int| 0 <= j < to.len() implies one_handed(
                    through[j],
                    through[j + 1],
                    to[j],
                    bytes@,
                    #[trigger] outcomes[j],
                ) by {
                    if j < i {
                        assert(one_handed(
                            passed[j],
                            passed[j + 1],
                            all.take(i as int)[j],
                            bytes@,
                            were[j],
                        ));
                    }
                }
            }
            match outcome {
                SendOutcome::Sent => kept.push(stream),
                SendOutcome::WouldBlock => kept.push(stream),
                SendOutcome::Dropped => kept.push(stream),
                SendOutcome::Closed => {},
            }
            i = i + 1;
        }
        assert(all.take(i as int) =~= all);
        self.subscribers = kept;
        assert(handed_round(through, old(self).watching(), bytes@, outcomes));
    }
}

/// A status spends no credit, whatever becomes of it.
pub proof fn law_a_status_spends_no_credit(
    before: SinkView,
    after: SinkView,
    payload: Seq<u8>,
    outcome: SendOutcome,
)
    requires
        is_handed(before, after, payload, outcome),
    ensures
        after.credit == before.credit,
{
    let frame = crate::stream::registry::status_frame(before.id, payload);
    let (gone, offer) = choose|gone: bool, offer: Offer|
        (after, outcome) == #[trigger] sent(before, frame, gone, offer);
    law_only_output_spends(before, frame, gone, offer);
}

/// A subscriber is forgotten by a broadcast only where its stream turned out to be closed.
pub proof fn law_a_slow_subscriber_is_kept(
    to: Seq<AttachedStream>,
    outcomes: Seq<SendOutcome>,
    i: int,
)
    requires
        outcomes.len() == to.len(),
        0 <= i < to.len(),
        !(outcomes[i] is Closed),
    ensures
        not_closed(to, outcomes).contains(to[i]),
    decreases to.len(),
{
    let kept = not_closed(to, outcomes);
    if i < to.len() - 1 {
        law_a_slow_subscriber_is_kept(to.drop_last(), outcomes.drop_last(), i);
        let before = not_closed(to.drop_last(), outcomes.drop_last());
        let at = choose|at: int| 0 <= at < before.len() && before[at] == to.drop_last()[i];
        assert(kept[at] == to[i]);
    } else {
        assert(kept[kept.len() - 1] == to[i]);
    }
}

/// A count goes up by one with each row that had that outcome, and with no other.
pub proof fn law_a_row_counts_for_its_own_outcome(
    outcomes: Seq<Restored>,
    outcome: Restored,
    which: Restored,
)
    ensures
        outcome == which ==> tally(outcomes.push(outcome), which) == tally(outcomes, which) + 1,
        outcome != which ==> tally(outcomes.push(outcome), which) == tally(outcomes, which),
        tally(Seq::empty(), which) == 0,
{
    assert(outcomes.push(outcome).drop_last() =~= outcomes);
}

/// A subscriber whose client has gone is let go of, and every other is kept, in its place.
pub proof fn law_only_a_gone_subscriber_is_let_go(
    to: Seq<AttachedStream>,
    outcomes: Seq<SendOutcome>,
    one: AttachedStream,
    outcome: SendOutcome,
)
    requires
        outcomes.len() == to.len(),
    ensures
        outcome is Closed ==> not_closed(to.push(one), outcomes.push(outcome)) == not_closed(
            to,
            outcomes,
        ),
        !(outcome is Closed) ==> not_closed(to.push(one), outcomes.push(outcome)) == not_closed(
            to,
            outcomes,
        ).push(one),
        not_closed(Seq::empty(), Seq::empty()).len() == 0,
{
    assert(to.push(one).drop_last() =~= to);
    assert(outcomes.push(outcome).drop_last() =~= outcomes);
}

/// A broadcast reaches every subscriber once and nobody else: each is offered the row itself,
/// with the outcome that is noted for it, and every other stream is as it was.
pub proof fn law_a_broadcast_reaches_every_subscriber(
    through: Seq<StreamRegistry>,
    to: Seq<AttachedStream>,
    payload: Seq<u8>,
    outcomes: Seq<SendOutcome>,
    w: AttachedStream,
    i: int,
)
    requires
        handed_round(through, to, payload, outcomes),
        to.no_duplicates(),
    ensures
        !to.contains(w) ==> through.last().watched(w) == through[0].watched(w),
        0 <= i < to.len() && through[0].watched(to[i]) is Some ==> through.last().watched(to[i])
            is Some && is_handed(
            through[0].watched(to[i])->0,
            through.last().watched(to[i])->0,
            payload,
            outcomes[i],
        ),
        0 <= i < to.len() && through[0].watched(to[i]) is None ==> outcomes[i] is Closed
            && through.last().watched(to[i]) is None,
{
    let n = to.len() as int;
    assert(through[n] == through.last());
    if !to.contains(w) {
        lemma_untouched(through, to, payload, outcomes, w, 0, n);
    }
    if 0 <= i < n {
        assert forall|k: int| 0 <= k < n && k != i implies #[trigger] to[k] != to[i] by {}
        lemma_untouched(through, to, payload, outcomes, to[i], 0, i);
        lemma_untouched(through, to, payload, outcomes, to[i], i + 1, n);
        assert(one_handed(through[i], through[i + 1], to[i], payload, outcomes[i]));
    }
}

proof fn lemma_untouched(
    through: Seq<StreamRegistry>,
    to: Seq<AttachedStream>,
    payload: Seq<u8>,
    outcomes: Seq<SendOutcome>,
    w: AttachedStream,
    from: int,
    end: int,
)
    requires
        handed_round(through, to, payload, outcomes),
        0 <= from <= end <= to.len(),
        forall|k: int| from <= k < end ==> #[trigger] to[k] != w,
    ensures
        through[end].watched(w) == through[from].watched(w),
    decreases end - from,
{
    if from < end {
        lemma_untouched(through, to, payload, outcomes, w, from, end - 1);
        assert(one_handed(
            through[end - 1],
            through[end],
            to[end - 1],
            payload,
            outcomes[end - 1],
        ));
        assert(to[end - 1] != w);
    }
}

} // verus!
