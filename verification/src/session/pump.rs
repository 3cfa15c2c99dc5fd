//! The pump between a session's pty and the streams watching it.
//!
//! Each turn it flushes what has been coalesced, reads nothing while every watched stream is
//! out of allowance, and otherwise takes one chunk. Reading nothing is the backpressure: the
//! queue behind the pty fills, and the child blocks in its write.
use vstd::prelude::*;
use crate::stream::registry::{
    is_fed, is_replayed, is_told, law_a_told_stream_has_the_exit,
    law_attaching_to_an_ended_session_tells_its_exit, law_open_streams_lie_below_the_watermark,
    resume_at, same_connections, AttachedStream, StreamRegistry,
};
use crate::stream::sink::{
    asked, finished, law_a_run_delivers_each_byte_once, output_bytes, run, Answers, Heard, Offer,
    SinkView,
};
use crate::wire::{BodyView, FrameView, SessionExit};

verus! {

/// The smallest frame worth putting on the wire.
pub const COALESCE_MIN: usize = 1024;

/// The longest a byte waits to be flushed, and the pump's tick, in milliseconds.
pub const FLUSH_INTERVAL_MS: u64 = 16;

/// Flush immediately once this much has accumulated, whatever the clock says.
pub const FLUSH_CEILING: usize = 64 * 1024;

/// What is left of a watch list once the streams that have gone are taken out of it, given for
/// each of them whether nobody will read its queue again.
pub open spec fn kept(
    registry: StreamRegistry,
    watching: Seq<AttachedStream>,
    gone: Seq<bool>,
) -> Seq<AttachedStream>
    decreases watching.len(),
{
    if watching.len() == 0 {
        Seq::empty()
    } else {
        let before = kept(registry, watching.drop_last(), gone.drop_last());
        if registry.is_live(watching.last(), gone.last()) {
            before.push(watching.last())
        } else {
            before
        }
    }
}

/// What a stream is once its queue has answered whether its reader has gone. One that is not
/// open has no queue to ask.
pub open spec fn once_asked(stream: Option<SinkView>, gone: bool) -> Option<SinkView> {
    match stream {
        Some(sink) => Some(asked(sink, gone)),
        None => None,
    }
}

/// Whether `after` is `before` once the queue of each stream in `watching` has answered whether
/// its reader has gone, with those answers.
pub open spec fn all_asked(
    before: StreamRegistry,
    after: StreamRegistry,
    watching: Seq<AttachedStream>,
    gone: Seq<bool>,
) -> bool {
    &&& gone.len() == watching.len()
    &&& same_connections(before, after)
    &&& forall|w: AttachedStream|
        !watching.contains(w) ==> #[trigger] after.watched(w) == before.watched(w)
    &&& forall|k: int|
        0 <= k < watching.len() ==> after.watched(#[trigger] watching[k]) == once_asked(
            before.watched(watching[k]),
            gone[k],
        )
}

/// Whether the streams that have gone were taken out of a watch list: the queue of each was
/// asked, and `still` is what the answers left.
pub open spec fn pruned(
    before: StreamRegistry,
    after: StreamRegistry,
    watching: Seq<AttachedStream>,
    still: Seq<AttachedStream>,
) -> bool {
    exists|gone: Seq<bool>| #[trigger]
        all_asked(before, after, watching, gone) && still == kept(before, watching, gone)
}

/// Asking changes nothing that decides who is kept.
proof fn lemma_kept_once_asked(
    before: StreamRegistry,
    after: StreamRegistry,
    watching: Seq<AttachedStream>,
    gone: Seq<bool>,
)
    requires
        gone.len() == watching.len(),
        forall|k: int|
            0 <= k < watching.len() ==> (after.watched(#[trigger] watching[k]) is Some
                <==> before.watched(watching[k]) is Some) && (after.watched(watching[k]) is Some
                ==> after.watched(watching[k])->0.closed == before.watched(watching[k])->0.closed),
    ensures
        kept(after, watching, gone) == kept(before, watching, gone),
    decreases watching.len(),
{
    if watching.len() > 0 {
        let head = watching.drop_last();
        assert forall|k: int| 0 <= k < head.len() implies (after.watched(#[trigger] head[k]) is Some
            <==> before.watched(head[k]) is Some) && (after.watched(head[k]) is Some
            ==> after.watched(head[k])->0.closed == before.watched(head[k])->0.closed) by {
            assert(head[k] == watching[k]);
        }
        lemma_kept_once_asked(before, after, head, gone.drop_last());
        assert(watching[watching.len() - 1] == watching.last());
    }
}

/// What a pruned watch list keeps: streams of the list that are open, each once.
pub(crate) proof fn lemma_kept(registry: StreamRegistry, watching: Seq<AttachedStream>, gone: Seq<bool>)
    requires
        gone.len() == watching.len(),
    ensures
        watching.no_duplicates() ==> kept(registry, watching, gone).no_duplicates(),
        forall|w: AttachedStream| #[trigger]
            kept(registry, watching, gone).contains(w) ==> watching.contains(w) && registry.watched(
                w,
            ) is Some && !registry.watched(w)->0.closed,
    decreases watching.len(),
{
    if watching.len() > 0 {
        let head = watching.drop_last();
        let last = watching.last();
        lemma_kept(registry, head, gone.drop_last());
        let before = kept(registry, head, gone.drop_last());
        let after = kept(registry, watching, gone);
        assert forall|w: AttachedStream| #[trigger] after.contains(w) implies watching.contains(w)
            && registry.watched(w) is Some && !registry.watched(w)->0.closed by {
            let k = choose|k: int| 0 <= k < after.len() && after[k] == w;
            if k < before.len() {
                assert(before[k] == w);
                assert(before.contains(w));
                let at = choose|at: int| 0 <= at < head.len() && head[at] == w;
                assert(watching[at] == w);
            } else {
                assert(watching[watching.len() - 1] == w);
            }
        }
        if watching.no_duplicates() {
            assert(head.no_duplicates());
            assert(!head.contains(last)) by {
                if head.contains(last) {
                    let k = choose|k: int| 0 <= k < head.len() && head[k] == last;
                    assert(watching[k] == watching[watching.len() - 1]);
                }
            }
            assert forall|a: int, b: int|
                0 <= a < after.len() && 0 <= b < after.len() && a != b implies after[a]
                != after[b] by {
                if a == before.len() {
                    assert(before.contains(before[b]));
                } else if b == before.len() {
                    assert(before.contains(before[a]));
                }
            }
        }
    }
}

/// What a watched stream is after a flush that dropped the first `dropped` bytes of `pending`:
/// it was fed from where it had got to, and its place is counted in what is left.
pub open spec fn took(
    before: SinkView,
    after: SinkView,
    pending: Seq<u8>,
    dropped: int,
) -> bool {
    is_fed(
        before,
        SinkView { delivered: (after.delivered + dropped) as nat, ..after },
        pending,
        after.delivered + dropped,
    )
}

/// Whether `after` is `before` once each stream in `still` was fed `pending` from where it had
/// got to and the first `dropped` bytes were dropped, which are those that the slowest of them
/// has taken. With nobody watching the buffer is dropped whole.
pub open spec fn all_fed(
    before: StreamRegistry,
    after: StreamRegistry,
    still: Seq<AttachedStream>,
    pending: Seq<u8>,
    dropped: int,
) -> bool {
    &&& forall|w: AttachedStream|
        !still.contains(w) ==> #[trigger] after.watched(w) == before.watched(w)
    &&& still.len() == 0 ==> dropped == pending.len()
    &&& forall|w: AttachedStream| #[trigger]
        still.contains(w) ==> after.watched(w) is Some && took(
            before.watched(w)->0,
            after.watched(w)->0,
            pending,
            dropped,
        )
    &&& still.len() > 0 ==> exists|w: AttachedStream| #[trigger]
        still.contains(w) && after.watched(w)->0.delivered == 0
}

/// What a flush leaves: the registry, the watch list and the buffer.
///
/// Where there is something to flush, the streams that have gone are taken out of the watch list
/// first, and the others are fed.
pub open spec fn flushed(
    before: StreamRegistry,
    watching: Seq<AttachedStream>,
    pending: Seq<u8>,
    after: StreamRegistry,
    still: Seq<AttachedStream>,
    left: Seq<u8>,
    dropped: int,
) -> bool {
    &&& same_connections(before, after)
    &&& 0 <= dropped <= pending.len()
    &&& left == pending.skip(dropped)
    &&& if pending.len() == 0 {
        &&& still == watching
        &&& forall|w: AttachedStream| #[trigger] after.watched(w) == before.watched(w)
    } else {
        exists|mid: StreamRegistry| #[trigger]
            pruned(before, mid, watching, still) && all_fed(mid, after, still, pending, dropped)
    }
}

/// Every byte goes out once and in order, whatever else is watching: what a stream has put in
/// its queue, followed by what of the buffer it has still to get, is the same before and after
/// a flush that does not find its client gone.
pub proof fn law_a_flush_delivers_each_byte_once(
    before: StreamRegistry,
    watching: Seq<AttachedStream>,
    pending: Seq<u8>,
    after: StreamRegistry,
    still: Seq<AttachedStream>,
    left: Seq<u8>,
    dropped: int,
    w: AttachedStream,
)
    requires
        before.wf(),
        before.serves().chunk > 0,
        flushed(before, watching, pending, after, still, left, dropped),
        still.contains(w),
        pending.len() > 0,
        before.watched(w)->0.delivered <= pending.len(),
        !after.watched(w)->0.closed,
    ensures
        output_bytes(after.watched(w)->0.taken) + left.skip(
            after.watched(w)->0.delivered as int,
        ) == output_bytes(before.watched(w)->0.taken) + pending.skip(
            before.watched(w)->0.delivered as int,
        ),
        after.watched(w)->0.delivered <= left.len(),
{
    let b = before.watched(w)->0;
    let a = after.watched(w)->0;
    let mid = choose|mid: StreamRegistry| #[trigger]
        pruned(before, mid, watching, still) && all_fed(mid, after, still, pending, dropped);
    let gone = choose|gone: Seq<bool>| #[trigger]
        all_asked(before, mid, watching, gone) && still == kept(before, watching, gone);
    lemma_kept(before, watching, gone);
    law_open_streams_lie_below_the_watermark(before, w.connection.raw(), w.stream.raw);
    let at = choose|at: int| 0 <= at < watching.len() && watching[at] == w;
    assert(mid.watched(watching[at]) == once_asked(before.watched(w), gone[at]));
    let c = mid.watched(w)->0;
    assert(took(c, a, pending, dropped));
    let done = a.delivered + dropped;
    let answers = choose|answers: Answers|
        {
            let ran = #[trigger] run(c, pending, resume_at(c, pending), answers);
            &&& finished(ran, pending)
            &&& ran.1 == done
            &&& (SinkView { delivered: done as nat, ..a }) == (SinkView {
                delivered: done as nat,
                ..ran.0
            })
        };
    law_a_run_delivers_each_byte_once(c, pending, resume_at(c, pending), answers);
    let ran = run(c, pending, resume_at(c, pending), answers);
    assert(ran.0.taken == a.taken && ran.0.closed == a.closed);
    assert(left.skip(a.delivered as int) =~= pending.skip(done));
}

/// Drop from a watch list every stream that has gone, given for each of them whether nobody
/// will read its queue again.
pub fn prune_given(
    registry: &StreamRegistry,
    watching: &mut Vec<AttachedStream>,
    gone: &Vec<bool>,
)
    requires
        registry.wf(),
        old(watching)@.no_duplicates(),
        gone@.len() == old(watching)@.len(),
    ensures
        final(watching)@ == kept(*registry, old(watching)@, gone@),
        final(watching)@.no_duplicates(),
{
    let ghost all = watching@;
    let mut left: Vec<AttachedStream> = Vec::new();
    let mut i: usize = 0;
    while i < watching.len()
        invariant
            registry.wf(),
            i <= watching.len(),
            watching@ == all,
            gone@.len() == all.len(),
            left@ == kept(*registry, all.take(i as int), gone@.take(i as int)),
        decreases watching.len() - i,
    {
        let w = watching[i];
        proof {
            assert(all.take(i + 1).drop_last() =~= all.take(i as int));
            assert(gone@.take(i + 1).drop_last() =~= gone@.take(i as int));
        }
        if !registry.is_gone_given(w, gone[i]) {
            left.push(w);
        }
        i = i + 1;
    }
    proof {
        assert(all.take(i as int) =~= all);
        assert(gone@.take(i as int) =~= gone@);
        lemma_kept(*registry, all, gone@);
    }
    *watching = left;
}

/// Drop from a watch list every stream that has gone, asking the queue of each.
fn prune(registry: &mut StreamRegistry, watching: &mut Vec<AttachedStream>)
    requires
        old(registry).wf(),
        old(watching)@.no_duplicates(),
    ensures
        final(registry).wf(),
        same_connections(*old(registry), *final(registry)),
        pruned(*old(registry), *final(registry), old(watching)@, final(watching)@),
        final(watching)@.no_duplicates(),
        forall|w: AttachedStream| #[trigger]
            final(watching)@.contains(w) ==> final(registry).watched(w) is Some
                && !(final(registry).watched(w)->0.closed),
{
    let ghost start = *registry;
    let ghost list = watching@;
    let mut gone: Vec<bool> = Vec::new();
    let mut i: usize = 0;
    while i < watching.len()
        invariant
            registry.wf(),
            i <= watching.len(),
            watching@ == list,
            list.no_duplicates(),
            gone@.len() == i,
            same_connections(start, *registry),
            forall|k: int|
                0 <= k < i ==> registry.watched(#[trigger] list[k]) == once_asked(
                    start.watched(list[k]),
                    gone@[k],
                ),
            forall|k: int|
                i <= k < list.len() ==> registry.watched(#[trigger] list[k]) == start.watched(
                    list[k],
                ),
            forall|w: AttachedStream|
                !list.contains(w) ==> #[trigger] registry.watched(w) == start.watched(w),
        decreases watching.len() - i,
    {
        let w = watching[i];
        let ghost before = *registry;
        let ghost heard = gone@;
        assert(list[i as int] == w);
        assert(list.contains(w));
        let unread = registry.is_unread(w);
        gone.push(unread);
        proof {
            assert forall|k: int| 0 <= k < list.len() && k != i implies registry.watched(
                #[trigger] list[k],
            ) == before.watched(list[k]) by {
                assert(list[k] != list[i as int]);
            }
            assert forall|k: int| 0 <= k < i implies #[trigger] gone@[k] == heard[k] by {}
        }
        i = i + 1;
    }
    prune_given(registry, watching, &gone);
    proof {
        assert(all_asked(start, *registry, list, gone@));
        lemma_kept_once_asked(start, *registry, list, gone@);
        lemma_kept(*registry, list, gone@);
    }
}

fn without_head(bytes: &Vec<u8>, from: usize) -> (out: Vec<u8>)
    requires
        from <= bytes.len(),
    ensures
        out@ == bytes@.skip(from as int),
{
    let mut out: Vec<u8> = Vec::new();
    let mut i: usize = from;
    while i < bytes.len()
        invariant
            from <= i <= bytes.len(),
            out@ == bytes@.subrange(from as int, i as int),
        decreases bytes.len() - i,
    {
        out.push(bytes[i]);
        i = i + 1;
        assert(bytes@.subrange(from as int, i as int) =~= bytes@.subrange(
            from as int,
            i - 1,
        ).push(bytes@[i - 1]));
    }
    assert(bytes@.subrange(from as int, i as int) =~= bytes@.skip(from as int));
    out
}

/// Write the coalesced bytes to every watched stream that will take them, and drop what all of
/// them did; the answer is how many bytes that was. A buffer that is drained has no age.
///
/// Each stream resumes from where it had got to rather than from the head of the buffer, so
/// nothing is sent twice however often a stream stops short.
pub fn flush_all(
    registry: &mut StreamRegistry,
    watching: &mut Vec<AttachedStream>,
    pending: &mut Vec<u8>,
    oldest: &mut Option<u64>,
) -> (dropped: usize)
    requires
        old(registry).wf(),
        old(registry).serves().chunk > 0,
        old(watching)@.no_duplicates(),
    ensures
        final(registry).wf(),
        final(watching)@.no_duplicates(),
        flushed(
            *old(registry),
            old(watching)@,
            old(pending)@,
            *final(registry),
            final(watching)@,
            final(pending)@,
            dropped as int,
        ),
        *final(oldest) == oldest_after(*old(oldest), old(pending)@, final(pending)@),
{
    if pending.len() == 0 {
        assert(pending@.skip(0) =~= pending@);
        return 0;
    }
    let ghost first = *registry;
    let ghost whole = watching@;
    prune(registry, watching);
    let n: usize = pending.len();
    if watching.len() == 0 {
        let ghost all = pending@;
        pending.clear();
        *oldest = None;
        assert(all.skip(all.len() as int) =~= pending@);
        assert(all_fed(*registry, *registry, watching@, all, n as int));
        return n;
    }
    let ghost start = *registry;
    let ghost list = watching@;
    let ghost bytes = pending@;
    let ghost mut dones: Seq<int> = Seq::empty();
    proof {
        assert forall|k: int| 0 <= k < list.len() implies start.watched(#[trigger] list[k])
            is Some by {
            assert(list.contains(list[k]));
        }
    }
    let mut common: usize = n;
    let mut i: usize = 0;
    while i < watching.len()
        invariant
            i <= watching.len(),
            watching@ == list,
            list.no_duplicates(),
            pending@ == bytes,
            n == bytes.len(),
            common <= n,
            registry.wf(),
            registry.serves().chunk > 0,
            same_connections(start, *registry),
            forall|k: int| 0 <= k < list.len() ==> start.watched(#[trigger] list[k]) is Some,
            dones.len() == i,
            forall|k: int|
                0 <= k < i ==> {
                    &&& registry.watched(#[trigger] list[k]) is Some
                    &&& is_fed(
                        start.watched(list[k])->0,
                        registry.watched(list[k])->0,
                        bytes,
                        dones[k],
                    )
                    &&& registry.watched(list[k])->0.delivered == dones[k]
                    &&& common <= dones[k] <= n
                },
            i == 0 ==> common == n,
            i > 0 ==> exists|k: int| 0 <= k < i && common == #[trigger] dones[k],
            forall|k: int|
                i <= k < list.len() ==> registry.watched(#[trigger] list[k]) == start.watched(
                    list[k],
                ),
            forall|w: AttachedStream|
                !list.contains(w) ==> #[trigger] registry.watched(w) == start.watched(w),
        decreases watching.len() - i,
    {
        let w = watching[i];
        let ghost before = *registry;
        assert(list[i as int] == w);
        assert(list.contains(w));
        let done = registry.feed(w, pending);
        let ghost was = dones;
        proof {
            dones = dones.push(done as int);
            assert forall|k: int| 0 <= k < list.len() && k != i implies registry.watched(
                #[trigger] list[k],
            ) == before.watched(list[k]) by {
                assert(list[k] != list[i as int]);
            }
            assert(registry.watched(list[i as int])->0.delivered == done);
            assert forall|k: int| 0 <= k < i implies dones[k] == #[trigger] was[k] by {}
        }
        if done < common {
            common = done;
            assert(common == dones[i as int]);
        } else {
            proof {
                if i > 0 {
                    let k = choose|k: int| 0 <= k < i && common == #[trigger] was[k];
                    assert(common == dones[k]);
                } else {
                    assert(common == dones[i as int]);
                }
            }
        }
        i = i + 1;
    }
    let ghost fed = *registry;
    proof {
        let k = choose|k: int| 0 <= k < list.len() && common == #[trigger] dones[k];
        assert(list.contains(list[k]));
    }
    if common > 0 {
        let rest = without_head(pending, common);
        *pending = rest;
        let mut j: usize = 0;
        while j < watching.len()
            invariant
                j <= watching.len(),
                watching@ == list,
                list.no_duplicates(),
                registry.wf(),
                same_connections(start, *registry),
                dones.len() == list.len(),
                forall|k: int| 0 <= k < list.len() ==> fed.watched(#[trigger] list[k]) is Some,
                forall|k: int|
                    0 <= k < list.len() ==> fed.watched(#[trigger] list[k])->0.delivered
                        == dones[k] && common <= dones[k],
                forall|k: int|
                    0 <= k < j ==> registry.watched(#[trigger] list[k]) == Some(
                        SinkView {
                            delivered: (dones[k] - common) as nat,
                            ..fed.watched(list[k])->0
                        },
                    ),
                forall|k: int|
                    j <= k < list.len() ==> registry.watched(#[trigger] list[k]) == fed.watched(
                        list[k],
                    ),
                forall|w: AttachedStream|
                    !list.contains(w) ==> #[trigger] registry.watched(w) == fed.watched(w),
            decreases watching.len() - j,
        {
            let w = watching[j];
            let ghost before = *registry;
            assert(list[j as int] == w);
            assert(list.contains(w));
            registry.rewind(w, common);
            proof {
                assert forall|k: int| 0 <= k < list.len() && k != j implies registry.watched(
                    #[trigger] list[k],
                ) == before.watched(list[k]) by {
                    assert(list[k] != list[j as int]);
                }
            }
            j = j + 1;
        }
    } else {
        assert(pending@.skip(0) =~= pending@);
    }
    proof {
        assert forall|w: AttachedStream| #[trigger] list.contains(w) implies registry.watched(w)
            is Some && took(
            start.watched(w)->0,
            registry.watched(w)->0,
            bytes,
            common as int,
        ) by {
            let k = choose|k: int| 0 <= k < list.len() && list[k] == w;
            assert(registry.watched(list[k])->0.delivered + common == dones[k]);
            assert(SinkView { delivered: dones[k] as nat, ..registry.watched(w)->0 }
                == fed.watched(list[k])->0);
        }
        let k = choose|k: int| 0 <= k < list.len() && common == #[trigger] dones[k];
        assert(list.contains(list[k]) && registry.watched(list[k])->0.delivered == 0);
        assert(pruned(first, start, whole, list));
        assert(all_fed(start, *registry, list, bytes, common as int));
    }
    if pending.len() == 0 {
        *oldest = None;
    }
    common
}

/// Whether every watched stream is out of allowance. With nobody watching there is nothing to
/// wait for, so that is no block: a session nobody attached to is still read.
pub fn blocked(registry: &mut StreamRegistry, watching: &mut Vec<AttachedStream>) -> (out: bool)
    requires
        old(registry).wf(),
        old(watching)@.no_duplicates(),
    ensures
        final(registry).wf(),
        pruned(*old(registry), *final(registry), old(watching)@, final(watching)@),
        final(watching)@.no_duplicates(),
        out == out_of_credit(*final(registry), final(watching)@),
{
    prune(registry, watching);
    let mut i: usize = 0;
    while i < watching.len()
        invariant
            registry.wf(),
            i <= watching.len(),
            pruned(*old(registry), *registry, old(watching)@, watching@),
            watching@.no_duplicates(),
            forall|w: AttachedStream| #[trigger]
                watching@.contains(w) ==> registry.watched(w) is Some,
            forall|k: int|
                0 <= k < i ==> registry.watched(#[trigger] watching@[k])->0.credit <= 0,
        decreases watching.len() - i,
    {
        let w = watching[i];
        assert(watching@.contains(watching@[i as int]));
        if let Some(sink) = registry.sink(w.connection, w.stream) {
            if !sink.is_blocked() {
                return false;
            }
        }
        i = i + 1;
    }
    proof {
        assert forall|w: AttachedStream| #[trigger] watching@.contains(w) implies registry.watched(
            w,
        )->0.credit <= 0 by {
            let k = choose|k: int| 0 <= k < watching@.len() && watching@[k] == w;
            assert(registry.watched(watching@[k])->0.credit <= 0);
        }
    }
    watching.len() > 0
}

/// Whether there is a watched stream and every one of them is out of allowance.
pub open spec fn out_of_credit(registry: StreamRegistry, watching: Seq<AttachedStream>) -> bool {
    watching.len() > 0 && forall|w: AttachedStream| #[trigger]
        watching.contains(w) ==> registry.watched(w)->0.credit <= 0
}

/// Whether what has been coalesced is due: a kilobyte has built up, or the oldest byte has
/// waited out the interval.
pub open spec fn due(pending: nat, oldest: Option<u64>, now: u64) -> bool {
    pending > 0 && (pending >= COALESCE_MIN || (oldest is Some && now - oldest->0
        >= FLUSH_INTERVAL_MS))
}

/// What a session's pty had to say.
#[derive(Debug)]
pub enum Output {
    /// These bytes.
    Chunk(Vec<u8>),
    /// Nothing within the interval.
    Timeout,
    /// Nothing more, ever. That is the end of the bytes and says nothing of the process.
    Eof,
}

/// What the pump is to do next.
#[derive(Clone, Copy, Debug, PartialEq, Eq, Structural)]
pub enum Turn {
    /// Stop: the session is closing or its output has ended.
    Stop,
    /// Read nothing, sleep one interval, and take another turn.
    Sleep,
    /// Wait one interval for output.
    Receive,
}

/// What the pump holds between turns.
#[derive(Debug)]
pub struct Pump {
    /// Bytes coalesced and not yet taken by every watched stream.
    pub pending: Vec<u8>,
    /// When the oldest of them arrived, in milliseconds.
    pub oldest: Option<u64>,
    /// Whether the watched streams have been told of the exit.
    pub exit_sent: bool,
    /// When the session last produced output, in milliseconds.
    pub last_output: u64,
}

/// When the oldest pending byte arrived, after a flush: unchanged while any are left.
pub open spec fn oldest_after(before: Option<u64>, pending: Seq<u8>, left: Seq<u8>) -> Option<u64> {
    if pending.len() > 0 && left.len() == 0 {
        None
    } else {
        before
    }
}

/// What is pending once `output` has been taken in.
pub open spec fn gathered(pending: Seq<u8>, output: Output) -> Seq<u8> {
    match output {
        Output::Chunk(chunk) => pending + chunk@,
        _ => pending,
    }
}

/// When the oldest pending byte arrived, once `output` has been taken in at `now`.
pub open spec fn stamped(oldest: Option<u64>, output: Output, now: u64) -> Option<u64> {
    if output is Chunk && oldest is None {
        Some(now)
    } else {
        oldest
    }
}

/// Whether `after` is `before` once every stream in `watching` was told of the exit.
pub open spec fn all_told(
    before: StreamRegistry,
    after: StreamRegistry,
    watching: Seq<AttachedStream>,
    status: SessionExit,
) -> bool {
    &&& same_connections(before, after)
    &&& forall|w: AttachedStream|
        !watching.contains(w) ==> #[trigger] after.watched(w) == before.watched(w)
    &&& forall|w: AttachedStream| #[trigger]
        watching.contains(w) ==> (if before.watched(w) is Some {
            after.watched(w) is Some && is_told(
                before.watched(w)->0,
                after.watched(w)->0,
                status,
            )
        } else {
            after.watched(w) is None
        })
}

/// Tell every stream in `watching` of the exit.
pub fn announce_exit(
    registry: &mut StreamRegistry,
    watching: &Vec<AttachedStream>,
    status: SessionExit,
)
    requires
        old(registry).wf(),
        watching@.no_duplicates(),
    ensures
        final(registry).wf(),
        all_told(*old(registry), *final(registry), watching@, status),
{
    let ghost start = *registry;
    let ghost list = watching@;
    let mut i: usize = 0;
    while i < watching.len()
        invariant
            i <= watching.len(),
            watching@ == list,
            list.no_duplicates(),
            registry.wf(),
            same_connections(start, *registry),
            forall|k: int|
                0 <= k < i ==> (if start.watched(#[trigger] list[k]) is Some {
                    registry.watched(list[k]) is Some && is_told(
                        start.watched(list[k])->0,
                        registry.watched(list[k])->0,
                        status,
                    )
                } else {
                    registry.watched(list[k]) is None
                }),
            forall|k: int|
                i <= k < list.len() ==> registry.watched(#[trigger] list[k]) == start.watched(
                    list[k],
                ),
            forall|w: AttachedStream|
                !list.contains(w) ==> #[trigger] registry.watched(w) == start.watched(w),
        decreases watching.len() - i,
    {
        let w = watching[i];
        let ghost before = *registry;
        assert(list[i as int] == w);
        assert(list.contains(w));
        registry.send_exit(w, status);
        proof {
            assert forall|k: int| 0 <= k < list.len() && k != i implies registry.watched(
                #[trigger] list[k],
            ) == before.watched(list[k]) by {
                assert(list[k] != list[i as int]);
            }
        }
        i = i + 1;
    }
    proof {
        assert forall|w: AttachedStream| #[trigger] list.contains(w) implies (if start.watched(
            w,
        ) is Some {
            registry.watched(w) is Some && is_told(
                start.watched(w)->0,
                registry.watched(w)->0,
                status,
            )
        } else {
            registry.watched(w) is None
        }) by {
            let k = choose|k: int| 0 <= k < list.len() && list[k] == w;
            assert(start.watched(list[k]) == start.watched(w));
        }
    }
}

impl Pump {
    /// A pump that has read nothing yet, for a session started at `now`.
    pub fn new(now: u64) -> (out: Pump)
        ensures
            out.pending@.len() == 0,
            out.oldest is None,
            !out.exit_sent,
            out.last_output == now,
    {
        Pump { pending: Vec::new(), oldest: None, exit_sent: false, last_output: now }
    }

    /// Write out everything that has been coalesced, as far as it is taken.
    pub fn flush(
        &mut self,
        registry: &mut StreamRegistry,
        watching: &mut Vec<AttachedStream>,
    ) -> (dropped: usize)
        requires
            old(registry).wf(),
            old(registry).serves().chunk > 0,
            old(watching)@.no_duplicates(),
        ensures
            final(registry).wf(),
            final(watching)@.no_duplicates(),
            flushed(
                *old(registry),
                old(watching)@,
                old(self).pending@,
                *final(registry),
                final(watching)@,
                final(self).pending@,
                dropped as int,
            ),
            final(self).oldest == oldest_after(
                old(self).oldest,
                old(self).pending@,
                final(self).pending@,
            ),
            final(self).exit_sent == old(self).exit_sent,
            final(self).last_output == old(self).last_output,
    {
        flush_all(registry, watching, &mut self.pending, &mut self.oldest)
    }

    /// Begin a turn at `now`: flush if it is due, and decide whether to read.
    pub fn begin(
        &mut self,
        registry: &mut StreamRegistry,
        watching: &mut Vec<AttachedStream>,
        stop: bool,
        now: u64,
    ) -> (turn: Turn)
        requires
            old(registry).wf(),
            old(registry).serves().chunk > 0,
            old(watching)@.no_duplicates(),
        ensures
            final(registry).wf(),
            final(watching)@.no_duplicates(),
            final(self).exit_sent == old(self).exit_sent,
            final(self).last_output == old(self).last_output,
            turn is Stop <==> stop,
            stop ==> {
                &&& *final(self) == *old(self)
                &&& *final(registry) == *old(registry)
                &&& *final(watching) == *old(watching)
            },
            !stop ==> (turn is Sleep <==> (out_of_credit(*final(registry), final(watching)@)
                || final(self).pending@.len() >= FLUSH_CEILING)),
            !stop && final(self).pending@.len() >= 0x1_0000 ==> turn is Sleep,
            turn is Receive ==> final(self).pending@.len() < 0x1_0000,
            turn is Receive && final(watching)@.len() > 0 ==> exists|w: AttachedStream| #[trigger]
                final(watching)@.contains(w) && final(registry).watched(w)->0.credit > 0,
            !stop && final(self).pending@ != old(self).pending@ ==> old(self).pending@.len() >= 1024
                || (old(self).oldest is Some && now - old(self).oldest->0 >= 16),
            !stop && old(self).pending@.len() > 0 && (old(self).pending@.len() >= 1024 || (
            old(self).oldest is Some && now - old(self).oldest->0 >= 16)) ==> exists|
                mid: StreamRegistry,
                still: Seq<AttachedStream>,
                dropped: int,
            |
                #[trigger] flushed(
                    *old(registry),
                    old(watching)@,
                    old(self).pending@,
                    mid,
                    still,
                    final(self).pending@,
                    dropped,
                ),
            !stop && !due(old(self).pending@.len(), old(self).oldest, now) ==> {
                &&& final(self).pending@ == old(self).pending@
                &&& final(self).oldest == old(self).oldest
                &&& pruned(*old(registry), *final(registry), old(watching)@, final(watching)@)
            },
            !stop && due(old(self).pending@.len(), old(self).oldest, now) ==> exists|
                mid: StreamRegistry,
                still: Seq<AttachedStream>,
                dropped: int,
            |
                #[trigger] flushed(
                    *old(registry),
                    old(watching)@,
                    old(self).pending@,
                    mid,
                    still,
                    final(self).pending@,
                    dropped,
                ) && pruned(mid, *final(registry), still, final(watching)@) && final(self).oldest
                    == oldest_after(old(self).oldest, old(self).pending@, final(self).pending@),
    {
        if stop {
            return Turn::Stop;
        }
        let ghost before = *registry;
        let ghost list = watching@;
        let ghost bytes = self.pending@;
        let ghost since = self.oldest;
        let waited = match self.oldest {
            Some(since) => now >= since && now - since >= FLUSH_INTERVAL_MS,
            None => false,
        };
        let mut out: usize = 0;
        if self.pending.len() > 0 && (self.pending.len() >= COALESCE_MIN || waited) {
            out = self.flush(registry, watching);
            assert(flushed(
                before,
                list,
                bytes,
                *registry,
                watching@,
                self.pending@,
                out as int,
            ));
        }
        let ghost still = watching@;
        let ghost mid = *registry;
        let full = blocked(registry, watching);
        assert(due(bytes.len(), since, now) ==> flushed(
            before,
            list,
            bytes,
            mid,
            still,
            self.pending@,
            out as int,
        ));
        if full || self.pending.len() >= FLUSH_CEILING {
            Turn::Sleep
        } else {
            Turn::Receive
        }
    }

    /// Take in what the pty had to say at `now`. `exit` is how the process ended, if it has.
    ///
    /// A chunk is coalesced. The end of the output flushes and stops. The first time the
    /// process is seen to have ended, what is pending is flushed and every watched stream is
    /// told.
    pub fn take(
        &mut self,
        registry: &mut StreamRegistry,
        watching: &mut Vec<AttachedStream>,
        output: Output,
        now: u64,
        exit: Option<SessionExit>,
    ) -> (stop: bool)
        requires
            old(registry).wf(),
            old(registry).serves().chunk > 0,
            old(watching)@.no_duplicates(),
        ensures
            final(registry).wf(),
            final(watching)@.no_duplicates(),
            stop == (output is Eof),
            final(self).last_output == (if output is Chunk {
                now
            } else {
                old(self).last_output
            }),
            final(self).exit_sent == (old(self).exit_sent || (exit is Some && !(output is Eof))),
            ({
                let bytes = gathered(old(self).pending@, output);
                let since = stamped(old(self).oldest, output, now);
                let tells = exit is Some && !old(self).exit_sent && !(output is Eof);
                if output is Eof || tells {
                    exists|mid: StreamRegistry, dropped: int|
                        {
                            &&& #[trigger] flushed(
                                *old(registry),
                                old(watching)@,
                                gathered(old(self).pending@, output),
                                mid,
                                final(watching)@,
                                final(self).pending@,
                                dropped,
                            )
                            &&& final(self).oldest == oldest_after(
                                since,
                                bytes,
                                final(self).pending@,
                            )
                            &&& if tells {
                                all_told(mid, *final(registry), final(watching)@, exit->0)
                            } else {
                                *final(registry) == mid
                            }
                        }
                } else {
                    &&& final(self).pending@ == bytes
                    &&& final(self).oldest == since
                    &&& *final(registry) == *old(registry)
                    &&& *final(watching) == *old(watching)
                }
            }),
    {
        let ghost was = self.pending@;
        let ghost first = *registry;
        let ghost list = watching@;
        let ghost given = output;
        let mut ended: bool = false;
        match output {
            Output::Chunk(chunk) => {
                self.last_output = now;
                if self.oldest.is_none() {
                    self.oldest = Some(now);
                }
                let mut bytes = chunk;
                let ghost added = bytes@;
                self.pending.append(&mut bytes);
                assert(self.pending@ =~= was + added);
            },
            Output::Timeout => {},
            Output::Eof => {
                ended = true;
            },
        }
        assert(self.pending@ == gathered(was, given));
        if ended {
            let out: usize = self.flush(registry, watching);
            assert(flushed(
                first,
                list,
                gathered(was, given),
                *registry,
                watching@,
                self.pending@,
                out as int,
            ));
            return true;
        }
        if !self.exit_sent {
            if let Some(status) = exit {
                let out: usize = self.flush(registry, watching);
                assert(flushed(
                    first,
                    list,
                    gathered(was, given),
                    *registry,
                    watching@,
                    self.pending@,
                    out as int,
                ));
                let ghost mid = *registry;
                announce_exit(registry, watching, status);
                self.exit_sent = true;
                assert(all_told(mid, *registry, watching@, exit->0));
                assert(flushed(
                    first,
                    list,
                    gathered(was, given),
                    mid,
                    watching@,
                    self.pending@,
                    out as int,
                ));
                assert(self.oldest == oldest_after(
                    stamped(old(self).oldest, given, now),
                    gathered(was, given),
                    self.pending@,
                ));
                return false;
            }
        }
        false
    }
}

/// A chunk taken in is owed to every stream, behind what it was owed before.
pub proof fn law_a_chunk_is_owed_to_every_stream(
    put: Seq<u8>,
    pending: Seq<u8>,
    delivered: int,
    chunk: Vec<u8>,
)
    requires
        0 <= delivered <= pending.len(),
    ensures
        put + gathered(pending, Output::Chunk(chunk)).skip(delivered) == put + pending.skip(
            delivered,
        ) + chunk@,
{
    assert((pending + chunk@).skip(delivered) =~= pending.skip(delivered) + chunk@);
    assert(put + (pending.skip(delivered) + chunk@) =~= put + pending.skip(delivered) + chunk@);
}

/// Start routing a session's output to a stream: it is granted its window and given the
/// replay, marked where it ends, and then watches what is live.
pub fn attach(
    registry: &mut StreamRegistry,
    watching: &mut Vec<AttachedStream>,
    stream: AttachedStream,
    replay: &Vec<u8>,
    exit: Option<SessionExit>,
)
    requires
        old(registry).wf(),
        old(registry).serves().chunk > 0,
        old(watching)@.no_duplicates(),
        !old(watching)@.contains(stream),
    ensures
        final(registry).wf(),
        same_connections(*old(registry), *final(registry)),
        final(watching)@ == old(watching)@.push(stream),
        final(watching)@.no_duplicates(),
        old(registry).watched(stream) is Some ==> final(registry).watched(stream) is Some
            && is_replayed(
            old(registry).watched(stream)->0,
            final(registry).watched(stream)->0,
            replay@,
            exit,
        ),
        forall|w: AttachedStream|
            old(registry).watched(stream) is None || w != stream ==> #[trigger] final(registry).watched(w) == old(registry).watched(w),
        old(registry).watched(stream) is Some && exit is Some ==> {
            let after = final(registry).watched(stream)->0;
            !after.closed && after.heard.last() == Heard::Offered(Offer::Taken)
                ==> after.taken.last() == (FrameView {
                stream: stream.stream.raw,
                body: BodyView::Exit(exit->0),
            })
        },
{
    let ghost list = watching@;
    let ghost first = *registry;
    let _open = registry.replay(stream, replay, exit);
    watching.push(stream);
    proof {
        if first.watched(stream) is Some && exit is Some {
            law_open_streams_lie_below_the_watermark(
                first,
                stream.connection.raw(),
                stream.stream.raw,
            );
            if !registry.watched(stream)->0.closed {
                law_attaching_to_an_ended_session_tells_its_exit(
                    first.watched(stream)->0,
                    registry.watched(stream)->0,
                    replay@,
                    exit->0,
                );
            }
        }
        assert forall|a: int, b: int|
            0 <= a < watching@.len() && 0 <= b < watching@.len() && a != b implies watching@[a]
            != watching@[b] by {
            if a == list.len() {
                assert(list.contains(list[b]));
            } else if b == list.len() {
                assert(list.contains(list[a]));
            }
        }
    }
}

/// Whether `after` is `before` once every stream in `watching` was told of the exit, where
/// there is one, and closed.
pub open spec fn all_closed(
    before: StreamRegistry,
    after: StreamRegistry,
    watching: Seq<AttachedStream>,
    status: Option<SessionExit>,
) -> bool {
    &&& same_connections(before, after)
    &&& forall|w: AttachedStream|
        !watching.contains(w) ==> #[trigger] after.watched(w) == before.watched(w)
    &&& forall|w: AttachedStream| #[trigger]
        watching.contains(w) ==> (match before.watched(w) {
            Some(sink) => after.watched(w) is Some && after.watched(w)->0.closed && (
            match status {
                Some(status) => exists|told: SinkView| #[trigger]
                    is_told(sink, told, status) && after.watched(w)->0 == (SinkView {
                        closed: true,
                        ..told
                    }),
                None => after.watched(w)->0 == (SinkView { closed: true, ..sink }),
            }),
            None => after.watched(w) is None,
        })
}

/// Let go of every stream watching a session that is being torn down: tell it how the process
/// ended, if it has, and close it.
pub fn close(
    registry: &mut StreamRegistry,
    watching: &mut Vec<AttachedStream>,
    status: Option<SessionExit>,
)
    requires
        old(registry).wf(),
        old(watching)@.no_duplicates(),
    ensures
        final(registry).wf(),
        final(watching)@.len() == 0,
        all_closed(*old(registry), *final(registry), old(watching)@, status),
{
    let ghost start = *registry;
    let ghost list = watching@;
    let mut i: usize = 0;
    while i < watching.len()
        invariant
            i <= watching.len(),
            watching@ == list,
            list.no_duplicates(),
            registry.wf(),
            same_connections(start, *registry),
            forall|k: int|
                0 <= k < i ==> (match start.watched(#[trigger] list[k]) {
                    Some(sink) => registry.watched(list[k]) is Some && registry.watched(
                        list[k],
                    )->0.closed && (match status {
                        Some(status) => exists|told: SinkView| #[trigger]
                            is_told(sink, told, status) && registry.watched(list[k])->0 == (
                            SinkView { closed: true, ..told }),
                        None => registry.watched(list[k])->0 == (SinkView { closed: true, ..sink }),
                    }),
                    None => registry.watched(list[k]) is None,
                }),
            forall|k: int|
                i <= k < list.len() ==> registry.watched(#[trigger] list[k]) == start.watched(
                    list[k],
                ),
            forall|w: AttachedStream|
                !list.contains(w) ==> #[trigger] registry.watched(w) == start.watched(w),
        decreases watching.len() - i,
    {
        let w = watching[i];
        let ghost before = *registry;
        assert(list[i as int] == w);
        assert(list.contains(w));
        if let Some(status) = status {
            registry.send_exit(w, status);
        }
        let ghost mid = *registry;
        registry.close_watched(w);
        proof {
            assert forall|k: int| 0 <= k < list.len() && k != i implies registry.watched(
                #[trigger] list[k],
            ) == before.watched(list[k]) by {
                assert(list[k] != list[i as int]);
                assert(mid.watched(list[k]) == before.watched(list[k]));
            }
            if start.watched(w) is Some && status is Some {
                assert(is_told(start.watched(w)->0, mid.watched(w)->0, status->0));
            }
        }
        i = i + 1;
    }
    proof {
        assert forall|w: AttachedStream| #[trigger] list.contains(w) implies (
        match start.watched(w) {
            Some(sink) => registry.watched(w) is Some && registry.watched(w)->0.closed && (
            match status {
                Some(status) => exists|told: SinkView| #[trigger]
                    is_told(sink, told, status) && registry.watched(w)->0 == (SinkView {
                        closed: true,
                        ..told
                    }),
                None => registry.watched(w)->0 == (SinkView { closed: true, ..sink }),
            }),
            None => registry.watched(w) is None,
        }) by {
            let k = choose|k: int| 0 <= k < list.len() && list[k] == w;
            assert(start.watched(list[k]) == start.watched(w));
        }
    }
    watching.clear();
}

/// Bytes that have waited out the interval are flushed however few they are, and a kilobyte at
/// once; nothing else is.
pub proof fn law_what_has_waited_is_flushed(pending: nat, oldest: Option<u64>, now: u64)
    ensures
        pending >= 1 && oldest is Some && now - oldest->0 >= 16 ==> due(pending, oldest, now),
        pending >= 1024 ==> due(pending, oldest, now),
        pending == 0 ==> !due(pending, oldest, now),
        pending < 1024 && oldest is None ==> !due(pending, oldest, now),
        pending < 1024 && oldest is Some && now - oldest->0 < 16 ==> !due(pending, oldest, now),
{
}

/// What is due stays due as time passes and as more arrives behind it.
pub proof fn law_what_is_due_stays_due(
    pending: nat,
    more: nat,
    oldest: Option<u64>,
    now: u64,
    later: u64,
)
    requires
        due(pending, oldest, now),
        now <= later,
    ensures
        due(pending + more, oldest, later),
{
}

/// A byte is not left waiting: one that arrives in an empty buffer is stamped with its arrival,
/// later ones do not put that off, and from sixteen milliseconds after it a flush is due,
/// however little has arrived, unless everything has gone out.
pub proof fn law_no_byte_waits_longer_than_the_interval(
    pending: Seq<u8>,
    first: Vec<u8>,
    second: Vec<u8>,
    arrived: u64,
    then: u64,
    now: u64,
)
    requires
        first@.len() > 0,
        arrived <= then <= now,
        now - arrived >= 16,
    ensures
        ({
            let since = stamped(None, Output::Chunk(first), arrived);
            let held = gathered(Seq::empty(), Output::Chunk(first));
            let both = gathered(held, Output::Chunk(second));
            let still = stamped(since, Output::Chunk(second), then);
            &&& since == Some(arrived)
            &&& still == Some(arrived)
            &&& due(held.len(), since, now)
            &&& due(both.len(), still, now)
            &&& stamped(still, Output::Timeout, now) == still
            &&& gathered(both, Output::Timeout) == both
        }),
        pending.len() > 0 ==> oldest_after(Some(arrived), pending, Seq::empty()) is None,
        pending.len() > 0 ==> oldest_after(Some(arrived), first@, pending) == Some(arrived),
        oldest_after(None, pending, Seq::empty()) is None,
{
    assert(gathered(Seq::empty(), Output::Chunk(first)) =~= first@);
}

/// Bytes are taken in behind those that wait, whole and in order, and only a chunk holds any.
pub proof fn law_output_is_taken_in_order(pending: Seq<u8>, chunk: Vec<u8>)
    ensures
        gathered(pending, Output::Chunk(chunk)).len() == pending.len() + chunk@.len(),
        gathered(pending, Output::Chunk(chunk)).take(pending.len() as int) == pending,
        gathered(pending, Output::Chunk(chunk)).skip(pending.len() as int) == chunk@,
        gathered(pending, Output::Timeout) == pending,
        gathered(pending, Output::Eof) == pending,
{
    assert((pending + chunk@).take(pending.len() as int) =~= pending);
    assert((pending + chunk@).skip(pending.len() as int) =~= chunk@);
}

/// A watch list keeps exactly the streams that are open and read, in the order they were in.
pub proof fn law_a_pruned_list_keeps_exactly_the_live(
    registry: StreamRegistry,
    watching: Seq<AttachedStream>,
    gone: Seq<bool>,
)
    requires
        gone.len() == watching.len(),
    ensures
        kept(registry, watching, gone).len() <= watching.len(),
        (forall|k: int|
            0 <= k < watching.len() ==> registry.watched(#[trigger] watching[k]) is Some
                && !registry.watched(watching[k])->0.closed && !gone[k]) ==> kept(
            registry,
            watching,
            gone,
        ) == watching,
        forall|k: int|
            #![trigger watching[k]]
            0 <= k < watching.len() && registry.watched(watching[k]) is Some && !registry.watched(
                watching[k],
            )->0.closed && !gone[k] ==> kept(registry, watching, gone).contains(watching[k]),
        watching.no_duplicates() ==> forall|k: int|
            #![trigger watching[k]]
            0 <= k < watching.len() && (registry.watched(watching[k]) is None || registry.watched(
                watching[k],
            )->0.closed || gone[k]) ==> !kept(registry, watching, gone).contains(watching[k]),
    decreases watching.len(),
{
    if watching.len() > 0 {
        let head = watching.drop_last();
        let last = watching.last();
        let rest = gone.drop_last();
        law_a_pruned_list_keeps_exactly_the_live(registry, head, rest);
        lemma_kept(registry, head, rest);
        let before = kept(registry, head, rest);
        let after = kept(registry, watching, gone);
        assert(watching =~= head.push(last));
        assert forall|k: int|
            #![trigger watching[k]]
            0 <= k < watching.len() && registry.watched(watching[k]) is Some && !registry.watched(
                watching[k],
            )->0.closed && !gone[k] implies after.contains(watching[k]) by {
            if k < head.len() {
                assert(head[k] == watching[k] && rest[k] == gone[k]);
                assert(before.contains(head[k]));
                let at = choose|at: int| 0 <= at < before.len() && before[at] == head[k];
                assert(after[at] == head[k]);
            } else {
                assert(after[after.len() - 1] == last);
            }
        }
        if forall|k: int|
            0 <= k < watching.len() ==> registry.watched(#[trigger] watching[k]) is Some
                && !registry.watched(watching[k])->0.closed && !gone[k] {
            assert forall|k: int| 0 <= k < head.len() implies registry.watched(#[trigger] head[k])
                is Some && !registry.watched(head[k])->0.closed && !rest[k] by {
                assert(head[k] == watching[k]);
            }
            assert(watching[watching.len() - 1] == last);
            assert(after =~= watching);
        }
        if watching.no_duplicates() {
            assert(head.no_duplicates());
            assert forall|k: int|
                #![trigger watching[k]]
                0 <= k < watching.len() && (registry.watched(watching[k]) is None
                    || registry.watched(watching[k])->0.closed
                    || gone[k]) implies !after.contains(watching[k]) by {
                if after.contains(watching[k]) {
                    let at = choose|at: int| 0 <= at < after.len() && after[at] == watching[k];
                    if at < before.len() {
                        assert(before[at] == watching[k]);
                        assert(before.contains(watching[k]));
                        if k < head.len() {
                            assert(head[k] == watching[k] && rest[k] == gone[k]);
                        } else {
                            let p = choose|p: int| 0 <= p < head.len() && head[p] == watching[k];
                            assert(watching[p] == watching[k]);
                        }
                    } else if k < head.len() {
                        assert(watching[k] == watching[watching.len() - 1]);
                    }
                }
            }
        }
    } else {
        assert(kept(registry, watching, gone) =~= watching);
    }
}

/// One stream with allowance left is enough to go on reading, and with nobody watching there is
/// nobody to wait for.
pub proof fn law_one_stream_with_allowance_is_enough(
    registry: StreamRegistry,
    watching: Seq<AttachedStream>,
    w: AttachedStream,
)
    ensures
        watching.contains(w) && registry.watched(w)->0.credit > 0 ==> !out_of_credit(
            registry,
            watching,
        ),
        watching.len() == 0 ==> !out_of_credit(registry, watching),
        watching == seq![w] && registry.watched(w)->0.credit <= 0 ==> out_of_credit(
            registry,
            watching,
        ),
{
    assert forall|v: AttachedStream| #[trigger] seq![w].contains(v) implies v == w by {}
}

/// Every stream that watches an ended session, and no other, is told how it ended.
pub proof fn law_every_watcher_is_told(
    before: StreamRegistry,
    after: StreamRegistry,
    watching: Seq<AttachedStream>,
    status: SessionExit,
    w: AttachedStream,
)
    requires
        all_told(before, after, watching, status),
        before.watched(w) is Some,
    ensures
        !watching.contains(w) ==> after.watched(w) == before.watched(w),
        watching.contains(w) && !after.watched(w)->0.closed ==> after.watched(w) is Some
            && after.watched(w)->0.heard.last() is Offered && (after.watched(w)->0.heard.last()
            == Heard::Offered(Offer::Taken) ==> after.watched(w)->0.taken
            == before.watched(w)->0.taken.push(
            FrameView { stream: before.watched(w)->0.id, body: BodyView::Exit(status) },
        )),
        same_connections(before, after),
{
    if watching.contains(w) {
        law_a_told_stream_has_the_exit(before.watched(w)->0, after.watched(w)->0, status);
    }
}

/// A session that is torn down closes every stream that watched it, telling each how it ended
/// if it has, and touches no other stream.
pub proof fn law_a_closed_session_lets_go_of_every_stream(
    before: StreamRegistry,
    after: StreamRegistry,
    watching: Seq<AttachedStream>,
    status: Option<SessionExit>,
    w: AttachedStream,
)
    requires
        all_closed(before, after, watching, status),
    ensures
        !watching.contains(w) ==> after.watched(w) == before.watched(w),
        watching.contains(w) && before.watched(w) is Some ==> after.watched(w) is Some
            && after.watched(w)->0.closed,
        watching.contains(w) && before.watched(w) is Some && status is None
            ==> after.watched(w)->0.taken == before.watched(w)->0.taken,
        watching.contains(w) && before.watched(w) is Some && status is Some
            && after.watched(w)->0.heard.last() == Heard::Offered(Offer::Taken)
            && after.watched(w)->0.heard.len() == before.watched(w)->0.heard.len() + 2
            ==> after.watched(w)->0.taken == before.watched(w)->0.taken.push(
            FrameView { stream: before.watched(w)->0.id, body: BodyView::Exit(status->0) },
        ),
        watching.contains(w) && before.watched(w) is Some && status is Some
            && !before.watched(w)->0.closed ==> after.watched(w)->0.heard.len()
            > before.watched(w)->0.heard.len(),
        same_connections(before, after),
{
    if watching.contains(w) && before.watched(w) is Some && status is Some {
        let sink = before.watched(w)->0;
        let told = choose|told: SinkView| #[trigger]
            is_told(sink, told, status->0) && after.watched(w)->0 == (SinkView {
                closed: true,
                ..told
            });
    }
}

/// A flush loses nothing while anyone watches: what it drops has been taken by every stream
/// that still watches, and with nobody watching the buffer is let go whole. What is left is the
/// end of what was there.
pub proof fn law_a_flush_keeps_what_is_owed(
    before: StreamRegistry,
    watching: Seq<AttachedStream>,
    pending: Seq<u8>,
    after: StreamRegistry,
    still: Seq<AttachedStream>,
    left: Seq<u8>,
    dropped: int,
)
    requires
        flushed(before, watching, pending, after, still, left, dropped),
    ensures
        left.len() <= pending.len(),
        left == pending.skip(pending.len() - left.len()),
        pending.len() == 0 ==> left.len() == 0 && still == watching,
        pending.len() > 0 && still.len() == 0 ==> left.len() == 0,
        pending.len() > 0 && still.len() > 0 ==> exists|w: AttachedStream| #[trigger]
            still.contains(w) && after.watched(w) is Some && after.watched(w)->0.delivered == 0,
        same_connections(before, after),
{
    if pending.len() > 0 {
        let mid = choose|mid: StreamRegistry| #[trigger]
            pruned(before, mid, watching, still) && all_fed(mid, after, still, pending, dropped);
        if still.len() > 0 {
            let w = choose|w: AttachedStream| #[trigger]
                still.contains(w) && after.watched(w)->0.delivered == 0;
            assert(still.contains(w) && after.watched(w) is Some);
        }
    }
}

/// Pruning asks every stream in the list whether its reader has gone, and keeps exactly those
/// that are open and were answered that it has not.
pub proof fn law_a_stream_is_kept_if_it_is_still_read(
    before: StreamRegistry,
    after: StreamRegistry,
    watching: Seq<AttachedStream>,
    still: Seq<AttachedStream>,
    w: AttachedStream,
)
    requires
        pruned(before, after, watching, still),
        watching.no_duplicates(),
    ensures
        still.contains(w) ==> watching.contains(w),
        watching.contains(w) && before.watched(w) is None ==> !still.contains(w) && after.watched(w)
            is None,
        watching.contains(w) && before.watched(w) is Some ==> after.watched(w) is Some
            && after.watched(w)->0.heard.len() == before.watched(w)->0.heard.len() + 1
            && after.watched(w)->0.taken == before.watched(w)->0.taken && (still.contains(w)
            <==> !before.watched(w)->0.closed && after.watched(w)->0.heard.last() == Heard::Gone(
            false,
        )),
        !watching.contains(w) ==> after.watched(w) == before.watched(w),
        same_connections(before, after),
{
    let gone = choose|gone: Seq<bool>| #[trigger]
        all_asked(before, after, watching, gone) && still == kept(before, watching, gone);
    lemma_kept(before, watching, gone);
    law_a_pruned_list_keeps_exactly_the_live(before, watching, gone);
    if watching.contains(w) {
        let k = choose|k: int| 0 <= k < watching.len() && watching[k] == w;
        assert(after.watched(watching[k]) == once_asked(before.watched(watching[k]), gone[k]));
    }
}

} // verus!
