//! What a session's watchers get over any run of flushes, acks and further output.
use vstd::prelude::*;
use crate::session::pump::{
    all_asked, all_fed, flushed, gathered, kept, lemma_kept, oldest_after, once_asked, pruned,
    stamped, Output,
};
use crate::stream::registry::{
    is_credited, law_open_streams_lie_below_the_watermark, resume_at, AttachedStream,
    StreamRegistry,
};
use crate::stream::sink::{
    asked, finished, has_sent, law_a_run_sends_what_it_passes, output_bytes, run, Answers,
    SinkView,
};
use crate::wire::CreditFrame;

verus! {

/// A session's output on its way to the streams watching it, at one moment.
pub struct Flow {
    /// The streams.
    pub registry: StreamRegistry,
    /// Those that watch the session.
    pub watching: Seq<AttachedStream>,
    /// What has been coalesced and not yet taken by all of them.
    pub pending: Seq<u8>,
    /// When the oldest byte of that arrived.
    pub oldest: Option<u64>,
    /// All that has ever been pending, from the first moment on.
    pub all: Seq<u8>,
}

/// A first moment: nothing of what is pending has gone to any of the streams, and all of them
/// are open.
pub open spec fn begins(flow: Flow) -> bool {
    &&& flow.registry.wf()
    &&& flow.registry.serves().chunk > 0
    &&& flow.pending == flow.all
    &&& forall|w: AttachedStream| #[trigger]
        flow.watching.contains(w) ==> flow.registry.watched(w) is Some && !flow.registry.watched(
            w,
        )->0.closed && flow.registry.watched(w)->0.delivered == 0
}

/// Whether a flush leads from `a` to `b`.
pub open spec fn by_flush(a: Flow, b: Flow) -> bool {
    &&& exists|dropped: int| #[trigger]
        flushed(a.registry, a.watching, a.pending, b.registry, b.watching, b.pending, dropped)
    &&& b.oldest == oldest_after(a.oldest, a.pending, b.pending)
    &&& b.all == a.all
}

/// Whether a credit frame, for whichever stream, leads from `a` to `b`.
pub open spec fn by_credit(a: Flow, b: Flow) -> bool {
    &&& exists|key: u64, id: u32, credit: CreditFrame| #[trigger]
        is_credited(a.registry, b.registry, key, id, credit)
    &&& b == (Flow { registry: b.registry, ..a })
}

/// Whether further output leads from `a` to `b`.
pub open spec fn by_output(a: Flow, b: Flow) -> bool {
    exists|chunk: Vec<u8>, now: u64|
        b == (Flow {
            pending: gathered(a.pending, Output::Chunk(chunk)),
            oldest: #[trigger] stamped(a.oldest, Output::Chunk(chunk), now),
            all: gathered(a.all, Output::Chunk(chunk)),
            ..a
        })
}

/// Whether `b` comes right after `a`.
pub open spec fn follows(a: Flow, b: Flow) -> bool {
    &&& b.registry.wf()
    &&& by_flush(a, b) || by_credit(a, b) || by_output(a, b)
}

/// Whether each moment comes right after the one before it.
pub open spec fn unfolds(flows: Seq<Flow>) -> bool {
    forall|i: int| 0 <= i < flows.len() - 1 ==> follows(#[trigger] flows[i], flows[i + 1])
}

/// How much of all that was pending has been dropped because every stream had it.
pub open spec fn dropped_by(flow: Flow) -> int {
    flow.all.len() - flow.pending.len()
}

/// How much of all that was pending a stream has got.
pub open spec fn got(flow: Flow, w: AttachedStream) -> int {
    dropped_by(flow) + flow.registry.watched(w)->0.delivered
}

/// Whether a stream is watched and its client has not been found gone.
pub open spec fn is_fed_live(flow: Flow, w: AttachedStream) -> bool {
    flow.watching.contains(w) && flow.registry.watched(w) is Some && !flow.registry.watched(
        w,
    )->0.closed
}

/// What one flush sends a stream that is still watching and open: the bytes between where it
/// had got to and where it has got to.
proof fn lemma_one_flush(a: Flow, b: Flow, dropped: int, w: AttachedStream)
    requires
        a.registry.wf(),
        a.registry.serves().chunk > 0,
        flushed(a.registry, a.watching, a.pending, b.registry, b.watching, b.pending, dropped),
        is_fed_live(b, w),
        a.pending.len() > 0,
        is_fed_live(a, w) ==> a.registry.watched(w)->0.delivered <= a.pending.len(),
    ensures
        is_fed_live(a, w),
        ({
            let (x, y) = (a.registry.watched(w)->0, b.registry.watched(w)->0);
            &&& x.delivered <= y.delivered + dropped <= a.pending.len()
            &&& has_sent(x, y, a.pending.subrange(x.delivered as int, y.delivered + dropped))
            &&& y.window == x.window
        }),
{
    let (before, after) = (a.registry, b.registry);
    let mid = choose|mid: StreamRegistry| #[trigger]
        pruned(before, mid, a.watching, b.watching) && all_fed(
            mid,
            after,
            b.watching,
            a.pending,
            dropped,
        );
    let gone = choose|gone: Seq<bool>| #[trigger]
        all_asked(before, mid, a.watching, gone) && b.watching == kept(before, a.watching, gone);
    lemma_kept(before, a.watching, gone);
    law_open_streams_lie_below_the_watermark(before, w.connection.raw(), w.stream.raw);
    let at = choose|at: int| 0 <= at < a.watching.len() && a.watching[at] == w;
    assert(mid.watched(a.watching[at]) == once_asked(before.watched(w), gone[at]));
    let x = before.watched(w)->0;
    let y = after.watched(w)->0;
    let c = asked(x, gone[at]);
    assert(mid.watched(w) == Some(c));
    let done = y.delivered + dropped;
    assert(resume_at(c, a.pending) == x.delivered);
    let answers = choose|answers: Answers|
        {
            let ran = #[trigger] run(c, a.pending, resume_at(c, a.pending), answers);
            &&& finished(ran, a.pending)
            &&& ran.1 == done
            &&& (SinkView { delivered: done as nat, ..y }) == (SinkView {
                delivered: done as nat,
                ..ran.0
            })
        };
    let ran = run(c, a.pending, x.delivered as int, answers);
    assert(ran.0.taken == y.taken && ran.0.closed == y.closed && ran.0.window == y.window);
    law_a_run_sends_what_it_passes(c, a.pending, x.delivered as int, answers);
    crate::stream::sink::law_a_run_delivers_each_byte_once(
        c,
        a.pending,
        x.delivered as int,
        answers,
    );
    assert(has_sent(x, y, a.pending.subrange(x.delivered as int, done)));
}

/// A stream that was sent `a` and then `b` was sent both, one after the other.
proof fn lemma_sent_twice(x: SinkView, y: SinkView, z: SinkView, a: Seq<u8>, b: Seq<u8>)
    requires
        has_sent(x, y, a),
        has_sent(y, z, b),
        y.window == x.window,
    ensures
        has_sent(x, z, a + b),
{
    assert(z.taken.take(x.taken.len() as int) =~= y.taken.take(x.taken.len() as int)) by {
        assert forall|i: int| 0 <= i < x.taken.len() implies z.taken[i] == y.taken[i] by {
            assert(z.taken.take(y.taken.len() as int)[i] == y.taken[i]);
        }
    }
    assert forall|i: int| x.taken.len() <= i < z.taken.len() implies (#[trigger] z.taken[i]).body
        is Output && z.taken[i].body->Output_0.len() <= x.window.chunk by {
        if i < y.taken.len() {
            assert(z.taken.take(y.taken.len() as int)[i] == y.taken[i]);
        }
    }
    assert(output_bytes(x.taken) + a + b =~= output_bytes(x.taken) + (a + b));
}

proof fn lemma_sent_nothing(x: SinkView, y: SinkView)
    requires
        y.taken == x.taken,
    ensures
        has_sent(x, y, Seq::empty()),
{
    assert(x.taken.take(x.taken.len() as int) =~= x.taken);
    assert(output_bytes(x.taken) + Seq::<u8>::empty() =~= output_bytes(x.taken));
}

/// What has come of a flow since its first moment.
pub open spec fn has_come_of(first: Flow, last: Flow) -> bool {
    &&& 0 <= dropped_by(last)
    &&& last.pending == last.all.skip(dropped_by(last))
    &&& forall|w: AttachedStream| #[trigger]
        is_fed_live(last, w) ==> {
            &&& is_fed_live(first, w)
            &&& dropped_by(last) <= got(last, w) <= last.all.len()
            &&& has_sent(
                first.registry.watched(w)->0,
                last.registry.watched(w)->0,
                last.all.take(got(last, w)),
            )
        }
    &&& last.watching.len() > 0 ==> exists|w: AttachedStream| #[trigger]
        last.watching.contains(w) && got(last, w) == dropped_by(last)
}

proof fn lemma_one_more(first: Flow, a: Flow, b: Flow)
    requires
        begins(first),
        a.registry.wf(),
        a.registry.serves() == first.registry.serves(),
        has_come_of(first, a),
        forall|w: AttachedStream| #[trigger]
            is_fed_live(a, w) ==> a.registry.watched(w)->0.window
                == first.registry.watched(w)->0.window,
        follows(a, b),
    ensures
        b.registry.wf(),
        b.registry.serves() == first.registry.serves(),
        has_come_of(first, b),
        forall|w: AttachedStream| #[trigger]
            is_fed_live(b, w) ==> b.registry.watched(w)->0.window
                == first.registry.watched(w)->0.window,
{
    if by_flush(a, b) {
        let dropped = choose|dropped: int| #[trigger]
            flushed(a.registry, a.watching, a.pending, b.registry, b.watching, b.pending, dropped);
        if a.pending.len() == 0 {
            assert(b.pending =~= a.pending);
            assert forall|w: AttachedStream| #[trigger] is_fed_live(b, w) implies is_fed_live(
                a,
                w,
            ) && b.registry.watched(w) == a.registry.watched(w) by {}
            if b.watching.len() > 0 {
                let w = choose|w: AttachedStream| #[trigger]
                    a.watching.contains(w) && got(a, w) == dropped_by(a);
                assert(b.registry.watched(w) == a.registry.watched(w));
                assert(b.watching.contains(w) && got(b, w) == dropped_by(b));
            }
        } else {
            assert(dropped_by(b) == dropped_by(a) + dropped);
            assert(b.pending =~= b.all.skip(dropped_by(b)));
            assert forall|w: AttachedStream| #[trigger] is_fed_live(b, w) implies {
                &&& is_fed_live(first, w)
                &&& dropped_by(b) <= got(b, w) <= b.all.len()
                &&& has_sent(
                    first.registry.watched(w)->0,
                    b.registry.watched(w)->0,
                    b.all.take(got(b, w)),
                )
                &&& b.registry.watched(w)->0.window == first.registry.watched(w)->0.window
            } by {
                lemma_one_flush(a, b, dropped, w);
                let (x, y) = (a.registry.watched(w)->0, b.registry.watched(w)->0);
                let more = a.pending.subrange(x.delivered as int, y.delivered + dropped);
                lemma_sent_twice(
                    first.registry.watched(w)->0,
                    x,
                    y,
                    a.all.take(got(a, w)),
                    more,
                );
                assert(a.all.take(got(a, w)) + more =~= b.all.take(got(b, w)));
            }
            if b.watching.len() > 0 {
                let mid = choose|mid: StreamRegistry| #[trigger]
                    pruned(a.registry, mid, a.watching, b.watching) && all_fed(
                        mid,
                        b.registry,
                        b.watching,
                        a.pending,
                        dropped,
                    );
                let w = choose|w: AttachedStream| #[trigger]
                    b.watching.contains(w) && b.registry.watched(w)->0.delivered == 0;
                assert(b.watching.contains(w) && got(b, w) == dropped_by(b));
            }
        }
    } else if by_credit(a, b) {
        assert forall|w: AttachedStream| #[trigger] b.registry.watched(w) is Some implies {
            &&& a.registry.watched(w) is Some
            &&& b.registry.watched(w)->0.taken == a.registry.watched(w)->0.taken
            &&& b.registry.watched(w)->0.closed == a.registry.watched(w)->0.closed
            &&& b.registry.watched(w)->0.delivered == a.registry.watched(w)->0.delivered
            &&& b.registry.watched(w)->0.window == a.registry.watched(w)->0.window
        } by {}
        assert forall|w: AttachedStream| #[trigger] is_fed_live(b, w) implies {
            &&& is_fed_live(first, w)
            &&& dropped_by(b) <= got(b, w) <= b.all.len()
            &&& has_sent(
                first.registry.watched(w)->0,
                b.registry.watched(w)->0,
                b.all.take(got(b, w)),
            )
            &&& b.registry.watched(w)->0.window == first.registry.watched(w)->0.window
        } by {
            assert(b.registry.watched(w) is Some);
            assert(is_fed_live(a, w));
        }
        if b.watching.len() > 0 {
            let w = choose|w: AttachedStream| #[trigger]
                a.watching.contains(w) && got(a, w) == dropped_by(a);
            assert(b.watching.contains(w) && got(b, w) == dropped_by(b));
        }
    } else {
        let (chunk, now) = choose|chunk: Vec<u8>, now: u64|
            b == (Flow {
                pending: gathered(a.pending, Output::Chunk(chunk)),
                oldest: #[trigger] stamped(a.oldest, Output::Chunk(chunk), now),
                all: gathered(a.all, Output::Chunk(chunk)),
                ..a
            });
        assert(dropped_by(b) == dropped_by(a));
        assert(b.pending =~= b.all.skip(dropped_by(b)));
        assert forall|w: AttachedStream| #[trigger] is_fed_live(b, w) implies {
            &&& is_fed_live(first, w)
            &&& dropped_by(b) <= got(b, w) <= b.all.len()
            &&& has_sent(
                first.registry.watched(w)->0,
                b.registry.watched(w)->0,
                b.all.take(got(b, w)),
            )
            &&& b.registry.watched(w)->0.window == first.registry.watched(w)->0.window
        } by {
            assert(is_fed_live(a, w));
            assert(b.all.take(got(b, w)) =~= a.all.take(got(a, w)));
        }
        if b.watching.len() > 0 {
            let w = choose|w: AttachedStream| #[trigger]
                a.watching.contains(w) && got(a, w) == dropped_by(a);
            assert(b.watching.contains(w) && got(b, w) == dropped_by(b));
        }
    }
}

proof fn lemma_every_moment(flows: Seq<Flow>)
    requires
        flows.len() > 0,
        begins(flows[0]),
        unfolds(flows),
    ensures
        flows.last().registry.wf(),
        flows.last().registry.serves() == flows[0].registry.serves(),
        has_come_of(flows[0], flows.last()),
        forall|w: AttachedStream| #[trigger]
            is_fed_live(flows.last(), w) ==> flows.last().registry.watched(w)->0.window
                == flows[0].registry.watched(w)->0.window,
    decreases flows.len(),
{
    let first = flows[0];
    if flows.len() == 1 {
        assert(first.all.skip(0) =~= first.all);
        assert forall|w: AttachedStream| #[trigger] is_fed_live(first, w) implies got(first, w) == 0
            && has_sent(
            first.registry.watched(w)->0,
            first.registry.watched(w)->0,
            first.all.take(0),
        ) by {
            lemma_sent_nothing(first.registry.watched(w)->0, first.registry.watched(w)->0);
            assert(first.all.take(0) =~= Seq::empty());
        }
        if first.watching.len() > 0 {
            let w = first.watching[0];
            assert(first.watching.contains(w));
            assert(first.watching.contains(w) && got(first, w) == dropped_by(first));
        }
    } else {
        let before = flows.drop_last();
        assert forall|i: int| 0 <= i < before.len() - 1 implies follows(
            #[trigger] before[i],
            before[i + 1],
        ) by {
            assert(before[i] == flows[i] && before[i + 1] == flows[i + 1]);
        }
        lemma_every_moment(before);
        let at = flows.len() - 2;
        assert(follows(flows[at], flows[at + 1]));
        assert(before.last() == flows[at]);
        lemma_one_more(first, before.last(), flows.last());
    }
}

/// However flushes, acks and further output follow one another, every byte goes to every stream
/// once and in order.
///
/// At each moment, what a stream that is still watched and open has been sent since the first is
/// a prefix of all that was ever pending, in frames of at most a chunk, and it is as long as the
/// stream has got. What is pending is the rest after what was dropped; nobody has got less than
/// that, and some watched stream no more. A flush that leaves nothing pending leaves no age
/// either.
pub proof fn law_every_stream_is_sent_a_prefix(flows: Seq<Flow>)
    requires
        flows.len() > 0,
        begins(flows[0]),
        unfolds(flows),
    ensures
        forall|i: int| 0 <= i < flows.len() ==> has_come_of(flows[0], #[trigger] flows[i]),
        forall|i: int|
            0 <= i < flows.len() - 1 && (#[trigger] flows[i]).pending.len() > 0 && flows[i
                + 1].pending.len() == 0 ==> flows[i + 1].oldest is None,
{
    assert forall|i: int| 0 <= i < flows.len() implies has_come_of(flows[0], #[trigger] flows[i]) by {
        let upto = flows.take(i + 1);
        assert forall|j: int| 0 <= j < upto.len() - 1 implies follows(
            #[trigger] upto[j],
            upto[j + 1],
        ) by {
            assert(upto[j] == flows[j] && upto[j + 1] == flows[j + 1]);
        }
        lemma_every_moment(upto);
        assert(upto.last() == flows[i]);
    }
    assert forall|i: int|
        0 <= i < flows.len() - 1 && (#[trigger] flows[i]).pending.len() > 0 && flows[i
            + 1].pending.len() == 0 implies flows[i + 1].oldest is None by {
        assert(follows(flows[i], flows[i + 1]));
    }
}

} // verus!
