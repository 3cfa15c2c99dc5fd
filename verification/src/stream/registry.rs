//! Every stream the daemon is writing, and every connection able to carry one.
//!
//! Everything is keyed by connection rather than by client: a second connection under one
//! client id supersedes the first, and the first one's teardown, however late, closes only
//! what it opened.
use vstd::prelude::*;
use crate::stream::sink::{
    asked, drains, exit_frame, feeds, finished, fresh_sink, law_a_run_delivers_each_byte_once,
    law_a_gone_client_holds_nothing_back, law_a_run_sends_what_it_passes, law_a_run_stops_only_where_it_must,
    law_an_attach_ends_with_the_exit, open_outbox, opening_grant, output_bytes, replay_end,
    replayed,
    replenished, run, second_sender, sent, Answers, Heard, Offer, SendOutcome, SinkView,
    StreamSink,
};
use crate::text::same;
use crate::wire::{
    BodyView, CreditFrame, CreditWindow, Frame, FrameBody, FrameView, SessionExit, StreamId,
};

verus! {

/// How many frames may be queued for one client before the daemon treats it as stalled.
pub const OUTBOX_FRAMES: usize = 256;

/// The last index at which `p` holds, or `-1`.
pub open spec fn last_where<T>(s: Seq<T>, p: spec_fn(T) -> bool) -> int
    decreases s.len(),
{
    if s.len() == 0 {
        -1
    } else if p(s.last()) {
        s.len() - 1
    } else {
        last_where(s.drop_last(), p)
    }
}

proof fn lemma_last_where<T>(s: Seq<T>, p: spec_fn(T) -> bool)
    ensures
        -1 <= last_where(s, p) < s.len(),
        last_where(s, p) >= 0 ==> p(s[last_where(s, p)]),
        forall|i: int| last_where(s, p) < i < s.len() ==> !p(#[trigger] s[i]),
    decreases s.len(),
{
    if s.len() > 0 && !p(s.last()) {
        lemma_last_where(s.drop_last(), p);
        let r = last_where(s.drop_last(), p);
        assert forall|i: int| r < i < s.len() implies !p(#[trigger] s[i]) by {
            if i < s.len() - 1 {
                assert(s[i] == s.drop_last()[i]);
            }
        }
    }
}

/// One stream connection, for the life of the daemon.
///
/// Two connections from the same client are different keys and share nothing.
#[derive(Clone, Copy, Debug, PartialEq, Eq, PartialOrd, Ord, Hash, Structural)]
pub struct ConnectionKey(u64);

impl ConnectionKey {
    /// The number.
    pub closed spec fn raw(self) -> u64 {
        self.0
    }

    /// The key as the bare number it is.
    pub fn get(self) -> (out: u64)
        ensures
            out == self.raw(),
    {
        self.0
    }
}

/// Keys are told apart by their numbers.
pub proof fn law_keys_are_their_numbers(a: ConnectionKey, b: ConnectionKey)
    ensures
        a.raw() == b.raw() <==> a == b,
{
}

/// What a stream connection gets when it binds.
#[derive(Debug)]
pub struct BoundStream {
    /// This connection's key, which every later call about it names.
    pub key: ConnectionKey,
    /// The frames to write to the socket, in order.
    pub outbox: tokio::sync::mpsc::Receiver<Frame>,
    /// The connection this one took the client id over from, whose reader is to be woken.
    pub superseded: Option<ConnectionKey>,
}

/// A stream the daemon has just opened, and the connection it rides.
#[derive(Clone, Copy, Debug, PartialEq, Eq, Structural)]
pub struct AttachedStream {
    /// The connection that owns it.
    pub connection: ConnectionKey,
    /// Its id on that connection.
    pub stream: StreamId,
}

/// One stream connection: its outbox, its own id counter, and its own sinks.
#[derive(Debug)]
struct StreamConnection {
    key: u64,
    client: String,
    frames: tokio::sync::mpsc::Sender<Frame>,
    next_id: StreamId,
    sinks: Vec<StreamSink>,
}

/// What is known of one stream connection.
pub struct ConnectionView {
    /// The client id it announced.
    pub client: Seq<char>,
    /// The next id to assign on it.
    pub next_id: u32,
    /// The queue its streams' frames go into, which is its outbox.
    pub queue: nat,
}

spec fn keyed(key: u64) -> spec_fn(StreamConnection) -> bool {
    |c: StreamConnection| c.key == key
}

spec fn serving(client: Seq<char>) -> spec_fn(StreamConnection) -> bool {
    |c: StreamConnection| c.client@ == client
}

spec fn numbered(id: u32) -> spec_fn(StreamSink) -> bool {
    |s: StreamSink| s@.id == id
}

spec fn sinks_wf(sinks: Seq<StreamSink>, next_id: u32, window: CreditWindow, queue: nat) -> bool {
    &&& 1 <= next_id
    &&& forall|i: int|
        0 <= i < sinks.len() ==> 1 <= (#[trigger] sinks[i])@.id < next_id && sinks[i]@.window
            == window && sinks[i]@.queue == queue
    &&& forall|i: int, j: int|
        0 <= i < j < sinks.len() ==> (#[trigger] sinks[i])@.id != (#[trigger] sinks[j])@.id
}

spec fn streams_among(conns: Seq<StreamConnection>) -> nat
    decreases conns.len(),
{
    if conns.len() == 0 {
        0
    } else {
        streams_among(conns.drop_last()) + conns.last().sinks@.len()
    }
}

/// Every stream the daemon is writing, and every connection able to carry one.
#[derive(Debug)]
pub struct StreamRegistry {
    window: CreditWindow,
    connections: Vec<StreamConnection>,
    next_connection: u64,
}

impl StreamRegistry {
    /// The registry's invariant: keys and client ids name at most one open connection, keys
    /// not yet handed out are beyond every open one, and a connection's streams carry
    /// distinct ids it has already assigned and put their frames into its outbox.
    pub closed spec fn wf(&self) -> bool {
        let conns = self.connections@;
        &&& self.next_connection >= 1
        &&& forall|i: int| 0 <= i < conns.len() ==> (#[trigger] conns[i]).key < self.next_connection
        &&& forall|i: int, j: int|
            0 <= i < j < conns.len() ==> (#[trigger] conns[i]).key != (#[trigger] conns[j]).key
        &&& forall|i: int, j: int|
            0 <= i < j < conns.len() ==> (#[trigger] conns[i]).client@ != (
            #[trigger] conns[j]).client@
        &&& forall|i: int|
            0 <= i < conns.len() ==> sinks_wf(
                (#[trigger] conns[i]).sinks@,
                conns[i].next_id.raw, self.window, feeds(conns[i].frames))
    }

    /// The window every sink this registry opens is given.
    pub closed spec fn serves(&self) -> CreditWindow {
        self.window
    }

    /// The key the next connection gets.
    pub closed spec fn upcoming(&self) -> u64 {
        self.next_connection
    }

    /// The open connection with that key, if there is one.
    pub closed spec fn connection(&self, key: u64) -> Option<ConnectionView> {
        let i = last_where(self.connections@, keyed(key));
        if i >= 0 {
            Some(
                ConnectionView {
                    client: self.connections@[i].client@,
                    next_id: self.connections@[i].next_id.raw,
                    queue: feeds(self.connections@[i].frames),
                },
            )
        } else {
            None
        }
    }

    /// The connection currently serving a client id, if there is one.
    pub closed spec fn current(&self, client: Seq<char>) -> Option<u64> {
        let i = last_where(self.connections@, serving(client));
        if i >= 0 {
            Some(self.connections@[i].key)
        } else {
            None
        }
    }

    /// The open stream with that id on that connection, if there is one.
    pub closed spec fn stream(&self, key: u64, id: u32) -> Option<SinkView> {
        let i = last_where(self.connections@, keyed(key));
        if i >= 0 {
            let j = last_where(self.connections@[i].sinks@, numbered(id));
            if j >= 0 {
                Some(self.connections@[i].sinks@[j]@)
            } else {
                None
            }
        } else {
            None
        }
    }

    /// Whether output can be routed to that client: it has a stream connection, and that has an
    /// id left to give.
    pub open spec fn routable(&self, client: Seq<char>) -> bool {
        self.current(client) is Some && self.connection(self.current(client)->0)->0.next_id
            < u32::MAX
    }

    /// How many connections are open.
    pub closed spec fn connection_count(&self) -> nat {
        self.connections@.len()
    }

    /// How many streams are open, across every connection.
    pub closed spec fn stream_count(&self) -> nat {
        streams_among(self.connections@)
    }

    /// How many streams are open on one connection.
    pub closed spec fn streams_on(&self, key: u64) -> nat {
        let i = last_where(self.connections@, keyed(key));
        if i >= 0 {
            self.connections@[i].sinks@.len()
        } else {
            0
        }
    }
}

proof fn lemma_found<T>(s: Seq<T>, p: spec_fn(T) -> bool, i: int)
    requires
        0 <= i < s.len(),
        p(s[i]),
        forall|j: int| i < j < s.len() ==> !p(#[trigger] s[j]),
    ensures
        last_where(s, p) == i,
{
    lemma_last_where(s, p);
}

proof fn lemma_absent<T>(s: Seq<T>, p: spec_fn(T) -> bool)
    requires
        forall|j: int| 0 <= j < s.len() ==> !p(#[trigger] s[j]),
    ensures
        last_where(s, p) == -1,
{
    lemma_last_where(s, p);
}

proof fn lemma_pushed<T>(s: Seq<T>, x: T, p: spec_fn(T) -> bool)
    ensures
        last_where(s.push(x), p) == (if p(x) {
            s.len() as int
        } else {
            last_where(s, p)
        }),
{
    assert(s.push(x).drop_last() =~= s);
}

/// Dropping an element `p` does not hold of moves the last one it does hold of by one place
/// at most.
proof fn lemma_removed<T>(s: Seq<T>, at: int, p: spec_fn(T) -> bool)
    requires
        0 <= at < s.len(),
        !p(s[at]),
    ensures
        last_where(s.remove(at), p) == (if last_where(s, p) < at {
            last_where(s, p)
        } else {
            last_where(s, p) - 1
        }),
        last_where(s, p) >= 0 ==> s.remove(at)[last_where(s.remove(at), p)] == s[last_where(s, p)],
{
    let t = s.remove(at);
    let r = last_where(s, p);
    lemma_last_where(s, p);
    if r < 0 {
        assert forall|j: int| 0 <= j < t.len() implies !p(#[trigger] t[j]) by {
            if j < at {
                assert(t[j] == s[j]);
            } else {
                assert(t[j] == s[j + 1]);
            }
        }
        lemma_absent(t, p);
    } else {
        let c = if r < at {
            r
        } else {
            r - 1
        };
        assert forall|j: int| c < j < t.len() implies !p(#[trigger] t[j]) by {
            if j < at {
                assert(t[j] == s[j]);
            } else {
                assert(t[j] == s[j + 1]);
            }
        }
        lemma_found(t, p, c);
    }
}

/// Replacing an element by one `p` agrees on moves nothing.
proof fn lemma_replaced<T>(s: Seq<T>, at: int, x: T, p: spec_fn(T) -> bool)
    requires
        0 <= at < s.len(),
        p(x) == p(s[at]),
    ensures
        last_where(s.update(at, x), p) == last_where(s, p),
{
    let t = s.update(at, x);
    lemma_last_where(s, p);
    let r = last_where(s, p);
    assert forall|j: int| 0 <= j < t.len() implies p(#[trigger] t[j]) == p(s[j]) by {}
    if r < 0 {
        lemma_absent(t, p);
    } else {
        lemma_found(t, p, r);
    }
}

proof fn lemma_streams_removed(s: Seq<StreamConnection>, at: int)
    requires
        0 <= at < s.len(),
    ensures
        streams_among(s.remove(at)) == streams_among(s) - s[at].sinks@.len(),
    decreases s.len(),
{
    if at == s.len() - 1 {
        assert(s.remove(at) =~= s.drop_last());
    } else {
        lemma_streams_removed(s.drop_last(), at);
        assert(s.remove(at).drop_last() =~= s.drop_last().remove(at));
    }
}

proof fn lemma_streams_replaced(s: Seq<StreamConnection>, at: int, x: StreamConnection)
    requires
        0 <= at < s.len(),
    ensures
        streams_among(s.update(at, x)) == streams_among(s) - s[at].sinks@.len() + x.sinks@.len(),
    decreases s.len(),
{
    if at == s.len() - 1 {
        assert(s.update(at, x).drop_last() =~= s.drop_last());
    } else {
        lemma_streams_replaced(s.drop_last(), at, x);
        assert(s.update(at, x).drop_last() =~= s.drop_last().update(at, x));
    }
}

fn find_id(sinks: &Vec<StreamSink>, id: u32) -> (out: Option<usize>)
    ensures
        out is None <==> last_where(sinks@, numbered(id)) == -1,
        out is Some ==> out->0 == last_where(sinks@, numbered(id)) && out->0 < sinks.len()
            && sinks@[out->0 as int]@.id == id,
{
    let mut i: usize = sinks.len();
    while i > 0
        invariant
            i <= sinks.len(),
            forall|j: int| i <= j < sinks.len() ==> (#[trigger] sinks@[j])@.id != id,
        decreases i,
    {
        if sinks[i - 1].stream_id().get() == id {
            proof {
                lemma_found(sinks@, numbered(id), i - 1);
            }
            return Some(i - 1);
        }
        i = i - 1;
    }
    proof {
        lemma_absent(sinks@, numbered(id));
    }
    None
}

impl StreamRegistry {
    proof fn lemma_at(&self, i: int)
        requires
            self.wf(),
            0 <= i < self.connections@.len(),
        ensures
            last_where(self.connections@, keyed(self.connections@[i].key)) == i,
            last_where(self.connections@, serving(self.connections@[i].client@)) == i,
    {
        lemma_found(self.connections@, keyed(self.connections@[i].key), i);
        lemma_found(self.connections@, serving(self.connections@[i].client@), i);
    }

    fn find_key(&self, key: u64) -> (out: Option<usize>)
        ensures
            out is None <==> last_where(self.connections@, keyed(key)) == -1,
            out is Some ==> out->0 == last_where(self.connections@, keyed(key)) && out->0
                < self.connections.len() && self.connections@[out->0 as int].key == key,
    {
        let mut i: usize = self.connections.len();
        while i > 0
            invariant
                i <= self.connections.len(),
                forall|j: int|
                    i <= j < self.connections.len() ==> (#[trigger] self.connections@[j]).key
                        != key,
            decreases i,
        {
            if self.connections[i - 1].key == key {
                proof {
                    lemma_found(self.connections@, keyed(key), i - 1);
                }
                return Some(i - 1);
            }
            i = i - 1;
        }
        proof {
            lemma_absent(self.connections@, keyed(key));
        }
        None
    }

    fn find_client(&self, client: &str) -> (out: Option<usize>)
        ensures
            out is None <==> last_where(self.connections@, serving(client@)) == -1,
            out is Some ==> out->0 == last_where(self.connections@, serving(client@)) && out->0
                < self.connections.len() && self.connections@[out->0 as int].client@ == client@,
    {
        let mut i: usize = self.connections.len();
        while i > 0
            invariant
                i <= self.connections.len(),
                forall|j: int|
                    i <= j < self.connections.len() ==> (#[trigger] self.connections@[j]).client@
                        != client@,
            decreases i,
        {
            if same(self.connections[i - 1].client.as_str(), client) {
                proof {
                    lemma_found(self.connections@, serving(client@), i - 1);
                }
                return Some(i - 1);
            }
            i = i - 1;
        }
        proof {
            lemma_absent(self.connections@, serving(client@));
        }
        None
    }

    /// An empty registry serving `window`.
    ///
    /// An incoherent window would deadlock rather than merely misbehave, so one is refused and
    /// `fallback` is served instead. `coherent` is the wire's own answer about `window`.
    pub fn with_window(window: CreditWindow, coherent: bool, fallback: CreditWindow) -> (out:
        StreamRegistry)
        ensures
            out.wf(),
            out.serves() == (if coherent {
                window
            } else {
                fallback
            }),
            out.upcoming() == 1,
            out.connection_count() == 0,
            out.stream_count() == 0,
            forall|k: u64| out.connection(k) is None,
            forall|c: Seq<char>| out.current(c) is None,
            forall|k: u64, i: u32| out.stream(k, i) is None,
    {
        StreamRegistry {
            window: if coherent {
                window
            } else {
                fallback
            },
            connections: Vec::new(),
            next_connection: 1,
        }
    }

    /// An empty registry serving the default window.
    pub fn new(default: CreditWindow) -> (out: StreamRegistry)
        ensures
            out.wf(),
            out.serves() == default,
            out.upcoming() == 1,
            out.connection_count() == 0,
            out.stream_count() == 0,
            forall|k: u64| out.connection(k) is None,
            forall|c: Seq<char>| out.current(c) is None,
            forall|k: u64, i: u32| out.stream(k, i) is None,
    {
        StreamRegistry::with_window(default, true, default)
    }

    /// The window every sink this registry opens is given.
    pub fn window(&self) -> (out: CreditWindow)
        ensures
            out == self.serves(),
    {
        self.window
    }

    /// Drop the connection at `at`, and with it every stream it carries.
    fn forget(&mut self, at: usize)
        requires
            old(self).wf(),
            at < old(self).connections.len(),
        ensures
            final(self).wf(),
            final(self).window == old(self).window,
            final(self).next_connection == old(self).next_connection,
            final(self).connections@ == old(self).connections@.remove(at as int),
            forall|k: u64|
                #[trigger] final(self).connection(k) == (if k == old(self).connections@[at as int].key {
                    None
                } else {
                    old(self).connection(k)
                }),
            forall|c: Seq<char>|
                #[trigger] final(self).current(c) == (if c == old(self).connections@[at as int].client@ {
                    None
                } else {
                    old(self).current(c)
                }),
            forall|k: u64, i: u32|
                #[trigger] final(self).stream(k, i) == (if k == old(self).connections@[at as int].key {
                    None
                } else {
                    old(self).stream(k, i)
                }),
            final(self).connection_count() == old(self).connection_count() - 1,
            final(self).stream_count() == old(self).stream_count() - old(self).streams_on(
                old(self).connections@[at as int].key,
            ),
    {
        let ghost before = *self;
        let ghost gone = self.connections@[at as int];
        self.connections.remove(at);
        proof {
            let now = self.connections@;
            let was = before.connections@;
            assert(now == was.remove(at as int));
            assert forall|i: int, j: int| 0 <= i < j < now.len() implies (#[trigger] now[i]).key
                != (#[trigger] now[j]).key && now[i].client@ != now[j].client@ by {
                let i0 = if i < at {
                    i
                } else {
                    i + 1
                };
                let j0 = if j < at {
                    j
                } else {
                    j + 1
                };
                assert(now[i] == was[i0] && now[j] == was[j0]);
            }
            assert forall|i: int| 0 <= i < now.len() implies (#[trigger] now[i]).key
                < self.next_connection && sinks_wf(now[i].sinks@, now[i].next_id.raw, self.window, feeds(now[i].frames)) by {
                let i0 = if i < at {
                    i
                } else {
                    i + 1
                };
                assert(now[i] == was[i0]);
            }
            before.lemma_at(at as int);
            lemma_streams_removed(was, at as int);
            assert forall|k: u64| k != gone.key implies #[trigger] self.connection(k)
                == before.connection(k) by {
                lemma_removed(was, at as int, keyed(k));
                lemma_last_where(was, keyed(k));
            }
            assert forall|k: u64, i: u32| k != gone.key implies #[trigger] self.stream(k, i)
                == before.stream(k, i) by {
                lemma_removed(was, at as int, keyed(k));
                lemma_last_where(was, keyed(k));
            }
            assert forall|c: Seq<char>| c != gone.client@ implies #[trigger] self.current(c)
                == before.current(c) by {
                lemma_removed(was, at as int, serving(c));
                lemma_last_where(was, serving(c));
            }
            assert forall|j: int| 0 <= j < now.len() implies (#[trigger] now[j]).key != gone.key
                && now[j].client@ != gone.client@ by {
                let j0 = if j < at {
                    j
                } else {
                    j + 1
                };
                assert(now[j] == was[j0]);
            }
            lemma_absent(now, keyed(gone.key));
            lemma_absent(now, serving(gone.client@));
        }
    }

    /// Register a stream connection for `client` and hand back its outbox.
    ///
    /// A connection that binds while the same client id already has one supersedes it: the
    /// older connection and every stream on it are dropped.
    pub fn bind(&mut self, client: &str) -> (out: BoundStream)
        requires
            old(self).wf(),
            old(self).upcoming() < u64::MAX,
        ensures
            final(self).wf(),
            is_bound(*old(self), *final(self), client@, out),
    {
        let key: u64 = self.next_connection;
        let found = self.find_client(client);
        let mut superseded: Option<ConnectionKey> = None;
        if let Some(at) = found {
            superseded = Some(ConnectionKey(self.connections[at].key));
            self.forget(at);
        }
        let ghost mid = *self;
        let (tx, rx) = open_outbox(OUTBOX_FRAMES);
        let fresh = StreamConnection {
            key,
            client: client.to_owned(),
            frames: tx,
            next_id: StreamId::first(),
            sinks: Vec::new(),
        };
        let ghost added = fresh;
        self.next_connection = key + 1;
        self.connections.push(fresh);
        proof {
            let now = self.connections@;
            let was = mid.connections@;
            lemma_last_where(was, serving(client@));
            assert(mid.current(client@) is None);
            assert forall|j: int| 0 <= j < was.len() implies (#[trigger] was[j]).client@
                != client@ by {}
            assert forall|k: u64| #[trigger] self.connection(k) == (if k == key {
                Some(ConnectionView { client: client@, next_id: 1, queue: drains(rx) })
            } else {
                mid.connection(k)
            }) by {
                lemma_pushed(was, added, keyed(k));
                lemma_last_where(was, keyed(k));
            }
            assert forall|c: Seq<char>| #[trigger] self.current(c) == (if c == client@ {
                Some(key)
            } else {
                mid.current(c)
            }) by {
                lemma_pushed(was, added, serving(c));
                lemma_last_where(was, serving(c));
            }
            assert(last_where(was, keyed(key)) == -1) by {
                lemma_absent(was, keyed(key));
            }
            assert forall|k: u64, i: u32| #[trigger] self.stream(k, i) == mid.stream(k, i) by {
                lemma_pushed(was, added, keyed(k));
                lemma_last_where(was, keyed(k));
            }
            assert(now.drop_last() =~= was);
        }
        BoundStream { key: ConnectionKey(key), outbox: rx, superseded }
    }

    /// Forget one stream connection and every stream it carries, and nothing else.
    ///
    /// A connection that was superseded while its reader was parked is torn down whenever that
    /// reader finally wakes; by then it is no longer here and nothing changes.
    pub fn unbind(&mut self, key: ConnectionKey)
        requires
            old(self).wf(),
        ensures
            final(self).wf(),
            is_unbound(*old(self), *final(self), key.raw()),
    {
        let ghost before = *self;
        match self.find_key(key.0) {
            Some(at) => {
                self.forget(at);
                proof {
                    let gone = before.connections@[at as int];
                    assert forall|c: Seq<char>| #[trigger] self.current(c) == (if before.current(c)
                        == Some(key.0) {
                        None
                    } else {
                        before.current(c)
                    }) by {
                        before.lemma_at(at as int);
                        lemma_last_where(before.connections@, serving(c));
                        let r = last_where(before.connections@, serving(c));
                        if r >= 0 && before.connections@[r].key == key.0 {
                            before.lemma_at(r);
                        }
                    }
                }
            },
            None => {
                proof {
                    lemma_last_where(before.connections@, keyed(key.0));
                    assert forall|c: Seq<char>| before.current(c) != Some(key.0) by {
                        lemma_last_where(before.connections@, serving(c));
                    }
                }
            },
        }
    }

    /// Open a stream for `client`, or `None` when it has no stream connection bound or its
    /// connection has no id left to assign.
    pub fn attach(&mut self, client: &str) -> (out: Option<AttachedStream>)
        requires
            old(self).wf(),
        ensures
            final(self).wf(),
            out is Some <==> old(self).routable(client@),
            match out {
                None => same_streams(*old(self), *final(self)),
                Some(attached) => is_attached(*old(self), *final(self), client@, attached),
            },
    {
        let window = self.window;
        let at = match self.find_client(client) {
            Some(at) => at,
            None => {
                return None;
            },
        };
        let ghost before = *self;
        proof {
            before.lemma_at(at as int);
        }
        let key: u64 = self.connections[at].key;
        let id = self.connections[at].next_id;
        let after = match id.next() {
            Some(after) => after,
            None => {
                return None;
            },
        };
        let sink = StreamSink::new(id, second_sender(&self.connections[at].frames), window);
        let ghost added = sink;
        self.connections[at].next_id = after;
        self.connections[at].sinks.push(sink);
        proof {
            let was = before.connections@;
            let now = self.connections@;
            let old_conn = was[at as int];
            let new_conn = now[at as int];
            assert(now =~= was.update(at as int, new_conn));
            assert(new_conn.sinks@ == old_conn.sinks@.push(added));
            lemma_streams_replaced(was, at as int, new_conn);
            assert(sinks_wf(old_conn.sinks@, id.raw, self.window, feeds(old_conn.frames)));
            assert(sinks_wf(new_conn.sinks@, after.raw, self.window, feeds(new_conn.frames)));
            assert forall|i: int| 0 <= i < now.len() implies sinks_wf(
                (#[trigger] now[i]).sinks@,
                now[i].next_id.raw, self.window, feeds(now[i].frames)) by {
                if i != at {
                    assert(now[i] == was[i]);
                }
            }
            assert forall|c: Seq<char>| #[trigger] self.current(c) == before.current(c) by {
                lemma_replaced(was, at as int, new_conn, serving(c));
                lemma_last_where(was, serving(c));
            }
            assert forall|k: u64| #[trigger] self.connection(k) == (if k == key {
                Some(ConnectionView { next_id: after.raw, ..before.connection(key)->0 })
            } else {
                before.connection(k)
            }) by {
                lemma_replaced(was, at as int, new_conn, keyed(k));
                lemma_last_where(was, keyed(k));
            }
            assert(before.stream(key, id.raw) is None) by {
                lemma_absent(old_conn.sinks@, numbered(id.raw));
            }
            assert forall|k: u64, i: u32| #[trigger] self.stream(k, i) == (if k == key && i
                == id.raw {
                Some(fresh_sink(id.raw, before.serves(), before.connection(key)->0.queue))
            } else {
                before.stream(k, i)
            }) by {
                lemma_replaced(was, at as int, new_conn, keyed(k));
                lemma_last_where(was, keyed(k));
                lemma_pushed(old_conn.sinks@, added, numbered(i));
                lemma_last_where(old_conn.sinks@, numbered(i));
            }
        }
        Some(AttachedStream { connection: ConnectionKey(key), stream: id })
    }
}

/// Putting one sink in another's place, under the same id, changes that stream and no other.
proof fn lemma_one_sink_changed(
    before: StreamRegistry,
    after: StreamRegistry,
    at: int,
    j: int,
)
    requires
        before.wf(),
        0 <= at < before.connections@.len(),
        0 <= j < before.connections@[at].sinks@.len(),
        after.window == before.window,
        after.next_connection == before.next_connection,
        after.connections@ == before.connections@.update(at, after.connections@[at]),
        after.connections@[at].key == before.connections@[at].key,
        after.connections@[at].client@ == before.connections@[at].client@,
        after.connections@[at].next_id == before.connections@[at].next_id,
        after.connections@[at].frames == before.connections@[at].frames,
        after.connections@[at].sinks@ == before.connections@[at].sinks@.update(
            j,
            after.connections@[at].sinks@[j],
        ),
        after.connections@[at].sinks@[j]@.id == before.connections@[at].sinks@[j]@.id,
        after.connections@[at].sinks@[j]@.window == before.connections@[at].sinks@[j]@.window,
        after.connections@[at].sinks@[j]@.queue == before.connections@[at].sinks@[j]@.queue,
    ensures
        after.wf(),
        before.stream(before.connections@[at].key, before.connections@[at].sinks@[j]@.id) == Some(
            before.connections@[at].sinks@[j]@,
        ),
        after.connection_count() == before.connection_count(),
        after.stream_count() == before.stream_count(),
        forall|k: u64| #[trigger] after.connection(k) == before.connection(k),
        forall|c: Seq<char>| #[trigger] after.current(c) == before.current(c),
        forall|k: u64, i: u32|
            #[trigger] after.stream(k, i) == (if k == before.connections@[at].key && i
                == before.connections@[at].sinks@[j]@.id {
                Some(after.connections@[at].sinks@[j]@)
            } else {
                before.stream(k, i)
            }),
{
    let was = before.connections@;
    let now = after.connections@;
    let key = was[at].key;
    let id = was[at].sinks@[j]@.id;
    before.lemma_at(at);
    lemma_streams_replaced(was, at, now[at]);
    assert(sinks_wf(was[at].sinks@, was[at].next_id.raw, before.window, feeds(was[at].frames)));
    assert(sinks_wf(now[at].sinks@, now[at].next_id.raw, before.window, feeds(now[at].frames))) by {
        let s = was[at].sinks@;
        let t = now[at].sinks@;
        assert forall|a: int| 0 <= a < t.len() implies (#[trigger] t[a])@.id == s[a]@.id
            && t[a]@.window == s[a]@.window && t[a]@.queue == s[a]@.queue by {}
    }
    assert forall|i: int| 0 <= i < now.len() implies sinks_wf(
        (#[trigger] now[i]).sinks@,
        now[i].next_id.raw, before.window, feeds(now[i].frames)) by {
        if i != at {
            assert(now[i] == was[i]);
        }
    }
    lemma_found(was[at].sinks@, numbered(id), j);
    assert forall|k: u64| #[trigger] after.connection(k) == before.connection(k) by {
        lemma_replaced(was, at, now[at], keyed(k));
        lemma_last_where(was, keyed(k));
    }
    assert forall|c: Seq<char>| #[trigger] after.current(c) == before.current(c) by {
        lemma_replaced(was, at, now[at], serving(c));
        lemma_last_where(was, serving(c));
    }
    assert forall|k: u64, i: u32| #[trigger] after.stream(k, i) == (if k == key && i == id {
        Some(now[at].sinks@[j]@)
    } else {
        before.stream(k, i)
    }) by {
        lemma_replaced(was, at, now[at], keyed(k));
        lemma_last_where(was, keyed(k));
        lemma_replaced(was[at].sinks@, j, now[at].sinks@[j], numbered(i));
        lemma_last_where(was[at].sinks@, numbered(i));
    }
}

impl StreamRegistry {
    /// Close and forget a stream on one named connection, reporting whether it was there.
    pub fn detach_on(&mut self, key: ConnectionKey, stream_id: StreamId) -> (out: bool)
        requires
            old(self).wf(),
        ensures
            final(self).wf(),
            out == (old(self).stream(key.raw(), stream_id.raw) is Some),
            is_detached(*old(self), *final(self), Some(key.raw()), stream_id.raw),
    {
        let ghost before = *self;
        let at = match self.find_key(key.0) {
            Some(at) => at,
            None => {
                return false;
            },
        };
        proof {
            before.lemma_at(at as int);
        }
        match find_id(&self.connections[at].sinks, stream_id.raw) {
            Some(j) => {
                self.connections[at].sinks.remove(j);
                proof {
                    let was = before.connections@;
                    let now = self.connections@;
                    let s = was[at as int].sinks@;
                    let t = now[at as int].sinks@;
                    assert(now =~= was.update(at as int, now[at as int]));
                    assert(t == s.remove(j as int));
                    lemma_streams_replaced(was, at as int, now[at as int]);
                    assert(sinks_wf(s, was[at as int].next_id.raw, self.window, feeds(was[at as int].frames)));
                    assert forall|a: int, b: int| 0 <= a < b < t.len() implies (#[trigger] t[a])@.id
                        != (#[trigger] t[b])@.id by {
                        let a0 = if a < j {
                            a
                        } else {
                            a + 1
                        };
                        let b0 = if b < j {
                            b
                        } else {
                            b + 1
                        };
                        assert(t[a] == s[a0] && t[b] == s[b0]);
                    }
                    assert forall|a: int| 0 <= a < t.len() implies 1 <= (#[trigger] t[a])@.id
                        < was[at as int].next_id.raw && t[a]@.id != stream_id.raw && t[a]@.window
                        == self.window && t[a]@.queue == feeds(was[at as int].frames) by {
                        let a0 = if a < j {
                            a
                        } else {
                            a + 1
                        };
                        assert(t[a] == s[a0]);
                    }
                    assert forall|i: int| 0 <= i < now.len() implies sinks_wf(
                        (#[trigger] now[i]).sinks@,
                        now[i].next_id.raw, self.window, feeds(now[i].frames)) by {
                        if i != at {
                            assert(now[i] == was[i]);
                        }
                    }
                    lemma_absent(t, numbered(stream_id.raw));
                    assert forall|k: u64| #[trigger] self.connection(k) == before.connection(k) by {
                        lemma_replaced(was, at as int, now[at as int], keyed(k));
                        lemma_last_where(was, keyed(k));
                    }
                    assert forall|c: Seq<char>| #[trigger] self.current(c) == before.current(c) by {
                        lemma_replaced(was, at as int, now[at as int], serving(c));
                        lemma_last_where(was, serving(c));
                    }
                    assert forall|k: u64, i: u32| #[trigger] self.stream(k, i) == (if k == key.0
                        && i == stream_id.raw {
                        None
                    } else {
                        before.stream(k, i)
                    }) by {
                        lemma_replaced(was, at as int, now[at as int], keyed(k));
                        lemma_last_where(was, keyed(k));
                        lemma_last_where(s, numbered(i));
                        if i != stream_id.raw {
                            lemma_removed(s, j as int, numbered(i));
                        }
                    }
                }
                true
            },
            None => false,
        }
    }

    /// Close and forget a stream on `client`'s current connection, reporting whether it was
    /// there.
    pub fn detach(&mut self, client: &str, stream_id: StreamId) -> (out: bool)
        requires
            old(self).wf(),
        ensures
            final(self).wf(),
            out == (old(self).current(client@) is Some && old(self).stream(
                old(self).current(client@)->0,
                stream_id.raw,
            ) is Some),
            is_detached(*old(self), *final(self), old(self).current(client@), stream_id.raw),
    {
        match self.find_client(client) {
            Some(at) => {
                let key: u64 = self.connections[at].key;
                self.detach_on(ConnectionKey(key), stream_id)
            },
            None => false,
        }
    }

    /// Apply a credit frame that arrived on one named connection, reporting whether it
    /// credited a stream.
    ///
    /// A grant arriving from a client is ignored: the daemon holds the window, and a consumer
    /// that could hand itself an allowance could turn the backpressure off from the outside.
    pub fn apply_credit(
        &mut self,
        key: ConnectionKey,
        stream_id: StreamId,
        credit: &CreditFrame,
    ) -> (out: bool)
        requires
            old(self).wf(),
        ensures
            final(self).wf(),
            out == (credit is Ack && old(self).stream(key.raw(), stream_id.raw) is Some),
            is_credited(*old(self), *final(self), key.raw(), stream_id.raw, *credit),
    {
        let bytes: u32 = match credit {
            CreditFrame::Ack { bytes } => *bytes,
            CreditFrame::Grant { .. } => {
                return false;
            },
        };
        let ghost before = *self;
        let at = match self.find_key(key.0) {
            Some(at) => at,
            None => {
                return false;
            },
        };
        match find_id(&self.connections[at].sinks, stream_id.raw) {
            Some(j) => {
                self.connections[at].sinks[j].replenish(bytes);
                proof {
                    assert(self.connections@ =~= before.connections@.update(
                        at as int,
                        self.connections@[at as int],
                    ));
                    assert(self.connections@[at as int].sinks@
                        =~= before.connections@[at as int].sinks@.update(
                        j as int,
                        self.connections@[at as int].sinks@[j as int],
                    ));
                    lemma_one_sink_changed(before, *self, at as int, j as int);
                }
                true
            },
            None => false,
        }
    }

    /// The next id `client`'s current connection would hand out.
    pub fn next_stream_id(&self, client: &str) -> (out: Option<StreamId>)
        requires
            self.wf(),
        ensures
            out is Some <==> self.current(client@) is Some,
            out is Some ==> out->0.raw == self.connection(self.current(client@)->0)->0.next_id,
    {
        match self.find_client(client) {
            Some(at) => {
                proof {
                    self.lemma_at(at as int);
                }
                Some(self.connections[at].next_id)
            },
            None => None,
        }
    }

    /// The open stream with that id on that connection, if there is one.
    pub fn sink(&self, key: ConnectionKey, stream_id: StreamId) -> (out: Option<&StreamSink>)
        requires
            self.wf(),
        ensures
            out is Some <==> self.stream(key.raw(), stream_id.raw) is Some,
            out is Some ==> Some(out->0@) == self.stream(key.raw(), stream_id.raw),
    {
        match self.find_key(key.0) {
            Some(at) => match find_id(&self.connections[at].sinks, stream_id.raw) {
                Some(j) => Some(&self.connections[at].sinks[j]),
                None => None,
            },
            None => None,
        }
    }

    /// How many stream connections this registry has bound, ever.
    pub fn bound(&self) -> (out: u64)
        requires
            self.wf(),
        ensures
            out == self.upcoming() - 1,
    {
        self.next_connection - 1
    }

    /// How many stream connections are open.
    pub fn connections(&self) -> (out: usize)
        ensures
            out == self.connection_count(),
    {
        self.connections.len()
    }

    /// How many streams are open, across every connection.
    pub fn len(&self) -> (out: usize)
        requires
            self.stream_count() <= usize::MAX,
        ensures
            out == self.stream_count(),
    {
        let mut total: usize = 0;
        let mut i: usize = 0;
        while i < self.connections.len()
            invariant
                i <= self.connections.len(),
                total == streams_among(self.connections@.take(i as int)),
                streams_among(self.connections@) <= usize::MAX,
            decreases self.connections.len() - i,
        {
            proof {
                assert(self.connections@.take(i + 1).drop_last() =~= self.connections@.take(
                    i as int,
                ));
                lemma_streams_grow(self.connections@, i + 1);
            }
            total = total + self.connections[i].sinks.len();
            i = i + 1;
        }
        assert(self.connections@.take(i as int) =~= self.connections@);
        total
    }

    /// Whether no stream is open.
    pub fn is_empty(&self) -> (out: bool)
        requires
            self.wf(),
        ensures
            out == (self.stream_count() == 0),
            out == (forall|k: u64, i: u32| self.stream(k, i) is None),
    {
        let mut i: usize = 0;
        while i < self.connections.len()
            invariant
                self.wf(),
                i <= self.connections.len(),
                streams_among(self.connections@.take(i as int)) == 0,
                forall|j: int|
                    0 <= j < i ==> (#[trigger] self.connections@[j]).sinks@.len() == 0,
            decreases self.connections.len() - i,
        {
            proof {
                assert(self.connections@.take(i + 1).drop_last() =~= self.connections@.take(
                    i as int,
                ));
            }
            if self.connections[i].sinks.len() > 0 {
                proof {
                    lemma_streams_grow(self.connections@, i + 1);
                    self.lemma_at(i as int);
                    let s = self.connections@[i as int].sinks@;
                    assert(sinks_wf(s, self.connections@[i as int].next_id.raw, self.window, feeds(self.connections@[i as int].frames)));
                    lemma_found(s, numbered(s[0]@.id), 0);
                    assert(self.stream(self.connections@[i as int].key, s[0]@.id) is Some);
                }
                return false;
            }
            i = i + 1;
        }
        proof {
            assert(self.connections@.take(i as int) =~= self.connections@);
            assert forall|k: u64, n: u32| self.stream(k, n) is None by {
                lemma_last_where(self.connections@, keyed(k));
                let r = last_where(self.connections@, keyed(k));
                if r >= 0 {
                    assert(self.connections@[r].sinks@.len() == 0);
                    lemma_absent(self.connections@[r].sinks@, numbered(n));
                }
            }
        }
        true
    }
}

proof fn lemma_streams_grow(s: Seq<StreamConnection>, k: int)
    requires
        0 <= k <= s.len(),
    ensures
        streams_among(s.take(k)) <= streams_among(s),
    decreases s.len() - k,
{
    if k < s.len() {
        lemma_streams_grow(s, k + 1);
        assert(s.take(k + 1).drop_last() =~= s.take(k));
    } else {
        assert(s.take(k) =~= s);
    }
}

/// Two registries that differ in their streams alone.
pub open spec fn same_connections(before: StreamRegistry, after: StreamRegistry) -> bool {
    &&& after.serves() == before.serves()
    &&& after.upcoming() == before.upcoming()
    &&& after.connection_count() == before.connection_count()
    &&& after.stream_count() == before.stream_count()
    &&& forall|k: u64| #[trigger] after.connection(k) == before.connection(k)
    &&& forall|c: Seq<char>| #[trigger] after.current(c) == before.current(c)
}

/// Whether `after` is `before` with a connection bound for `client`, the one `out` holds: it
/// has the next key, serves the client from now on, opens no stream yet, its frames come out of
/// the outbox it is handed, and whatever served the client before is gone with its streams.
pub open spec fn is_bound(
    before: StreamRegistry,
    after: StreamRegistry,
    client: Seq<char>,
    out: BoundStream,
) -> bool {
    &&& after.serves() == before.serves()
    &&& out.key.raw() == before.upcoming()
    &&& after.upcoming() == before.upcoming() + 1
    &&& out.superseded is Some <==> before.current(client) is Some
    &&& out.superseded is Some ==> Some(out.superseded->0.raw()) == before.current(client)
    &&& forall|c: Seq<char>|
        #[trigger] after.current(c) == (if c == client {
            Some(out.key.raw())
        } else {
            before.current(c)
        })
    &&& forall|k: u64|
        #[trigger] after.connection(k) == (if k == out.key.raw() {
            Some(ConnectionView { client, next_id: 1, queue: drains(out.outbox) })
        } else if before.current(client) == Some(k) {
            None
        } else {
            before.connection(k)
        })
    &&& forall|k: u64, i: u32|
        #[trigger] after.stream(k, i) == (if before.current(client) == Some(k) {
            None
        } else {
            before.stream(k, i)
        })
    &&& after.connection_count() == before.connection_count() + (if before.current(client) is Some {
        0nat
    } else {
        1nat
    })
    &&& after.stream_count() == before.stream_count() - (match before.current(client) {
        Some(replaced) => before.streams_on(replaced),
        None => 0nat,
    })
}

/// Whether `after` is `before` without that connection and its streams, and otherwise the same.
pub open spec fn is_unbound(before: StreamRegistry, after: StreamRegistry, key: u64) -> bool {
    &&& after.serves() == before.serves()
    &&& after.upcoming() == before.upcoming()
    &&& forall|k: u64|
        #[trigger] after.connection(k) == (if k == key {
            None
        } else {
            before.connection(k)
        })
    &&& forall|c: Seq<char>|
        #[trigger] after.current(c) == (if before.current(c) == Some(key) {
            None
        } else {
            before.current(c)
        })
    &&& forall|k: u64, i: u32|
        #[trigger] after.stream(k, i) == (if k == key {
            None
        } else {
            before.stream(k, i)
        })
    &&& after.connection_count() == before.connection_count() - (if before.connection(
        key,
    ) is Some {
        1nat
    } else {
        0nat
    })
    &&& after.stream_count() == before.stream_count() - before.streams_on(key)
}

/// Whether two registries hold the same connections and the same streams.
pub open spec fn same_streams(before: StreamRegistry, after: StreamRegistry) -> bool {
    &&& same_connections(before, after)
    &&& forall|k: u64, i: u32| #[trigger] after.stream(k, i) == before.stream(k, i)
}

/// Whether `after` is `before` with one stream opened on the connection that serves `client`:
/// it has that connection's next id and a full allowance, and puts its frames into that
/// connection's outbox.
pub open spec fn is_attached(
    before: StreamRegistry,
    after: StreamRegistry,
    client: Seq<char>,
    attached: AttachedStream,
) -> bool {
    let key = attached.connection.raw();
    let id = attached.stream.raw;
    &&& after.serves() == before.serves()
    &&& after.upcoming() == before.upcoming()
    &&& after.connection_count() == before.connection_count()
    &&& after.stream_count() == before.stream_count() + 1
    &&& before.current(client) == Some(key)
    &&& id == before.connection(key)->0.next_id
    &&& before.stream(key, id) is None
    &&& forall|c: Seq<char>| #[trigger] after.current(c) == before.current(c)
    &&& forall|k: u64|
        #[trigger] after.connection(k) == (if k == key {
            Some(ConnectionView { next_id: (id + 1) as u32, ..before.connection(key)->0 })
        } else {
            before.connection(k)
        })
    &&& forall|k: u64, i: u32|
        #[trigger] after.stream(k, i) == (if k == key && i == id {
            Some(fresh_sink(id, before.serves(), before.connection(key)->0.queue))
        } else {
            before.stream(k, i)
        })
}

/// Whether `after` is `before` without the stream of that id on that connection, and otherwise
/// the same. The id is not given again.
pub open spec fn is_detached(
    before: StreamRegistry,
    after: StreamRegistry,
    key: Option<u64>,
    id: u32,
) -> bool {
    &&& after.serves() == before.serves()
    &&& after.upcoming() == before.upcoming()
    &&& after.connection_count() == before.connection_count()
    &&& after.stream_count() == before.stream_count() - (if key is Some && before.stream(
        key->0,
        id,
    ) is Some {
        1nat
    } else {
        0nat
    })
    &&& forall|k: u64| #[trigger] after.connection(k) == before.connection(k)
    &&& forall|c: Seq<char>| #[trigger] after.current(c) == before.current(c)
    &&& forall|k: u64, i: u32|
        #[trigger] after.stream(k, i) == (if key == Some(k) && i == id {
            None
        } else {
            before.stream(k, i)
        })
}

/// Whether `after` is `before` with a credit frame taken in for one stream: an ack for a stream
/// that is open gives it credit, and nothing else changes anything.
pub open spec fn is_credited(
    before: StreamRegistry,
    after: StreamRegistry,
    key: u64,
    id: u32,
    credit: CreditFrame,
) -> bool {
    &&& same_connections(before, after)
    &&& forall|k: u64, i: u32|
        #[trigger] after.stream(k, i) == (if credit is Ack && k == key && i == id && before.stream(
            k,
            i,
        ) is Some {
            let sink = before.stream(k, i)->0;
            Some(
                SinkView {
                    credit: replenished(sink.credit, sink.window, credit->Ack_bytes),
                    ..sink
                },
            )
        } else {
            before.stream(k, i)
        })
}

/// What a sink fed `pending` from where it had got to is, once the run is over and it has got
/// to `done`.
pub open spec fn is_fed(before: SinkView, after: SinkView, pending: Seq<u8>, done: int) -> bool {
    exists|answers: Answers|
        {
            let ran = #[trigger] run(before, pending, resume_at(before, pending), answers);
            &&& finished(ran, pending)
            &&& ran.1 == done
            &&& after == (SinkView { delivered: done as nat, ..ran.0 })
        }
}

/// Where a sink resumes in a buffer: where it had got to, or the end.
pub open spec fn resume_at(sink: SinkView, pending: Seq<u8>) -> int {
    if sink.delivered <= pending.len() {
        sink.delivered as int
    } else {
        pending.len() as int
    }
}

impl StreamRegistry {
    /// The stream a watcher watches, if it is still open.
    pub open spec fn watched(&self, by: AttachedStream) -> Option<SinkView> {
        self.stream(by.connection.raw(), by.stream.raw)
    }

    /// Whether a watched stream is open, not closed, and read, given whether it is not.
    pub open spec fn is_live(&self, watched: AttachedStream, gone: bool) -> bool {
        self.watched(watched) is Some && !self.watched(watched)->0.closed && !gone
    }

    /// Whether a watched stream is to be forgotten, given whether nobody will read its queue
    /// again: it is no longer open, it was closed, or that.
    pub fn is_gone_given(&self, watched: AttachedStream, gone: bool) -> (out: bool)
        requires
            self.wf(),
        ensures
            out == !self.is_live(watched, gone),
    {
        match self.sink(watched.connection, watched.stream) {
            Some(sink) => sink.is_closed_given(gone),
            None => true,
        }
    }

    /// Whether nobody will read a watched stream's queue again: the queue's own answer at the
    /// moment of the call, which the stream has then heard. A stream that is not open has no
    /// queue to read.
    pub(crate) fn is_unread(&mut self, watched: AttachedStream) -> (out: bool)
        requires
            old(self).wf(),
        ensures
            final(self).wf(),
            same_connections(*old(self), *final(self)),
            final(self).watched(watched) == (match old(self).watched(watched) {
                Some(sink) => Some(asked(sink, out)),
                None => None,
            }),
            old(self).watched(watched) is None ==> out,
            forall|other: AttachedStream|
                other != watched ==> #[trigger] final(self).watched(other) == old(self).watched(
                    other,
                ),
    {
        let ghost before = *self;
        let at = match self.find_key(watched.connection.0) {
            Some(at) => at,
            None => {
                return true;
            },
        };
        let j = match find_id(&self.connections[at].sinks, watched.stream.raw) {
            Some(j) => j,
            None => {
                return true;
            },
        };
        let out = self.connections[at].sinks[j].is_unread();
        proof {
            assert(self.connections@ =~= before.connections@.update(
                at as int,
                self.connections@[at as int],
            ));
            assert(self.connections@[at as int].sinks@
                =~= before.connections@[at as int].sinks@.update(
                j as int,
                self.connections@[at as int].sinks@[j as int],
            ));
            lemma_one_sink_changed(before, *self, at as int, j as int);
            assert forall|other: AttachedStream| other != watched implies #[trigger] self.watched(
                other,
            ) == before.watched(other) by {
                law_keys_are_their_numbers(other.connection, watched.connection);
            }
        }
        out
    }

    /// Feed a watched stream `pending` from where it had got to, and say how far it has got.
    pub fn feed(&mut self, watched: AttachedStream, pending: &Vec<u8>) -> (done: usize)
        requires
            old(self).wf(),
            old(self).serves().chunk > 0,
            old(self).watched(watched) is Some,
        ensures
            final(self).wf(),
            same_connections(*old(self), *final(self)),
            final(self).watched(watched) is Some,
            is_fed(
                old(self).watched(watched)->0,
                final(self).watched(watched)->0,
                pending@,
                done as int,
            ),
            done <= pending.len(),
            forall|other: AttachedStream|
                other != watched ==> #[trigger] final(self).watched(other) == old(self).watched(
                    other,
                ),
    {
        let ghost before = *self;
        let found = self.find_key(watched.connection.0);
        proof {
            lemma_last_where(self.connections@, keyed(watched.connection.0));
        }
        let at = found.unwrap();
        proof {
            lemma_last_where(self.connections@[at as int].sinks@, numbered(watched.stream.raw));
        }
        let inner = find_id(&self.connections[at].sinks, watched.stream.raw);
        let j = inner.unwrap();
        proof {
            assert(sinks_wf(
                self.connections@[at as int].sinks@,
                self.connections@[at as int].next_id.raw,
                self.window, feeds(self.connections@[at as int].frames)));
        }
        let n: usize = pending.len();
        let got: usize = self.connections[at].sinks[j].delivered();
        let from: usize = if got <= n {
            got
        } else {
            n
        };
        let done = self.connections[at].sinks[j].feed(pending, from);
        let ghost mid = self.connections@[at as int].sinks@[j as int]@;
        self.connections[at].sinks[j].set_delivered(done);
        proof {
            let was = before.connections@[at as int].sinks@[j as int]@;
            let now = self.connections@[at as int].sinks@[j as int]@;
            assert(self.connections@ =~= before.connections@.update(
                at as int,
                self.connections@[at as int],
            ));
            assert(self.connections@[at as int].sinks@
                =~= before.connections@[at as int].sinks@.update(
                j as int,
                self.connections@[at as int].sinks@[j as int],
            ));
            lemma_one_sink_changed(before, *self, at as int, j as int);
            let answers = choose|answers: Answers|
                {
                    let after = #[trigger] run(was, pending@, from as int, answers);
                    finished(after, pending@) && after.0 == mid && after.1 == done
                };
            assert(from == resume_at(was, pending@));
            let ran = run(was, pending@, resume_at(was, pending@), answers);
            assert(now == (SinkView { delivered: done as nat, ..ran.0 }));
            assert(is_fed(was, now, pending@, done as int));
            assert forall|other: AttachedStream| other != watched implies #[trigger] self.watched(
                other,
            ) == before.watched(other) by {
                law_keys_are_their_numbers(other.connection, watched.connection);
            }
        }
        done
    }

    /// Move a watched stream's place in the buffer back by what was dropped from its head.
    pub fn rewind(&mut self, watched: AttachedStream, dropped: usize)
        requires
            old(self).wf(),
            old(self).watched(watched) is Some,
        ensures
            final(self).wf(),
            same_connections(*old(self), *final(self)),
            final(self).watched(watched) == Some(
                SinkView {
                    delivered: (if old(self).watched(watched)->0.delivered >= dropped {
                        (old(self).watched(watched)->0.delivered - dropped) as nat
                    } else {
                        0nat
                    }),
                    ..old(self).watched(watched)->0
                },
            ),
            forall|other: AttachedStream|
                other != watched ==> #[trigger] final(self).watched(other) == old(self).watched(
                    other,
                ),
    {
        let ghost before = *self;
        let found = self.find_key(watched.connection.0);
        proof {
            lemma_last_where(self.connections@, keyed(watched.connection.0));
        }
        let at = found.unwrap();
        proof {
            lemma_last_where(self.connections@[at as int].sinks@, numbered(watched.stream.raw));
        }
        let inner = find_id(&self.connections[at].sinks, watched.stream.raw);
        let j = inner.unwrap();
        let got: usize = self.connections[at].sinks[j].delivered();
        let left: usize = if got >= dropped {
            got - dropped
        } else {
            0
        };
        self.connections[at].sinks[j].set_delivered(left);
        proof {
            assert(self.connections@ =~= before.connections@.update(
                at as int,
                self.connections@[at as int],
            ));
            assert(self.connections@[at as int].sinks@
                =~= before.connections@[at as int].sinks@.update(
                j as int,
                self.connections@[at as int].sinks@[j as int],
            ));
            lemma_one_sink_changed(before, *self, at as int, j as int);
            assert forall|other: AttachedStream| other != watched implies #[trigger] self.watched(
                other,
            ) == before.watched(other) by {
                law_keys_are_their_numbers(other.connection, watched.connection);
            }
        }
    }

    /// Open a watched stream on a session: see [`StreamSink::replay`].
    pub fn replay(
        &mut self,
        watched: AttachedStream,
        replay: &Vec<u8>,
        exit: Option<SessionExit>,
    ) -> (out: bool)
        requires
            old(self).wf(),
            old(self).serves().chunk > 0,
        ensures
            final(self).wf(),
            same_connections(*old(self), *final(self)),
            out == (old(self).watched(watched) is Some),
            out ==> final(self).watched(watched) is Some && is_replayed(
                old(self).watched(watched)->0,
                final(self).watched(watched)->0,
                replay@,
                exit,
            ),
            forall|other: AttachedStream|
                !out || other != watched ==> #[trigger] final(self).watched(other) == old(self).watched(other),
    {
        let ghost before = *self;
        let at = match self.find_key(watched.connection.0) {
            Some(at) => at,
            None => {
                return false;
            },
        };
        let j = match find_id(&self.connections[at].sinks, watched.stream.raw) {
            Some(j) => j,
            None => {
                return false;
            },
        };
        proof {
            assert(sinks_wf(
                self.connections@[at as int].sinks@,
                self.connections@[at as int].next_id.raw,
                self.window, feeds(self.connections@[at as int].frames)));
        }
        self.connections[at].sinks[j].replay(replay, exit);
        proof {
            assert(self.connections@ =~= before.connections@.update(
                at as int,
                self.connections@[at as int],
            ));
            assert(self.connections@[at as int].sinks@
                =~= before.connections@[at as int].sinks@.update(
                j as int,
                self.connections@[at as int].sinks@[j as int],
            ));
            lemma_one_sink_changed(before, *self, at as int, j as int);
            assert forall|other: AttachedStream| other != watched implies #[trigger] self.watched(
                other,
            ) == before.watched(other) by {
                law_keys_are_their_numbers(other.connection, watched.connection);
            }
        }
        true
    }

    /// Tell a watched stream that the session's process has ended, if it is still open.
    pub fn send_exit(&mut self, watched: AttachedStream, status: SessionExit)
        requires
            old(self).wf(),
        ensures
            final(self).wf(),
            same_connections(*old(self), *final(self)),
            old(self).watched(watched) is Some ==> final(self).watched(watched) is Some
                && is_told(
                old(self).watched(watched)->0,
                final(self).watched(watched)->0,
                status,
            ),
            forall|other: AttachedStream|
                old(self).watched(watched) is None || other != watched
                    ==> #[trigger] final(self).watched(other) == old(self).watched(other),
    {
        let ghost before = *self;
        let at = match self.find_key(watched.connection.0) {
            Some(at) => at,
            None => {
                return ;
            },
        };
        let j = match find_id(&self.connections[at].sinks, watched.stream.raw) {
            Some(j) => j,
            None => {
                return ;
            },
        };
        self.connections[at].sinks[j].send_exit(status);
        proof {
            assert(self.connections@ =~= before.connections@.update(
                at as int,
                self.connections@[at as int],
            ));
            assert(self.connections@[at as int].sinks@
                =~= before.connections@[at as int].sinks@.update(
                j as int,
                self.connections@[at as int].sinks@[j as int],
            ));
            lemma_one_sink_changed(before, *self, at as int, j as int);
            assert forall|other: AttachedStream| other != watched implies #[trigger] self.watched(
                other,
            ) == before.watched(other) by {
                law_keys_are_their_numbers(other.connection, watched.connection);
            }
        }
    }
}

impl StreamRegistry {
    /// Close a watched stream, if it is still open here. It stays until its connection or its
    /// client lets go of it, and takes nothing more.
    pub fn close_watched(&mut self, watched: AttachedStream)
        requires
            old(self).wf(),
        ensures
            final(self).wf(),
            same_connections(*old(self), *final(self)),
            final(self).watched(watched) == (match old(self).watched(watched) {
                Some(sink) => Some(SinkView { closed: true, ..sink }),
                None => None,
            }),
            forall|other: AttachedStream|
                other != watched ==> #[trigger] final(self).watched(other) == old(self).watched(
                    other,
                ),
    {
        let ghost before = *self;
        let at = match self.find_key(watched.connection.0) {
            Some(at) => at,
            None => {
                return ;
            },
        };
        let j = match find_id(&self.connections[at].sinks, watched.stream.raw) {
            Some(j) => j,
            None => {
                return ;
            },
        };
        self.connections[at].sinks[j].close();
        proof {
            assert(self.connections@ =~= before.connections@.update(
                at as int,
                self.connections@[at as int],
            ));
            assert(self.connections@[at as int].sinks@
                =~= before.connections@[at as int].sinks@.update(
                j as int,
                self.connections@[at as int].sinks@[j as int],
            ));
            lemma_one_sink_changed(before, *self, at as int, j as int);
            assert forall|other: AttachedStream| other != watched implies #[trigger] self.watched(
                other,
            ) == before.watched(other) by {
                law_keys_are_their_numbers(other.connection, watched.connection);
            }
        }
    }
}

/// Whether `after` is `before` once it was opened on a session, whatever its queue answered.
pub open spec fn is_replayed(
    before: SinkView,
    after: SinkView,
    replay: Seq<u8>,
    exit: Option<SessionExit>,
) -> bool {
    exists|
        to_grant: (bool, Offer),
        to_replay: Answers,
        to_end: (bool, Offer),
        to_exit: (bool, Offer),
    |
        {
            let granted = sent(before, opening_grant(before), to_grant.0, to_grant.1).0;
            &&& after == #[trigger] replayed(
                before,
                replay,
                exit,
                to_grant,
                to_replay,
                to_end,
                to_exit,
            )
            &&& finished(run(granted, replay, 0, to_replay), replay)
        }
}

/// Whether `after` is `before` once it was told of an exit, whatever its queue answered.
pub open spec fn is_told(before: SinkView, after: SinkView, status: SessionExit) -> bool {
    exists|gone: bool, offer: Offer|
        after == (#[trigger] sent(before, exit_frame(before, status), gone, offer)).0
}

/// An open stream's id is one its connection has assigned: at least the first and below the
/// next, so an id is never handed out twice on one connection. It serves the registry's window,
/// and its frames go into its connection's outbox and no other.
pub proof fn law_open_streams_lie_below_the_watermark(registry: StreamRegistry, key: u64, id: u32)
    requires
        registry.wf(),
        registry.stream(key, id) is Some,
    ensures
        registry.connection(key) is Some,
        1 <= id < registry.connection(key)->0.next_id,
        registry.stream(key, id)->0.id == id,
        registry.stream(key, id)->0.window == registry.serves(),
        registry.stream(key, id)->0.queue == registry.connection(key)->0.queue,
{
    lemma_last_where(registry.connections@, keyed(key));
    let i = last_where(registry.connections@, keyed(key));
    lemma_last_where(registry.connections@[i].sinks@, numbered(id));
    assert(sinks_wf(
        registry.connections@[i].sinks@,
        registry.connections@[i].next_id.raw,
        registry.window, feeds(registry.connections@[i].frames)));
}

/// An open connection's key is below the next one, so a key is never handed out twice.
pub proof fn law_open_connections_lie_below_the_next_key(registry: StreamRegistry, key: u64)
    requires
        registry.wf(),
        registry.connection(key) is Some,
    ensures
        key < registry.upcoming(),
{
    lemma_last_where(registry.connections@, keyed(key));
}

/// Whether one operation leads from one registry to the other.
pub open spec fn one_step(before: StreamRegistry, after: StreamRegistry) -> bool {
    ||| same_connections(before, after)
    ||| exists|client: Seq<char>, out: BoundStream| #[trigger] is_bound(before, after, client, out)
    ||| exists|key: u64| #[trigger] is_unbound(before, after, key)
    ||| exists|client: Seq<char>, out: AttachedStream| #[trigger]
        is_attached(before, after, client, out)
    ||| exists|key: Option<u64>, id: u32| #[trigger] is_detached(before, after, key, id)
}

/// A connection keeps its client and its outbox for as long as it is open, whatever is done to
/// the registry.
pub proof fn law_an_open_connection_keeps_its_outbox(
    before: StreamRegistry,
    after: StreamRegistry,
    key: u64,
)
    requires
        before.wf(),
        one_step(before, after),
        before.connection(key) is Some,
        after.connection(key) is Some,
    ensures
        after.connection(key)->0.queue == before.connection(key)->0.queue,
        after.connection(key)->0.client == before.connection(key)->0.client,
{
    law_open_connections_lie_below_the_next_key(before, key);
}

proof fn lemma_outbox_kept(history: Seq<StreamRegistry>, key: u64)
    requires
        history.len() > 0,
        forall|i: int|
            0 <= i < history.len() ==> (#[trigger] history[i]).wf() && history[i].connection(key)
                is Some,
        forall|i: int|
            0 <= i < history.len() - 1 ==> one_step(#[trigger] history[i], history[i + 1]),
    ensures
        history.last().connection(key)->0.queue == history[0].connection(key)->0.queue,
    decreases history.len(),
{
    if history.len() > 1 {
        let rest = history.drop_last();
        assert forall|i: int| 0 <= i < rest.len() implies (#[trigger] rest[i]).wf()
            && rest[i].connection(key) is Some by {
            assert(rest[i] == history[i]);
        }
        assert forall|i: int| 0 <= i < rest.len() - 1 implies one_step(
            #[trigger] rest[i],
            rest[i + 1],
        ) by {
            assert(rest[i] == history[i] && rest[i + 1] == history[i + 1]);
        }
        lemma_outbox_kept(rest, key);
        let at = history.len() - 2;
        assert(one_step(history[at], history[at + 1]));
        law_an_open_connection_keeps_its_outbox(history[at], history[at + 1], key);
    }
}

/// A stream opened for a client puts its frames into the outbox that the client's connection was
/// handed when it was bound, whatever was done in between while that connection was open:
/// `history` is the registry from the bind to the moment the stream is opened.
pub proof fn law_frames_come_out_of_the_outbox_that_was_handed_out(
    before: StreamRegistry,
    client: Seq<char>,
    bound: BoundStream,
    history: Seq<StreamRegistry>,
    opened: StreamRegistry,
    stream: AttachedStream,
)
    requires
        history.len() > 0,
        is_bound(before, history[0], client, bound),
        forall|i: int|
            0 <= i < history.len() ==> (#[trigger] history[i]).wf() && history[i].connection(
                bound.key.raw(),
            ) is Some,
        forall|i: int|
            0 <= i < history.len() - 1 ==> one_step(#[trigger] history[i], history[i + 1]),
        is_attached(history.last(), opened, client, stream),
        stream.connection == bound.key,
    ensures
        opened.watched(stream) is Some,
        opened.watched(stream)->0.queue == drains(bound.outbox),
        opened.watched(stream)->0.taken.len() == 0,
{
    lemma_outbox_kept(history, bound.key.raw());
}

/// A client id and the connection serving it name each other.
pub proof fn law_a_client_is_served_by_one_connection(registry: StreamRegistry, client: Seq<char>)
    requires
        registry.wf(),
    ensures
        registry.current(client) matches Some(key) ==> registry.connection(key) is Some
            && registry.connection(key)->0.client == client,
        forall|key: u64|
            registry.connection(key) is Some && registry.connection(key)->0.client == client
                ==> registry.current(client) == Some(key),
{
    lemma_last_where(registry.connections@, serving(client));
    let i = last_where(registry.connections@, serving(client));
    if i >= 0 {
        registry.lemma_at(i);
    }
    assert forall|key: u64|
        registry.connection(key) is Some && registry.connection(key)->0.client
            == client implies registry.current(client) == Some(key) by {
        lemma_last_where(registry.connections@, keyed(key));
        let j = last_where(registry.connections@, keyed(key));
        registry.lemma_at(j);
    }
}

/// The status frame that goes to a stream.
pub open spec fn status_frame(id: u32, payload: Seq<u8>) -> FrameView {
    FrameView { stream: id, body: BodyView::AgentStatus(payload) }
}

/// Whether `after` is what a sink becomes on being handed a status frame, with that outcome,
/// for some answers of its queue.
pub open spec fn is_handed(
    before: SinkView,
    after: SinkView,
    payload: Seq<u8>,
    outcome: SendOutcome,
) -> bool {
    exists|gone: bool, offer: Offer|
        (after, outcome) == #[trigger] sent(before, status_frame(before.id, payload), gone, offer)
}

impl StreamRegistry {
    /// Hand a watched stream an agent status. A stream that is no longer open here counts as
    /// closed.
    pub fn send_status(&mut self, watched: AttachedStream, payload: Vec<u8>) -> (out: SendOutcome)
        requires
            old(self).wf(),
        ensures
            final(self).wf(),
            same_connections(*old(self), *final(self)),
            match old(self).watched(watched) {
                Some(sink) => final(self).watched(watched) is Some && is_handed(
                    sink,
                    final(self).watched(watched)->0,
                    payload@,
                    out,
                ),
                None => out is Closed && final(self).watched(watched) is None,
            },
            forall|other: AttachedStream|
                other != watched ==> #[trigger] final(self).watched(other) == old(self).watched(
                    other,
                ),
    {
        let ghost before = *self;
        let at = match self.find_key(watched.connection.0) {
            Some(at) => at,
            None => {
                return SendOutcome::Closed;
            },
        };
        let j = match find_id(&self.connections[at].sinks, watched.stream.raw) {
            Some(j) => j,
            None => {
                return SendOutcome::Closed;
            },
        };
        let ghost was = self.connections@[at as int].sinks@[j as int]@;
        let frame = Frame {
            stream: self.connections[at].sinks[j].stream_id(),
            body: FrameBody::AgentStatus(payload),
        };
        assert(frame@ == status_frame(was.id, payload@));
        let out = self.connections[at].sinks[j].send(frame);
        proof {
            assert(self.connections@ =~= before.connections@.update(
                at as int,
                self.connections@[at as int],
            ));
            assert(self.connections@[at as int].sinks@
                =~= before.connections@[at as int].sinks@.update(
                j as int,
                self.connections@[at as int].sinks@[j as int],
            ));
            lemma_one_sink_changed(before, *self, at as int, j as int);
            assert forall|other: AttachedStream| other != watched implies #[trigger] self.watched(
                other,
            ) == before.watched(other) by {
                law_keys_are_their_numbers(other.connection, watched.connection);
            }
        }
        out
    }
}

/// What the client of an ended session gets last is how it ended: a stream that is still open
/// after an attach was offered the exit last of all, behind the mark that ends the replay, and
/// has it at the end of its queue if the queue took it.
pub proof fn law_attaching_to_an_ended_session_tells_its_exit(
    before: SinkView,
    after: SinkView,
    replay: Seq<u8>,
    status: SessionExit,
)
    requires
        before.window.chunk > 0,
        is_replayed(before, after, replay, Some(status)),
        !after.closed,
    ensures
        after.heard.last() is Offered,
        after.heard.last() == Heard::Offered(Offer::Taken) ==> after.taken.len() > 0
            && after.taken.last() == (FrameView {
            stream: before.id,
            body: BodyView::Exit(status),
        }),
{
    let (to_grant, to_replay, to_end, to_exit) = choose|
        to_grant: (bool, Offer),
        to_replay: Answers,
        to_end: (bool, Offer),
        to_exit: (bool, Offer),
    |
        after == #[trigger] replayed(
            before,
            replay,
            Some(status),
            to_grant,
            to_replay,
            to_end,
            to_exit,
        );
    law_an_attach_ends_with_the_exit(
        before,
        replay,
        status,
        to_grant,
        to_replay,
        to_end,
        to_exit,
    );
}

/// A stream told of an exit is offered that status on its own stream, and has it at the end of
/// its queue if the queue took it; otherwise nothing was put there.
pub proof fn law_a_told_stream_has_the_exit(before: SinkView, after: SinkView, status: SessionExit)
    requires
        is_told(before, after, status),
    ensures
        !after.closed ==> after.heard.len() == before.heard.len() + 2 && after.heard.last()
            is Offered,
        after.credit == before.credit,
        !after.closed && after.heard.last() == Heard::Offered(Offer::Taken) ==> after.taken
            == before.taken.push(FrameView { stream: before.id, body: BodyView::Exit(status) }),
        after.closed || after.heard.last() != Heard::Offered(Offer::Taken) ==> after.taken
            == before.taken,
        before.closed ==> after.closed,
{
}

/// A status row that was sent is in the stream's queue, whole and last; one that was not has
/// put nothing there. It never costs allowance.
pub proof fn law_a_handed_row_is_in_the_queue(
    before: SinkView,
    after: SinkView,
    payload: Seq<u8>,
    outcome: SendOutcome,
)
    requires
        is_handed(before, after, payload, outcome),
    ensures
        after.credit == before.credit,
        outcome is Sent <==> after.taken == before.taken.push(
            FrameView { stream: before.id, body: BodyView::AgentStatus(payload) },
        ),
        !(outcome is Sent) ==> after.taken == before.taken,
        payload.len() > 0x10_0000 && !after.closed ==> outcome is Dropped,
        payload.len() <= 0x10_0000 && !after.closed ==> outcome is Sent || outcome is WouldBlock,
{
    assert(before.taken.push(
        FrameView { stream: before.id, body: BodyView::AgentStatus(payload) },
    ).len() != before.taken.len());
}

/// A stream is fed from where it had got to: what a feed puts in its queue is what of the buffer
/// lies between that place and the place it has then got to.
pub proof fn law_a_stream_is_fed_from_where_it_was(
    before: SinkView,
    after: SinkView,
    pending: Seq<u8>,
    done: int,
)
    requires
        before.window.chunk > 0,
        is_fed(before, after, pending, done),
        before.delivered <= pending.len(),
        !after.closed,
    ensures
        before.delivered <= done <= pending.len(),
        after.delivered == done,
        output_bytes(after.taken) == output_bytes(before.taken) + pending.subrange(
            before.delivered as int,
            done,
        ),
        after.credit == before.credit - (done - before.delivered),
        done == pending.len() || after.credit <= 0 || after.heard.last() == Heard::Offered(
            Offer::Full,
        ),
{
    let from = before.delivered as int;
    let answers = choose|answers: Answers|
        {
            let ran = #[trigger] run(before, pending, resume_at(before, pending), answers);
            &&& finished(ran, pending)
            &&& ran.1 == done
            &&& after == (SinkView { delivered: done as nat, ..ran.0 })
        };
    law_a_run_sends_what_it_passes(before, pending, from, answers);
    law_a_run_delivers_each_byte_once(before, pending, from, answers);
    law_a_run_stops_only_where_it_must(before, pending, from, answers);
}

/// A client that has just bound can attach, and its first stream is number one.
pub proof fn law_a_client_that_binds_can_attach(
    before: StreamRegistry,
    after: StreamRegistry,
    client: Seq<char>,
    bound: BoundStream,
)
    requires
        before.wf(),
        is_bound(before, after, client, bound),
    ensures
        after.current(client) == Some(bound.key.raw()),
        after.routable(client),
        after.connection(bound.key.raw())->0.next_id == 1,
        before.connection(bound.key.raw()) is None,
        forall|i: u32| after.stream(bound.key.raw(), i) is None,
{
    let key = bound.key.raw();
    if before.connection(key) is Some {
        law_open_connections_lie_below_the_next_key(before, key);
    }
    assert forall|i: u32| after.stream(key, i) is None by {
        if before.stream(key, i) is Some {
            law_open_streams_lie_below_the_watermark(before, key, i);
        }
    }
}

/// A client that binds again takes its id over: the connection it had and every stream on it
/// are gone, its key is handed back, and no other client's connection or stream is touched.
pub proof fn law_a_newer_connection_takes_over(
    before: StreamRegistry,
    after: StreamRegistry,
    client: Seq<char>,
    bound: BoundStream,
    replaced: u64,
    other: u64,
    id: u32,
)
    requires
        before.wf(),
        is_bound(before, after, client, bound),
        before.current(client) == Some(replaced),
        other != replaced,
        other != bound.key.raw(),
    ensures
        bound.superseded is Some,
        bound.superseded->0.raw() == replaced,
        bound.key.raw() != replaced,
        after.connection(replaced) is None,
        after.stream(replaced, id) is None,
        after.connection(other) == before.connection(other),
        after.stream(other, id) == before.stream(other, id),
        after.connection_count() == before.connection_count(),
{
    law_a_client_is_served_by_one_connection(before, client);
    law_open_connections_lie_below_the_next_key(before, replaced);
}

/// A client that nobody knew supersedes nobody.
pub proof fn law_a_first_connection_supersedes_nobody(
    before: StreamRegistry,
    after: StreamRegistry,
    client: Seq<char>,
    bound: BoundStream,
    other: u64,
    id: u32,
)
    requires
        is_bound(before, after, client, bound),
        before.current(client) is None,
        other != bound.key.raw(),
    ensures
        bound.superseded is None,
        after.connection(other) == before.connection(other),
        after.stream(other, id) == before.stream(other, id),
        after.connection_count() == before.connection_count() + 1,
        after.stream_count() == before.stream_count(),
        after.serves() == before.serves(),
        after.upcoming() == before.upcoming() + 1,
{
}

/// An attach opens one stream that was not there, with the whole opening allowance and nothing
/// sent, on the client's own connection, and changes no other stream. The next one on the same
/// connection has the next number.
pub proof fn law_an_attach_opens_one_new_stream(
    before: StreamRegistry,
    after: StreamRegistry,
    client: Seq<char>,
    attached: AttachedStream,
    other: AttachedStream,
)
    requires
        before.wf(),
        before.routable(client),
        is_attached(before, after, client, attached),
        other != attached,
    ensures
        before.watched(attached) is None,
        after.watched(attached) matches Some(sink) && sink.id == attached.stream.raw
            && sink.credit == before.serves().per_stream_initial && sink.window == before.serves()
            && !sink.closed && sink.delivered == 0 && sink.taken.len() == 0,
        before.current(client) == Some(attached.connection.raw()),
        after.connection(attached.connection.raw())->0.next_id == attached.stream.raw + 1,
        after.connection(attached.connection.raw())->0.client == client,
        after.watched(other) == before.watched(other),
        after.stream_count() == before.stream_count() + 1,
        after.connection_count() == before.connection_count(),
        after.serves() == before.serves(),
        after.upcoming() == before.upcoming(),
{
    law_a_client_is_served_by_one_connection(before, client);
    law_keys_are_their_numbers(attached.connection, other.connection);
}

/// Every client with a connection can attach until that connection has run out of stream ids,
/// and no client without one can.
pub proof fn law_a_client_attaches_while_ids_last(registry: StreamRegistry, client: Seq<char>)
    requires
        registry.wf(),
    ensures
        registry.current(client) is None ==> !registry.routable(client),
        registry.current(client) matches Some(key) ==> (registry.routable(client)
            <==> registry.connection(key)->0.next_id != u32::MAX),
{
}

/// A connection that was let go of is gone with every stream on it; its client has none until
/// it binds again, and no other connection is touched.
pub proof fn law_an_unbound_connection_is_gone(
    before: StreamRegistry,
    after: StreamRegistry,
    key: u64,
    other: u64,
    id: u32,
    client: Seq<char>,
)
    requires
        is_unbound(before, after, key),
        other != key,
    ensures
        after.connection(key) is None,
        after.stream(key, id) is None,
        after.connection(other) == before.connection(other),
        after.stream(other, id) == before.stream(other, id),
        before.current(client) == Some(key) ==> after.current(client) is None && !after.routable(
            client,
        ),
        before.current(client) != Some(key) ==> after.current(client) == before.current(client),
        before.connection(key) is Some ==> after.connection_count() == before.connection_count()
            - 1,
        before.connection(key) is None ==> after.connection_count() == before.connection_count(),
        after.stream_count() + before.streams_on(key) == before.stream_count(),
        after.upcoming() == before.upcoming(),
        after.serves() == before.serves(),
{
}

/// A detached stream is gone, and nothing else is; its number is not handed out again.
pub proof fn law_a_detached_stream_is_gone(
    before: StreamRegistry,
    after: StreamRegistry,
    key: u64,
    id: u32,
    other: AttachedStream,
)
    requires
        is_detached(before, after, Some(key), id),
        other.connection.raw() != key || other.stream.raw != id,
    ensures
        after.stream(key, id) is None,
        after.watched(other) == before.watched(other),
        after.connection(key) == before.connection(key),
        before.stream(key, id) is Some ==> after.stream_count() == before.stream_count() - 1,
        before.stream(key, id) is None ==> after.stream_count() == before.stream_count(),
        after.connection_count() == before.connection_count(),
        after.upcoming() == before.upcoming(),
        after.serves() == before.serves(),
{
}

/// An ack lifts the allowance of the stream that it names, by what it says and no higher than
/// the window allows, and of no other; a client's grant lifts nothing.
pub proof fn law_an_ack_is_for_the_stream_it_names(
    before: StreamRegistry,
    after: StreamRegistry,
    key: u64,
    id: u32,
    credit: CreditFrame,
    other: AttachedStream,
)
    requires
        is_credited(before, after, key, id, credit),
        other.connection.raw() != key || other.stream.raw != id,
    ensures
        after.watched(other) == before.watched(other),
        credit matches CreditFrame::Ack { bytes } ==> before.stream(key, id) matches Some(sink)
            ==> after.stream(key, id) matches Some(now) && now == (SinkView {
            credit: now.credit,
            ..sink
        }) && now.credit <= sink.window.per_stream_max && (now.credit == sink.credit + bytes || (
        now.credit == sink.window.per_stream_max && now.credit < sink.credit + bytes)),
        !(credit is Ack) ==> after.stream(key, id) == before.stream(key, id),
        before.stream(key, id) is None ==> after.stream(key, id) is None,
        after.connection(key) == before.connection(key),
        after.connection_count() == before.connection_count(),
        after.stream_count() == before.stream_count(),
        after.serves() == before.serves(),
        after.upcoming() == before.upcoming(),
{
}

/// A client that has gone is counted as having taken the whole buffer, so that it holds it for
/// nobody else.
pub proof fn law_a_gone_client_is_counted_as_done(
    before: SinkView,
    after: SinkView,
    pending: Seq<u8>,
    done: int,
)
    requires
        before.window.chunk > 0,
        is_fed(before, after, pending, done),
        after.closed,
    ensures
        done == pending.len(),
        after.delivered == pending.len(),
{
    let answers = choose|answers: Answers|
        {
            let ran = #[trigger] run(before, pending, resume_at(before, pending), answers);
            &&& finished(ran, pending)
            &&& ran.1 == done
            &&& after == (SinkView { delivered: done as nat, ..ran.0 })
        };
    law_a_gone_client_holds_nothing_back(before, pending, resume_at(before, pending), answers);
}

/// What leaves the connections alone leaves every one of them, whom it serves and what it has
/// handed out, and opens and closes no stream.
pub proof fn law_what_leaves_the_connections_alone(
    before: StreamRegistry,
    after: StreamRegistry,
    key: u64,
    client: Seq<char>,
)
    requires
        same_connections(before, after),
    ensures
        after.connection(key) == before.connection(key),
        after.current(client) == before.current(client),
        after.routable(client) == before.routable(client),
        after.connection_count() == before.connection_count(),
        after.stream_count() == before.stream_count(),
        after.upcoming() == before.upcoming(),
        after.serves() == before.serves(),
{
}

/// A registry with no connection by a key has no stream on it, and one with a stream there has
/// that connection.
pub proof fn law_streams_are_on_connections(registry: StreamRegistry, key: u64, id: u32)
    requires
        registry.wf(),
        registry.connection(key) is None,
    ensures
        registry.stream(key, id) is None,
        registry.streams_on(key) == 0,
{
}

/// An attach shows as much of the replay as it may: the beginning of it, and all of it unless
/// the allowance was spent or the queue was full at some point.
pub proof fn law_an_attach_shows_as_much_as_it_may(
    before: SinkView,
    after: SinkView,
    replay: Seq<u8>,
    exit: Option<SessionExit>,
)
    requires
        before.window.chunk > 0,
        is_replayed(before, after, replay, exit),
        !after.closed,
    ensures
        exists|done: int|
            0 <= done <= replay.len() && output_bytes(after.taken) == output_bytes(before.taken)
                + #[trigger] replay.take(done) && (done == replay.len() || after.credit <= 0
                || after.heard.contains(Heard::Offered(Offer::Full))),
{
    let (to_grant, to_replay, to_end, to_exit) = choose|
        to_grant: (bool, Offer),
        to_replay: Answers,
        to_end: (bool, Offer),
        to_exit: (bool, Offer),
    |
        {
            let granted = sent(before, opening_grant(before), to_grant.0, to_grant.1).0;
            &&& after == #[trigger] replayed(
                before,
                replay,
                exit,
                to_grant,
                to_replay,
                to_end,
                to_exit,
            )
            &&& finished(run(granted, replay, 0, to_replay), replay)
        };
    let granted = sent(before, opening_grant(before), to_grant.0, to_grant.1).0;
    let (shown, done, _) = run(granted, replay, 0, to_replay);
    let end = replay_end(shown);
    let marked = sent(shown, end, to_end.0, to_end.1).0;
    assert(!marked.closed && !shown.closed);
    law_a_run_sends_what_it_passes(granted, replay, 0, to_replay);
    law_a_run_stops_only_where_it_must(granted, replay, 0, to_replay);
    assert(replay.subrange(0, done) =~= replay.take(done));
    lemma_no_output_added(before, opening_grant(before), to_grant.0, to_grant.1);
    lemma_no_output_added(shown, end, to_end.0, to_end.1);
    if let Some(status) = exit {
        lemma_no_output_added(marked, exit_frame(marked, status), to_exit.0, to_exit.1);
    }
    assert(output_bytes(after.taken) == output_bytes(before.taken) + replay.take(done));
    lemma_a_run_only_hears_more(granted, replay, 0, to_replay);
    assert(granted.heard.len() > 0);
    if shown.heard.last() == Heard::Offered(Offer::Full) {
        assert(after.heard[shown.heard.len() - 1] == shown.heard.last());
    }
}

proof fn lemma_a_run_only_hears_more(sink: SinkView, pending: Seq<u8>, from: int, answers: Answers)
    ensures
        sink.heard.len() <= run(sink, pending, from, answers).0.heard.len(),
    decreases answers.len(),
{
    if answers.len() > 0 {
        lemma_a_run_only_hears_more(sink, pending, from, answers.drop_last());
    }
}

/// Sending what is not output adds no output, costs nothing and forgets no answer.
proof fn lemma_no_output_added(sink: SinkView, frame: FrameView, gone: bool, offer: Offer)
    requires
        !(frame.body is Output),
    ensures
        ({
            let after = sent(sink, frame, gone, offer).0;
            &&& output_bytes(after.taken) == output_bytes(sink.taken)
            &&& after.credit == sink.credit
            &&& sink.heard.len() <= after.heard.len()
            &&& forall|i: int|
                0 <= i < sink.heard.len() ==> #[trigger] after.heard[i] == sink.heard[i]
            &&& sink.closed ==> after.closed
        }),
{
    let after = sent(sink, frame, gone, offer).0;
    if after.taken.len() > sink.taken.len() {
        assert(after.taken == sink.taken.push(frame));
        assert(after.taken.drop_last() =~= sink.taken);
    }
}

/// A stream is live if it is open, was not closed and is still read, and only then.
pub proof fn law_a_stream_is_live_while_it_is_open_and_read(
    registry: StreamRegistry,
    watched: AttachedStream,
    gone: bool,
)
    ensures
        registry.watched(watched) is None ==> !registry.is_live(watched, gone),
        gone ==> !registry.is_live(watched, gone),
        registry.watched(watched) matches Some(sink) ==> (registry.is_live(watched, false)
            <==> !sink.closed),
{
}

/// What leaves the streams alone leaves every one of them and every connection.
pub proof fn law_what_leaves_the_streams_alone(
    before: StreamRegistry,
    after: StreamRegistry,
    stream: AttachedStream,
    key: u64,
    client: Seq<char>,
)
    requires
        same_streams(before, after),
    ensures
        after.watched(stream) == before.watched(stream),
        after.connection(key) == before.connection(key),
        after.current(client) == before.current(client),
        after.stream_count() == before.stream_count(),
        after.connection_count() == before.connection_count(),
{
}

} // verus!
