//! Stored answers to mutations, so that a retry does not do the work twice.
//!
//! A caller cannot tell a lost reply from work that never happened, and those need opposite
//! responses. So a retry names the original request and gets the original answer.
use vstd::prelude::*;
use crate::text::same;

verus! {

/// How many receipts are kept before the oldest is forgotten.
pub const RECEIPT_CAPACITY: usize = 512;

/// One stored answer: who asked, which request, and what it was answered.
#[derive(Debug)]
pub struct Receipt<P> {
    /// Who asked.
    pub fingerprint: String,
    /// Which request.
    pub request: String,
    /// What it was answered.
    pub payload: P,
}

/// Whether a receipt is for that caller's request.
pub open spec fn is_for<P>(receipt: Receipt<P>, fingerprint: Seq<char>, request: Seq<char>) -> bool {
    receipt.fingerprint@ == fingerprint && receipt.request@ == request
}

/// Stored answers, oldest first.
#[derive(Debug)]
pub struct Receipts<P> {
    stored: Vec<Receipt<P>>,
}

impl<P> Receipts<P> {
    /// The receipts, oldest first.
    pub closed spec fn all(&self) -> Seq<Receipt<P>> {
        self.stored@
    }

    /// The invariant: no more than the capacity, and at most one for each caller's request.
    pub open spec fn wf(&self) -> bool {
        &&& self.all().len() <= RECEIPT_CAPACITY
        &&& forall|i: int, j: int|
            0 <= i < j < self.all().len() ==> !is_for(
                #[trigger] self.all()[i],
                (#[trigger] self.all()[j]).fingerprint@,
                self.all()[j].request@,
            )
    }

    /// Whether there is a receipt for that caller's request.
    pub open spec fn has(&self, fingerprint: Seq<char>, request: Seq<char>) -> bool {
        exists|i: int|
            0 <= i < self.all().len() && is_for(#[trigger] self.all()[i], fingerprint, request)
    }

    /// No receipts.
    pub fn new() -> (out: Receipts<P>)
        ensures
            out.wf(),
            out.all().len() == 0,
    {
        Receipts { stored: Vec::new() }
    }

    fn find(&self, fingerprint: &str, request: &str) -> (out: Option<usize>)
        ensures
            out is Some <==> self.has(fingerprint@, request@),
            out is Some ==> out->0 < self.all().len() && is_for(
                self.all()[out->0 as int],
                fingerprint@,
                request@,
            ),
    {
        let mut i: usize = 0;
        while i < self.stored.len()
            invariant
                i <= self.stored.len(),
                forall|j: int|
                    0 <= j < i ==> !is_for(#[trigger] self.all()[j], fingerprint@, request@),
            decreases self.stored.len() - i,
        {
            if same(self.stored[i].fingerprint.as_str(), fingerprint) && same(
                self.stored[i].request.as_str(),
                request,
            ) {
                assert(is_for(self.all()[i as int], fingerprint@, request@));
                return Some(i);
            }
            i = i + 1;
        }
        None
    }

    /// The stored answer to that caller's request, if there is one.
    pub fn get(&self, fingerprint: &str, request: &str) -> (out: Option<&P>)
        requires
            self.wf(),
        ensures
            out is Some <==> self.has(fingerprint@, request@),
            out is Some ==> forall|i: int|
                0 <= i < self.all().len() && is_for(#[trigger] self.all()[i], fingerprint@, request@)
                    ==> *out->0 == self.all()[i].payload,
    {
        match self.find(fingerprint, request) {
            Some(at) => {
                proof {
                    assert forall|i: int|
                        0 <= i < self.all().len() && is_for(
                            #[trigger] self.all()[i],
                            fingerprint@,
                            request@,
                        ) implies i == at by {
                        assert(is_for(self.all()[at as int], fingerprint@, request@));
                        if i < at {
                            assert(!is_for(
                                self.all()[i],
                                self.all()[at as int].fingerprint@,
                                self.all()[at as int].request@,
                            ));
                        } else if at < i {
                            assert(!is_for(
                                self.all()[at as int],
                                self.all()[i].fingerprint@,
                                self.all()[i].request@,
                            ));
                        }
                    }
                }
                Some(&self.stored[at].payload)
            },
            None => None,
        }
    }

    /// Forget one receipt, for work whose answer never reached the caller and whose whole
    /// effect was that answer.
    pub fn forget(&mut self, fingerprint: &str, request: &str)
        requires
            old(self).wf(),
        ensures
            final(self).wf(),
            forgotten_from(*old(self), *final(self), fingerprint@, request@),
    {
        let ghost before = self.stored@;
        match self.find(fingerprint, request) {
            Some(at) => {
                self.stored.remove(at);
                proof {
                    let now = self.stored@;
                    assert(now == before.remove(at as int));
                    assert forall|i: int|
                        0 <= i < before.len() && is_for(#[trigger] before[i], fingerprint@, request@)
                        implies i == at by {
                        if i < at {
                            assert(!is_for(
                                before[i],
                                before[at as int].fingerprint@,
                                before[at as int].request@,
                            ));
                        } else if at < i {
                            assert(!is_for(
                                before[at as int],
                                before[i].fingerprint@,
                                before[i].request@,
                            ));
                        }
                    }
                    assert forall|i: int| 0 <= i < now.len() implies !is_for(
                        #[trigger] now[i],
                        fingerprint@,
                        request@,
                    ) by {
                        if i < at {
                            assert(now[i] == before[i]);
                        } else {
                            assert(now[i] == before[i + 1]);
                        }
                    }
                    assert forall|i: int, j: int| 0 <= i < j < now.len() implies !is_for(
                        #[trigger] now[i],
                        (#[trigger] now[j]).fingerprint@,
                        now[j].request@,
                    ) by {
                        let i0 = if i < at {
                            i
                        } else {
                            i + 1
                        };
                        let j0 = if j < at {
                            j
                        } else {
                            j + 1
                        };
                        assert(now[i] == before[i0] && now[j] == before[j0]);
                    }
                }
            },
            None => {},
        }
    }

    /// Store an answer. A receipt already there for the same request keeps its place and takes
    /// the new answer; past the capacity the oldest is forgotten.
    pub fn put(&mut self, fingerprint: &str, request: &str, payload: P)
        requires
            old(self).wf(),
        ensures
            final(self).wf(),
            stored_after(old(self).all(), final(self).all(), fingerprint@, request@, payload),
    {
        let ghost before = self.stored@;
        let entry = Receipt {
            fingerprint: fingerprint.to_owned(),
            request: request.to_owned(),
            payload,
        };
        let ghost new = entry;
        match self.find(fingerprint, request) {
            Some(at) => {
                self.stored[at] = entry;
                proof {
                    let now = self.stored@;
                    assert(now =~= before.update(at as int, new));
                    assert forall|i: int, j: int| 0 <= i < j < now.len() implies !is_for(
                        #[trigger] now[i],
                        (#[trigger] now[j]).fingerprint@,
                        now[j].request@,
                    ) by {
                        assert(!is_for(before[i], before[j].fingerprint@, before[j].request@));
                    }
                    assert forall|i: int|
                        0 <= i < before.len() && is_for(#[trigger] before[i], fingerprint@, request@)
                        implies i == at by {
                        if i < at {
                            assert(!is_for(
                                before[i],
                                before[at as int].fingerprint@,
                                before[at as int].request@,
                            ));
                        } else if at < i {
                            assert(!is_for(
                                before[at as int],
                                before[i].fingerprint@,
                                before[i].request@,
                            ));
                        }
                    }
                }
            },
            None => {
                self.stored.push(entry);
                let ghost pushed = self.stored@;
                proof {
                    assert(pushed =~= before.push(new));
                    assert forall|i: int, j: int| 0 <= i < j < pushed.len() implies !is_for(
                        #[trigger] pushed[i],
                        (#[trigger] pushed[j]).fingerprint@,
                        pushed[j].request@,
                    ) by {
                        if j < before.len() {
                            assert(!is_for(before[i], before[j].fingerprint@, before[j].request@));
                        } else {
                            assert(pushed[j] == new);
                            assert(!is_for(before[i], fingerprint@, request@));
                        }
                    }
                }
                if self.stored.len() > RECEIPT_CAPACITY {
                    self.stored.remove(0);
                    proof {
                        let now = self.stored@;
                        assert(now =~= pushed.skip(1));
                        assert forall|i: int, j: int| 0 <= i < j < now.len() implies !is_for(
                            #[trigger] now[i],
                            (#[trigger] now[j]).fingerprint@,
                            now[j].request@,
                        ) by {
                            assert(now[i] == pushed[i + 1] && now[j] == pushed[j + 1]);
                        }
                        assert(now.drop_last() =~= before.skip(1));
                        assert(now.last() == new);
                    }
                } else {
                    assert(self.stored@.drop_last() =~= before);
                }
            },
        }
    }
}

/// Whether `after` is `before` without the receipt for that caller's request, and with every
/// other receipt in its place.
pub open spec fn forgotten_from<P>(
    before: Receipts<P>,
    after: Receipts<P>,
    fingerprint: Seq<char>,
    request: Seq<char>,
) -> bool {
    &&& !after.has(fingerprint, request)
    &&& !before.has(fingerprint, request) ==> after.all() == before.all()
    &&& forall|i: int|
        0 <= i < before.all().len() && is_for(#[trigger] before.all()[i], fingerprint, request)
            ==> after.all() == before.all().remove(i)
}

/// What a list of receipts is once an answer has been stored in it.
pub open spec fn stored_after<P>(
    before: Seq<Receipt<P>>,
    after: Seq<Receipt<P>>,
    fingerprint: Seq<char>,
    request: Seq<char>,
    payload: P,
) -> bool {
    if exists|i: int| 0 <= i < before.len() && is_for(#[trigger] before[i], fingerprint, request) {
        &&& after.len() == before.len()
        &&& forall|i: int|
            0 <= i < before.len() ==> (if is_for(#[trigger] before[i], fingerprint, request) {
                is_for(after[i], fingerprint, request) && after[i].payload == payload
            } else {
                after[i] == before[i]
            })
    } else {
        &&& after.len() > 0
        &&& is_for(after.last(), fingerprint, request)
        &&& after.last().payload == payload
        &&& after.drop_last() == (if before.len() < RECEIPT_CAPACITY {
            before
        } else {
            before.skip(1)
        })
    }
}

/// An answer that was stored is the answer a retry gets.
pub proof fn law_a_stored_answer_is_replayed<P>(
    before: Receipts<P>,
    after: Receipts<P>,
    fingerprint: Seq<char>,
    request: Seq<char>,
    payload: P,
)
    requires
        before.wf(),
        after.wf(),
        stored_after(before.all(), after.all(), fingerprint, request, payload),
    ensures
        after.has(fingerprint, request),
        forall|i: int|
            0 <= i < after.all().len() && is_for(#[trigger] after.all()[i], fingerprint, request)
                ==> after.all()[i].payload == payload,
{
    let s = before.all();
    let t = after.all();
    if exists|i: int| 0 <= i < s.len() && is_for(#[trigger] s[i], fingerprint, request) {
        let i = choose|i: int| 0 <= i < s.len() && is_for(#[trigger] s[i], fingerprint, request);
        assert(is_for(t[i], fingerprint, request));
        assert forall|k: int| 0 <= k < t.len() && is_for(#[trigger] t[k], fingerprint, request) implies t[k].payload
            == payload by {
            if !is_for(s[k], fingerprint, request) {
                assert(t[k] == s[k]);
            }
        }
    } else {
        assert(is_for(t[t.len() - 1], fingerprint, request));
        assert forall|k: int| 0 <= k < t.len() && is_for(#[trigger] t[k], fingerprint, request) implies t[k].payload
            == payload by {
            if k < t.len() - 1 {
                assert(t[k] == t.drop_last()[k]);
                if s.len() < RECEIPT_CAPACITY {
                    assert(t[k] == s[k]);
                } else {
                    assert(t[k] == s[k + 1]);
                }
            }
        }
    }
}

/// An answer is for one caller's one request and no other.
pub proof fn law_a_receipt_is_for_one_request<P>(
    receipt: Receipt<P>,
    one: Seq<char>,
    first: Seq<char>,
    two: Seq<char>,
    second: Seq<char>,
)
    requires
        is_for(receipt, one, first),
        is_for(receipt, two, second),
    ensures
        one == two,
        first == second,
        receipt.fingerprint@ == one,
        receipt.request@ == first,
{
}

/// Storing an answer keeps the others: only where the store is full does it let one go, and that
/// is the oldest.
pub proof fn law_only_the_oldest_answer_is_let_go<P>(
    before: Seq<Receipt<P>>,
    after: Seq<Receipt<P>>,
    fingerprint: Seq<char>,
    request: Seq<char>,
    payload: P,
    i: int,
)
    requires
        before.len() <= 512,
        stored_after(before, after, fingerprint, request, payload),
        0 <= i < before.len(),
        !is_for(before[i], fingerprint, request),
    ensures
        after.len() <= 512,
        before.len() < 512 ==> after.contains(before[i]),
        i > 0 ==> after.contains(before[i]),
        before.len() == 512 && (forall|k: int|
            0 <= k < before.len() ==> !is_for(#[trigger] before[k], fingerprint, request))
            ==> after.len() == 512 && after == before.skip(1).push(after.last()),
{
    if exists|k: int| 0 <= k < before.len() && is_for(#[trigger] before[k], fingerprint, request) {
        assert(after[i] == before[i]);
    } else {
        let kept = after.drop_last();
        if before.len() < 512 {
            assert(kept == before);
            assert(after[i] == kept[i]);
        } else {
            assert(kept == before.skip(1));
            if i > 0 {
                assert(after[i - 1] == kept[i - 1]);
            }
            assert(after =~= before.skip(1).push(after.last()));
        }
    }
}

/// A forgotten answer is not replayed, and every other one still is.
pub proof fn law_forgetting_one_answer_keeps_the_others<P>(
    before: Receipts<P>,
    after: Receipts<P>,
    fingerprint: Seq<char>,
    request: Seq<char>,
    i: int,
)
    requires
        before.wf(),
        forgotten_from(before, after, fingerprint, request),
        0 <= i < before.all().len(),
        !is_for(before.all()[i], fingerprint, request),
    ensures
        !after.has(fingerprint, request),
        after.all().contains(before.all()[i]),
        after.all().len() <= before.all().len(),
{
    if before.has(fingerprint, request) {
        let at = choose|k: int|
            0 <= k < before.all().len() && is_for(
                #[trigger] before.all()[k],
                fingerprint,
                request,
            );
        assert(after.all() == before.all().remove(at));
        if i < at {
            assert(after.all()[i] == before.all()[i]);
        } else {
            assert(after.all()[i - 1] == before.all()[i]);
        }
    } else {
        assert(after.all()[i] == before.all()[i]);
    }
}

/// A store holds at most 512 answers, and one at most for each request.
pub proof fn law_a_store_is_bounded_and_holds_each_answer_once<P>(
    receipts: Receipts<P>,
    i: int,
    j: int,
)
    requires
        receipts.wf(),
        0 <= i < j < receipts.all().len(),
    ensures
        receipts.all().len() <= 512,
        receipts.all()[i].fingerprint@ != receipts.all()[j].fingerprint@
            || receipts.all()[i].request@ != receipts.all()[j].request@,
{
}

} // verus!
