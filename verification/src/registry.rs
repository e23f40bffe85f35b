//! The connection registry of the relay server.
//!
//! The registry maps each registered peer identifier to the outbound queue of
//! the connection that registered it, enforces at most one live entry per
//! identifier by displacement, and routes payloads to the queue of the
//! addressed peer. Queues are part of the registry so that what a connection
//! is owed can be stated and proved; the embedding server drains them.
use vstd::prelude::*;

use crate::bytes::bytes_eq;

verus! {

/// One instruction for a connection's write loop: a payload to put on the
/// wire, or the order to terminate because the registration was displaced.
#[derive(Debug, Clone, PartialEq, Eq)]
pub enum Signal {
    Message(Vec<u8>),
    Closed,
}

/// The mathematical model of a signal.
#[verifier::ext_equal]
pub enum SignalView {
    Message(Seq<u8>),
    Closed,
}

impl View for Signal {
    type V = SignalView;

    open spec fn view(&self) -> SignalView {
        match self {
            Signal::Message(m) => SignalView::Message(m@),
            Signal::Closed => SignalView::Closed,
        }
    }
}

/// The outbound queue of one connection: the signals it is owed, in order,
/// and whether its consumer is still there.
#[derive(Debug)]
pub struct Queue {
    pub signals: Vec<Signal>,
    pub open: bool,
}

/// The mathematical model of a queue.
#[verifier::ext_equal]
pub struct QueueView {
    pub signals: Seq<SignalView>,
    pub open: bool,
}

impl View for Queue {
    type V = QueueView;

    open spec fn view(&self) -> QueueView {
        QueueView { signals: self.signals@.map_values(|s: Signal| s@), open: self.open }
    }
}

/// A live registration: a peer identifier and the queue handle it routes to.
pub struct RegistryEntry {
    pub id: Vec<u8>,
    pub queue: usize,
}

/// The mathematical model of a registration.
#[verifier::ext_equal]
pub struct EntryView {
    pub id: Seq<u8>,
    pub queue: int,
}

impl View for RegistryEntry {
    type V = EntryView;

    open spec fn view(&self) -> EntryView {
        EntryView { id: self.id@, queue: self.queue as int }
    }
}

/// The registry: the live registrations and every queue ever created, by
/// handle.
pub struct Registry {
    entries: Vec<RegistryEntry>,
    queues: Vec<Queue>,
}

/// The mathematical model of the registry.
#[verifier::ext_equal]
pub struct RegistryView {
    pub entries: Seq<EntryView>,
    pub queues: Seq<QueueView>,
}

impl View for Registry {
    type V = RegistryView;

    closed spec fn view(&self) -> RegistryView {
        RegistryView {
            entries: self.entries@.map_values(|e: RegistryEntry| e@),
            queues: self.queues@.map_values(|q: Queue| q@),
        }
    }
}

/// The queue handle an identifier routes to, if it is registered.
pub open spec fn lookup(entries: Seq<EntryView>, id: Seq<u8>) -> Option<int>
    decreases entries.len(),
{
    if entries.len() == 0 {
        Option::None
    } else if entries[0].id == id {
        Option::Some(entries[0].queue)
    } else {
        lookup(entries.skip(1), id)
    }
}

/// The registrations after `id` is pointed at queue `h`: the existing entry
/// for `id` is replaced, or a new entry is appended.
pub open spec fn set_route(entries: Seq<EntryView>, id: Seq<u8>, h: int) -> Seq<EntryView>
    decreases entries.len(),
{
    if entries.len() == 0 {
        seq![EntryView { id, queue: h }]
    } else if entries[0].id == id {
        seq![EntryView { id, queue: h }] + entries.skip(1)
    } else {
        seq![entries[0]] + set_route(entries.skip(1), id, h)
    }
}

/// The registrations after the entry for `id` is removed, but only when that
/// entry still routes to `h`: a displaced connection that tears itself down
/// must not unregister the peer that displaced it.
pub open spec fn drop_route(entries: Seq<EntryView>, id: Seq<u8>, h: int) -> Seq<EntryView>
    decreases entries.len(),
{
    if entries.len() == 0 {
        entries
    } else if entries[0].id == id {
        if entries[0].queue == h {
            entries.skip(1)
        } else {
            entries
        }
    } else {
        seq![entries[0]] + drop_route(entries.skip(1), id, h)
    }
}

/// Well-formedness of the registry: every entry routes to an existing queue,
/// identifiers are registered at most once, and no two entries share a queue.
pub open spec fn registry_wf(r: RegistryView) -> bool {
    &&& forall|i: int| 0 <= i < r.entries.len() ==> 0 <= #[trigger] r.entries[i].queue
        < r.queues.len()
    &&& forall|i: int, j: int|
        0 <= i < j < r.entries.len() ==> #[trigger] r.entries[i].id != #[trigger] r.entries[j].id
    &&& forall|i: int, j: int|
        0 <= i < j < r.entries.len() ==> #[trigger] r.entries[i].queue
            != #[trigger] r.entries[j].queue
}

/// The registry after `payload` is sent to `id`: appended to the queue `id`
/// routes to when that queue is open, and otherwise everything unchanged.
pub open spec fn send_spec(r: RegistryView, id: Seq<u8>, payload: Seq<u8>) -> RegistryView {
    match lookup(r.entries, id) {
        Option::Some(q) => if 0 <= q < r.queues.len() && r.queues[q].open {
            RegistryView {
                entries: r.entries,
                queues: r.queues.update(
                    q,
                    QueueView {
                        signals: r.queues[q].signals.push(SignalView::Message(payload)),
                        open: true,
                    },
                ),
            }
        } else {
            r
        },
        Option::None => r,
    }
}

/// The registry after `id` is registered with queue `h`: the displaced
/// holder's queue, if there is one and it is open, receives one `Closed`, and
/// `id` routes to `h`.
pub open spec fn register_spec(r: RegistryView, id: Seq<u8>, h: int) -> RegistryView {
    let queues = match lookup(r.entries, id) {
        Option::Some(q) => if 0 <= q < r.queues.len() && r.queues[q].open {
            r.queues.update(
                q,
                QueueView { signals: r.queues[q].signals.push(SignalView::Closed), open: true },
            )
        } else {
            r.queues
        },
        Option::None => r.queues,
    };
    RegistryView { entries: set_route(r.entries, id, h), queues }
}

/// The model of an optional queue handle.
pub open spec fn opt_handle(h: Option<usize>) -> Option<int> {
    match h {
        Option::Some(v) => Option::Some(v as int),
        Option::None => Option::None,
    }
}

/// The result of routing a payload.
#[derive(Debug, Clone, Copy, PartialEq, Eq)]
pub enum SendOutcome {
    /// The payload was appended to the queue with this handle.
    Delivered(usize),
    /// The addressee is registered but its queue has lost its consumer; the
    /// payload is dropped and the sender goes on unaffected.
    ChannelClosed,
    /// The addressee is not registered; the payload is dropped and the sender
    /// goes on unaffected.
    NoRoute,
}

fn queue_mut(queues: &mut Vec<Queue>, i: usize) -> (q: &mut Queue)
    requires
        i < old(queues)@.len(),
    ensures
        *q == old(queues)@[i as int],
        final(queues)@ == old(queues)@.update(i as int, *final(q)),
{
    &mut queues[i]
}

fn entry_mut(entries: &mut Vec<RegistryEntry>, i: usize) -> (e: &mut RegistryEntry)
    requires
        i < old(entries)@.len(),
    ensures
        *e == old(entries)@[i as int],
        final(entries)@ == old(entries)@.update(i as int, *final(e)),
{
    &mut entries[i]
}

impl Registry {
    /// Well-formedness; established by `new` and kept by every operation.
    pub open spec fn wf(&self) -> bool {
        registry_wf(self@)
    }

    /// An empty registry.
    pub fn new() -> (r: Registry)
        ensures
            r@.entries.len() == 0,
            r@.queues.len() == 0,
            r.wf(),
    {
        let r = Registry { entries: Vec::new(), queues: Vec::new() };
        proof {
            assert(r@.entries =~~= Seq::<EntryView>::empty());
            assert(r@.queues =~~= Seq::<QueueView>::empty());
        }
        r
    }

    /// Creates a fresh, empty, open outbound queue and returns its handle.
    pub fn create_queue(&mut self) -> (h: usize)
        requires
            old(self).wf(),
        ensures
            final(self).wf(),
            h as int == old(self)@.queues.len(),
            final(self)@.entries == old(self)@.entries,
            final(self)@.queues == old(self)@.queues.push(
                QueueView { signals: Seq::empty(), open: true },
            ),
    {
        let h = self.queues.len();
        self.queues.push(Queue { signals: Vec::new(), open: true });
        proof {
            assert(self@.queues =~~= old(self)@.queues.push(
                QueueView { signals: Seq::<SignalView>::empty(), open: true },
            ));
            assert(self@.entries =~~= old(self)@.entries);
            assert(self@.queues.len() == old(self)@.queues.len() + 1);
            assert(forall|i: int|
                0 <= i < self@.entries.len() ==> 0 <= #[trigger] self@.entries[i].queue
                    < self@.queues.len());
            assert(forall|i: int, j: int|
                0 <= i < j < self@.entries.len() ==> #[trigger] self@.entries[i].id
                    != #[trigger] self@.entries[j].id);
            assert(forall|i: int, j: int|
                0 <= i < j < self@.entries.len() ==> #[trigger] self@.entries[i].queue
                    != #[trigger] self@.entries[j].queue);
        }
        h
    }

    /// Registers `id` as routing to the fresh queue `h`. When `id` was
    /// already registered the previous holder is displaced: exactly one
    /// `Closed` is delivered to its queue, which is also returned so the
    /// embedding server can wake it.
    pub fn register(&mut self, id: Vec<u8>, h: usize) -> (displaced: Option<usize>)
        requires
            old(self).wf(),
            h < old(self)@.queues.len(),
            forall|i: int|
                0 <= i < old(self)@.entries.len() ==> #[trigger] old(self)@.entries[i].queue
                    != h as int,
        ensures
            final(self).wf(),
            final(self)@ == register_spec(old(self)@, id@, h as int),
            opt_handle(displaced) == lookup(old(self)@.entries, id@),
    {
        let n = self.entries.len();
        let mut k: usize = 0;
        while k < n
            invariant
                *self == *old(self),
                old(self).wf(),
                h < old(self)@.queues.len(),
                forall|i: int|
                    0 <= i < old(self)@.entries.len() ==> #[trigger] old(self)@.entries[i].queue
                        != h as int,
                n == self@.entries.len(),
                k <= n,
                forall|j: int| 0 <= j < k ==> #[trigger] self@.entries[j].id != id@,
            decreases n - k,
        {
            if bytes_eq(&self.entries[k].id, &id) {
                let q = self.entries[k].queue;
                proof {
                    lemma_lookup_at(self@.entries, id@, k as int);
                    lemma_set_route_at(self@.entries, id@, h as int, k as int);
                    assert(self@.entries[k as int] == self.entries@[k as int]@);
                    assert(q as int == self@.entries[k as int].queue);
                    assert((q as int) < self@.queues.len());
                }
                let qm = queue_mut(&mut self.queues, q);
                if qm.open {
                    qm.signals.push(Signal::Closed);
                    proof {
                        assert(qm@.signals =~~= old(self)@.queues[q as int].signals.push(
                            SignalView::Closed,
                        ));
                    }
                }
                let em = entry_mut(&mut self.entries, k);
                em.queue = h;
                proof {
                    assert(self@.entries =~~= old(self)@.entries.update(
                        k as int,
                        EntryView { id: id@, queue: h as int },
                    ));
                    assert(self@.queues =~~= register_spec(old(self)@, id@, h as int).queues);
                    assert(forall|i: int|
                        0 <= i < self@.entries.len() ==> 0 <= #[trigger] self@.entries[i].queue
                            < self@.queues.len());
                    assert(forall|i: int, j: int|
                        0 <= i < j < self@.entries.len() ==> #[trigger] self@.entries[i].id
                            != #[trigger] self@.entries[j].id) by {
                        assert(forall|i: int|
                            0 <= i < self@.entries.len() ==> #[trigger] self@.entries[i].id
                                == old(self)@.entries[i].id);
                    }
                    assert(forall|i: int, j: int|
                        0 <= i < j < self@.entries.len() ==> #[trigger] self@.entries[i].queue
                            != #[trigger] self@.entries[j].queue);
                }
                return Option::Some(q);
            }
            k = k + 1;
        }
        proof {
            lemma_lookup_absent(self@.entries, id@);
            lemma_set_route_absent(self@.entries, id@, h as int);
        }
        self.entries.push(RegistryEntry { id, queue: h });
        proof {
            assert(self@.entries =~~= old(self)@.entries.push(
                EntryView { id: id@, queue: h as int },
            ));
            assert(self@.queues =~~= old(self)@.queues);
        }
        Option::None
    }

    /// Routes `payload` to the peer registered as `id`: fire and forget. A
    /// missing or torn-down addressee drops the payload; the sender is never
    /// blocked and never handed an error.
    pub fn send(&mut self, id: &Vec<u8>, payload: Vec<u8>) -> (o: SendOutcome)
        requires
            old(self).wf(),
        ensures
            final(self).wf(),
            final(self)@ == send_spec(old(self)@, id@, payload@),
            match o {
                SendOutcome::Delivered(h) => lookup(old(self)@.entries, id@) == Option::Some(
                    h as int,
                ) && old(self)@.queues[h as int].open,
                SendOutcome::ChannelClosed => lookup(old(self)@.entries, id@) matches Option::Some(
                    q,
                ) && !old(self)@.queues[q].open,
                SendOutcome::NoRoute => lookup(old(self)@.entries, id@) is None,
            },
    {
        let n = self.entries.len();
        let mut k: usize = 0;
        while k < n
            invariant
                *self == *old(self),
                old(self).wf(),
                n == self@.entries.len(),
                k <= n,
                forall|j: int| 0 <= j < k ==> #[trigger] self@.entries[j].id != id@,
            decreases n - k,
        {
            if bytes_eq(&self.entries[k].id, id) {
                let q = self.entries[k].queue;
                proof {
                    lemma_lookup_at(self@.entries, id@, k as int);
                    assert(self@.entries[k as int] == self.entries@[k as int]@);
                    assert(q as int == self@.entries[k as int].queue);
                    assert((q as int) < self@.queues.len());
                }
                let qm = queue_mut(&mut self.queues, q);
                if qm.open {
                    qm.signals.push(Signal::Message(payload));
                    proof {
                        assert(qm@.signals =~~= old(self)@.queues[q as int].signals.push(
                            SignalView::Message(payload@),
                        ));
                    }
                    proof {
                        assert(self@.entries =~~= old(self)@.entries);
                        assert(self@.queues =~~= send_spec(old(self)@, id@, payload@).queues);
                        assert(forall|i: int|
                            0 <= i < self@.entries.len() ==> 0 <= #[trigger] self@.entries[i].queue
                                < self@.queues.len());
                    }
                    return SendOutcome::Delivered(q);
                } else {
                    proof {
                        assert(self@.entries =~~= old(self)@.entries);
                        assert(self@.queues =~~= old(self)@.queues);
                        assert(self@ =~~= send_spec(old(self)@, id@, payload@));
                    }
                    return SendOutcome::ChannelClosed;
                }
            }
            k = k + 1;
        }
        proof {
            lemma_lookup_absent(self@.entries, id@);
        }
        SendOutcome::NoRoute
    }

    /// Removes the registration of `id`, but only when it still routes to
    /// `h`: a displaced connection closing down leaves the newer holder in
    /// place. Queues are untouched.
    pub fn unregister(&mut self, id: &Vec<u8>, h: usize)
        requires
            old(self).wf(),
        ensures
            final(self).wf(),
            final(self)@.entries == drop_route(old(self)@.entries, id@, h as int),
            final(self)@.queues == old(self)@.queues,
    {
        let n = self.entries.len();
        let mut k: usize = 0;
        while k < n
            invariant
                *self == *old(self),
                old(self).wf(),
                n == self@.entries.len(),
                k <= n,
                forall|j: int| 0 <= j < k ==> #[trigger] self@.entries[j].id != id@,
            decreases n - k,
        {
            if bytes_eq(&self.entries[k].id, id) {
                proof {
                    lemma_drop_route_at(self@.entries, id@, h as int, k as int);
                }
                if self.entries[k].queue == h {
                    self.entries.remove(k);
                    proof {
                        assert(self@.entries =~~= old(self)@.entries.remove(k as int));
                        assert(self@.queues =~~= old(self)@.queues);
                        assert(forall|i: int|
                            0 <= i < self@.entries.len() ==> #[trigger] self@.entries[i] == if i
                                < k as int {
                                old(self)@.entries[i]
                            } else {
                                old(self)@.entries[i + 1]
                            });
                    }
                }
                return ;
            }
            k = k + 1;
        }
        proof {
            lemma_drop_route_absent(self@.entries, id@, h as int);
        }
    }

    /// Marks the queue `h` as having lost its consumer: the owning connection
    /// is gone, and later payloads routed to it are dropped.
    pub fn close_queue(&mut self, h: usize)
        requires
            old(self).wf(),
            h < old(self)@.queues.len(),
        ensures
            final(self).wf(),
            final(self)@.entries == old(self)@.entries,
            final(self)@.queues == old(self)@.queues.update(
                h as int,
                QueueView { signals: old(self)@.queues[h as int].signals, open: false },
            ),
    {
        let qm = queue_mut(&mut self.queues, h);
        qm.open = false;
        proof {
            assert(self@.entries =~~= old(self)@.entries);
            assert(self@.queues =~~= old(self)@.queues.update(
                h as int,
                QueueView { signals: old(self)@.queues[h as int].signals, open: false },
            ));
        }
    }

    /// Takes the oldest signal of queue `h`: what the owning connection's
    /// write loop handles next.
    pub fn pop_signal(&mut self, h: usize) -> (s: Option<Signal>)
        requires
            old(self).wf(),
            h < old(self)@.queues.len(),
        ensures
            final(self).wf(),
            final(self)@.entries == old(self)@.entries,
            old(self)@.queues[h as int].signals.len() == 0 ==> s is None && final(self)@
                == old(self)@,
            old(self)@.queues[h as int].signals.len() > 0 ==> (s matches Option::Some(sig)
                && sig@ == old(self)@.queues[h as int].signals[0]) && final(self)@.queues == old(
                self,
            )@.queues.update(
                h as int,
                QueueView {
                    signals: old(self)@.queues[h as int].signals.skip(1),
                    open: old(self)@.queues[h as int].open,
                },
            ),
    {
        let qm = queue_mut(&mut self.queues, h);
        if qm.signals.len() == 0 {
            proof {
                assert(self@.queues =~~= old(self)@.queues);
                assert(self@ =~~= old(self)@);
            }
            return Option::None;
        }
        let sig = qm.signals.remove(0);
        proof {
            assert(qm@.signals =~~= old(self)@.queues[h as int].signals.skip(1));
        }
        proof {
            assert(self@.entries =~~= old(self)@.entries);
            assert(self@.queues =~~= old(self)@.queues.update(
                h as int,
                QueueView {
                    signals: old(self)@.queues[h as int].signals.skip(1),
                    open: old(self)@.queues[h as int].open,
                },
            ));
        }
        Option::Some(sig)
    }

    /// The queue handle `id` currently routes to, if any.
    pub fn route(&self, id: &Vec<u8>) -> (r: Option<usize>)
        ensures
            opt_handle(r) == lookup(self@.entries, id@),
    {
        let n = self.entries.len();
        let mut k: usize = 0;
        while k < n
            invariant
                n == self@.entries.len(),
                k <= n,
                forall|j: int| 0 <= j < k ==> #[trigger] self@.entries[j].id != id@,
            decreases n - k,
        {
            if bytes_eq(&self.entries[k].id, id) {
                proof {
                    lemma_lookup_at(self@.entries, id@, k as int);
                }
                return Option::Some(self.entries[k].queue);
            }
            k = k + 1;
        }
        proof {
            lemma_lookup_absent(self@.entries, id@);
        }
        Option::None
    }

    /// The number of live registrations.
    pub fn entry_count(&self) -> (n: usize)
        ensures
            n as int == self@.entries.len(),
    {
        self.entries.len()
    }

    /// Reads the queue with handle `h`.
    pub fn queue(&self, h: usize) -> (q: &Queue)
        requires
            h < self@.queues.len(),
        ensures
            q@ == self@.queues[h as int],
    {
        &self.queues[h]
    }

    /// The number of queues ever created.
    pub fn queue_count(&self) -> (n: usize)
        ensures
            n as int == self@.queues.len(),
    {
        self.queues.len()
    }
}

proof fn lemma_lookup_at(entries: Seq<EntryView>, id: Seq<u8>, k: int)
    requires
        0 <= k < entries.len(),
        entries[k].id == id,
        forall|j: int| 0 <= j < k ==> entries[j].id != id,
    ensures
        lookup(entries, id) == Option::Some(entries[k].queue),
    decreases k,
{
    if k > 0 {
        lemma_lookup_at(entries.skip(1), id, k - 1);
    }
}

proof fn lemma_lookup_absent(entries: Seq<EntryView>, id: Seq<u8>)
    requires
        forall|j: int| 0 <= j < entries.len() ==> entries[j].id != id,
    ensures
        lookup(entries, id) is None,
    decreases entries.len(),
{
    if entries.len() > 0 {
        lemma_lookup_absent(entries.skip(1), id);
    }
}

proof fn lemma_set_route_at(entries: Seq<EntryView>, id: Seq<u8>, h: int, k: int)
    requires
        0 <= k < entries.len(),
        entries[k].id == id,
        forall|j: int| 0 <= j < k ==> entries[j].id != id,
    ensures
        set_route(entries, id, h) == entries.update(k, EntryView { id, queue: h }),
    decreases k,
{
    if k == 0 {
        assert(seq![EntryView { id, queue: h }] + entries.skip(1) =~= entries.update(
            0,
            EntryView { id, queue: h },
        ));
    } else {
        lemma_set_route_at(entries.skip(1), id, h, k - 1);
        assert(seq![entries[0]] + entries.skip(1).update(k - 1, EntryView { id, queue: h })
            =~= entries.update(k, EntryView { id, queue: h }));
    }
}

proof fn lemma_set_route_absent(entries: Seq<EntryView>, id: Seq<u8>, h: int)
    requires
        forall|j: int| 0 <= j < entries.len() ==> entries[j].id != id,
    ensures
        set_route(entries, id, h) == entries.push(EntryView { id, queue: h }),
    decreases entries.len(),
{
    if entries.len() == 0 {
        assert(seq![EntryView { id, queue: h }] =~= entries.push(EntryView { id, queue: h }));
    } else {
        lemma_set_route_absent(entries.skip(1), id, h);
        assert(seq![entries[0]] + entries.skip(1).push(EntryView { id, queue: h })
            =~= entries.push(EntryView { id, queue: h }));
    }
}

proof fn lemma_drop_route_at(entries: Seq<EntryView>, id: Seq<u8>, h: int, k: int)
    requires
        0 <= k < entries.len(),
        entries[k].id == id,
        forall|j: int| 0 <= j < k ==> entries[j].id != id,
    ensures
        drop_route(entries, id, h) == if entries[k].queue == h {
            entries.remove(k)
        } else {
            entries
        },
    decreases k,
{
    if k == 0 {
        if entries[0].queue == h {
            assert(entries.skip(1) =~= entries.remove(0));
        }
    } else {
        lemma_drop_route_at(entries.skip(1), id, h, k - 1);
        if entries[k].queue == h {
            assert(seq![entries[0]] + entries.skip(1).remove(k - 1) =~= entries.remove(k));
        } else {
            assert(seq![entries[0]] + entries.skip(1) =~= entries);
        }
    }
}

proof fn lemma_drop_route_absent(entries: Seq<EntryView>, id: Seq<u8>, h: int)
    requires
        forall|j: int| 0 <= j < entries.len() ==> entries[j].id != id,
    ensures
        drop_route(entries, id, h) == entries,
    decreases entries.len(),
{
    if entries.len() > 0 {
        lemma_drop_route_absent(entries.skip(1), id, h);
        assert(seq![entries[0]] + entries.skip(1) =~= entries);
    }
}

/// Registering an identifier routes it to the new queue.
pub proof fn lemma_lookup_set_route(entries: Seq<EntryView>, id: Seq<u8>, h: int)
    ensures
        lookup(set_route(entries, id, h), id) == Option::Some(h),
    decreases entries.len(),
{
    if entries.len() == 0 {
    } else if entries[0].id == id {
        assert((seq![EntryView { id, queue: h }] + entries.skip(1))[0] == EntryView {
            id,
            queue: h,
        });
    } else {
        lemma_lookup_set_route(entries.skip(1), id, h);
        assert((seq![entries[0]] + set_route(entries.skip(1), id, h)).skip(1) =~= set_route(
            entries.skip(1),
            id,
            h,
        ));
    }
}

/// Registering one identifier does not change where any other routes.
pub proof fn lemma_set_route_other(entries: Seq<EntryView>, id: Seq<u8>, h: int, other: Seq<u8>)
    requires
        other != id,
    ensures
        lookup(set_route(entries, id, h), other) == lookup(entries, other),
    decreases entries.len(),
{
    if entries.len() == 0 {
        assert(seq![EntryView { id, queue: h }].skip(1) =~= Seq::<EntryView>::empty());
        assert(lookup(Seq::<EntryView>::empty(), other) is None);
        assert(lookup(set_route(entries, id, h), other) is None);
    } else if entries[0].id == id {
        assert((seq![EntryView { id, queue: h }] + entries.skip(1)).skip(1) =~= entries.skip(1));
    } else {
        lemma_set_route_other(entries.skip(1), id, h, other);
        assert((seq![entries[0]] + set_route(entries.skip(1), id, h)).skip(1) =~= set_route(
            entries.skip(1),
            id,
            h,
        ));
    }
}

/// A route leads to the queue of a live entry for that identifier.
pub proof fn lemma_lookup_present(entries: Seq<EntryView>, id: Seq<u8>)
    requires
        lookup(entries, id) is Some,
    ensures
        exists|k: int|
            0 <= k < entries.len() && #[trigger] entries[k].id == id && entries[k].queue
                == lookup(entries, id).unwrap(),
    decreases entries.len(),
{
    if entries.len() > 0 && entries[0].id != id {
        lemma_lookup_present(entries.skip(1), id);
        let k0 = choose|k: int|
            0 <= k < entries.skip(1).len() && #[trigger] entries.skip(1)[k].id == id
                && entries.skip(1)[k].queue == lookup(entries.skip(1), id).unwrap();
        assert(entries[k0 + 1].id == id && entries[k0 + 1].queue == lookup(entries, id).unwrap());
    }
}

/// Uniqueness: a well-formed registry holds at most one entry per
/// identifier, whatever operations produced it.
pub proof fn lemma_at_most_one_entry(r: RegistryView, i: int, j: int)
    requires
        registry_wf(r),
        0 <= i < r.entries.len(),
        0 <= j < r.entries.len(),
        r.entries[i].id == r.entries[j].id,
    ensures
        i == j,
{
}

/// Displacement: registering an identifier that is already registered
/// delivers exactly one `Closed` to the prior holder's queue, touches no
/// other queue, and leaves the identifier routing to the new queue.
pub proof fn lemma_register_closes_displaced(r: RegistryView, id: Seq<u8>, h: int, q: int)
    requires
        registry_wf(r),
        lookup(r.entries, id) == Option::Some(q),
        0 <= q < r.queues.len(),
        r.queues[q].open,
    ensures
        register_spec(r, id, h).queues[q].signals == r.queues[q].signals.push(SignalView::Closed),
        forall|p: int|
            0 <= p < r.queues.len() && p != q ==> #[trigger] register_spec(r, id, h).queues[p]
                == r.queues[p],
        lookup(register_spec(r, id, h).entries, id) == Option::Some(h),
{
    lemma_lookup_set_route(r.entries, id, h);
}

/// Routing in order: two payloads sent to a registered, live identifier land
/// on its queue unmodified and in the order sent; nothing else changes.
pub proof fn lemma_send_in_order(r: RegistryView, id: Seq<u8>, m1: Seq<u8>, m2: Seq<u8>, q: int)
    requires
        registry_wf(r),
        lookup(r.entries, id) == Option::Some(q),
        0 <= q < r.queues.len(),
        r.queues[q].open,
    ensures
        send_spec(send_spec(r, id, m1), id, m2).entries == r.entries,
        send_spec(send_spec(r, id, m1), id, m2).queues[q].signals == r.queues[q].signals
            + seq![SignalView::Message(m1), SignalView::Message(m2)],
        forall|p: int|
            0 <= p < r.queues.len() && p != q ==> #[trigger] send_spec(
                send_spec(r, id, m1),
                id,
                m2,
            ).queues[p] == r.queues[p],
{
    let r1 = send_spec(r, id, m1);
    let r2 = send_spec(r1, id, m2);
    assert(r2.queues[q].signals =~= r.queues[q].signals + seq![
        SignalView::Message(m1),
        SignalView::Message(m2),
    ]);
}

/// Drop-safety: sending to an unregistered identifier changes nothing at
/// all; together with `send` being total, the sender neither blocks nor sees
/// an error.
pub proof fn lemma_send_unregistered_noop(r: RegistryView, id: Seq<u8>, payload: Seq<u8>)
    requires
        lookup(r.entries, id) is None,
    ensures
        send_spec(r, id, payload) == r,
{
}

/// A queue no entry routes to receives nothing: once displaced or
/// unregistered, a connection sees no further `Message`, whatever is sent.
pub proof fn lemma_unrouted_queue_untouched(r: RegistryView, id: Seq<u8>, payload: Seq<u8>, h: int)
    requires
        0 <= h < r.queues.len(),
        forall|i: int| 0 <= i < r.entries.len() ==> #[trigger] r.entries[i].queue != h,
    ensures
        send_spec(r, id, payload).queues[h] == r.queues[h],
{
    match lookup(r.entries, id) {
        Option::Some(q) => {
            lemma_lookup_present(r.entries, id);
        },
        Option::None => {},
    }
}

/// Displacement unroutes the old queue: once `id` is re-registered with a
/// fresh queue, no entry routes to the queue it held before.
pub proof fn lemma_displacement_unroutes(r: RegistryView, id: Seq<u8>, h2: int, q: int)
    requires
        registry_wf(r),
        lookup(r.entries, id) == Option::Some(q),
        h2 != q,
    ensures
        forall|i: int|
            0 <= i < register_spec(r, id, h2).entries.len() ==> #[trigger] register_spec(
                r,
                id,
                h2,
            ).entries[i].queue != q,
{
    lemma_lookup_present(r.entries, id);
    let k = choose|k: int|
        0 <= k < r.entries.len() && #[trigger] r.entries[k].id == id && r.entries[k].queue == q;
    assert forall|j: int| 0 <= j < k implies r.entries[j].id != id by {
        assert(r.entries[k].id == id);
    }
    lemma_set_route_at(r.entries, id, h2, k);
    let entries2 = register_spec(r, id, h2).entries;
    assert forall|i: int| 0 <= i < entries2.len() implies entries2[i].queue != q by {
        if i != k {
            assert(r.entries[i].queue != r.entries[k].queue);
        }
    }
}

/// Silence after displacement: once `id` is re-registered with a fresh
/// queue, nothing sent to anyone lands on the queue it held before; the
/// displaced connection sees `Closed` and then no further `Message`.
pub proof fn lemma_displaced_queue_silent(
    r: RegistryView,
    id: Seq<u8>,
    h2: int,
    q: int,
    to: Seq<u8>,
    payload: Seq<u8>,
)
    requires
        registry_wf(r),
        lookup(r.entries, id) == Option::Some(q),
        0 <= q < r.queues.len(),
        h2 != q,
    ensures
        send_spec(register_spec(r, id, h2), to, payload).queues[q] == register_spec(
            r,
            id,
            h2,
        ).queues[q],
{
    lemma_displacement_unroutes(r, id, h2, q);
    lemma_unrouted_queue_untouched(register_spec(r, id, h2), to, payload, q);
}

} // verus!
