//! The relay server's connection handling: authentication of a connecting
//! peer from its query parameters, and the per-connection state machine that
//! registers the peer, forwards its inbound envelopes, and tears the
//! registration down when the connection ends or is displaced.
use vstd::prelude::*;

use crate::bytes::{bytes_clone, bytes_eq};
use crate::codec::{decode, decode_spec, DecodeError};
use crate::registry::{
    drop_route, lookup, register_spec, send_spec, QueueView, Registry, SendOutcome, Signal,
    SignalView,
};

verus! {

/// A byte of the query text: ampersand.
pub const AMPERSAND: u8 = 38;
/// A byte of the query text: equals sign.
pub const EQUALS: u8 = 61;

/// The bytes of the query key `id`.
pub open spec fn key_id() -> Seq<u8> {
    seq![105u8, 100u8]
}

/// The bytes of the query key `secret`.
pub open spec fn key_secret() -> Seq<u8> {
    seq![115u8, 101u8, 99u8, 114u8, 101u8, 116u8]
}

/// The position of the first `b` in `s`, if any.
pub open spec fn find_byte(s: Seq<u8>, b: u8) -> Option<int>
    decreases s.len(),
{
    if s.len() == 0 {
        Option::None
    } else if s[0] == b {
        Option::Some(0int)
    } else {
        match find_byte(s.skip(1), b) {
            Option::Some(i) => Option::Some(i + 1),
            Option::None => Option::None,
        }
    }
}

/// A found position lies in range, holds `b`, and is the first to do so.
pub proof fn lemma_find_byte(s: Seq<u8>, b: u8)
    ensures
        match find_byte(s, b) {
            Option::Some(i) => 0 <= i < s.len() && s[i] == b && forall|j: int|
                0 <= j < i ==> s[j] != b,
            Option::None => forall|j: int| 0 <= j < s.len() ==> s[j] != b,
        },
    decreases s.len(),
{
    if s.len() > 0 && s[0] != b {
        lemma_find_byte(s.skip(1), b);
        assert(forall|j: int| 0 <= j < s.skip(1).len() ==> #[trigger] s.skip(1)[j] == s[j + 1]);
        match find_byte(s.skip(1), b) {
            Option::Some(i) => {
                assert forall|j: int| 0 <= j < i + 1 implies s[j] != b by {
                    if j > 0 {
                        assert(s.skip(1)[j - 1] != b);
                    }
                }
            },
            Option::None => {
                assert forall|j: int| 0 <= j < s.len() implies s[j] != b by {
                    if j > 0 {
                        assert(s.skip(1)[j - 1] != b);
                    }
                }
            },
        }
    }
}

/// The query split at its ampersands, separators dropped.
pub open spec fn query_items(q: Seq<u8>) -> Seq<Seq<u8>>
    decreases q.len(),
{
    match find_byte(q, AMPERSAND) {
        Option::Some(p) => if 0 <= p < q.len() {
            seq![q.take(p)] + query_items(q.skip(p + 1))
        } else {
            seq![q]
        },
        Option::None => seq![q],
    }
}

/// The key and value of one query item: the key stands before the first
/// equals sign, the value between the first and the second. An item without
/// an equals sign binds nothing.
pub open spec fn item_kv(item: Seq<u8>) -> Option<(Seq<u8>, Seq<u8>)> {
    match find_byte(item, EQUALS) {
        Option::Some(p) => {
            let rest = item.skip(p + 1);
            let v = match find_byte(rest, EQUALS) {
                Option::Some(p2) => rest.take(p2),
                Option::None => rest,
            };
            Option::Some((item.take(p), v))
        },
        Option::None => Option::None,
    }
}

/// The value bound to `key` by the items, the last binding winning.
pub open spec fn kv_lookup(items: Seq<Seq<u8>>, key: Seq<u8>) -> Option<Seq<u8>>
    decreases items.len(),
{
    if items.len() == 0 {
        Option::None
    } else {
        match kv_lookup(items.skip(1), key) {
            Option::Some(v) => Option::Some(v),
            Option::None => match item_kv(items[0]) {
                Option::Some(kv) => if kv.0 == key {
                    Option::Some(kv.1)
                } else {
                    Option::None
                },
                Option::None => Option::None,
            },
        }
    }
}

/// The value bound to `key` in the query.
pub open spec fn query_get(q: Seq<u8>, key: Seq<u8>) -> Option<Seq<u8>> {
    kv_lookup(query_items(q), key)
}

/// Why a connection attempt was rejected before anything was registered.
#[derive(PartialEq, Eq, Structural, Clone, Copy, Debug)]
pub enum AuthError {
    /// The query binds no `id`.
    MissingId,
    /// The query binds no `secret`.
    MissingSecret,
    /// The bound secret is not the configured one.
    WrongSecret,
}

/// Who may register: the query must bind `id` and `secret`, and the secret
/// must equal the configured one verbatim; the bound identifier is the peer's.
pub open spec fn authenticate_spec(q: Seq<u8>, secret: Seq<u8>) -> Result<Seq<u8>, AuthError> {
    match query_get(q, key_id()) {
        Option::None => Result::Err(AuthError::MissingId),
        Option::Some(id) => match query_get(q, key_secret()) {
            Option::None => Result::Err(AuthError::MissingSecret),
            Option::Some(s) => if s == secret {
                Result::Ok(id)
            } else {
                Result::Err(AuthError::WrongSecret)
            },
        },
    }
}

/// Finds the first `b` at or after `from`.
fn find_from(s: &Vec<u8>, from: usize, b: u8) -> (r: Option<usize>)
    requires
        from <= s@.len(),
    ensures
        match r {
            Option::Some(j) => from <= j < s@.len() && find_byte(s@.skip(from as int), b)
                == Option::Some(j - from),
            Option::None => find_byte(s@.skip(from as int), b) is None,
        },
{
    let mut i: usize = from;
    while i < s.len()
        invariant
            from <= i <= s@.len(),
            forall|j: int| from <= j < i ==> s@[j] != b,
        decreases s@.len() - i,
    {
        if s[i] == b {
            proof {
                lemma_find_byte(s@.skip(from as int), b);
                assert(s@.skip(from as int)[i - from] == b);
                assert(forall|j: int|
                    0 <= j < i - from ==> #[trigger] s@.skip(from as int)[j] == s@[from + j]);
            }
            return Option::Some(i);
        }
        i = i + 1;
    }
    proof {
        lemma_find_byte(s@.skip(from as int), b);
        assert(forall|j: int|
            0 <= j < s@.len() - from ==> #[trigger] s@.skip(from as int)[j] == s@[from + j]);
    }
    Option::None
}

/// Copies out the bytes from `a` up to `b`.
fn copy_range(s: &Vec<u8>, a: usize, b: usize) -> (r: Vec<u8>)
    requires
        a <= b <= s@.len(),
    ensures
        r@ == s@.subrange(a as int, b as int),
{
    let mut r: Vec<u8> = Vec::new();
    let mut i: usize = a;
    while i < b
        invariant
            a <= i <= b <= s@.len(),
            r@ == s@.subrange(a as int, i as int),
        decreases b - i,
    {
        r.push(s[i]);
        proof {
            assert(r@ =~= s@.subrange(a as int, i + 1));
        }
        i = i + 1;
    }
    r
}

/// True exactly of the bytes of the query key `id`.
fn is_key_id(v: &Vec<u8>) -> (r: bool)
    ensures
        r == (v@ == key_id()),
{
    let r = v.len() == 2 && v[0] == 105 && v[1] == 100;
    proof {
        if r {
            assert(v@ =~= key_id());
        }
    }
    r
}

/// True exactly of the bytes of the query key `secret`.
fn is_key_secret(v: &Vec<u8>) -> (r: bool)
    ensures
        r == (v@ == key_secret()),
{
    let r = v.len() == 6 && v[0] == 115 && v[1] == 101 && v[2] == 99 && v[3] == 114 && v[4] == 101
        && v[5] == 116;
    proof {
        if r {
            assert(v@ =~= key_secret());
        }
    }
    r
}

/// Parses one query item into its binding, mirroring `item_kv`.
fn item_kv_ex(item: &Vec<u8>) -> (r: Option<(Vec<u8>, Vec<u8>)>)
    ensures
        match r {
            Option::Some(kv) => item_kv(item@) == Option::Some((kv.0@, kv.1@)),
            Option::None => item_kv(item@) is None,
        },
{
    let n = item.len();
    proof {
        assert(item@.skip(0) =~= item@);
    }
    match find_from(item, 0, EQUALS) {
        Option::Some(p) => {
            let k = copy_range(item, 0, p);
            proof {
                lemma_find_byte(item@, EQUALS);
                assert(k@ =~= item@.take(p as int));
                assert(item@.skip(p + 1) =~= item@.skip(p + 1));
            }
            let v: Vec<u8>;
            match find_from(item, p + 1, EQUALS) {
                Option::Some(p2) => {
                    v = copy_range(item, p + 1, p2);
                    proof {
                        assert(v@ =~= item@.skip(p + 1).take(p2 - (p + 1)));
                    }
                },
                Option::None => {
                    v = copy_range(item, p + 1, n);
                    proof {
                        assert(v@ =~= item@.skip(p + 1));
                    }
                },
            }
            Option::Some((k, v))
        },
        Option::None => Option::None,
    }
}

/// Checks a connecting peer's query parameters against the configured
/// secret: the query must bind `id` and `secret` (the last binding of each
/// winning, as in `authenticate_spec`), and the bound secret must match
/// verbatim. Returns the peer identifier to register.
pub fn authenticate(query: &Vec<u8>, secret: &Vec<u8>) -> (r: Result<Vec<u8>, AuthError>)
    ensures
        match r {
            Result::Ok(id) => authenticate_spec(query@, secret@) == Result::<_, AuthError>::Ok(
                id@,
            ),
            Result::Err(e) => authenticate_spec(query@, secret@) == Result::<Seq<u8>, _>::Err(e),
        },
{
    let qlen = query.len();
    let mut id_v: Option<Vec<u8>> = Option::None;
    let mut sec_v: Option<Vec<u8>> = Option::None;
    let mut i: usize = 0;
    let mut done = false;
    let ghost mut items_left: Seq<Seq<u8>> = query_items(query@);
    proof {
        assert(query@.skip(0) =~= query@);
    }
    while !done
        invariant
            qlen == query@.len(),
            i <= query@.len(),
            done ==> items_left == Seq::<Seq<u8>>::empty(),
            !done ==> items_left == query_items(query@.skip(i as int)),
            query_get(query@, key_id()) == match kv_lookup(items_left, key_id()) {
                Option::Some(v) => Option::Some(v),
                Option::None => crate::codec::opt_bytes(id_v),
            },
            query_get(query@, key_secret()) == match kv_lookup(items_left, key_secret()) {
                Option::Some(v) => Option::Some(v),
                Option::None => crate::codec::opt_bytes(sec_v),
            },
        decreases query@.len() - i + if done {
            0int
        } else {
            1int
        },
    {
        let item: Vec<u8>;
        match find_from(query, i, AMPERSAND) {
            Option::Some(j) => {
                item = copy_range(query, i, j);
                proof {
                    lemma_find_byte(query@.skip(i as int), AMPERSAND);
                    assert(item@ =~= query@.skip(i as int).take(j - i));
                    assert(query@.skip(i as int).skip(j - i + 1) =~= query@.skip(j + 1));
                    let rest_items = query_items(query@.skip(j + 1));
                    assert(query_items(query@.skip(i as int)) == seq![item@] + rest_items);
                    lemma_kv_lookup_cons(item@, rest_items, key_id());
                    lemma_kv_lookup_cons(item@, rest_items, key_secret());
                    items_left = rest_items;
                }
                i = j + 1;
            },
            Option::None => {
                item = copy_range(query, i, qlen);
                proof {
                    assert(item@ =~= query@.skip(i as int));
                    assert(query_items(query@.skip(i as int)) == seq![item@]);
                    let rest_items = Seq::<Seq<u8>>::empty();
                    assert(seq![item@] =~= seq![item@] + rest_items);
                    lemma_kv_lookup_cons(item@, rest_items, key_id());
                    lemma_kv_lookup_cons(item@, rest_items, key_secret());
                    items_left = rest_items;
                }
                done = true;
            },
        }
        match item_kv_ex(&item) {
            Option::Some(kv) => {
                if is_key_id(&kv.0) {
                    id_v = Option::Some(kv.1);
                } else if is_key_secret(&kv.0) {
                    sec_v = Option::Some(kv.1);
                }
            },
            Option::None => {},
        }
    }
    match id_v {
        Option::None => Result::Err(AuthError::MissingId),
        Option::Some(id) => match sec_v {
            Option::None => Result::Err(AuthError::MissingSecret),
            Option::Some(sv) => {
                if bytes_eq(&sv, secret) {
                    Result::Ok(id)
                } else {
                    Result::Err(AuthError::WrongSecret)
                }
            },
        },
    }
}

/// Looking a key up across a split-off first item.
proof fn lemma_kv_lookup_cons(item: Seq<u8>, items: Seq<Seq<u8>>, key: Seq<u8>)
    ensures
        kv_lookup(seq![item] + items, key) == match kv_lookup(items, key) {
            Option::Some(v) => Option::Some(v),
            Option::None => match item_kv(item) {
                Option::Some(kv) => if kv.0 == key {
                    Option::Some(kv.1)
                } else {
                    Option::None
                },
                Option::None => Option::None,
            },
        },
{
    assert((seq![item] + items).skip(1) =~= items);
    assert((seq![item] + items)[0] == item);
}

/// Looking a key up in a single item.
proof fn lemma_kv_lookup_one(item: Seq<u8>, key: Seq<u8>)
    ensures
        kv_lookup(seq![item], key) == match item_kv(item) {
            Option::Some(kv) => if kv.0 == key {
                Option::Some(kv.1)
            } else {
                Option::None
            },
            Option::None => Option::None,
        },
{
    assert(seq![item].skip(1) =~= Seq::<Seq<u8>>::empty());
    assert(kv_lookup(Seq::<Seq<u8>>::empty(), key) is None);
}

/// The converse of `lemma_find_byte`: the first position holding `b` is what
/// `find_byte` returns.
proof fn lemma_find_byte_is(s: Seq<u8>, b: u8, p: int)
    requires
        0 <= p < s.len(),
        s[p] == b,
        forall|j: int| 0 <= j < p ==> s[j] != b,
    ensures
        find_byte(s, b) == Option::Some(p),
{
    lemma_find_byte(s, b);
    match find_byte(s, b) {
        Option::Some(i) => {
            if i < p {
                assert(s[i] != b);
            }
            if i > p {
                assert(s[p] != b);
            }
        },
        Option::None => {
            assert(s[p] != b);
        },
    }
}

/// The query a client connects with: `id=<id>&secret=<secret>`.
pub open spec fn connect_query_spec(id: Seq<u8>, secret: Seq<u8>) -> Seq<u8> {
    key_id() + seq![EQUALS] + id + seq![AMPERSAND] + key_secret() + seq![EQUALS] + secret
}

/// Appends all of `s` to `out`.
fn push_all(out: &mut Vec<u8>, s: &Vec<u8>)
    ensures
        final(out)@ == old(out)@ + s@,
{
    let mut i: usize = 0;
    while i < s.len()
        invariant
            i <= s@.len(),
            out@ == old(out)@ + s@.take(i as int),
        decreases s@.len() - i,
    {
        out.push(s[i]);
        proof {
            assert(out@ =~= old(out)@ + s@.take(i + 1));
        }
        i = i + 1;
    }
    proof {
        assert(s@.take(s@.len() as int) =~= s@);
    }
}

/// Builds the query a client connects with.
pub fn connect_query(id: &Vec<u8>, secret: &Vec<u8>) -> (q: Vec<u8>)
    ensures
        q@ == connect_query_spec(id@, secret@),
{
    let mut q: Vec<u8> = Vec::new();
    q.push(105);
    q.push(100);
    q.push(EQUALS);
    push_all(&mut q, id);
    q.push(AMPERSAND);
    q.push(115);
    q.push(101);
    q.push(99);
    q.push(114);
    q.push(101);
    q.push(116);
    q.push(EQUALS);
    push_all(&mut q, secret);
    proof {
        assert(q@ =~= connect_query_spec(id@, secret@));
    }
    q
}

/// A client that builds its query from its identifier and the configured
/// secret is authenticated as exactly that identifier, whenever neither text
/// holds a separator byte.
pub proof fn lemma_connect_query_authenticates(id: Seq<u8>, secret: Seq<u8>)
    requires
        forall|i: int| 0 <= i < id.len() ==> id[i] != AMPERSAND && id[i] != EQUALS,
        forall|i: int| 0 <= i < secret.len() ==> secret[i] != AMPERSAND && secret[i] != EQUALS,
    ensures
        authenticate_spec(connect_query_spec(id, secret), secret) == Result::<_, AuthError>::Ok(
            id,
        ),
{
    let q = connect_query_spec(id, secret);
    let p = 3 + id.len() as int;
    let item1 = key_id() + seq![EQUALS] + id;
    let item2 = key_secret() + seq![EQUALS] + secret;

    // the query splits into its two items at the one ampersand
    assert(q[p] == AMPERSAND);
    assert forall|j: int| 0 <= j < p implies q[j] != AMPERSAND by {
        if j >= 3 {
            assert(q[j] == id[j - 3]);
        }
    }
    lemma_find_byte_is(q, AMPERSAND, p);
    assert(q.take(p) =~= item1);
    assert(q.skip(p + 1) =~= item2);
    assert forall|j: int| 0 <= j < item2.len() implies item2[j] != AMPERSAND by {
        if j >= 7 {
            assert(item2[j] == secret[j - 7]);
        }
    }
    lemma_find_byte(item2, AMPERSAND);
    assert(query_items(q) == seq![item1] + query_items(item2));
    assert(query_items(item2) == seq![item2]);

    // the first item binds `id`
    assert(item1[2] == EQUALS);
    lemma_find_byte_is(item1, EQUALS, 2);
    assert(item1.take(2) =~= key_id());
    assert(item1.skip(3) =~= id);
    lemma_find_byte(id, EQUALS);
    assert(item_kv(item1) == Option::Some((key_id(), id)));

    // the second item binds `secret`
    assert(item2[6] == EQUALS);
    assert forall|j: int| 0 <= j < 6 implies item2[j] != EQUALS by {
        assert(item2[j] == key_secret()[j]);
    }
    lemma_find_byte_is(item2, EQUALS, 6);
    assert(item2.take(6) =~= key_secret());
    assert(item2.skip(7) =~= secret);
    lemma_find_byte(secret, EQUALS);
    assert(item_kv(item2) == Option::Some((key_secret(), secret)));

    // last-wins lookup over the two items
    lemma_kv_lookup_one(item2, key_id());
    lemma_kv_lookup_one(item2, key_secret());
    assert(key_secret() != key_id());
    lemma_kv_lookup_cons(item1, seq![item2], key_id());
    lemma_kv_lookup_cons(item1, seq![item2], key_secret());
    assert(query_get(q, key_id()) == Option::Some(id));
    assert(query_get(q, key_secret()) == Option::Some(secret));
}

/// Where a relay connection stands in its life.
#[derive(PartialEq, Eq, Structural, Clone, Copy, Debug)]
pub enum ConnectionPhase {
    /// Registered; pumping envelopes in and signals out.
    Active,
    /// The connection is ending: its transport closed, a write failed, or it
    /// was displaced. Resources must be released through `close`.
    Closing,
    /// Closed down; the registration it owned is gone.
    Terminated,
}

/// What became of one inbound message.
#[derive(Debug, Clone, Copy, PartialEq, Eq)]
pub enum InboundOutcome {
    /// The message decoded as an envelope and was routed to its addressee.
    Forwarded(SendOutcome),
    /// The message did not decode; it was dropped with no other effect.
    DroppedMalformed,
}

/// The per-connection state machine of the relay server, from successful
/// authentication to teardown. The embedding server owns the socket and the
/// task; every decision stands here.
#[derive(Debug)]
pub struct Connection {
    /// The identifier this connection registered.
    pub id: Vec<u8>,
    /// The queue handle this connection's registration routes to.
    pub queue: usize,
    /// Where the connection stands.
    pub phase: ConnectionPhase,
}

impl Connection {
    /// Accepts one transport connection: authenticates its query parameters
    /// and, on success, registers the peer with a fresh queue, displacing any
    /// previous holder of the identifier; the displaced holder's queue handle
    /// comes back so the embedding server can wake it. A rejected attempt
    /// leaves the registry exactly as it was.
    pub fn accept(reg: &mut Registry, query: &Vec<u8>, secret: &Vec<u8>) -> (r: Result<
        (Connection, Option<usize>),
        AuthError,
    >)
        requires
            old(reg).wf(),
        ensures
            final(reg).wf(),
            match r {
                Result::Ok(c) => {
                    &&& authenticate_spec(query@, secret@) == Result::<_, AuthError>::Ok(c.0.id@)
                    &&& c.0.phase == ConnectionPhase::Active
                    &&& c.0.queue as int == old(reg)@.queues.len()
                    &&& final(reg)@ == register_spec(
                        crate::registry::RegistryView {
                            entries: old(reg)@.entries,
                            queues: old(reg)@.queues.push(
                                QueueView { signals: Seq::empty(), open: true },
                            ),
                        },
                        c.0.id@,
                        c.0.queue as int,
                    )
                    &&& lookup(final(reg)@.entries, c.0.id@) == Option::Some(c.0.queue as int)
                    &&& crate::registry::opt_handle(c.1) == lookup(old(reg)@.entries, c.0.id@)
                },
                Result::Err(e) => {
                    &&& final(reg)@ == old(reg)@
                    &&& authenticate_spec(query@, secret@) == Result::<Seq<u8>, _>::Err(e)
                },
            },
    {
        let id = match authenticate(query, secret) {
            Result::Ok(id) => id,
            Result::Err(e) => {
                return Result::Err(e);
            },
        };
        let h = reg.create_queue();
        let ghost mid = reg@;
        let c = Connection { id, queue: h, phase: ConnectionPhase::Active };
        let displaced = reg.register(bytes_clone(&c.id), h);
        proof {
            crate::registry::lemma_lookup_set_route(mid.entries, c.id@, h as int);
        }
        Result::Ok((c, displaced))
    }

    /// Handles one message read from this connection's socket: a decodable
    /// envelope is routed, raw and unmodified, to the peer it names in `to`;
    /// anything else is dropped without any effect on the registry.
    pub fn on_inbound(&self, reg: &mut Registry, raw: Vec<u8>) -> (o: InboundOutcome)
        requires
            old(reg).wf(),
        ensures
            final(reg).wf(),
            match decode_spec(raw@) {
                Option::Some(env) => {
                    &&& final(reg)@ == send_spec(old(reg)@, env.to, raw@)
                    &&& o matches InboundOutcome::Forwarded(out) && (match out {
                        SendOutcome::Delivered(h) => lookup(old(reg)@.entries, env.to)
                            == Option::Some(h as int) && old(reg)@.queues[h as int].open,
                        SendOutcome::ChannelClosed => lookup(old(reg)@.entries, env.to)
                            matches Option::Some(q) && !old(reg)@.queues[q].open,
                        SendOutcome::NoRoute => lookup(old(reg)@.entries, env.to) is None,
                    })
                },
                Option::None => final(reg)@ == old(reg)@ && o is DroppedMalformed,
            },
    {
        match decode(&raw) {
            Result::Ok(env) => InboundOutcome::Forwarded(reg.send(&env.to, raw)),
            Result::Err(DecodeError) => InboundOutcome::DroppedMalformed,
        }
    }

    /// Handles one signal popped from this connection's queue: a message is
    /// handed back to be written on the socket; `Closed` means this
    /// connection was displaced, so it starts closing and writes nothing
    /// further.
    pub fn on_signal(&mut self, sig: Signal) -> (out: Option<Vec<u8>>)
        ensures
            final(self).id == old(self).id,
            final(self).queue == old(self).queue,
            match sig@ {
                SignalView::Message(m) => {
                    &&& final(self).phase == old(self).phase
                    &&& out matches Option::Some(b) && b@ == m
                },
                SignalView::Closed => final(self).phase == ConnectionPhase::Closing
                    && out is None,
            },
    {
        match sig {
            Signal::Message(m) => Option::Some(m),
            Signal::Closed => {
                self.phase = ConnectionPhase::Closing;
                Option::None
            },
        }
    }

    /// Starts closing: the socket reached its end or failed on a read or a
    /// write.
    pub fn start_closing(&mut self)
        ensures
            final(self).id == old(self).id,
            final(self).queue == old(self).queue,
            final(self).phase == ConnectionPhase::Closing,
    {
        self.phase = ConnectionPhase::Closing;
    }

    /// Tears the connection down: unregisters its identifier (but never a
    /// newer holder that displaced it) and marks its queue as gone.
    pub fn close(&mut self, reg: &mut Registry)
        requires
            old(reg).wf(),
            old(self).phase == ConnectionPhase::Closing,
            old(self).queue < old(reg)@.queues.len(),
        ensures
            final(reg).wf(),
            final(self).id == old(self).id,
            final(self).queue == old(self).queue,
            final(self).phase == ConnectionPhase::Terminated,
            final(reg)@.entries == drop_route(
                old(reg)@.entries,
                old(self).id@,
                old(self).queue as int,
            ),
            final(reg)@.queues == old(reg)@.queues.update(
                old(self).queue as int,
                QueueView {
                    signals: old(reg)@.queues[old(self).queue as int].signals,
                    open: false,
                },
            ),
    {
        reg.unregister(&self.id, self.queue);
        reg.close_queue(self.queue);
        self.phase = ConnectionPhase::Terminated;
    }
}

} // verus!
