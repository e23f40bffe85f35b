//! The envelope wire codec.
//!
//! A signaling envelope carries an opaque payload from one peer to another
//! through the relay. On the wire an envelope is a compact JSON object
//! `{"to":<string>,"from":<string>,"data":{<tag>:<string>}}` where `<tag>` is
//! one of `"Offer"`, `"Answer"` or `"Candidate"` and the tagged string holds
//! the engine's serialized description or candidate, which the relay never
//! inspects.
use vstd::prelude::*;

verus! {

/// A byte of the wire text: double quote.
pub const QUOTE: u8 = 34;
/// A byte of the wire text: backslash.
pub const BACKSLASH: u8 = 92;
/// A byte of the wire text: opening brace.
pub const LBRACE: u8 = 123;
/// A byte of the wire text: closing brace.
pub const RBRACE: u8 = 125;
/// A byte of the wire text: opening bracket.
pub const LBRACKET: u8 = 91;
/// A byte of the wire text: closing bracket.
pub const RBRACKET: u8 = 93;
/// A byte of the wire text: colon.
pub const COLON: u8 = 58;
/// A byte of the wire text: comma.
pub const COMMA: u8 = 44;

/// The bytes of the member key `to`.
pub open spec fn key_to() -> Seq<u8> {
    seq![116u8, 111u8]
}

/// The bytes of the member key `from`.
pub open spec fn key_from() -> Seq<u8> {
    seq![102u8, 114u8, 111u8, 109u8]
}

/// The bytes of the member key `data`.
pub open spec fn key_data() -> Seq<u8> {
    seq![100u8, 97u8, 116u8, 97u8]
}

/// The bytes of the payload tag `Offer`.
pub open spec fn tag_offer() -> Seq<u8> {
    seq![79u8, 102u8, 102u8, 101u8, 114u8]
}

/// The bytes of the payload tag `Answer`.
pub open spec fn tag_answer() -> Seq<u8> {
    seq![65u8, 110u8, 115u8, 119u8, 101u8, 114u8]
}

/// The bytes of the payload tag `Candidate`.
pub open spec fn tag_candidate() -> Seq<u8> {
    seq![67u8, 97u8, 110u8, 100u8, 105u8, 100u8, 97u8, 116u8, 101u8]
}

/// True of text that can stand in a wire string: no control bytes. Quotes and
/// backslashes are allowed; the codec escapes them.
pub open spec fn text_wf(s: Seq<u8>) -> bool {
    forall|i: int| 0 <= i < s.len() ==> s[i] >= 32
}

/// A session description produced by the negotiation engine, carried as an
/// opaque blob of text.
#[derive(Debug, Clone, PartialEq, Eq)]
pub struct SessionDescription {
    pub blob: Vec<u8>,
}

impl View for SessionDescription {
    type V = Seq<u8>;

    open spec fn view(&self) -> Seq<u8> {
        self.blob@
    }
}

/// An interactive connectivity candidate produced by the negotiation engine,
/// carried as an opaque blob of text.
#[derive(Debug, Clone, PartialEq, Eq)]
pub struct IceCandidate {
    pub blob: Vec<u8>,
}

impl View for IceCandidate {
    type V = Seq<u8>;

    open spec fn view(&self) -> Seq<u8> {
        self.blob@
    }
}

/// The payload of an envelope: one of the three signaling message kinds.
#[derive(Debug, Clone, PartialEq, Eq)]
pub enum SignalPayload {
    Offer(SessionDescription),
    Answer(SessionDescription),
    Candidate(IceCandidate),
}

/// The mathematical model of a payload: its kind and the bytes of its blob.
#[verifier::ext_equal]
pub enum PayloadView {
    Offer(Seq<u8>),
    Answer(Seq<u8>),
    Candidate(Seq<u8>),
}

impl View for SignalPayload {
    type V = PayloadView;

    open spec fn view(&self) -> PayloadView {
        match self {
            SignalPayload::Offer(d) => PayloadView::Offer(d@),
            SignalPayload::Answer(d) => PayloadView::Answer(d@),
            SignalPayload::Candidate(c) => PayloadView::Candidate(c@),
        }
    }
}

/// The tag bytes under which a payload is framed on the wire.
pub open spec fn payload_tag(p: PayloadView) -> Seq<u8> {
    match p {
        PayloadView::Offer(_) => tag_offer(),
        PayloadView::Answer(_) => tag_answer(),
        PayloadView::Candidate(_) => tag_candidate(),
    }
}

/// The blob bytes a payload carries.
pub open spec fn payload_blob(p: PayloadView) -> Seq<u8> {
    match p {
        PayloadView::Offer(b) => b,
        PayloadView::Answer(b) => b,
        PayloadView::Candidate(b) => b,
    }
}

/// An addressed signaling message: the only shape that travels over the relay.
#[derive(Debug, Clone, PartialEq, Eq)]
pub struct Envelope {
    pub to: Vec<u8>,
    pub from: Vec<u8>,
    pub data: SignalPayload,
}

/// The mathematical model of an envelope.
#[verifier::ext_equal]
pub struct EnvelopeView {
    pub to: Seq<u8>,
    pub from: Seq<u8>,
    pub data: PayloadView,
}

impl View for Envelope {
    type V = EnvelopeView;

    open spec fn view(&self) -> EnvelopeView {
        EnvelopeView { to: self.to@, from: self.from@, data: self.data@ }
    }
}

/// True of envelopes the codec round-trips: every carried text is free of
/// control bytes.
pub open spec fn envelope_wf(e: EnvelopeView) -> bool {
    text_wf(e.to) && text_wf(e.from) && text_wf(payload_blob(e.data))
}

/// A message that does not decode as an envelope; the receiver drops it.
#[derive(Debug)]
pub struct DecodeError;

/// The escaped form of `s`: each quote or backslash is preceded by a
/// backslash, every other byte stands as it is.
pub open spec fn escape(s: Seq<u8>) -> Seq<u8>
    decreases s.len(),
{
    if s.len() == 0 {
        seq![]
    } else if s[0] == QUOTE || s[0] == BACKSLASH {
        seq![BACKSLASH, s[0]] + escape(s.skip(1))
    } else {
        seq![s[0]] + escape(s.skip(1))
    }
}

/// The escaped form of a single byte.
pub proof fn lemma_escape_one(c: u8)
    ensures
        escape(seq![c]) == if c == QUOTE || c == BACKSLASH {
            seq![BACKSLASH, c]
        } else {
            seq![c]
        },
{
    let s = seq![c];
    assert(s.skip(1) =~= Seq::<u8>::empty());
    assert(escape(Seq::<u8>::empty()) == Seq::<u8>::empty());
    if c == QUOTE || c == BACKSLASH {
        assert(escape(s) =~= seq![BACKSLASH, c]);
    } else {
        assert(escape(s) =~= seq![c]);
    }
}

/// Escaping distributes over concatenation.
pub proof fn lemma_escape_append(a: Seq<u8>, b: Seq<u8>)
    ensures
        escape(a + b) == escape(a) + escape(b),
    decreases a.len(),
{
    if a.len() == 0 {
        assert(a + b =~= b);
        assert(escape(a) + escape(b) =~= escape(b));
    } else {
        lemma_escape_append(a.skip(1), b);
        assert((a + b).skip(1) =~= a.skip(1) + b);
        if a[0] == QUOTE || a[0] == BACKSLASH {
            assert(escape(a + b) =~= escape(a) + escape(b));
        } else {
            assert(escape(a + b) =~= escape(a) + escape(b));
        }
    }
}

/// Appends the escaped form of `s` to `out`.
fn push_escaped(out: &mut Vec<u8>, s: &Vec<u8>)
    ensures
        final(out)@ == old(out)@ + escape(s@),
{
    let mut i: usize = 0;
    while i < s.len()
        invariant
            i <= s.len(),
            out@ == old(out)@ + escape(s@.take(i as int)),
        decreases s.len() - i,
    {
        let b = s[i];
        if b == QUOTE || b == BACKSLASH {
            out.push(BACKSLASH);
        }
        out.push(b);
        proof {
            assert(s@.take(i + 1) =~= s@.take(i as int) + seq![s@[i as int]]);
            lemma_escape_append(s@.take(i as int), seq![s@[i as int]]);
            lemma_escape_one(s@[i as int]);
            assert(out@ =~= old(out)@ + escape(s@.take(i + 1)));
        }
        i = i + 1;
    }
    proof {
        assert(s@.take(s@.len() as int) =~= s@);
    }
}

/// Escaping text free of quotes and backslashes changes nothing.
pub proof fn lemma_escape_plain(s: Seq<u8>)
    requires
        forall|i: int| 0 <= i < s.len() ==> s[i] != QUOTE && s[i] != BACKSLASH,
    ensures
        escape(s) == s,
    decreases s.len(),
{
    if s.len() == 0 {
        assert(escape(s) =~= s);
    } else {
        lemma_escape_plain(s.skip(1));
        assert(escape(s) =~= s);
    }
}

/// The wire form of a string: its escaped bytes between double quotes.
pub open spec fn quoted(s: Seq<u8>) -> Seq<u8> {
    seq![QUOTE] + escape(s) + seq![QUOTE]
}

/// The wire form of a payload: a one-member object tagging the blob.
pub open spec fn encode_payload(p: PayloadView) -> Seq<u8> {
    seq![LBRACE] + quoted(payload_tag(p)) + seq![COLON] + quoted(payload_blob(p)) + seq![RBRACE]
}

/// The wire form of an envelope.
pub open spec fn encoding(e: EnvelopeView) -> Seq<u8> {
    seq![LBRACE] + quoted(key_to()) + seq![COLON] + quoted(e.to) + seq![COMMA] + quoted(key_from())
        + seq![COLON] + quoted(e.from) + seq![COMMA] + quoted(key_data()) + seq![COLON]
        + encode_payload(e.data) + seq![RBRACE]
}

/// Appends the wire form of `s` to `out`.
fn push_quoted(out: &mut Vec<u8>, s: &Vec<u8>)
    ensures
        final(out)@ == old(out)@ + quoted(s@),
{
    out.push(QUOTE);
    push_escaped(out, s);
    out.push(QUOTE);
    proof {
        assert(out@ =~= old(out)@ + quoted(s@));
    }
}

/// Appends the quoted member key `to`.
fn push_key_to(out: &mut Vec<u8>)
    ensures
        final(out)@ == old(out)@ + quoted(key_to()),
{
    out.push(QUOTE);
    out.push(116);
    out.push(111);
    out.push(QUOTE);
    proof {
        lemma_escape_plain(key_to());
        assert(out@ =~= old(out)@ + quoted(key_to()));
    }
}

/// Appends the quoted member key `from`.
fn push_key_from(out: &mut Vec<u8>)
    ensures
        final(out)@ == old(out)@ + quoted(key_from()),
{
    out.push(QUOTE);
    out.push(102);
    out.push(114);
    out.push(111);
    out.push(109);
    out.push(QUOTE);
    proof {
        lemma_escape_plain(key_from());
        assert(out@ =~= old(out)@ + quoted(key_from()));
    }
}

/// Appends the quoted member key `data`.
fn push_key_data(out: &mut Vec<u8>)
    ensures
        final(out)@ == old(out)@ + quoted(key_data()),
{
    out.push(QUOTE);
    out.push(100);
    out.push(97);
    out.push(116);
    out.push(97);
    out.push(QUOTE);
    proof {
        lemma_escape_plain(key_data());
        assert(out@ =~= old(out)@ + quoted(key_data()));
    }
}

/// Appends the quoted tag of `p`.
fn push_tag(out: &mut Vec<u8>, p: &SignalPayload)
    ensures
        final(out)@ == old(out)@ + quoted(payload_tag(p@)),
{
    out.push(QUOTE);
    match p {
        SignalPayload::Offer(_) => {
            out.push(79);
            out.push(102);
            out.push(102);
            out.push(101);
            out.push(114);
        },
        SignalPayload::Answer(_) => {
            out.push(65);
            out.push(110);
            out.push(115);
            out.push(119);
            out.push(101);
            out.push(114);
        },
        SignalPayload::Candidate(_) => {
            out.push(67);
            out.push(97);
            out.push(110);
            out.push(100);
            out.push(105);
            out.push(100);
            out.push(97);
            out.push(116);
            out.push(101);
        },
    }
    out.push(QUOTE);
    proof {
        lemma_escape_plain(payload_tag(p@));
        assert(out@ =~= old(out)@ + quoted(payload_tag(p@)));
    }
}

/// Appends the wire form of a payload to `out`.
fn push_payload(out: &mut Vec<u8>, p: &SignalPayload)
    ensures
        final(out)@ == old(out)@ + encode_payload(p@),
{
    out.push(LBRACE);
    push_tag(out, p);
    out.push(COLON);
    match p {
        SignalPayload::Offer(d) => push_quoted(out, &d.blob),
        SignalPayload::Answer(d) => push_quoted(out, &d.blob),
        SignalPayload::Candidate(c) => push_quoted(out, &c.blob),
    }
    out.push(RBRACE);
    proof {
        assert(out@ =~= old(out)@ + encode_payload(p@));
    }
}

/// Reads the body of a wire string up to its closing quote, undoing the
/// escapes. Returns the text and what follows the closing quote.
pub open spec fn parse_string_body(s: Seq<u8>) -> Option<(Seq<u8>, Seq<u8>)>
    decreases s.len(),
{
    if s.len() == 0 {
        Option::None
    } else if s[0] == QUOTE {
        Option::Some((seq![], s.skip(1)))
    } else if s[0] == BACKSLASH {
        if s.len() >= 2 && (s[1] == QUOTE || s[1] == BACKSLASH) {
            match parse_string_body(s.skip(2)) {
                Option::Some(r) => Option::Some((seq![s[1]] + r.0, r.1)),
                Option::None => Option::None,
            }
        } else {
            Option::None
        }
    } else if s[0] < 32 {
        Option::None
    } else {
        match parse_string_body(s.skip(1)) {
            Option::Some(r) => Option::Some((seq![s[0]] + r.0, r.1)),
            Option::None => Option::None,
        }
    }
}

/// Reads a wire string, opening quote included.
pub open spec fn parse_string(s: Seq<u8>) -> Option<(Seq<u8>, Seq<u8>)> {
    if s.len() > 0 && s[0] == QUOTE {
        parse_string_body(s.skip(1))
    } else {
        Option::None
    }
}

/// Skips one bare scalar token: a run of bytes up to a comma or a closing
/// brace or bracket. Returns what follows the run.
pub open spec fn skip_scalar(s: Seq<u8>) -> Option<Seq<u8>>
    decreases s.len(),
{
    if s.len() == 0 {
        Option::None
    } else if s[0] == COMMA || s[0] == RBRACE || s[0] == RBRACKET {
        Option::None
    } else if s.len() == 1 {
        Option::Some(seq![])
    } else if s[1] == COMMA || s[1] == RBRACE || s[1] == RBRACKET {
        Option::Some(s.skip(1))
    } else {
        skip_scalar(s.skip(1))
    }
}

/// Skips the remainder of a nested object or array that is already `depth`
/// levels open, tolerating any bracket flavour, and returns what follows the
/// close of the outermost level. Strings are skipped whole, so brackets
/// inside them do not count.
pub open spec fn skip_composite(s: Seq<u8>, depth: nat) -> Option<Seq<u8>>
    decreases s.len(),
{
    if s.len() == 0 || depth == 0 {
        Option::None
    } else if s[0] == QUOTE {
        match parse_string_body(s.skip(1)) {
            Option::Some(r) => if r.1.len() < s.len() {
                skip_composite(r.1, depth)
            } else {
                Option::None
            },
            Option::None => Option::None,
        }
    } else if s[0] == LBRACE || s[0] == LBRACKET {
        skip_composite(s.skip(1), depth + 1)
    } else if s[0] == RBRACE || s[0] == RBRACKET {
        if depth == 1 {
            Option::Some(s.skip(1))
        } else {
            skip_composite(s.skip(1), (depth - 1) as nat)
        }
    } else {
        skip_composite(s.skip(1), depth)
    }
}

/// Skips one value of an ignored member and returns what follows it. The
/// codec does not interpret ignored values; it only finds their end.
pub open spec fn skip_value(s: Seq<u8>) -> Option<Seq<u8>> {
    if s.len() == 0 {
        Option::None
    } else if s[0] == QUOTE {
        match parse_string(s) {
            Option::Some(r) => Option::Some(r.1),
            Option::None => Option::None,
        }
    } else if s[0] == LBRACE || s[0] == LBRACKET {
        skip_composite(s.skip(1), 1)
    } else {
        skip_scalar(s)
    }
}

/// Looks a tag up among the three payload kinds.
pub open spec fn tag_payload(tag: Seq<u8>, blob: Seq<u8>) -> Option<PayloadView> {
    if tag == tag_offer() {
        Option::Some(PayloadView::Offer(blob))
    } else if tag == tag_answer() {
        Option::Some(PayloadView::Answer(blob))
    } else if tag == tag_candidate() {
        Option::Some(PayloadView::Candidate(blob))
    } else {
        Option::None
    }
}

/// Reads a payload object: an opening brace, one known tag, a colon, the
/// quoted blob, and a closing brace. An unknown tag fails the parse.
pub open spec fn parse_payload(s: Seq<u8>) -> Option<(PayloadView, Seq<u8>)> {
    if s.len() > 0 && s[0] == LBRACE {
        match parse_string(s.skip(1)) {
            Option::Some(t) => if t.1.len() > 0 && t.1[0] == COLON {
                match parse_string(t.1.skip(1)) {
                    Option::Some(b) => if b.1.len() > 0 && b.1[0] == RBRACE {
                        match tag_payload(t.0, b.0) {
                            Option::Some(p) => Option::Some((p, b.1.skip(1))),
                            Option::None => Option::None,
                        }
                    } else {
                        Option::None
                    },
                    Option::None => Option::None,
                }
            } else {
                Option::None
            },
            Option::None => Option::None,
        }
    } else {
        Option::None
    }
}

/// Reads the members of an envelope object from after its opening brace to
/// its closing brace. `to`, `from` and `data` may come in any order but each
/// at most once; any other member is skipped. Returns the envelope and what
/// follows the closing brace.
pub open spec fn parse_members(
    s: Seq<u8>,
    to: Option<Seq<u8>>,
    fr: Option<Seq<u8>>,
    data: Option<PayloadView>,
) -> Option<(EnvelopeView, Seq<u8>)>
    decreases s.len(),
{
    match parse_string(s) {
        Option::Some(k) => if k.1.len() > 0 && k.1[0] == COLON {
            let rv = k.1.skip(1);
            let step: Option<(Option<Seq<u8>>, Option<Seq<u8>>, Option<PayloadView>, Seq<u8>)> = if k.0
                == key_to() {
                if to is Some {
                    Option::None
                } else {
                    match parse_string(rv) {
                        Option::Some(v) => Option::Some((Option::Some(v.0), fr, data, v.1)),
                        Option::None => Option::None,
                    }
                }
            } else if k.0 == key_from() {
                if fr is Some {
                    Option::None
                } else {
                    match parse_string(rv) {
                        Option::Some(v) => Option::Some((to, Option::Some(v.0), data, v.1)),
                        Option::None => Option::None,
                    }
                }
            } else if k.0 == key_data() {
                if data is Some {
                    Option::None
                } else {
                    match parse_payload(rv) {
                        Option::Some(v) => Option::Some((to, fr, Option::Some(v.0), v.1)),
                        Option::None => Option::None,
                    }
                }
            } else {
                match skip_value(rv) {
                    Option::Some(r2) => Option::Some((to, fr, data, r2)),
                    Option::None => Option::None,
                }
            };
            match step {
                Option::Some(q) => if q.3.len() >= s.len() {
                    Option::None
                } else if q.3.len() > 0 && q.3[0] == COMMA {
                    parse_members(q.3.skip(1), q.0, q.1, q.2)
                } else if q.3.len() > 0 && q.3[0] == RBRACE {
                    match (q.0, q.1, q.2) {
                        (Option::Some(t), Option::Some(f), Option::Some(d)) => Option::Some(
                            (EnvelopeView { to: t, from: f, data: d }, q.3.skip(1)),
                        ),
                        _ => Option::None,
                    }
                } else {
                    Option::None
                },
                Option::None => Option::None,
            }
        } else {
            Option::None
        },
        Option::None => Option::None,
    }
}

/// Reads the body of a wire string starting at `i0`, which stands right
/// after the opening quote.
fn parse_string_body_ex(s: &Vec<u8>, i0: usize) -> (r: Option<(Vec<u8>, usize)>)
    requires
        i0 <= s@.len(),
    ensures
        match r {
            Option::Some(v) => {
                &&& i0 < v.1 <= s@.len()
                &&& parse_string_body(s@.skip(i0 as int)) == Option::Some(
                    (v.0@, s@.skip(v.1 as int)),
                )
            },
            Option::None => parse_string_body(s@.skip(i0 as int)) is None,
        },
{
    let mut i: usize = i0;
    let mut acc: Vec<u8> = Vec::new();
    loop
        invariant
            i0 <= i <= s@.len(),
            match parse_string_body(s@.skip(i as int)) {
                Option::Some(r) => parse_string_body(s@.skip(i0 as int)) == Option::Some(
                    (acc@ + r.0, r.1),
                ),
                Option::None => parse_string_body(s@.skip(i0 as int)) is None,
            },
        decreases s@.len() - i,
    {
        if i >= s.len() {
            proof {
                assert(s@.skip(i as int).len() == 0);
            }
            return Option::None;
        }
        let b = s[i];
        proof {
            assert(s@.skip(i as int)[0] == b);
        }
        if b == QUOTE {
            proof {
                assert(s@.skip(i as int).skip(1) =~= s@.skip(i + 1));
                assert(acc@ + Seq::<u8>::empty() =~= acc@);
            }
            return Option::Some((acc, i + 1));
        } else if b == BACKSLASH {
            if i + 1 < s.len() && (s[i + 1] == QUOTE || s[i + 1] == BACKSLASH) {
                let c = s[i + 1];
                proof {
                    assert(s@.skip(i as int)[1] == c);
                    assert(s@.skip(i as int).skip(2) =~= s@.skip(i + 2));
                    let acc0 = acc@;
                    match parse_string_body(s@.skip(i + 2)) {
                        Option::Some(r) => {
                            assert(acc0 + (seq![c] + r.0) =~= (acc0 + seq![c]) + r.0);
                        },
                        Option::None => {},
                    }
                }
                acc.push(c);
                i = i + 2;
            } else {
                proof {
                    assert(s@.skip(i as int).len() >= 2 ==> s@.skip(i as int)[1] == s@[i + 1]);
                }
                return Option::None;
            }
        } else if b < 32 {
            return Option::None;
        } else {
            proof {
                assert(s@.skip(i as int).skip(1) =~= s@.skip(i + 1));
                let acc0 = acc@;
                match parse_string_body(s@.skip(i + 1)) {
                    Option::Some(r) => {
                        assert(acc0 + (seq![b] + r.0) =~= (acc0 + seq![b]) + r.0);
                    },
                    Option::None => {},
                }
            }
            acc.push(b);
            i = i + 1;
        }
    }
}

/// Reads a wire string, opening quote included, starting at `i0`.
fn parse_string_ex(s: &Vec<u8>, i0: usize) -> (r: Option<(Vec<u8>, usize)>)
    requires
        i0 <= s@.len(),
    ensures
        match r {
            Option::Some(v) => {
                &&& i0 < v.1 <= s@.len()
                &&& parse_string(s@.skip(i0 as int)) == Option::Some((v.0@, s@.skip(v.1 as int)))
            },
            Option::None => parse_string(s@.skip(i0 as int)) is None,
        },
{
    if i0 < s.len() && s[i0] == QUOTE {
        proof {
            assert(s@.skip(i0 as int)[0] == QUOTE);
            assert(s@.skip(i0 as int).skip(1) =~= s@.skip(i0 + 1));
        }
        parse_string_body_ex(s, i0 + 1)
    } else {
        proof {
            assert(i0 < s@.len() ==> s@.skip(i0 as int)[0] == s@[i0 as int]);
        }
        Option::None
    }
}

/// Skips one bare scalar token starting at `i0`.
fn skip_scalar_ex(s: &Vec<u8>, i0: usize) -> (r: Option<usize>)
    requires
        i0 <= s@.len(),
    ensures
        match r {
            Option::Some(j) => i0 < j <= s@.len() && skip_scalar(s@.skip(i0 as int))
                == Option::Some(s@.skip(j as int)),
            Option::None => skip_scalar(s@.skip(i0 as int)) is None,
        },
{
    if i0 >= s.len() {
        return Option::None;
    }
    if s[i0] == COMMA || s[i0] == RBRACE || s[i0] == RBRACKET {
        proof {
            assert(s@.skip(i0 as int)[0] == s@[i0 as int]);
        }
        return Option::None;
    }
    let mut i: usize = i0;
    loop
        invariant
            i0 <= i < s@.len(),
            s@[i as int] != COMMA && s@[i as int] != RBRACE && s@[i as int] != RBRACKET,
            skip_scalar(s@.skip(i0 as int)) == skip_scalar(s@.skip(i as int)),
        decreases s@.len() - i,
    {
        proof {
            assert(s@.skip(i as int)[0] == s@[i as int]);
        }
        let n = s.len();
        if i + 1 >= n {
            proof {
                assert(s@.skip(i as int).len() == 1);
                assert(s@.skip(i + 1) =~= Seq::<u8>::empty());
            }
            return Option::Some(i + 1);
        }
        let b = s[i + 1];
        proof {
            assert(s@.skip(i as int)[1] == b);
            assert(s@.skip(i as int).skip(1) =~= s@.skip(i + 1));
        }
        if b == COMMA || b == RBRACE || b == RBRACKET {
            return Option::Some(i + 1);
        }
        i = i + 1;
    }
}

/// Skips a nested object or array whose opening bracket stood right before
/// `i0`.
fn skip_composite_ex(s: &Vec<u8>, i0: usize) -> (r: Option<usize>)
    requires
        1 <= i0 <= s@.len(),
    ensures
        match r {
            Option::Some(j) => i0 < j <= s@.len() && skip_composite(s@.skip(i0 as int), 1)
                == Option::Some(s@.skip(j as int)),
            Option::None => skip_composite(s@.skip(i0 as int), 1) is None,
        },
{
    let mut i: usize = i0;
    let mut depth: usize = 1;
    loop
        invariant
            i0 <= i <= s@.len(),
            1 <= depth <= 1 + i - i0,
            i0 >= 1,
            skip_composite(s@.skip(i0 as int), 1) == skip_composite(
                s@.skip(i as int),
                depth as nat,
            ),
        decreases s@.len() - i,
    {
        if i >= s.len() {
            return Option::None;
        }
        let b = s[i];
        proof {
            assert(s@.skip(i as int)[0] == b);
            assert(s@.skip(i as int).skip(1) =~= s@.skip(i + 1));
        }
        if b == QUOTE {
            match parse_string_body_ex(s, i + 1) {
                Option::Some(v) => {
                    i = v.1;
                },
                Option::None => {
                    return Option::None;
                },
            }
        } else if b == LBRACE || b == LBRACKET {
            depth = depth + 1;
            i = i + 1;
        } else if b == RBRACE || b == RBRACKET {
            if depth == 1 {
                return Option::Some(i + 1);
            } else {
                depth = depth - 1;
                i = i + 1;
            }
        } else {
            i = i + 1;
        }
    }
}

/// Skips one value of an ignored member starting at `i0`.
fn skip_value_ex(s: &Vec<u8>, i0: usize) -> (r: Option<usize>)
    requires
        1 <= i0 <= s@.len(),
    ensures
        match r {
            Option::Some(j) => i0 < j <= s@.len() && skip_value(s@.skip(i0 as int)) == Option::Some(
                s@.skip(j as int),
            ),
            Option::None => skip_value(s@.skip(i0 as int)) is None,
        },
{
    if i0 >= s.len() {
        return Option::None;
    }
    let b = s[i0];
    proof {
        assert(s@.skip(i0 as int)[0] == b);
        assert(s@.skip(i0 as int).skip(1) =~= s@.skip(i0 + 1));
    }
    if b == QUOTE {
        match parse_string_ex(s, i0) {
            Option::Some(v) => Option::Some(v.1),
            Option::None => Option::None,
        }
    } else if b == LBRACE || b == LBRACKET {
        skip_composite_ex(s, i0 + 1)
    } else {
        skip_scalar_ex(s, i0)
    }
}

/// True exactly of the bytes of the member key `to`.
fn is_key_to(v: &Vec<u8>) -> (r: bool)
    ensures
        r == (v@ == key_to()),
{
    let r = v.len() == 2 && v[0] == 116 && v[1] == 111;
    proof {
        if r {
            assert(v@ =~= key_to());
        }
    }
    r
}

/// True exactly of the bytes of the member key `from`.
fn is_key_from(v: &Vec<u8>) -> (r: bool)
    ensures
        r == (v@ == key_from()),
{
    let r = v.len() == 4 && v[0] == 102 && v[1] == 114 && v[2] == 111 && v[3] == 109;
    proof {
        if r {
            assert(v@ =~= key_from());
        }
    }
    r
}

/// True exactly of the bytes of the member key `data`.
fn is_key_data(v: &Vec<u8>) -> (r: bool)
    ensures
        r == (v@ == key_data()),
{
    let r = v.len() == 4 && v[0] == 100 && v[1] == 97 && v[2] == 116 && v[3] == 97;
    proof {
        if r {
            assert(v@ =~= key_data());
        }
    }
    r
}

/// True exactly of the bytes of the payload tag `Offer`.
fn is_tag_offer(v: &Vec<u8>) -> (r: bool)
    ensures
        r == (v@ == tag_offer()),
{
    let r = v.len() == 5 && v[0] == 79 && v[1] == 102 && v[2] == 102 && v[3] == 101 && v[4] == 114;
    proof {
        if r {
            assert(v@ =~= tag_offer());
        }
    }
    r
}

/// True exactly of the bytes of the payload tag `Answer`.
fn is_tag_answer(v: &Vec<u8>) -> (r: bool)
    ensures
        r == (v@ == tag_answer()),
{
    let r = v.len() == 6 && v[0] == 65 && v[1] == 110 && v[2] == 115 && v[3] == 119 && v[4] == 101
        && v[5] == 114;
    proof {
        if r {
            assert(v@ =~= tag_answer());
        }
    }
    r
}

/// True exactly of the bytes of the payload tag `Candidate`.
fn is_tag_candidate(v: &Vec<u8>) -> (r: bool)
    ensures
        r == (v@ == tag_candidate()),
{
    let r = v.len() == 9 && v[0] == 67 && v[1] == 97 && v[2] == 110 && v[3] == 100 && v[4] == 105
        && v[5] == 100 && v[6] == 97 && v[7] == 116 && v[8] == 101;
    proof {
        if r {
            assert(v@ =~= tag_candidate());
        }
    }
    r
}

/// Reads a payload object starting at `i0`.
fn parse_payload_ex(s: &Vec<u8>, i0: usize) -> (r: Option<(SignalPayload, usize)>)
    requires
        i0 <= s@.len(),
    ensures
        match r {
            Option::Some(v) => {
                &&& i0 < v.1 <= s@.len()
                &&& parse_payload(s@.skip(i0 as int)) == Option::Some((v.0@, s@.skip(v.1 as int)))
            },
            Option::None => parse_payload(s@.skip(i0 as int)) is None,
        },
{
    if !(i0 < s.len() && s[i0] == LBRACE) {
        proof {
            assert(i0 < s@.len() ==> s@.skip(i0 as int)[0] == s@[i0 as int]);
        }
        return Option::None;
    }
    proof {
        assert(s@.skip(i0 as int)[0] == LBRACE);
        assert(s@.skip(i0 as int).skip(1) =~= s@.skip(i0 + 1));
    }
    let tag = match parse_string_ex(s, i0 + 1) {
        Option::Some(t) => t,
        Option::None => {
            return Option::None;
        },
    };
    let j1 = tag.1;
    proof {
        assert(j1 < s@.len() ==> s@.skip(j1 as int)[0] == s@[j1 as int]);
    }
    if !(j1 < s.len() && s[j1] == COLON) {
        return Option::None;
    }
    proof {
        assert(s@.skip(j1 as int).skip(1) =~= s@.skip(j1 + 1));
    }
    let blob = match parse_string_ex(s, j1 + 1) {
        Option::Some(b) => b,
        Option::None => {
            return Option::None;
        },
    };
    let j2 = blob.1;
    proof {
        assert(j2 < s@.len() ==> s@.skip(j2 as int)[0] == s@[j2 as int]);
    }
    if !(j2 < s.len() && s[j2] == RBRACE) {
        return Option::None;
    }
    proof {
        assert(s@.skip(j2 as int).skip(1) =~= s@.skip(j2 + 1));
    }
    if is_tag_offer(&tag.0) {
        Option::Some((SignalPayload::Offer(SessionDescription { blob: blob.0 }), j2 + 1))
    } else if is_tag_answer(&tag.0) {
        Option::Some((SignalPayload::Answer(SessionDescription { blob: blob.0 }), j2 + 1))
    } else if is_tag_candidate(&tag.0) {
        Option::Some((SignalPayload::Candidate(IceCandidate { blob: blob.0 }), j2 + 1))
    } else {
        Option::None
    }
}

/// What a wire message means: the envelope it carries, or nothing when it
/// does not have the envelope shape.
pub open spec fn decode_spec(s: Seq<u8>) -> Option<EnvelopeView> {
    if s.len() > 0 && s[0] == LBRACE {
        match parse_members(s.skip(1), Option::None, Option::None, Option::None) {
            Option::Some(r) => if r.1.len() == 0 {
                Option::Some(r.0)
            } else {
                Option::None
            },
            Option::None => Option::None,
        }
    } else {
        Option::None
    }
}

/// The model of a partially gathered text member.
pub open spec fn opt_bytes(v: Option<Vec<u8>>) -> Option<Seq<u8>> {
    match v {
        Option::Some(x) => Option::Some(x@),
        Option::None => Option::None,
    }
}

/// The model of a partially gathered payload member.
pub open spec fn opt_payload(v: Option<SignalPayload>) -> Option<PayloadView> {
    match v {
        Option::Some(x) => Option::Some(x@),
        Option::None => Option::None,
    }
}

/// Decodes wire bytes into the envelope they carry. Fails exactly on the
/// messages that do not have the envelope shape; a failed decode has no other
/// effect.
pub fn decode(s: &Vec<u8>) -> (r: Result<Envelope, DecodeError>)
    ensures
        match r {
            Result::Ok(env) => decode_spec(s@) == Option::Some(env@),
            Result::Err(_) => decode_spec(s@) is None,
        },
{
    if s.len() == 0 || s[0] != LBRACE {
        return Result::Err(DecodeError);
    }
    let mut i: usize = 1;
    let mut to_v: Option<Vec<u8>> = Option::None;
    let mut fr_v: Option<Vec<u8>> = Option::None;
    let mut data_v: Option<SignalPayload> = Option::None;
    loop
        invariant
            1 <= i <= s@.len(),
            decode_spec(s@) == match parse_members(
                s@.skip(i as int),
                opt_bytes(to_v),
                opt_bytes(fr_v),
                opt_payload(data_v),
            ) {
                Option::Some(r) => if r.1.len() == 0 {
                    Option::Some(r.0)
                } else {
                    Option::None
                },
                Option::None => Option::None,
            },
        decreases s@.len() - i,
    {
        let key = match parse_string_ex(s, i) {
            Option::Some(k) => k,
            Option::None => {
                return Result::Err(DecodeError);
            },
        };
        let j = key.1;
        proof {
            assert(j < s@.len() ==> s@.skip(j as int)[0] == s@[j as int]);
        }
        if !(j < s.len() && s[j] == COLON) {
            return Result::Err(DecodeError);
        }
        proof {
            assert(s@.skip(j as int).skip(1) =~= s@.skip(j + 1));
        }
        let rv = j + 1;
        let i2: usize;
        if is_key_to(&key.0) {
            if to_v.is_some() {
                return Result::Err(DecodeError);
            }
            match parse_string_ex(s, rv) {
                Option::Some(v) => {
                    to_v = Option::Some(v.0);
                    i2 = v.1;
                },
                Option::None => {
                    return Result::Err(DecodeError);
                },
            }
        } else if is_key_from(&key.0) {
            if fr_v.is_some() {
                return Result::Err(DecodeError);
            }
            match parse_string_ex(s, rv) {
                Option::Some(v) => {
                    fr_v = Option::Some(v.0);
                    i2 = v.1;
                },
                Option::None => {
                    return Result::Err(DecodeError);
                },
            }
        } else if is_key_data(&key.0) {
            if data_v.is_some() {
                return Result::Err(DecodeError);
            }
            match parse_payload_ex(s, rv) {
                Option::Some(v) => {
                    data_v = Option::Some(v.0);
                    i2 = v.1;
                },
                Option::None => {
                    return Result::Err(DecodeError);
                },
            }
        } else {
            match skip_value_ex(s, rv) {
                Option::Some(v) => {
                    i2 = v;
                },
                Option::None => {
                    return Result::Err(DecodeError);
                },
            }
        }
        proof {
            assert(i2 < s@.len() ==> s@.skip(i2 as int)[0] == s@[i2 as int]);
            assert(i2 < s@.len() ==> s@.skip(i2 as int).skip(1) =~= s@.skip(i2 + 1));
        }
        if i2 < s.len() && s[i2] == COMMA {
            i = i2 + 1;
        } else if i2 < s.len() && s[i2] == RBRACE {
            if i2 + 1 != s.len() {
                return Result::Err(DecodeError);
            }
            proof {
                assert(s@.skip(i2 + 1).len() == 0);
            }
            match (to_v, fr_v, data_v) {
                (Option::Some(t), Option::Some(f), Option::Some(d)) => {
                    return Result::Ok(Envelope { to: t, from: f, data: d });
                },
                _ => {
                    return Result::Err(DecodeError);
                },
            }
        } else {
            return Result::Err(DecodeError);
        }
    }
}

/// Encodes an envelope into its wire bytes.
pub fn encode(e: &Envelope) -> (out: Vec<u8>)
    ensures
        out@ == encoding(e@),
{
    let mut out: Vec<u8> = Vec::new();
    out.push(LBRACE);
    push_key_to(&mut out);
    out.push(COLON);
    push_quoted(&mut out, &e.to);
    out.push(COMMA);
    push_key_from(&mut out);
    out.push(COLON);
    push_quoted(&mut out, &e.from);
    out.push(COMMA);
    push_key_data(&mut out);
    out.push(COLON);
    push_payload(&mut out, &e.data);
    out.push(RBRACE);
    proof {
        assert(out@ =~= encoding(e@));
    }
    out
}

/// A wire string parses back to the text it was made from, leaving exactly
/// what followed it.
pub proof fn lemma_parse_escaped_body(v: Seq<u8>, rest: Seq<u8>)
    requires
        text_wf(v),
    ensures
        parse_string_body(escape(v) + seq![QUOTE] + rest) == Option::Some((v, rest)),
    decreases v.len(),
{
    let s = escape(v) + seq![QUOTE] + rest;
    if v.len() == 0 {
        assert(escape(v) =~= Seq::<u8>::empty());
        assert(s[0] == QUOTE);
        assert(s.skip(1) =~= rest);
    } else {
        let c = v[0];
        let v1 = v.skip(1);
        assert(text_wf(v1)) by {
            assert(forall|i: int| 0 <= i < v1.len() ==> v1[i] == v[i + 1]);
        }
        lemma_parse_escaped_body(v1, rest);
        if c == QUOTE || c == BACKSLASH {
            assert(escape(v) == seq![BACKSLASH, c] + escape(v1));
            assert(s[0] == BACKSLASH);
            assert(s[1] == c);
            assert(s.skip(2) =~= escape(v1) + seq![QUOTE] + rest);
            assert(seq![c] + v1 =~= v);
        } else {
            assert(escape(v) == seq![c] + escape(v1));
            assert(s[0] == c);
            assert(c >= 32);
            assert(s.skip(1) =~= escape(v1) + seq![QUOTE] + rest);
            assert(seq![c] + v1 =~= v);
        }
    }
}

/// A quoted wire string parses back to its text.
pub proof fn lemma_parse_quoted(v: Seq<u8>, rest: Seq<u8>)
    requires
        text_wf(v),
    ensures
        parse_string(quoted(v) + rest) == Option::Some((v, rest)),
{
    let s = quoted(v) + rest;
    assert(s[0] == QUOTE);
    assert(s.skip(1) =~= escape(v) + seq![QUOTE] + rest);
    lemma_parse_escaped_body(v, rest);
}

/// An encoded payload parses back to itself, leaving exactly what followed
/// it.
pub proof fn lemma_parse_payload_round(d: PayloadView, rest: Seq<u8>)
    requires
        text_wf(payload_blob(d)),
    ensures
        parse_payload(encode_payload(d) + rest) == Option::Some((d, rest)),
{
    let s = encode_payload(d) + rest;
    let tag = payload_tag(d);
    let blob = payload_blob(d);
    assert(text_wf(tag_offer()));
    assert(text_wf(tag_answer()));
    assert(text_wf(tag_candidate()));
    let r1 = seq![COLON] + quoted(blob) + seq![RBRACE] + rest;
    assert(s[0] == LBRACE);
    assert(s.skip(1) =~= quoted(tag) + r1);
    lemma_parse_quoted(tag, r1);
    assert(r1[0] == COLON);
    let r2 = seq![RBRACE] + rest;
    assert(r1.skip(1) =~= quoted(blob) + r2);
    lemma_parse_quoted(blob, r2);
    assert(r2[0] == RBRACE);
    assert(r2.skip(1) =~= rest);
    match d {
        PayloadView::Offer(_) => {},
        PayloadView::Answer(_) => {
            assert(tag_answer() != tag_offer());
        },
        PayloadView::Candidate(_) => {
            assert(tag_candidate() != tag_offer());
            assert(tag_candidate() != tag_answer());
        },
    }
}

/// Round trip: decoding an encoded envelope yields that envelope, for every
/// envelope free of control bytes.
#[verifier::rlimit(50)]
pub proof fn lemma_round_trip(e: EnvelopeView)
    requires
        envelope_wf(e),
    ensures
        decode_spec(encoding(e)) == Option::Some(e),
{
    let s = encoding(e);
    assert(text_wf(key_to()));
    assert(text_wf(key_from()));
    assert(text_wf(key_data()));
    assert(s[0] == LBRACE);

    let r3 = encode_payload(e.data) + seq![RBRACE];
    let m3 = quoted(key_data()) + (seq![COLON] + r3);
    let r2 = quoted(e.from) + (seq![COMMA] + m3);
    let m2 = quoted(key_from()) + (seq![COLON] + r2);
    let r1 = quoted(e.to) + (seq![COMMA] + m2);
    let m1 = quoted(key_to()) + (seq![COLON] + r1);
    assert(s.skip(1) =~= m1);

    // first member: "to"
    lemma_parse_quoted(key_to(), seq![COLON] + r1);
    assert((seq![COLON] + r1)[0] == COLON);
    assert((seq![COLON] + r1).skip(1) =~= r1);
    lemma_parse_quoted(e.to, seq![COMMA] + m2);
    assert((seq![COMMA] + m2)[0] == COMMA);
    assert((seq![COMMA] + m2).skip(1) =~= m2);
    assert((seq![COMMA] + m2).len() < m1.len());
    assert(parse_members(m1, Option::None, Option::None, Option::None) == parse_members(
        m2,
        Option::Some(e.to),
        Option::None,
        Option::None,
    ));

    // second member: "from"
    assert(key_from() != key_to());
    lemma_parse_quoted(key_from(), seq![COLON] + r2);
    assert((seq![COLON] + r2)[0] == COLON);
    assert((seq![COLON] + r2).skip(1) =~= r2);
    lemma_parse_quoted(e.from, seq![COMMA] + m3);
    assert((seq![COMMA] + m3)[0] == COMMA);
    assert((seq![COMMA] + m3).skip(1) =~= m3);
    assert((seq![COMMA] + m3).len() < m2.len());
    assert(parse_members(m2, Option::Some(e.to), Option::None, Option::None) == parse_members(
        m3,
        Option::Some(e.to),
        Option::Some(e.from),
        Option::None,
    ));

    // third member: "data"
    assert(key_data() != key_to());
    assert(key_data() != key_from()) by {
        assert(key_data()[0] == 100);
        assert(key_from()[0] == 102);
    }
    lemma_parse_quoted(key_data(), seq![COLON] + r3);
    assert((seq![COLON] + r3)[0] == COLON);
    assert((seq![COLON] + r3).skip(1) =~= r3);
    lemma_parse_payload_round(e.data, seq![RBRACE]);
    assert(seq![RBRACE][0] == RBRACE);
    assert(seq![RBRACE].skip(1) =~= Seq::<u8>::empty());
    assert(seq![RBRACE].len() < m3.len());
    assert(parse_members(m3, Option::Some(e.to), Option::Some(e.from), Option::None)
        == Option::Some(
        (EnvelopeView { to: e.to, from: e.from, data: e.data }, Seq::<u8>::empty()),
    ));

    assert(EnvelopeView { to: e.to, from: e.from, data: e.data } == e);
}

/// Text read out of a wire string is free of control bytes.
proof fn lemma_parse_string_body_wf(s: Seq<u8>)
    ensures
        parse_string_body(s) matches Option::Some(r) ==> text_wf(r.0),
    decreases s.len(),
{
    if s.len() == 0 {
    } else if s[0] == QUOTE {
    } else if s[0] == BACKSLASH {
        if s.len() >= 2 && (s[1] == QUOTE || s[1] == BACKSLASH) {
            lemma_parse_string_body_wf(s.skip(2));
            match parse_string_body(s.skip(2)) {
                Option::Some(r) => {
                    let v = seq![s[1]] + r.0;
                    assert forall|i: int| 0 <= i < v.len() implies v[i] >= 32 by {
                        if i > 0 {
                            assert(r.0[i - 1] >= 32);
                        }
                    }
                },
                Option::None => {},
            }
        }
    } else if s[0] < 32 {
    } else {
        lemma_parse_string_body_wf(s.skip(1));
        match parse_string_body(s.skip(1)) {
            Option::Some(r) => {
                let v = seq![s[0]] + r.0;
                assert forall|i: int| 0 <= i < v.len() implies v[i] >= 32 by {
                    if i > 0 {
                        assert(r.0[i - 1] >= 32);
                    }
                }
            },
            Option::None => {},
        }
    }
}

/// The blob of a parsed payload is free of control bytes.
proof fn lemma_parse_payload_wf(s: Seq<u8>)
    ensures
        parse_payload(s) matches Option::Some(r) ==> text_wf(payload_blob(r.0)),
{
    if s.len() > 0 && s[0] == LBRACE {
        match parse_string(s.skip(1)) {
            Option::Some(t) => {
                if t.1.len() > 0 && t.1[0] == COLON {
                    lemma_parse_string_body_wf(t.1.skip(1).skip(1));
                }
            },
            Option::None => {},
        }
    }
}

/// Every envelope a wire message decodes to is well-formed: the codec can
/// always encode it again, and by the round trip it then decodes back to the
/// same envelope.
proof fn lemma_parse_members_wf(
    s: Seq<u8>,
    to: Option<Seq<u8>>,
    fr: Option<Seq<u8>>,
    data: Option<PayloadView>,
)
    requires
        to matches Option::Some(t) ==> text_wf(t),
        fr matches Option::Some(f) ==> text_wf(f),
        data matches Option::Some(d) ==> text_wf(payload_blob(d)),
    ensures
        parse_members(s, to, fr, data) matches Option::Some(r) ==> envelope_wf(r.0),
    decreases s.len(),
{
    match parse_string(s) {
        Option::Some(k) => {
            if k.1.len() > 0 && k.1[0] == COLON {
                let rv = k.1.skip(1);
                if k.0 == key_to() || k.0 == key_from() {
                    lemma_parse_string_body_wf(rv.skip(1));
                    match parse_string(rv) {
                        Option::Some(v) => {
                            if k.0 == key_to() && to is None {
                                if 0 < v.1.len() < s.len() {
                                    lemma_parse_members_wf(
                                        v.1.skip(1),
                                        Option::Some(v.0),
                                        fr,
                                        data,
                                    );
                                }
                            } else if k.0 == key_from() && fr is None {
                                if 0 < v.1.len() < s.len() {
                                    lemma_parse_members_wf(
                                        v.1.skip(1),
                                        to,
                                        Option::Some(v.0),
                                        data,
                                    );
                                }
                            }
                        },
                        Option::None => {},
                    }
                } else if k.0 == key_data() {
                    lemma_parse_payload_wf(rv);
                    match parse_payload(rv) {
                        Option::Some(v) => {
                            if data is None && 0 < v.1.len() < s.len() {
                                lemma_parse_members_wf(v.1.skip(1), to, fr, Option::Some(v.0));
                            }
                        },
                        Option::None => {},
                    }
                } else {
                    match skip_value(rv) {
                        Option::Some(r2) => {
                            if 0 < r2.len() < s.len() {
                                lemma_parse_members_wf(r2.skip(1), to, fr, data);
                            }
                        },
                        Option::None => {},
                    }
                }
            }
        },
        Option::None => {},
    }
}

/// Whatever decodes is well-formed, and so survives a further round trip.
pub proof fn lemma_decoded_is_wf(s: Seq<u8>)
    ensures
        decode_spec(s) matches Option::Some(env) ==> envelope_wf(env) && decode_spec(
            encoding(env),
        ) == Option::Some(env),
{
    if s.len() > 0 && s[0] == LBRACE {
        lemma_parse_members_wf(s.skip(1), Option::None, Option::None, Option::None);
    }
    match decode_spec(s) {
        Option::Some(env) => {
            lemma_round_trip(env);
        },
        Option::None => {},
    }
}

} // verus!
