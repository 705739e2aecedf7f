//! The packet capability and the multi-packet fuzz input with its text framing.
use crate::rng::{between, fill_bytes, StdRand};
use crate::tokens::{copy_range, lex, relexes_to_itself, token_ok, stream_bytes, lemma_stream_bytes_push, TextToken, TokenModel, TokenStream};
use vstd::prelude::*;

verus! {

/// What a packet kind offers: its wire bytes, rendering into a buffer, and
/// reconstruction from a run of bytes.
pub trait Packet: Sized + View {
    /// The bytes the packet puts on the wire.
    spec fn content(&self) -> Seq<u8>;

    /// Whether `bytes` can be read back as a packet of this kind.
    spec fn accepts(bytes: Seq<u8>) -> bool;

    /// Whether `p` is the packet that reading `bytes` back gives.
    spec fn decodes(bytes: Seq<u8>, p: Self) -> bool;

    /// Writes as much of the content as fits into `buffer` from `at` on,
    /// and returns how many bytes were written.
    fn serialize_content(&self, buffer: &mut Vec<u8>, at: usize) -> (n: usize)
        requires
            at <= old(buffer)@.len(),
        ensures
            n <= self.content().len(),
            at + n <= old(buffer)@.len(),
            n == self.content().len() || at + n == old(buffer)@.len(),
            final(buffer)@ == old(buffer)@.take(at as int) + self.content().take(n as int) + old(
                buffer,
            )@.skip(at + n),
    ;

    /// Reads a packet back from `buffer`.
    fn deserialize_content(buffer: &[u8]) -> (r: Option<Self>)
        ensures
            r.is_some() == Self::accepts(buffer@),
            r matches Some(p) ==> p.content() == buffer@ && Self::decodes(buffer@, p),
    ;

    /// A packet with the same content.
    fn duplicate(&self) -> (r: Self)
        ensures
            r@ == self@,
            r.content() == self.content(),
    ;
}

/// A packet kind that can be synthesized at random.
pub trait RandomPacketCreator: Packet {
    /// What a synthesized packet of this kind is like.
    spec fn random_ok(&self) -> bool;

    fn create_random_packet(rand: &mut StdRand) -> (r: Self)
        ensures
            r.content().len() > 0,
            r.random_ok(),
    ;
}

/// A packet kind that can be cut in two.
pub trait SplitPacket: Packet {
    /// The number of units a cut falls between (bytes, or tokens).
    spec fn pieces(&self) -> nat;

    /// Cuts off a tail and returns it, leaving at least one unit on each
    /// side; returns `None` (and leaves the packet unchanged) where the
    /// packet has fewer than two units.
    fn split_packet(&mut self, rand: &mut StdRand) -> (r: Option<Self>)
        ensures
            r.is_some() == (old(self).pieces() >= 2),
            match r {
                Some(tail) => {
                    &&& old(self).content() == final(self).content() + tail.content()
                    &&& old(self).pieces() == final(self).pieces() + tail.pieces()
                    &&& final(self).pieces() > 0
                    &&& tail.pieces() > 0
                },
                None => *final(self) == *old(self),
            },
    ;
}

/// Copies `src` into `buffer` from `at` on, as far as it fits.
fn write_bytes(buffer: &mut Vec<u8>, at: usize, src: &[u8]) -> (n: usize)
    requires
        at <= old(buffer)@.len(),
    ensures
        n <= src@.len(),
        at + n <= old(buffer)@.len(),
        n == src@.len() || at + n == old(buffer)@.len(),
        final(buffer)@ == old(buffer)@.take(at as int) + src@.take(n as int) + old(buffer)@.skip(
            at + n,
        ),
{
    let ghost b0 = buffer@;
    let mut i: usize = 0;
    while i < src.len() && i < buffer.len() - at
        invariant
            at <= b0.len(),
            buffer@.len() == b0.len(),
            i <= src@.len(),
            at + i <= b0.len(),
            buffer@ == b0.take(at as int) + src@.take(i as int) + b0.skip(at + i),
        decreases src@.len() - i,
    {
        buffer.set(at + i, src[i]);
        i = i + 1;
        assert(buffer@ =~= b0.take(at as int) + src@.take(i as int) + b0.skip(at + i));
    }
    i
}

/// Raw byte packets: the content is the bytes themselves.
impl Packet for Vec<u8> {
    open spec fn content(&self) -> Seq<u8> {
        self@
    }

    open spec fn accepts(bytes: Seq<u8>) -> bool {
        true
    }

    open spec fn decodes(bytes: Seq<u8>, p: Vec<u8>) -> bool {
        p@ == bytes
    }

    fn serialize_content(&self, buffer: &mut Vec<u8>, at: usize) -> (n: usize) {
        write_bytes(buffer, at, self.as_slice())
    }

    fn deserialize_content(buffer: &[u8]) -> (r: Option<Vec<u8>>) {
        let mut v: Vec<u8> = Vec::new();
        crate::tokens::copy_vec(&mut v, buffer);
        Some(v)
    }

    fn duplicate(&self) -> (r: Vec<u8>) {
        let mut v: Vec<u8> = Vec::new();
        crate::tokens::copy_vec(&mut v, self.as_slice());
        v
    }
}

impl RandomPacketCreator for Vec<u8> {
    /// One to 32 bytes.
    open spec fn random_ok(&self) -> bool {
        1 <= self@.len() <= 32
    }

    /// Between 1 and 32 random bytes.
    fn create_random_packet(rand: &mut StdRand) -> (r: Vec<u8>) {
        let len = between(rand, 1, 32);
        let mut data: Vec<u8> = vec![0; len];
        fill_bytes(rand, &mut data);
        data
    }
}

impl SplitPacket for Vec<u8> {
    open spec fn pieces(&self) -> nat {
        self@.len()
    }

    /// Cuts at a random interior byte.
    fn split_packet(&mut self, rand: &mut StdRand) -> (r: Option<Vec<u8>>) {
        if self.len() < 2 {
            return None;
        }
        let idx = 1 + between(rand, 0, self.len() - 2);
        let ghost before = self@;
        let tail = self.split_off(idx);
        assert(before =~= self@ + tail@);
        Some(tail)
    }
}

/// Token-stream packets: the content is the payloads put together.
impl Packet for TokenStream {
    open spec fn content(&self) -> Seq<u8> {
        stream_bytes(self@)
    }

    open spec fn accepts(bytes: Seq<u8>) -> bool {
        lex(bytes).is_ok()
    }

    /// The packet's tokens are the tokenization of `bytes`.
    open spec fn decodes(bytes: Seq<u8>, p: TokenStream) -> bool {
        lex(bytes) == Ok::<Seq<TokenModel>, u8>(p@)
    }

    fn serialize_content(&self, buffer: &mut Vec<u8>, at: usize) -> (n: usize) {
        let ghost b0 = buffer@;
        let mut cursor: usize = at;
        let mut i: usize = 0;
        while i < self.0.len()
            invariant
                at <= cursor <= b0.len(),
                buffer@.len() == b0.len(),
                i <= self@.len(),
                cursor - at <= stream_bytes(self@.take(i as int)).len(),
                cursor - at == stream_bytes(self@.take(i as int)).len() || cursor == b0.len(),
                buffer@ == b0.take(at as int) + stream_bytes(self@.take(i as int)).take(
                    cursor - at,
                ) + b0.skip(cursor as int),
            decreases self@.len() - i,
        {
            let ghost before = stream_bytes(self@.take(i as int));
            let ghost b1 = buffer@;
            let t = &self.0[i];
            assert(t@ == self@[i as int]);
            let k = write_bytes(buffer, cursor, t.data());
            proof {
                assert(self@.take(i + 1) =~= self@.take(i as int).push(t@));
                lemma_stream_bytes_push(self@.take(i as int), t@);
                let after = stream_bytes(self@.take(i + 1));
                assert(after == before + t.bytes());
                if cursor - at == before.len() {
                    assert(after.take(cursor - at + k) =~= before + t.bytes().take(k as int));
                } else {
                    assert(k == 0);
                    assert(after.take(cursor - at) =~= before.take(cursor - at));
                }
                assert(b1.take(cursor as int) =~= b0.take(at as int) + before.take(cursor - at));
                assert(b1.skip(cursor + k) =~= b0.skip(cursor + k));
                assert(buffer@ =~= b0.take(at as int) + after.take(cursor - at + k) + b0.skip(
                    cursor + k,
                ));
            }
            assert(cursor + k <= buffer.len());
            cursor = cursor + k;
            i = i + 1;
        }
        assert(self@.take(i as int) =~= self@);
        cursor - at
    }

    fn deserialize_content(buffer: &[u8]) -> (r: Option<TokenStream>) {
        match TokenStream::parse_bytes(buffer) {
            Ok(ts) => {
                proof {
                    crate::tokens::lemma_lex_covers(buffer@);
                }
                Some(ts)
            },
            Err(_) => None,
        }
    }

    fn duplicate(&self) -> (r: TokenStream) {
        self.clone()
    }
}

pub proof fn lemma_stream_bytes_append(a: Seq<TokenModel>, b: Seq<TokenModel>)
    ensures
        stream_bytes(a + b) == stream_bytes(a) + stream_bytes(b),
    decreases b.len(),
{
    if b.len() == 0 {
        assert(a + b =~= a);
        assert(stream_bytes(b) == Seq::<u8>::empty());
        assert(stream_bytes(a) + Seq::<u8>::empty() =~= stream_bytes(a));
    } else {
        let x = b.last();
        let b0 = b.drop_last();
        lemma_stream_bytes_append(a, b0);
        assert(a + b =~= (a + b0).push(x));
        assert(b =~= b0.push(x));
        lemma_stream_bytes_push(a + b0, x);
        lemma_stream_bytes_push(b0, x);
        assert(stream_bytes(a) + (stream_bytes(b0) + x.1) =~= (stream_bytes(a) + stream_bytes(b0))
            + x.1);
    }
}

impl RandomPacketCreator for TokenStream {
    /// One to 16 non-empty tokens, each keeping to its kind's invariant and
    /// tokenizing back to itself.
    open spec fn random_ok(&self) -> bool {
        &&& 1 <= self@.len() <= 16
        &&& forall|k: int|
            0 <= k < self@.len() ==> {
                &&& (#[trigger] self@[k]).1.len() > 0
                &&& token_ok(self@[k])
                &&& relexes_to_itself(self@[k])
            }
    }

    /// One to sixteen random tokens, each a text run of 1 to 8 bytes, a
    /// whitespace run of 1 to 4 bytes or a number of 2 to 8 bytes.
    fn create_random_packet(rand: &mut StdRand) -> (r: TokenStream) {
        let n = 1 + between(rand, 0, 15);
        let mut tokens: Vec<TextToken> = Vec::new();
        while tokens.len() < n
            invariant
                tokens@.len() <= n,
                forall|i: int| 0 <= i < tokens@.len() ==> (#[trigger] tokens@[i]).bytes().len() > 0,
                forall|i: int|
                    0 <= i < tokens@.len() ==> token_ok((#[trigger] tokens@[i])@) && relexes_to_itself(
                        tokens@[i]@,
                    ),
            decreases n - tokens@.len(),
        {
            let c = between(rand, 0, 2);
            let t = if c == 0 {
                TextToken::random_text(rand, 1, 8)
            } else if c == 1 {
                TextToken::random_whitespace(rand, 1, 4)
            } else {
                TextToken::random_number(rand, 8)
            };
            tokens.push(t);
        }
        let r = TokenStream::new(tokens);
        assert(r@[0].1.len() > 0);
        assert(stream_bytes(r@) == r@[0].1 + stream_bytes(r@.skip(1)));
        r
    }
}

impl SplitPacket for TokenStream {
    open spec fn pieces(&self) -> nat {
        self@.len()
    }

    /// Cuts between two tokens, at a random place that leaves at least one
    /// token on each side.
    fn split_packet(&mut self, rand: &mut StdRand) -> (r: Option<TokenStream>) {
        if self.0.len() < 2 {
            return None;
        }
        let idx = 1 + between(rand, 0, self.0.len() - 2);
        let ghost before = self@;
        let tail = TokenStream(self.0.split_off(idx));
        proof {
            assert(before =~= self@ + tail@);
            lemma_stream_bytes_append(self@, tail@);
        }
        Some(tail)
    }
}

/// Length of the separator that the text form puts after each packet.
pub const SEPARATOR_LEN: usize = 8;

/// The separator: eight `-` bytes.
pub open spec fn sep() -> Seq<u8> {
    Seq::new(8, |i: int| 0x2du8)
}

/// Each content followed by the separator.
pub open spec fn framed(cs: Seq<Seq<u8>>) -> Seq<u8>
    decreases cs.len(),
{
    if cs.len() == 0 {
        Seq::empty()
    } else {
        framed(cs.drop_last()) + cs.last() + sep()
    }
}

/// The text form: the contents joined by the separator (the framed bytes
/// without the last separator).
pub open spec fn to_txt(cs: Seq<Seq<u8>>) -> Seq<u8> {
    if cs.len() == 0 {
        Seq::empty()
    } else {
        framed(cs).take(framed(cs).len() - 8)
    }
}

/// The segments that the text-form parser cuts `s` into, scanning from
/// offset `k` of the current segment, which starts at the start of `s`:
/// each leftmost separator ends a segment, and what follows the last one
/// is a segment of its own unless it is empty.
pub open spec fn segments_from(s: Seq<u8>, k: nat) -> Seq<Seq<u8>>
    decreases s.len(), s.len() - k,
{
    if k + 8 <= s.len() {
        if s.subrange(k as int, k + 8int) == sep() {
            seq![s.take(k as int)] + segments_from(s.skip(k + 8int), 0)
        } else {
            segments_from(s, k + 1)
        }
    } else if k < s.len() {
        seq![s]
    } else {
        Seq::empty()
    }
}

pub open spec fn segments(s: Seq<u8>) -> Seq<Seq<u8>> {
    segments_from(s, 0)
}

pub proof fn lemma_framed_append(a: Seq<Seq<u8>>, b: Seq<Seq<u8>>)
    ensures
        framed(a + b) == framed(a) + framed(b),
    decreases b.len(),
{
    if b.len() == 0 {
        assert(a + b =~= a);
        assert(framed(a) + Seq::<u8>::empty() =~= framed(a));
    } else {
        lemma_framed_append(a, b.drop_last());
        assert((a + b).drop_last() =~= a + b.drop_last());
        assert((a + b).last() == b.last());
        assert(framed(a) + (framed(b.drop_last()) + b.last() + sep()) =~= (framed(a) + framed(
            b.drop_last(),
        )) + b.last() + sep());
    }
}

/// Whether the eight bytes of `buf` from `k` on are the separator.
fn sep_at(buf: &[u8], k: usize) -> (r: bool)
    requires
        k + 8 <= buf@.len(),
    ensures
        r == (buf@.subrange(k as int, k + 8) == sep()),
{
    let n = buf.len();
    let mut i: usize = 0;
    while i < 8
        invariant
            n == buf@.len(),
            k + 8 <= buf@.len(),
            i <= 8,
            forall|j: int| 0 <= j < i ==> #[trigger] buf@.subrange(k as int, k + 8int)[j] == 0x2du8,
        decreases 8 - i,
    {
        if buf[k + i] != 0x2d {
            assert(buf@.subrange(k as int, k + 8)[i as int] != sep()[i as int]);
            return false;
        }
        i = i + 1;
    }
    assert(buf@.subrange(k as int, k + 8) =~= sep());
    true
}

/// An ordered list of packets of one kind: one whole fuzz input.
#[derive(Debug, Hash)]
pub struct PacketBasedInput<P: Packet> {
    pub packets: Vec<P>,
}

impl<P: Packet> Default for PacketBasedInput<P> {
    fn default() -> (r: PacketBasedInput<P>)
        ensures
            r.packets@.len() == 0,
    {
        PacketBasedInput { packets: Vec::new() }
    }
}

/// The contents of `ps`.
pub open spec fn contents_of<P: Packet>(ps: Seq<P>) -> Seq<Seq<u8>> {
    Seq::new(ps.len(), |i: int| ps[i].content())
}

impl<P: Packet> PacketBasedInput<P> {
    pub open spec fn contents(&self) -> Seq<Seq<u8>> {
        contents_of(self.packets@)
    }

    pub fn new(packets: Vec<P>) -> (r: PacketBasedInput<P>)
        ensures
            r.packets == packets,
    {
        PacketBasedInput { packets }
    }

    pub fn packets(&self) -> (r: &[P])
        ensures
            r@ == self.packets@,
    {
        self.packets.as_slice()
    }

    pub fn packets_mut(&mut self) -> (r: &mut Vec<P>)
        ensures
            *r == old(self).packets,
            final(self).packets == *final(r),
    {
        &mut self.packets
    }

    /// Number of packets.
    pub fn len(&self) -> (r: usize)
        ensures
            r == self.packets@.len(),
    {
        self.packets.len()
    }

    /// Renders the text form into `buf`: each packet's content followed by
    /// the separator. Returns the length of the text form, which leaves out
    /// the last separator.
    pub fn convert_to_txt(&self, buf: &mut Vec<u8>) -> (n: usize)
        requires
            framed(self.contents()).len() <= old(buf)@.len(),
        ensures
            n == to_txt(self.contents()).len(),
            final(buf)@ == framed(self.contents()) + old(buf)@.skip(
                framed(self.contents()).len() as int,
            ),
            final(buf)@.take(n as int) == to_txt(self.contents()),
    {
        let ghost cs = self.contents();
        let ghost b0 = buf@;
        let blen = buf.len();
        let mut cursor: usize = 0;
        let mut i: usize = 0;
        while i < self.packets.len()
            invariant
                blen == b0.len(),
                cs == self.contents(),
                framed(cs).len() <= b0.len(),
                buf@.len() == b0.len(),
                i <= cs.len(),
                cursor == framed(cs.take(i as int)).len(),
                buf@ == framed(cs.take(i as int)) + b0.skip(cursor as int),
            decreases cs.len() - i,
        {
            proof {
                assert(cs =~= cs.take(i as int) + cs.skip(i as int));
                lemma_framed_append(cs.take(i as int), cs.skip(i as int));
                assert(cs.take(i + 1).drop_last() =~= cs.take(i as int));
                assert(cs.skip(i as int) =~= cs.take(i + 1).skip(i as int) + cs.skip(i + 1));
                lemma_framed_append(cs.take(i + 1).skip(i as int), cs.skip(i + 1));
                assert(cs.take(i + 1).skip(i as int) =~= seq![cs[i as int]]);
                assert(seq![cs[i as int]].drop_last() =~= Seq::<Seq<u8>>::empty());
            }
            let ghost b1 = buf@;
            let k = self.packets[i].serialize_content(buf, cursor);
            assert(k == cs[i as int].len());
            let mut j: usize = 0;
            while j < SEPARATOR_LEN
                invariant
                    j <= 8,
                    i < cs.len(),
                    blen == b0.len(),
                    cursor + k + 8 <= b0.len(),
                    buf@.len() == b0.len(),
                    buf@ == framed(cs.take(i as int)) + cs[i as int] + sep().take(j as int) + b0.skip(
                        cursor + k + j,
                    ),
                decreases 8 - j,
            {
                buf.set(cursor + k + j, 0x2d);
                j = j + 1;
                assert(buf@ =~= framed(cs.take(i as int)) + cs[i as int] + sep().take(j as int)
                    + b0.skip(cursor + k + j));
            }
            assert(sep().take(8) =~= sep());
            assert(cs.take(i + 1).last() == cs[i as int]);
            cursor = cursor + k + SEPARATOR_LEN;
            i = i + 1;
        }
        assert(cs.take(i as int) =~= cs);
        if cursor >= SEPARATOR_LEN {
            cursor - SEPARATOR_LEN
        } else {
            0
        }
    }

    /// Parses the text form: every run of bytes that a separator ends, and
    /// the non-empty run after the last separator, is read back as one
    /// packet. Fails where any of those runs is not a packet of this kind.
    pub fn parse_txt(buf: &[u8]) -> (r: Option<PacketBasedInput<P>>)
        ensures
            r.is_some() == forall|i: int|
                0 <= i < segments(buf@).len() ==> P::accepts(#[trigger] segments(buf@)[i]),
            r matches Some(x) ==> x.contents() == segments(buf@),
            r matches Some(x) ==> forall|i: int|
                0 <= i < segments(buf@).len() ==> P::decodes(
                    #[trigger] segments(buf@)[i],
                    x.packets@[i],
                ),
    {
        let mut packets: Vec<P> = Vec::new();
        let mut start: usize = 0;
        let mut cursor: usize = 0;
        let ghost whole = segments(buf@);
        let ghost mut rest = segments_from(buf@.skip(0), 0);
        assert(buf@.skip(0) =~= buf@);
        while cursor < buf.len() && buf.len() - cursor >= 8
            invariant
                whole == segments(buf@),
                start <= cursor <= buf@.len(),
                whole == contents_of(packets@) + segments_from(buf@.skip(start as int), (cursor - start) as nat),
                forall|i: int| 0 <= i < packets@.len() ==> P::accepts(#[trigger] whole[i]),
                forall|i: int| 0 <= i < packets@.len() ==> P::decodes(#[trigger] whole[i], packets@[i]),
            decreases buf@.len() - start, buf@.len() - cursor,
        {
            let ghost rel = buf@.skip(start as int);
            let ghost k = (cursor - start) as nat;
            assert(rel.subrange(k as int, k + 8int) =~= buf@.subrange(cursor as int, cursor + 8));
            if sep_at(buf, cursor) {
                let data = copy_range(buf, start, cursor);
                let ghost seg = rel.take(k as int);
                assert(data@ =~= seg);
                assert(rel.skip(k + 8int) =~= buf@.skip(cursor + 8));
                let ghost done = contents_of(packets@);
                assert(whole =~= done + seq![seg] + segments_from(buf@.skip(cursor + 8), 0));
                assert(whole[done.len() as int] == seg);
                match P::deserialize_content(data.as_slice()) {
                    Some(p) => {
                        packets.push(p);
                        assert(contents_of(packets@) =~= done.push(seg));
                    },
                    None => {
                        return None;
                    },
                }
                cursor = cursor + SEPARATOR_LEN;
                start = cursor;
                assert((cursor - start) as nat == 0);
            } else {
                cursor = cursor + 1;
            }
        }
        let ghost rel = buf@.skip(start as int);
        let ghost done = contents_of(packets@);
        if cursor < buf.len() {
            let data = copy_range(buf, start, buf.len());
            assert(data@ =~= rel);
            assert(whole =~= done + seq![rel]);
            assert(whole[done.len() as int] == rel);
            match P::deserialize_content(data.as_slice()) {
                Some(p) => {
                    packets.push(p);
                    assert(contents_of(packets@) =~= whole);
                },
                None => {
                    return None;
                },
            }
        } else {
            assert(whole =~= done);
        }
        Some(PacketBasedInput { packets })
    }
}

/// No separator occurs inside `c`.
pub open spec fn has_no_sep(c: Seq<u8>) -> bool {
    forall|i: int| 0 <= i && i + 8 <= c.len() ==> #[trigger] c.subrange(i, i + 8) != sep()
}

/// Contents that the text form carries without loss: none holds the
/// separator, none but the last ends with a `-` (which would merge with the
/// separator that follows), and the last is not empty (an empty trailing
/// segment is not read back).
pub open spec fn txt_safe(cs: Seq<Seq<u8>>) -> bool {
    &&& forall|i: int| 0 <= i < cs.len() ==> has_no_sep(#[trigger] cs[i])
    &&& forall|i: int|
        0 <= i < cs.len() - 1 ==> (#[trigger] cs[i]).len() == 0 || cs[i].last() != 0x2du8
    &&& cs.len() > 0 ==> cs.last().len() > 0
}

proof fn lemma_segments_through_sep(c: Seq<u8>, r: Seq<u8>, k: nat)
    requires
        has_no_sep(c),
        c.len() == 0 || c.last() != 0x2du8,
        k <= c.len(),
    ensures
        segments_from(c + sep() + r, k) == seq![c] + segments_from(r, 0),
    decreases c.len() - k,
{
    let s = c + sep() + r;
    if k < c.len() {
        assert(s.subrange(k as int, k + 8int) != sep()) by {
            if k + 8 <= c.len() {
                assert(s.subrange(k as int, k + 8int) =~= c.subrange(k as int, k + 8int));
            } else {
                let j = c.len() - 1 - k;
                assert(s.subrange(k as int, k + 8int)[j] == c.last());
                assert(sep()[j] == 0x2du8);
            }
        }
        lemma_segments_through_sep(c, r, k + 1);
    } else {
        assert(s.subrange(k as int, k + 8int) =~= sep());
        assert(s.take(k as int) =~= c);
        assert(s.skip(k + 8int) =~= r);
    }
}

proof fn lemma_segments_last(c: Seq<u8>, k: nat)
    requires
        has_no_sep(c),
        k < c.len(),
    ensures
        segments_from(c, k) == seq![c],
    decreases c.len() - k,
{
    if k + 8 <= c.len() {
        lemma_segments_last(c, k + 1);
    }
}

/// The text form of contents that it carries without loss parses back into
/// the same contents.
pub proof fn lemma_txt_segments(cs: Seq<Seq<u8>>)
    requires
        txt_safe(cs),
    ensures
        segments(to_txt(cs)) == cs,
    decreases cs.len(),
{
    if cs.len() == 0 {
        assert(segments(Seq::<u8>::empty()) =~= cs);
    } else {
        let c = cs[0];
        let rest = cs.skip(1);
        assert(cs =~= seq![c] + rest);
        lemma_framed_append(seq![c], rest);
        assert(seq![c].drop_last() =~= Seq::<Seq<u8>>::empty());
        assert(framed(Seq::<Seq<u8>>::empty()) == Seq::<u8>::empty());
        assert(seq![c].last() == c);
        assert(framed(seq![c]) =~= c + sep());
        if cs.len() == 1 {
            assert(rest =~= Seq::<Seq<u8>>::empty());
            assert(to_txt(cs) =~= c);
            lemma_segments_last(c, 0);
        } else {
            assert(framed(rest).len() >= 8);
            assert(to_txt(cs) =~= c + sep() + to_txt(rest));
            assert(txt_safe(rest)) by {
                assert forall|i: int| 0 <= i < rest.len() implies has_no_sep(#[trigger] rest[i]) by {
                    assert(rest[i] == cs[i + 1]);
                }
                assert forall|i: int| 0 <= i < rest.len() - 1 implies (#[trigger] rest[i]).len()
                    == 0 || rest[i].last() != 0x2du8 by {
                    assert(rest[i] == cs[i + 1]);
                }
            }
            assert(has_no_sep(cs[0]));
            lemma_segments_through_sep(c, to_txt(rest), 0);
            lemma_txt_segments(rest);
        }
    }
}

/// Rendering an input in the text form and parsing the result gives back
/// packets with the same contents, where the contents are carried without
/// loss and each is a valid packet of the kind.
pub proof fn lemma_txt_round_trip<P: Packet>(x: PacketBasedInput<P>)
    requires
        txt_safe(x.contents()),
        forall|i: int| 0 <= i < x.contents().len() ==> P::accepts(#[trigger] x.contents()[i]),
    ensures
        segments(to_txt(x.contents())) == x.contents(),
        forall|i: int|
            0 <= i < segments(to_txt(x.contents())).len() ==> P::accepts(
                #[trigger] segments(to_txt(x.contents()))[i],
            ),
{
    lemma_txt_segments(x.contents());
}

/// For token-stream inputs, the round trip gives back the packets
/// themselves: where each packet is the tokenization of its own content and
/// `y` is what `parse_txt` returns on the text form of `x`, `y` holds the
/// same token lists as `x`.
pub proof fn lemma_txt_round_trip_streams(x: PacketBasedInput<TokenStream>, y: PacketBasedInput<TokenStream>)
    requires
        txt_safe(x.contents()),
        forall|i: int|
            0 <= i < x.packets@.len() ==> TokenStream::decodes(x.contents()[i], #[trigger] x.packets@[i]),
        y.contents() == segments(to_txt(x.contents())),
        forall|i: int|
            0 <= i < segments(to_txt(x.contents())).len() ==> TokenStream::decodes(
                #[trigger] segments(to_txt(x.contents()))[i],
                y.packets@[i],
            ),
    ensures
        y.packets@.len() == x.packets@.len(),
        forall|i: int| 0 <= i < x.packets@.len() ==> (#[trigger] y.packets@[i])@ == x.packets@[i]@,
{
    lemma_txt_segments(x.contents());
    assert forall|i: int| 0 <= i < x.packets@.len() implies (#[trigger] y.packets@[i])@
        == x.packets@[i]@ by {
        assert(TokenStream::decodes(x.contents()[i], x.packets@[i]));
        assert(TokenStream::decodes(segments(to_txt(x.contents()))[i], y.packets@[i]));
    }
}

} // verus!
