//! Typed tokens and the maximal-munch tokenizer.
use crate::rng::{between, next_u64, StdRand};
use vstd::prelude::*;

verus! {

/// The four classes a byte run can belong to.
#[derive(Clone, Copy, Debug, PartialEq, Eq, Structural)]
pub enum TokenKind {
    Constant,
    Number,
    Whitespace,
    Text,
}

/// A classified byte run.
#[derive(Clone, Debug, Hash)]
pub enum TextToken {
    /// Opaque dictionary content; never produced by the tokenizer.
    Constant(Vec<u8>),
    /// An optional sign followed by at least one ASCII digit.
    Number(Vec<u8>),
    /// Space, tab, LF, VT, FF or CR bytes.
    Whitespace(Vec<u8>),
    /// Anything else below 0x80.
    Text(Vec<u8>),
}

/// What a token stands for in contracts: its kind and its payload.
pub type TokenModel = (TokenKind, Seq<u8>);

pub open spec fn is_ws(b: u8) -> bool {
    b == 0x20 || (0x09 <= b && b <= 0x0d)
}

pub open spec fn is_digit(b: u8) -> bool {
    0x30 <= b && b <= 0x39
}

pub open spec fn is_sign(b: u8) -> bool {
    b == 0x2b || b == 0x2d
}

/// Bytes that end a text run (from its second byte on).
pub open spec fn is_text_stop(b: u8) -> bool {
    is_ws(b) || is_digit(b) || is_sign(b)
}

/// Bytes that may follow the first byte of a text run.
pub open spec fn is_text_tail(b: u8) -> bool {
    b < 0x80 && !is_text_stop(b)
}

/// Length of the longest prefix of `s` whose bytes all satisfy `p`.
pub open spec fn run(s: Seq<u8>, p: spec_fn(u8) -> bool) -> nat
    decreases s.len(),
{
    if s.len() > 0 && p(s[0]) {
        1 + run(s.skip(1), p)
    } else {
        0
    }
}

pub open spec fn ws_len(s: Seq<u8>) -> nat {
    run(s, |b: u8| is_ws(b))
}

pub open spec fn sign_len(s: Seq<u8>) -> nat {
    if s.len() > 0 && is_sign(s[0]) {
        1
    } else {
        0
    }
}

/// Length of the number at the start of `s`, 0 when there is none.
pub open spec fn number_len(s: Seq<u8>) -> nat {
    let d = run(s.skip(sign_len(s) as int), |b: u8| is_digit(b));
    if d == 0 {
        0
    } else {
        sign_len(s) + d
    }
}

/// Length of the text run at the start of `s`, 0 when there is none.
pub open spec fn text_len(s: Seq<u8>) -> nat {
    if s.len() == 0 || s[0] >= 0x80 {
        0
    } else {
        1 + run(s.skip(1), |b: u8| is_text_tail(b))
    }
}

/// The token the tokenizer takes from the start of `s`: whitespace first,
/// then a number, then text. A length of 0 means that none applies.
pub open spec fn lex_step(s: Seq<u8>) -> TokenModel {
    if ws_len(s) > 0 {
        (TokenKind::Whitespace, s.take(ws_len(s) as int))
    } else if number_len(s) > 0 {
        (TokenKind::Number, s.take(number_len(s) as int))
    } else {
        (TokenKind::Text, s.take(text_len(s) as int))
    }
}

pub open spec fn step_len(s: Seq<u8>) -> nat {
    if ws_len(s) > 0 {
        ws_len(s)
    } else if number_len(s) > 0 {
        number_len(s)
    } else {
        text_len(s)
    }
}

/// The tokenization of `s`, or the first byte that no token can start with.
pub open spec fn lex(s: Seq<u8>) -> Result<Seq<TokenModel>, u8>
    decreases s.len(),
    via lex_decreases
{
    if s.len() == 0 {
        Ok(Seq::empty())
    } else if step_len(s) == 0 {
        Err(s[0])
    } else {
        match lex(s.skip(step_len(s) as int)) {
            Ok(rest) => Ok(seq![lex_step(s)].add(rest)),
            Err(b) => Err(b),
        }
    }
}

#[via_fn]
proof fn lex_decreases(s: Seq<u8>) {
    lemma_step_len_bound(s);
}

pub proof fn lemma_run_bound(s: Seq<u8>, p: spec_fn(u8) -> bool)
    ensures
        run(s, p) <= s.len(),
        forall|i: int| 0 <= i < run(s, p) ==> #[trigger] p(s[i]),
        run(s, p) < s.len() ==> !p(s[run(s, p) as int]),
    decreases s.len(),
{
    if s.len() > 0 && p(s[0]) {
        lemma_run_bound(s.skip(1), p);
        assert forall|i: int| 0 <= i < run(s, p) implies #[trigger] p(s[i]) by {
            if i > 0 {
                assert(s[i] == s.skip(1)[i - 1]);
            }
        }
        if run(s, p) < s.len() {
            assert(s[run(s, p) as int] == s.skip(1)[run(s.skip(1), p) as int]);
        }
    }
}

/// The run length is the first index whose byte fails `p`.
pub proof fn lemma_run_exact(s: Seq<u8>, p: spec_fn(u8) -> bool, n: nat)
    requires
        n <= s.len(),
        forall|i: int| 0 <= i < n ==> #[trigger] p(s[i]),
        n == s.len() || !p(s[n as int]),
    ensures
        run(s, p) == n,
    decreases n,
{
    if n > 0 {
        assert(p(s[0]));
        assert forall|i: int| 0 <= i < n - 1 implies #[trigger] p(s.skip(1)[i]) by {
            assert(s.skip(1)[i] == s[i + 1]);
        }
        if n < s.len() {
            assert(s.skip(1)[n - 1] == s[n as int]);
        }
        lemma_run_exact(s.skip(1), p, (n - 1) as nat);
    }
}

pub proof fn lemma_step_len_bound(s: Seq<u8>)
    ensures
        step_len(s) <= s.len(),
        lex_step(s).1 == s.take(step_len(s) as int),
{
    lemma_run_bound(s, |b: u8| is_ws(b));
    lemma_run_bound(s.skip(sign_len(s) as int), |b: u8| is_digit(b));
    if s.len() > 0 {
        lemma_run_bound(s.skip(1), |b: u8| is_text_tail(b));
    }
}

impl TextToken {
    pub open spec fn kind(&self) -> TokenKind {
        match self {
            TextToken::Constant(_) => TokenKind::Constant,
            TextToken::Number(_) => TokenKind::Number,
            TextToken::Whitespace(_) => TokenKind::Whitespace,
            TextToken::Text(_) => TokenKind::Text,
        }
    }

    pub open spec fn bytes(&self) -> Seq<u8> {
        match self {
            TextToken::Constant(d) => d@,
            TextToken::Number(d) => d@,
            TextToken::Whitespace(d) => d@,
            TextToken::Text(d) => d@,
        }
    }
}

impl View for TextToken {
    type V = TokenModel;

    open spec fn view(&self) -> TokenModel {
        (self.kind(), self.bytes())
    }
}

/// Builds the token of `kind` holding `data`.
pub open spec fn token_of(kind: TokenKind, data: Vec<u8>) -> TextToken {
    match kind {
        TokenKind::Constant => TextToken::Constant(data),
        TokenKind::Number => TextToken::Number(data),
        TokenKind::Whitespace => TextToken::Whitespace(data),
        TokenKind::Text => TextToken::Text(data),
    }
}

/// Copies `from` into `to`, replacing what `to` held.
pub fn copy_vec<T: Copy>(to: &mut Vec<T>, from: &[T])
    ensures
        final(to)@ == from@,
{
    to.clear();
    let mut i: usize = 0;
    while i < from.len()
        invariant
            i <= from.len(),
            to@ == from@.take(i as int),
        decreases from.len() - i,
    {
        to.push(from[i]);
        i = i + 1;
        assert(to@ =~= from@.take(i as int));
    }
    assert(from@.take(i as int) =~= from@);
}

/// The bytes `data[start..end]` in a vector of their own.
pub(crate) fn copy_range(data: &[u8], start: usize, end: usize) -> (r: Vec<u8>)
    requires
        start <= end <= data@.len(),
    ensures
        r@ == data@.subrange(start as int, end as int),
{
    let mut r: Vec<u8> = Vec::new();
    let mut i: usize = start;
    while i < end
        invariant
            start <= i <= end,
            end <= data@.len(),
            r@ == data@.subrange(start as int, i as int),
        decreases end - i,
    {
        r.push(data[i]);
        i = i + 1;
        assert(r@ =~= data@.subrange(start as int, i as int));
    }
    r
}

fn is_ws_byte(b: u8) -> (r: bool)
    ensures
        r == is_ws(b),
{
    b == 0x20 || (0x09 <= b && b <= 0x0d)
}

fn is_digit_byte(b: u8) -> (r: bool)
    ensures
        r == is_digit(b),
{
    0x30 <= b && b <= 0x39
}

fn is_sign_byte(b: u8) -> (r: bool)
    ensures
        r == is_sign(b),
{
    b == 0x2b || b == 0x2d
}

fn is_tail_byte(b: u8) -> (r: bool)
    ensures
        r == is_text_tail(b),
{
    b < 0x80 && !is_ws_byte(b) && !is_digit_byte(b) && !is_sign_byte(b)
}

impl TextToken {
    /// The whitespace run at `data[start..]`, if there is one.
    pub fn try_parse_whitespace(data: &[u8], start: usize) -> (r: Option<TextToken>)
        requires
            start <= data@.len(),
        ensures
            ({
                let s = data@.skip(start as int);
                match r {
                    Some(t) => ws_len(s) > 0 && t@ == (TokenKind::Whitespace, s.take(
                        ws_len(s) as int,
                    )),
                    None => ws_len(s) == 0,
                }
            }),
    {
        let ghost s = data@.skip(start as int);
        let mut len: usize = 0;
        while len < data.len() - start && is_ws_byte(data[start + len])
            invariant
                start <= data@.len(),
                s == data@.skip(start as int),
                start + len <= data@.len(),
                forall|i: int| 0 <= i < len ==> #[trigger] is_ws(s[i]),
            decreases data@.len() - start - len,
        {
            len = len + 1;
        }
        proof {
            lemma_run_exact(s, |b: u8| is_ws(b), len as nat);
        }
        if len == 0 {
            None
        } else {
            let v = copy_range(data, start, start + len);
            assert(v@ =~= s.take(len as int));
            Some(TextToken::Whitespace(v))
        }
    }

    /// The number at `data[start..]`, if there is one.
    pub fn try_parse_number(data: &[u8], start: usize) -> (r: Option<TextToken>)
        requires
            start <= data@.len(),
        ensures
            ({
                let s = data@.skip(start as int);
                match r {
                    Some(t) => number_len(s) > 0 && t@ == (TokenKind::Number, s.take(
                        number_len(s) as int,
                    )),
                    None => number_len(s) == 0,
                }
            }),
    {
        let ghost s = data@.skip(start as int);
        let mut sign: usize = 0;
        if start < data.len() && is_sign_byte(data[start]) {
            sign = 1;
        }
        assert(sign == sign_len(s));
        let ghost d = s.skip(sign as int);
        let mut len: usize = 0;
        while len < data.len() - start - sign && is_digit_byte(data[start + sign + len])
            invariant
                start + sign <= data@.len(),
                s == data@.skip(start as int),
                d == s.skip(sign as int),
                start + sign + len <= data@.len(),
                forall|i: int| 0 <= i < len ==> #[trigger] is_digit(d[i]),
            decreases data@.len() - start - sign - len,
        {
            len = len + 1;
        }
        proof {
            lemma_run_exact(d, |b: u8| is_digit(b), len as nat);
        }
        if len == 0 {
            None
        } else {
            let v = copy_range(data, start, start + sign + len);
            assert(v@ =~= s.take((sign + len) as int));
            Some(TextToken::Number(v))
        }
    }

    /// The text run at `data[start..]`, if there is one.
    pub fn try_parse_text(data: &[u8], start: usize) -> (r: Option<TextToken>)
        requires
            start <= data@.len(),
        ensures
            ({
                let s = data@.skip(start as int);
                match r {
                    Some(t) => text_len(s) > 0 && t@ == (TokenKind::Text, s.take(
                        text_len(s) as int,
                    )),
                    None => text_len(s) == 0,
                }
            }),
    {
        let ghost s = data@.skip(start as int);
        if start >= data.len() || data[start] >= 0x80 {
            return None;
        }
        let ghost t = s.skip(1);
        let mut len: usize = 1;
        while len < data.len() - start && is_tail_byte(data[start + len])
            invariant
                start < data@.len(),
                s == data@.skip(start as int),
                t == s.skip(1),
                1 <= len,
                start + len <= data@.len(),
                forall|i: int| 0 <= i < len - 1 ==> #[trigger] is_text_tail(t[i]),
            decreases data@.len() - start - len,
        {
            len = len + 1;
        }
        proof {
            lemma_run_exact(t, |b: u8| is_text_tail(b), (len - 1) as nat);
        }
        let v = copy_range(data, start, start + len);
        assert(v@ =~= s.take(len as int));
        Some(TextToken::Text(v))
    }
}

/// Whether `t` keeps to its kind's invariant: a number is at most one
/// leading sign followed by at least one digit (so it ends with a digit),
/// whitespace holds only whitespace bytes, text holds no byte at or above
/// 0x80 and, after its first byte, no whitespace, digit or sign.
pub open spec fn token_ok(t: TokenModel) -> bool {
    &&& forall|i: int| 0 <= i < t.1.len() ==> #[trigger] byte_ok(t.0, t.1, i)
    &&& t.0 == TokenKind::Number ==> t.1.len() > 0 && is_digit(t.1.last())
}

/// A number token keeps to its invariant; tokens of other kinds pass.
pub open spec fn number_ok(t: TokenModel) -> bool {
    t.0 == TokenKind::Number ==> token_ok(t)
}

/// Whether tokenizing the payload of `t` gives back exactly `t`.
pub open spec fn relexes_to_itself(t: TokenModel) -> bool {
    lex(t.1) == Ok::<Seq<TokenModel>, u8>(seq![t])
}

fn whitespace_byte(i: usize) -> (b: u8)
    requires
        i < 6,
    ensures
        is_ws(b),
{
    if i == 0 {
        0x20
    } else {
        (0x08 + i) as u8
    }
}

/// A payload of `len` bytes that `lex` reads back as one whole token of
/// `kind`, given that its first `len` bytes already do so byte by byte.
proof fn lemma_single_token(s: Seq<u8>, kind: TokenKind)
    requires
        s.len() > 0,
        step_len(s) == s.len(),
        lex_step(s).0 == kind,
    ensures
        lex(s) == Ok::<Seq<TokenModel>, u8>(seq![(kind, s)]),
{
    lemma_step_len_bound(s);
    assert(s.skip(s.len() as int) =~= Seq::<u8>::empty());
    assert(s.take(s.len() as int) =~= s);
    assert(lex(s.skip(s.len() as int)) == Ok::<Seq<TokenModel>, u8>(Seq::empty()));
    assert(seq![lex_step(s)].add(Seq::<TokenModel>::empty()) =~= seq![(kind, s)]);
}

impl TextToken {
    /// A whitespace token of `min..=max` bytes drawn from `rand`.
    pub fn random_whitespace(rand: &mut StdRand, min: usize, max: usize) -> (r: TextToken)
        requires
            min <= max < usize::MAX,
        ensures
            r.kind() == TokenKind::Whitespace,
            min <= r.bytes().len() <= max,
            token_ok(r@),
            min >= 1 ==> relexes_to_itself(r@),
    {
        let len = between(rand, min, max);
        let mut data: Vec<u8> = Vec::new();
        while data.len() < len
            invariant
                data.len() <= len,
                forall|i: int| 0 <= i < data@.len() ==> is_ws(#[trigger] data@[i]),
            decreases len - data.len(),
        {
            let k = between(rand, 0, 5);
            data.push(whitespace_byte(k));
        }
        proof {
            if min >= 1 {
                lemma_run_exact(data@, |b: u8| is_ws(b), data@.len());
                lemma_single_token(data@, TokenKind::Whitespace);
            }
        }
        TextToken::Whitespace(data)
    }

    /// A number token of `2..=max` bytes drawn from `rand`; one time in four
    /// its first digit becomes a sign, `-` or `+` alike.
    pub fn random_number(rand: &mut StdRand, max: usize) -> (r: TextToken)
        requires
            2 <= max < usize::MAX,
        ensures
            r.kind() == TokenKind::Number,
            2 <= r.bytes().len() <= max,
            token_ok(r@),
            relexes_to_itself(r@),
    {
        let len = between(rand, 2, max);
        let mut data: Vec<u8> = Vec::new();
        while data.len() < len
            invariant
                data.len() <= len,
                forall|i: int| 0 <= i < data@.len() ==> is_digit(#[trigger] data@[i]),
            decreases len - data.len(),
        {
            let k = between(rand, 0, 9);
            data.push((0x30 + k) as u8);
        }
        let c = between(rand, 0, 7);
        if c == 0 {
            data.set(0, 0x2d);
        } else if c == 1 {
            data.set(0, 0x2b);
        }
        proof {
            let s = data@;
            let sg = sign_len(s);
            assert forall|i: int| 0 <= i < s.len() - sg implies #[trigger] is_digit(
                s.skip(sg as int)[i],
            ) by {
                assert(s.skip(sg as int)[i] == s[i + sg]);
            }
            lemma_run_exact(s.skip(sg as int), |b: u8| is_digit(b), (s.len() - sg) as nat);
            assert(!is_ws(s[0]));
            lemma_run_bound(s, |b: u8| is_ws(b));
            lemma_single_token(s, TokenKind::Number);
        }
        TextToken::Number(data)
    }

    /// A text token of `min..=max` bytes drawn from `rand`, each below 0x80
    /// and outside the whitespace, digit and sign bytes.
    pub fn random_text(rand: &mut StdRand, min: usize, max: usize) -> (r: TextToken)
        requires
            min <= max < usize::MAX,
        ensures
            r.kind() == TokenKind::Text,
            min <= r.bytes().len() <= max,
            forall|i: int| 0 <= i < r.bytes().len() ==> is_text_tail(#[trigger] r.bytes()[i]),
            token_ok(r@),
            min >= 1 ==> relexes_to_itself(r@),
    {
        let len = between(rand, min, max);
        let mut data: Vec<u8> = Vec::new();
        while data.len() < len
            invariant
                data.len() <= len,
                forall|i: int| 0 <= i < data@.len() ==> is_text_tail(#[trigger] data@[i]),
            decreases len - data.len(),
        {
            let x = next_u64(rand) as u8;
            let mut b: u8 = x & 0x7f;
            assert(x & 0x7f < 0x80) by (bit_vector);
            if !is_tail_byte(b) {
                b = between(rand, 58, 126) as u8;
            }
            data.push(b);
        }
        proof {
            let s = data@;
            if min >= 1 {
                assert(!is_ws(s[0]) && !is_sign(s[0]) && !is_digit(s[0]));
                lemma_run_bound(s, |b: u8| is_ws(b));
                lemma_run_bound(s, |b: u8| is_digit(b));
                assert forall|i: int| 0 <= i < s.len() - 1 implies #[trigger] is_text_tail(
                    s.skip(1)[i],
                ) by {
                    assert(s.skip(1)[i] == s[i + 1]);
                }
                lemma_run_exact(s.skip(1), |b: u8| is_text_tail(b), (s.len() - 1) as nat);
                lemma_single_token(s, TokenKind::Text);
            }
        }
        TextToken::Text(data)
    }

    /// An empty token of the same kind.
    pub fn clone_nodata(&self) -> (r: TextToken)
        ensures
            r@ == (self.kind(), Seq::<u8>::empty()),
    {
        match self {
            TextToken::Constant(_) => TextToken::Constant(Vec::new()),
            TextToken::Number(_) => TextToken::Number(Vec::new()),
            TextToken::Whitespace(_) => TextToken::Whitespace(Vec::new()),
            TextToken::Text(_) => TextToken::Text(Vec::new()),
        }
    }

    /// Whether the payload keeps to the kind's invariant.
    pub fn verify(&self) -> (r: bool)
        ensures
            r == token_ok(self@),
    {
        let data = self.data();
        let mut i: usize = 0;
        while i < data.len()
            invariant
                data@ == self.bytes(),
                i <= data@.len(),
                forall|j: int| 0 <= j < i ==> #[trigger] byte_ok(self.kind(), self.bytes(), j),
            decreases data@.len() - i,
        {
            let b = data[i];
            let ok = match self {
                TextToken::Constant(_) => true,
                TextToken::Number(_) => is_digit_byte(b) || (i == 0 && is_sign_byte(b)),
                TextToken::Whitespace(_) => is_ws_byte(b),
                TextToken::Text(_) => b < 0x80 && (i == 0 || is_tail_byte(b)),
            };
            assert(b == self.bytes()[i as int]);
            assert(ok == byte_ok(self.kind(), self.bytes(), i as int));
            if !ok {
                assert(self@.0 == self.kind() && self@.1 == self.bytes());
                assert(!byte_ok(self@.0, self@.1, i as int));
                return false;
            }
            i = i + 1;
        }
        if self.is_number() {
            let n = data.len();
            if n == 0 || !is_digit_byte(data[n - 1]) {
                return false;
            }
        }
        true
    }

    /// The payload.
    pub fn data(&self) -> (r: &[u8])
        ensures
            r@ == self.bytes(),
    {
        match self {
            TextToken::Constant(d) => d.as_slice(),
            TextToken::Number(d) => d.as_slice(),
            TextToken::Whitespace(d) => d.as_slice(),
            TextToken::Text(d) => d.as_slice(),
        }
    }

    /// The payload, for changing in place; the kind stays.
    pub fn data_mut(&mut self) -> (r: &mut Vec<u8>)
        ensures
            (*r)@ == old(self).bytes(),
            *final(self) == token_of(old(self).kind(), *final(r)),
    {
        match self {
            TextToken::Constant(d) => d,
            TextToken::Number(d) => d,
            TextToken::Whitespace(d) => d,
            TextToken::Text(d) => d,
        }
    }

    pub fn is_constant(&self) -> (r: bool)
        ensures
            r == (self.kind() == TokenKind::Constant),
    {
        matches!(self, TextToken::Constant(_))
    }

    pub fn is_number(&self) -> (r: bool)
        ensures
            r == (self.kind() == TokenKind::Number),
    {
        matches!(self, TextToken::Number(_))
    }

    pub fn is_whitespace(&self) -> (r: bool)
        ensures
            r == (self.kind() == TokenKind::Whitespace),
    {
        matches!(self, TextToken::Whitespace(_))
    }

    pub fn len(&self) -> (r: usize)
        ensures
            r == self.bytes().len(),
    {
        self.data().len()
    }

    pub fn is_empty(&self) -> (r: bool)
        ensures
            r == (self.bytes().len() == 0),
    {
        self.len() == 0
    }
}

/// The check that `verify` makes on the byte at `j` of a payload of `kind`.
pub open spec fn byte_ok(kind: TokenKind, d: Seq<u8>, j: int) -> bool {
    match kind {
        TokenKind::Constant => true,
        TokenKind::Number => is_digit(d[j]) || (j == 0 && is_sign(d[j])),
        TokenKind::Whitespace => is_ws(d[j]),
        TokenKind::Text => d[j] < 0x80 && (j > 0 ==> !is_text_stop(d[j])),
    }
}

/// The payloads of `ts`, one after the other.
pub open spec fn stream_bytes(ts: Seq<TokenModel>) -> Seq<u8>
    decreases ts.len(),
{
    if ts.len() == 0 {
        Seq::empty()
    } else {
        ts[0].1 + stream_bytes(ts.skip(1))
    }
}

pub proof fn lemma_stream_bytes_push(ts: Seq<TokenModel>, t: TokenModel)
    ensures
        stream_bytes(ts.push(t)) == stream_bytes(ts) + t.1,
    decreases ts.len(),
{
    if ts.len() == 0 {
        assert(ts.push(t).skip(1) =~= Seq::<TokenModel>::empty());
        assert(stream_bytes(ts.push(t).skip(1)) == Seq::<u8>::empty());
        assert(t.1 + Seq::<u8>::empty() =~= t.1);
        assert(Seq::<u8>::empty() + t.1 =~= t.1);
    } else {
        assert(ts.push(t).skip(1) =~= ts.skip(1).push(t));
        assert(ts.push(t)[0] == ts[0]);
        lemma_stream_bytes_push(ts.skip(1), t);
        assert(ts[0].1 + (stream_bytes(ts.skip(1)) + t.1) =~= (ts[0].1 + stream_bytes(ts.skip(1)))
            + t.1);
    }
}

/// An ordered sequence of tokens: one protocol message.
#[derive(Debug, Hash)]
pub struct TokenStream(pub Vec<TextToken>);

impl View for TokenStream {
    type V = Seq<TokenModel>;

    open spec fn view(&self) -> Seq<TokenModel> {
        Seq::new(self.0@.len(), |i: int| self.0@[i]@)
    }
}

impl TextToken {
    /// A token of the same kind holding a copy of the payload.
    pub fn duplicate(&self) -> (r: TextToken)
        ensures
            r@ == self@,
    {
        let mut d: Vec<u8> = Vec::new();
        copy_vec(&mut d, self.data());
        match self {
            TextToken::Constant(_) => TextToken::Constant(d),
            TextToken::Number(_) => TextToken::Number(d),
            TextToken::Whitespace(_) => TextToken::Whitespace(d),
            TextToken::Text(_) => TextToken::Text(d),
        }
    }
}

impl Default for TokenStream {
    fn default() -> (r: TokenStream)
        ensures
            r@.len() == 0,
    {
        TokenStream(Vec::new())
    }
}

impl Clone for TokenStream {
    fn clone(&self) -> (r: TokenStream)
        ensures
            r@ == self@,
    {
        let mut v: Vec<TextToken> = Vec::new();
        let mut i: usize = 0;
        while i < self.0.len()
            invariant
                i <= self.0@.len(),
                v@.len() == i,
                forall|j: int| 0 <= j < i ==> (#[trigger] v@[j])@ == self.0@[j]@,
            decreases self.0@.len() - i,
        {
            v.push(self.0[i].duplicate());
            i = i + 1;
        }
        let r = TokenStream(v);
        assert(r@ =~= self@);
        r
    }
}

impl TokenStream {
    pub fn new(tokens: Vec<TextToken>) -> (r: TokenStream)
        ensures
            r.0 == tokens,
    {
        TokenStream(tokens)
    }

    pub fn tokens(&self) -> (r: &[TextToken])
        ensures
            r@ == self.0@,
    {
        self.0.as_slice()
    }

    pub fn tokens_mut(&mut self) -> (r: &mut Vec<TextToken>)
        ensures
            *r == old(self).0,
            final(self).0 == *final(r),
    {
        &mut self.0
    }

    /// Number of tokens.
    pub fn len(&self) -> (r: usize)
        ensures
            r == self@.len(),
    {
        self.0.len()
    }

    pub fn is_empty(&self) -> (r: bool)
        ensures
            r == (self@.len() == 0),
    {
        self.0.len() == 0
    }

    /// Tokenizes `s` by maximal munch: at each position a whitespace run,
    /// else a number, else a text run. Fails with the first byte at which
    /// none of them starts (a byte at or above 0x80).
    pub fn parse_bytes(s: &[u8]) -> (r: Result<TokenStream, u8>)
        ensures
            match r {
                Ok(ts) => lex(s@) == Ok::<Seq<TokenModel>, u8>(ts@),
                Err(b) => lex(s@) == Err::<Seq<TokenModel>, u8>(b),
            },
    {
        let mut stream: Vec<TextToken> = Vec::new();
        let mut cursor: usize = 0;
        proof {
            assert(s@.skip(0) =~= s@);
            if let Ok(ts) = lex(s@) {
                assert(Seq::new(stream@.len(), |i: int| stream@[i]@) + ts =~= ts);
            }
        }
        while cursor < s.len()
            invariant
                cursor <= s@.len(),
                lex(s@) == prepend(
                    Seq::new(stream@.len(), |i: int| stream@[i]@),
                    lex(s@.skip(cursor as int)),
                ),
            decreases s@.len() - cursor,
        {
            let ghost rest = s@.skip(cursor as int);
            let ghost before = Seq::new(stream@.len(), |i: int| stream@[i]@);
            proof {
                lemma_step_len_bound(rest);
            }
            let tok = if let Some(t) = TextToken::try_parse_whitespace(s, cursor) {
                t
            } else if let Some(t) = TextToken::try_parse_number(s, cursor) {
                t
            } else if let Some(t) = TextToken::try_parse_text(s, cursor) {
                t
            } else {
                assert(lex(rest) == Err::<Seq<TokenModel>, u8>(s@[cursor as int]));
                return Err(s[cursor]);
            };
            assert(tok@ == lex_step(rest));
            let n = tok.len();
            assert(n == step_len(rest));
            stream.push(tok);
            cursor = cursor + n;
            proof {
                assert(rest.skip(n as int) =~= s@.skip(cursor as int));
                let after = Seq::new(stream@.len(), |i: int| stream@[i]@);
                assert(after =~= before.push(lex_step(rest)));
                lemma_prepend_push(before, lex_step(rest), lex(s@.skip(cursor as int)));
            }
        }
        let r = TokenStream(stream);
        assert(s@.skip(cursor as int) =~= Seq::<u8>::empty());
        assert(r@ =~= Seq::new(stream@.len(), |i: int| stream@[i]@));
        assert(r@ + Seq::<TokenModel>::empty() =~= r@);
        Ok(r)
    }
}

/// `r` with `pre` put before the tokens, when it holds tokens.
pub open spec fn prepend(pre: Seq<TokenModel>, r: Result<Seq<TokenModel>, u8>) -> Result<
    Seq<TokenModel>,
    u8,
> {
    match r {
        Ok(ts) => Ok(pre + ts),
        Err(b) => Err(b),
    }
}

proof fn lemma_prepend_push(pre: Seq<TokenModel>, t: TokenModel, r: Result<Seq<TokenModel>, u8>)
    ensures
        prepend(pre, prepend(seq![t], r)) == prepend(pre.push(t), r),
{
    if let Ok(ts) = r {
        assert(pre + (seq![t] + ts) =~= pre.push(t) + ts);
    }
}

impl core::str::FromStr for TokenStream {
    type Err = u8;

    fn from_str(s: &str) -> Result<TokenStream, u8> {
        TokenStream::parse_bytes(s.as_bytes())
    }
}

/// Every byte that a step of the tokenizer takes is below 0x80.
proof fn lemma_step_ascii(s: Seq<u8>)
    ensures
        step_len(s) <= s.len(),
        forall|i: int| 0 <= i < step_len(s) ==> #[trigger] s[i] < 0x80,
        s.len() > 0 && s[0] < 0x80 ==> step_len(s) > 0,
{
    lemma_step_len_bound(s);
    lemma_run_bound(s, |b: u8| is_ws(b));
    let sg = sign_len(s) as int;
    lemma_run_bound(s.skip(sg), |b: u8| is_digit(b));
    if s.len() > 0 {
        lemma_run_bound(s.skip(1), |b: u8| is_text_tail(b));
    }
    assert forall|i: int| 0 <= i < step_len(s) implies #[trigger] s[i] < 0x80 by {
        let pw = |b: u8| is_ws(b);
        let pd = |b: u8| is_digit(b);
        let pt = |b: u8| is_text_tail(b);
        if ws_len(s) > 0 {
            assert(pw(s[i]));
        } else if number_len(s) > 0 {
            if i >= sg {
                assert(s[i] == s.skip(sg)[i - sg]);
                assert(pd(s.skip(sg)[i - sg]));
            }
        } else if i > 0 {
            assert(s[i] == s.skip(1)[i - 1]);
            assert(pt(s.skip(1)[i - 1]));
        }
    }
}

/// Tokenizing a byte string with no byte at or above 0x80 succeeds, and the
/// payloads of the tokens, put together, give the input back exactly.
pub proof fn lemma_ascii_lexes_losslessly(s: Seq<u8>)
    requires
        forall|i: int| 0 <= i < s.len() ==> #[trigger] s[i] < 0x80,
    ensures
        lex(s).is_ok(),
        stream_bytes(lex(s)->Ok_0) == s,
    decreases s.len(),
{
    if s.len() > 0 {
        lemma_step_ascii(s);
        let n = step_len(s) as int;
        let rest = s.skip(n);
        assert forall|i: int| 0 <= i < rest.len() implies #[trigger] rest[i] < 0x80 by {
            assert(rest[i] == s[i + n]);
        }
        lemma_ascii_lexes_losslessly(rest);
        let ts = lex(rest)->Ok_0;
        let all = seq![lex_step(s)] + ts;
        assert(all[0] == lex_step(s));
        assert(all.skip(1) =~= ts);
        assert(s.take(n) + rest =~= s);
    } else {
        assert(stream_bytes(Seq::<TokenModel>::empty()) == Seq::<u8>::empty());
        assert(s =~= Seq::<u8>::empty());
    }
}

/// Tokenizing a byte string that holds a byte at or above 0x80 fails, and
/// names the first such byte.
pub proof fn lemma_high_byte_rejected(s: Seq<u8>, k: int)
    requires
        0 <= k < s.len(),
        s[k] >= 0x80,
        forall|i: int| 0 <= i < k ==> #[trigger] s[i] < 0x80,
    ensures
        lex(s) == Err::<Seq<TokenModel>, u8>(s[k]),
    decreases s.len(),
{
    lemma_step_ascii(s);
    if k == 0 {
        lemma_run_bound(s, |b: u8| is_ws(b));
        assert(sign_len(s) == 0);
        assert(s.skip(0) =~= s);
        lemma_run_bound(s, |b: u8| is_digit(b));
        assert(step_len(s) == 0);
    } else {
        let n = step_len(s) as int;
        assert(n <= k) by {
            if n > k {
                assert(s[k] < 0x80);
            }
        }
        let rest = s.skip(n);
        assert forall|i: int| 0 <= i < k - n implies #[trigger] rest[i] < 0x80 by {
            assert(rest[i] == s[i + n]);
        }
        assert(rest[k - n] == s[k]);
        lemma_high_byte_rejected(rest, k - n);
    }
}

/// Where tokenizing succeeds, the payloads put together give the input back.
pub proof fn lemma_lex_covers(s: Seq<u8>)
    ensures
        lex(s) matches Ok(ts) ==> stream_bytes(ts) == s,
    decreases s.len(),
{
    if s.len() > 0 && step_len(s) > 0 {
        lemma_step_len_bound(s);
        let n = step_len(s) as int;
        let rest = s.skip(n);
        lemma_lex_covers(rest);
        if let Ok(ts) = lex(rest) {
            let all = seq![lex_step(s)] + ts;
            assert(all[0] == lex_step(s));
            assert(all.skip(1) =~= ts);
            assert(s.take(n) + rest =~= s);
        }
    } else if s.len() == 0 {
        assert(stream_bytes(Seq::<TokenModel>::empty()) == Seq::<u8>::empty());
        assert(s =~= Seq::<u8>::empty());
    }
}

} // verus!
