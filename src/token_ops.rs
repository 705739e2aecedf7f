//! The token-stream mutation catalogue: copying, deleting, rewriting,
//! repeating, swapping and truncating tokens, dictionary insertion and
//! splicing from another stream.
use crate::rng::{between, StdRand};
use crate::tokens::{
    byte_ok, is_digit, is_sign, number_ok, relexes_to_itself, token_ok, TextToken, TokenKind, TokenModel, TokenStream,
};
use vstd::prelude::*;

verus! {

/// The model of a token list.
pub open spec fn models(v: Seq<TextToken>) -> Seq<TokenModel> {
    Seq::new(v.len(), |i: int| v[i]@)
}

/// `new` is `old` with `run` put in at `to`.
pub open spec fn is_insertion(
    old: Seq<TokenModel>,
    new: Seq<TokenModel>,
    to: int,
    run: Seq<TokenModel>,
) -> bool {
    0 <= to <= old.len() && new == old.take(to) + run + old.skip(to)
}

/// `n` copies of `t`.
pub open spec fn repeated(t: TokenModel, n: nat) -> Seq<TokenModel> {
    Seq::new(n, |i: int| t)
}

/// A random range `[start, end)` inside `[0, limit)`, at most `max_size` long.
pub fn random_range(rand: &mut StdRand, limit: usize, max_size: usize) -> (r: (usize, usize))
    requires
        limit > 0,
        max_size > 0,
    ensures
        r.0 < r.1 <= limit,
        r.1 - r.0 <= max_size,
{
    let start = between(rand, 0, limit - 1);
    let rem = if limit - start < max_size {
        limit - start
    } else {
        max_size
    };
    let len = 1 + between(rand, 0, rem - 1);
    (start, start + len)
}

/// A fresh random token: a number of up to 16 bytes one time in four,
/// whitespace of 1 to 16 bytes one time in four, text of 1 to 16 bytes
/// otherwise.
pub fn random_token(rand: &mut StdRand) -> (t: TextToken)
    ensures
        t@.0 != TokenKind::Constant,
        token_ok(t@),
        number_ok(t@),
        relexes_to_itself(t@),
        1 <= t@.1.len() <= 16,
{
    let choice = between(rand, 0, 3);
    if choice == 0 {
        let t = TextToken::random_number(rand, 16);
        assert(byte_ok(t@.0, t@.1, t@.1.len() - 1));
        t
    } else if choice == 1 {
        TextToken::random_whitespace(rand, 1, 16)
    } else {
        TextToken::random_text(rand, 1, 16)
    }
}

/// Puts `run` into the stream at `to`.
pub fn insert_run(stream: &mut TokenStream, to: usize, run: Vec<TextToken>)
    requires
        to <= old(stream)@.len(),
    ensures
        is_insertion(old(stream)@, final(stream)@, to as int, models(run@)),
{
    let ghost old_v = stream@;
    let mut run = run;
    let ghost run_v = models(run@);
    let mut tail = stream.0.split_off(to);
    stream.0.append(&mut run);
    stream.0.append(&mut tail);
    assert(stream@ =~= old_v.take(to as int) + run_v + old_v.skip(to as int));
}

/// Copies of the tokens `src[start..end]`.
pub fn copy_tokens(src: &TokenStream, start: usize, end: usize) -> (r: Vec<TextToken>)
    requires
        start <= end <= src@.len(),
    ensures
        models(r@) == src@.subrange(start as int, end as int),
{
    let mut r: Vec<TextToken> = Vec::new();
    let mut i: usize = start;
    while i < end
        invariant
            start <= i <= end,
            end <= src@.len(),
            models(r@) == src@.subrange(start as int, i as int),
        decreases end - i,
    {
        let t = src.0[i].duplicate();
        assert(src.0@[i as int]@ == src@[i as int]);
        let ghost r0 = r@;
        r.push(t);
        assert(models(r@) =~= models(r0).push(src@[i as int]));
        i = i + 1;
        assert(models(r@) =~= src@.subrange(start as int, i as int));
    }
    r
}

/// What `mutate_copy` does when it reports a change.
pub open spec fn copy_effect(old: Seq<TokenModel>, new: Seq<TokenModel>) -> bool {
    exists|to: int, s: int, e: int|
        0 <= s < e <= old.len() && is_insertion(
            old,
            new,
            to,
            old.subrange(s, e),
        )
}

/// Puts a copy of a random run of the stream at a random position, keeping
/// the stream at most `max_tokens` long.
pub fn mutate_copy(rand: &mut StdRand, stream: &mut TokenStream, max_tokens: usize) -> (r: bool)
    ensures
        (r == false) == (old(stream)@.len() == 0 || old(stream)@.len() >= max_tokens),
        !r ==> final(stream)@ == old(stream)@,
        r ==> final(stream)@.len() <= max_tokens,
        r ==> copy_effect(old(stream)@, final(stream)@),
{
    let len = stream.len();
    if len == 0 || len >= max_tokens {
        return false;
    }
    let (s, e) = random_range(rand, len, max_tokens - len);
    let to = between(rand, 0, len);
    let run = copy_tokens(stream, s, e);
    insert_run(stream, to, run);
    true
}

/// What `mutate_delete` does when it reports a change.
pub open spec fn delete_effect(old: Seq<TokenModel>, new: Seq<TokenModel>) -> bool {
    exists|idx: int|
        0 <= idx < old.len() && new == old.remove(idx)
}

/// Removes a random token.
pub fn mutate_delete(rand: &mut StdRand, stream: &mut TokenStream) -> (r: bool)
    ensures
        r == (old(stream)@.len() > 0),
        !r ==> final(stream)@ == old(stream)@,
        r ==> delete_effect(old(stream)@, final(stream)@),
{
    let len = stream.len();
    if len == 0 {
        return false;
    }
    let ghost old_v = stream@;
    let idx = between(rand, 0, len - 1);
    stream.0.remove(idx);
    assert(stream@ =~= old_v.remove(idx as int));
    true
}

/// What `mutate_flip` does when it reports a change.
pub open spec fn flip_effect(old: Seq<TokenModel>, new: Seq<TokenModel>) -> bool {
    exists|idx: int, pos: int, b: u8|
        {
            &&& 0 <= idx < old.len()
            &&& 0 <= pos < old[idx].1.len()
            &&& b != old[idx].1[pos]
            &&& flip_ok(old[idx].0, old[idx].1, pos, b)
            &&& new == old.update(
                idx,
                (old[idx].0, old[idx].1.update(pos, b)),
            )
        }
}

/// Flips one random bit of one random byte of a random token. Where the new
/// byte would break the token's invariant (the one `TextToken::verify`
/// checks), the flip is refused and the stream left unchanged.
pub fn mutate_flip(rand: &mut StdRand, stream: &mut TokenStream) -> (r: bool)
    ensures
        old(stream)@.len() == 0 ==> !r,
        old(stream)@.len() > 0 && (forall|k: int|
            0 <= k < old(stream)@.len() ==> #[trigger] old(stream)@[k].0 == TokenKind::Constant
                && old(stream)@[k].1.len() > 0) ==> r,
        !r ==> final(stream)@ == old(stream)@,
        forall|k: int|
            0 <= k < old(stream)@.len() && token_ok(#[trigger] old(stream)@[k]) ==> token_ok(
                final(stream)@[k],
            ),
        r ==> flip_effect(old(stream)@, final(stream)@),
{
    let len = stream.len();
    if len == 0 {
        return false;
    }
    let idx = between(rand, 0, len - 1);
    assert(stream.0@[idx as int]@ == stream@[idx as int]);
    assert(stream@[idx as int].0 == stream.0@[idx as int].kind());
    let dlen = stream.0[idx].len();
    if dlen == 0 {
        return false;
    }
    let pos = between(rand, 0, dlen - 1);
    let bit = between(rand, 0, 7);
    let old_b = stream.0[idx].data()[pos];
    let b = old_b ^ bit_mask(bit);
    assert(old_b ^ (1u8 << (bit as u8)) != old_b) by (bit_vector)
        requires
            bit < 8,
    ;
    if !byte_allowed(&stream.0[idx], pos, b) {
        return false;
    }
    let ghost old_v = stream@;
    crate::token_mutators::replace_byte_at(stream, idx, pos, b);
    proof {
        let t = old_v[idx as int];
        let u = stream@[idx as int];
        if token_ok(t) {
            assert forall|j: int| 0 <= j < u.1.len() implies #[trigger] byte_ok(u.0, u.1, j) by {
                if j != pos {
                    assert(byte_ok(t.0, t.1, j));
                }
            }
        }
        assert forall|k: int|
            0 <= k < old_v.len() && token_ok(#[trigger] old_v[k]) implies token_ok(stream@[k]) by {
            if k != idx {
                assert(stream@[k] == old_v[k]);
            }
        }
    }
    true
}

/// The byte with only bit `bit` set.
fn bit_mask(bit: usize) -> (m: u8)
    requires
        bit < 8,
    ensures
        m == 1u8 << (bit as u8),
{
    1u8 << (bit as u8)
}

/// Whether byte `b` may replace the byte at `pos` of payload `d` of a
/// token of `kind`: it keeps to the alphabet of that position, and the last
/// byte of a number stays a digit.
pub open spec fn flip_ok(kind: TokenKind, d: Seq<u8>, pos: int, b: u8) -> bool {
    &&& byte_ok(kind, d.update(pos, b), pos)
    &&& kind == TokenKind::Number && pos == d.len() - 1 ==> is_digit(b)
}

/// Whether `b` may stand at `pos` of the payload of `t`.
fn byte_allowed(t: &TextToken, pos: usize, b: u8) -> (r: bool)
    requires
        pos < t.bytes().len(),
    ensures
        r == flip_ok(t.kind(), t.bytes(), pos as int, b),
{
    let ws = b == 0x20 || (0x09 <= b && b <= 0x0d);
    let digit = 0x30 <= b && b <= 0x39;
    let sign = b == 0x2b || b == 0x2d;
    let last = pos == t.len() - 1;
    match t {
        TextToken::Constant(_) => true,
        TextToken::Number(_) => digit || (pos == 0 && sign && !last),
        TextToken::Whitespace(_) => ws,
        TextToken::Text(_) => b < 0x80 && (pos == 0 || !(ws || digit || sign)),
    }
}

/// The boundary values put into numbers: 0, -1, 127, 128, 255, 256, 65535
/// and 65536, as decimal digits.
pub open spec fn interesting_value(i: int) -> Seq<u8> {
    if i == 0 {
        seq![0x30u8]
    } else if i == 1 {
        seq![0x2du8, 0x31u8]
    } else if i == 2 {
        seq![0x31u8, 0x32u8, 0x37u8]
    } else if i == 3 {
        seq![0x31u8, 0x32u8, 0x38u8]
    } else if i == 4 {
        seq![0x32u8, 0x35u8, 0x35u8]
    } else if i == 5 {
        seq![0x32u8, 0x35u8, 0x36u8]
    } else if i == 6 {
        seq![0x36u8, 0x35u8, 0x35u8, 0x33u8, 0x35u8]
    } else {
        seq![0x36u8, 0x35u8, 0x35u8, 0x33u8, 0x36u8]
    }
}

/// The boundary value at `i` of the table.
fn interesting_number(i: usize) -> (d: Vec<u8>)
    requires
        i < 8,
    ensures
        d@ == interesting_value(i as int),
        token_ok((TokenKind::Number, d@)),
{
    let d: Vec<u8> = if i == 0 {
        vec![0x30]
    } else if i == 1 {
        vec![0x2d, 0x31]
    } else if i == 2 {
        vec![0x31, 0x32, 0x37]
    } else if i == 3 {
        vec![0x31, 0x32, 0x38]
    } else if i == 4 {
        vec![0x32, 0x35, 0x35]
    } else if i == 5 {
        vec![0x32, 0x35, 0x36]
    } else if i == 6 {
        vec![0x36, 0x35, 0x35, 0x33, 0x35]
    } else {
        vec![0x36, 0x35, 0x35, 0x33, 0x36]
    };
    assert(d@ =~= interesting_value(i as int));
    assert(token_ok((TokenKind::Number, d@)));
    d
}

/// What `mutate_interesting` does when it reports a change.
pub open spec fn interesting_effect(old: Seq<TokenModel>, new: Seq<TokenModel>) -> bool {
    exists|idx: int, i: int|
        {
            &&& 0 <= idx < old.len()
            &&& 0 <= i < 8
            &&& old[idx].0 == TokenKind::Number
            &&& new == #[trigger] old.update(
                idx,
                (TokenKind::Number, interesting_value(i)),
            )
        }
}

/// Overwrites a random token with a boundary value of its kind. Only
/// numbers have such values; a token of another kind is left alone.
pub fn mutate_interesting(rand: &mut StdRand, stream: &mut TokenStream) -> (r: bool)
    ensures
        old(stream)@.len() == 0 ==> !r,
        old(stream)@.len() > 0 && (forall|k: int|
            0 <= k < old(stream)@.len() ==> #[trigger] old(stream)@[k].0 == TokenKind::Number)
            ==> r,
        !r ==> final(stream)@ == old(stream)@,
        r ==> interesting_effect(old(stream)@, final(stream)@),
{
    let len = stream.len();
    if len == 0 {
        return false;
    }
    let idx = between(rand, 0, len - 1);
    assert(stream.0@[idx as int]@ == stream@[idx as int]);
    assert(stream@[idx as int].0 == stream.0@[idx as int].kind());
    if !stream.0[idx].is_number() {
        return false;
    }
    let i = between(rand, 0, 7);
    let d = interesting_number(i);
    let ghost old_v = stream@;
    let ghost dv = d@;
    stream.0.set(idx, TextToken::Number(d));
    assert(stream@ =~= old_v.update(idx as int, (TokenKind::Number, dv)));
    true
}

/// What `mutate_random_insert` does when it reports a change.
pub open spec fn random_insert_effect(old: Seq<TokenModel>, new: Seq<TokenModel>) -> bool {
    exists|idx: int, t: TokenModel|
        {
            &&& 0 <= idx <= old.len()
            &&& token_ok(t) && relexes_to_itself(t)
            &&& new == old.insert(idx, t)
        }
}

/// Inserts a fresh random token at a random position, keeping the stream at
/// most `max_tokens` long.
pub fn mutate_random_insert(rand: &mut StdRand, stream: &mut TokenStream, max_tokens: usize) -> (r:
    bool)
    ensures
        r == (old(stream)@.len() < max_tokens),
        !r ==> final(stream)@ == old(stream)@,
        r ==> random_insert_effect(old(stream)@, final(stream)@),
{
    let len = stream.len();
    if len >= max_tokens {
        return false;
    }
    let idx = between(rand, 0, len);
    let t = random_token(rand);
    let ghost old_v = stream@;
    let ghost tv = t@;
    stream.0.insert(idx, t);
    assert(stream@ =~= old_v.insert(idx as int, tv));
    true
}

/// What `mutate_random_replace` does when it reports a change.
pub open spec fn random_replace_effect(old: Seq<TokenModel>, new: Seq<TokenModel>) -> bool {
    exists|idx: int, t: TokenModel|
        {
            &&& 0 <= idx < old.len()
            &&& token_ok(t) && relexes_to_itself(t)
            &&& new == old.update(idx, t)
        }
}

/// Overwrites a random token with a fresh random token.
pub fn mutate_random_replace(rand: &mut StdRand, stream: &mut TokenStream) -> (r: bool)
    ensures
        r == (old(stream)@.len() > 0),
        !r ==> final(stream)@ == old(stream)@,
        r ==> random_replace_effect(old(stream)@, final(stream)@),
{
    let len = stream.len();
    if len == 0 {
        return false;
    }
    let idx = between(rand, 0, len - 1);
    let t = random_token(rand);
    let ghost old_v = stream@;
    let ghost tv = t@;
    stream.0.set(idx, t);
    assert(stream@ =~= old_v.update(idx as int, tv));
    true
}

/// `t` with `n` more copies of its byte at `pos` put in front of it.
pub open spec fn with_repeated_byte(t: TokenModel, pos: int, n: nat) -> TokenModel {
    (t.0, t.1.take(pos) + Seq::new(n, |i: int| t.1[pos]) + t.1.skip(pos))
}

/// What `mutate_repeat_char` does when it reports a change.
pub open spec fn repeat_char_effect(old: Seq<TokenModel>, new: Seq<TokenModel>, max_repeat: usize) -> bool {
    exists|idx: int, pos: int, n: nat|
        {
            &&& 0 <= idx < old.len()
            &&& 0 <= pos < old[idx].1.len()
            &&& 1 <= n <= max_repeat
            &&& !(old[idx].0 == TokenKind::Number && pos == 0 && is_sign(
                old[idx].1[0],
            ))
            &&& new == old.update(
                idx,
                #[trigger] with_repeated_byte(old[idx], pos, n),
            )
        }
}

/// Repeats one random byte of a random token 1 to `max_repeat` more times
/// in place. A leading sign of a number is not repeated.
pub fn mutate_repeat_char(rand: &mut StdRand, stream: &mut TokenStream, max_repeat: usize) -> (r:
    bool)
    requires
        max_repeat >= 1,
    ensures
        old(stream)@.len() == 0 ==> !r,
        old(stream)@.len() > 0 && (forall|k: int|
            0 <= k < old(stream)@.len() ==> #[trigger] old(stream)@[k].0 != TokenKind::Number
                && old(stream)@[k].1.len() > 0) ==> r,
        !r ==> final(stream)@ == old(stream)@,
        r ==> repeat_char_effect(old(stream)@, final(stream)@, max_repeat),
{
    let len = stream.len();
    if len == 0 {
        return false;
    }
    let idx = between(rand, 0, len - 1);
    assert(stream.0@[idx as int]@ == stream@[idx as int]);
    assert(stream@[idx as int].0 == stream.0@[idx as int].kind());
    let dlen = stream.0[idx].len();
    if dlen == 0 {
        return false;
    }
    let pos = between(rand, 0, dlen - 1);
    let first = stream.0[idx].data()[0];
    if stream.0[idx].is_number() && pos == 0 && (first == 0x2b || first == 0x2d) {
        return false;
    }
    let n = between(rand, 0, max_repeat - 1) + 1;
    let ghost old_v = stream@;
    let tok = stream.0.remove(idx);
    assert(tok@ == old_v[idx as int]);
    let data = tok.data();
    let c = data[pos];
    let mut d: Vec<u8> = Vec::new();
    let mut i: usize = 0;
    while i < pos
        invariant
            i <= pos < data@.len(),
            d@ == data@.take(i as int),
        decreases pos - i,
    {
        d.push(data[i]);
        i = i + 1;
        assert(d@ =~= data@.take(i as int));
    }
    let mut k: usize = 0;
    while k < n
        invariant
            k <= n,
            pos < data@.len(),
            c == data@[pos as int],
            d@ == data@.take(pos as int) + Seq::new(k as nat, |j: int| data@[pos as int]),
        decreases n - k,
    {
        d.push(c);
        k = k + 1;
        assert(d@ =~= data@.take(pos as int) + Seq::new(k as nat, |j: int| data@[pos as int]));
    }
    let ghost d0 = d@;
    let mut i: usize = pos;
    while i < data.len()
        invariant
            pos <= i <= data@.len(),
            d@ == d0 + data@.subrange(pos as int, i as int),
        decreases data@.len() - i,
    {
        d.push(data[i]);
        i = i + 1;
        assert(d@ =~= d0 + data@.subrange(pos as int, i as int));
    }
    let ghost dv = d@;
    let t = match &tok {
        TextToken::Constant(_) => TextToken::Constant(d),
        TextToken::Number(_) => TextToken::Number(d),
        TextToken::Whitespace(_) => TextToken::Whitespace(d),
        TextToken::Text(_) => TextToken::Text(d),
    };
    stream.0.insert(idx, t);
    proof {
        let o = old_v[idx as int];
        assert(data@.subrange(pos as int, data@.len() as int) =~= o.1.skip(pos as int));
        assert(dv =~= with_repeated_byte(o, pos as int, n as nat).1);
        assert(stream@ =~= old_v.update(idx as int, with_repeated_byte(o, pos as int, n as nat)));
    }
    true
}

/// What `mutate_repeat_token` does when it reports a change.
pub open spec fn repeat_token_effect(old: Seq<TokenModel>, new: Seq<TokenModel>, max_repeat: usize) -> bool {
    exists|idx: int, n: nat|
        {
            &&& 0 <= idx < old.len()
            &&& 1 <= n <= max_repeat
            &&& is_insertion(old, new, idx, repeated(old[idx], n))
        }
}

/// Puts 1 to `max_repeat` copies of a random token in front of it, keeping
/// the stream at most `max_tokens` long.
pub fn mutate_repeat_token(
    rand: &mut StdRand,
    stream: &mut TokenStream,
    max_repeat: usize,
    max_tokens: usize,
) -> (r: bool)
    requires
        max_repeat >= 1,
    ensures
        (r == false) == (old(stream)@.len() == 0 || old(stream)@.len() >= max_tokens),
        !r ==> final(stream)@ == old(stream)@,
        r ==> final(stream)@.len() <= max_tokens,
        r ==> repeat_token_effect(old(stream)@, final(stream)@, max_repeat),
{
    let len = stream.len();
    if len == 0 || len >= max_tokens {
        return false;
    }
    let idx = between(rand, 0, len - 1);
    let room = if max_tokens - len < max_repeat {
        max_tokens - len
    } else {
        max_repeat
    };
    let n = 1 + between(rand, 0, room - 1);
    let ghost t = stream@[idx as int];
    assert(stream.0@[idx as int]@ == t);
    let mut run: Vec<TextToken> = Vec::new();
    while run.len() < n
        invariant
            run@.len() <= n,
            idx < stream@.len(),
            t == stream@[idx as int],
            models(run@) == repeated(t, run@.len() as nat),
        decreases n - run@.len(),
    {
        assert(stream.0@[idx as int]@ == t);
        let ghost r0 = run@;
        run.push(stream.0[idx].duplicate());
        assert(models(run@) =~= models(r0).push(t));
        assert(models(run@) =~= repeated(t, run@.len() as nat));
    }
    insert_run(stream, idx, run);
    true
}

/// Exchanges the tokens at `a` and `b`.
fn swap_at(stream: &mut TokenStream, a: usize, b: usize)
    requires
        a < b < old(stream)@.len(),
    ensures
        final(stream)@ == old(stream)@.update(a as int, old(stream)@[b as int]).update(
            b as int,
            old(stream)@[a as int],
        ),
{
    let ghost old_v = stream@;
    let tb = stream.0.remove(b);
    let ta = stream.0.remove(a);
    stream.0.insert(a, tb);
    stream.0.insert(b, ta);
    assert(stream@ =~= old_v.update(a as int, old_v[b as int]).update(b as int, old_v[a as int]));
}

/// What `mutate_swap_tokens` does when it reports a change.
pub open spec fn swap_tokens_effect(old: Seq<TokenModel>, new: Seq<TokenModel>) -> bool {
    exists|a: int, b: int|
        0 <= a < b < old.len() && new == old.update(
            a,
            old[b],
        ).update(b, old[a])
}

/// Exchanges two random tokens; nothing happens when both draws fall on the
/// same token.
pub fn mutate_swap_tokens(rand: &mut StdRand, stream: &mut TokenStream) -> (r: bool)
    ensures
        old(stream)@.len() < 2 ==> !r,
        !r ==> final(stream)@ == old(stream)@,
        r ==> swap_tokens_effect(old(stream)@, final(stream)@),
{
    let len = stream.len();
    if len < 2 {
        return false;
    }
    let x = between(rand, 0, len - 1);
    let y = between(rand, 0, len - 1);
    let ghost old_v = stream@;
    let r = swap_drawn(stream, x, y);
    proof {
        if x > y {
            assert(stream@ =~= old_v.update(y as int, old_v[x as int]).update(
                x as int,
                old_v[y as int],
            ));
        }
    }
    r
}

/// Exchanges the tokens at the drawn positions `x` and `y`; nothing happens
/// where they coincide.
pub fn swap_drawn(stream: &mut TokenStream, x: usize, y: usize) -> (r: bool)
    requires
        x < old(stream)@.len(),
        y < old(stream)@.len(),
    ensures
        r == (x != y),
        final(stream)@ == old(stream)@.update(x as int, old(stream)@[y as int]).update(
            y as int,
            old(stream)@[x as int],
        ),
{
    let ghost old_v = stream@;
    if x == y {
        assert(old_v.update(x as int, old_v[y as int]).update(y as int, old_v[x as int]) =~= old_v);
        return false;
    }
    if x < y {
        swap_at(stream, x, y);
    } else {
        swap_at(stream, y, x);
        assert(stream@ =~= old_v.update(x as int, old_v[y as int]).update(
            y as int,
            old_v[x as int],
        ));
    }
    true
}

/// `w` lists, in increasing order, exactly the positions of the text
/// tokens of `s`.
pub open spec fn is_text_index_list(s: Seq<TokenModel>, w: Seq<usize>) -> bool {
    &&& forall|i: int| 0 <= i < w.len() ==> #[trigger] w[i] < s.len()
    &&& forall|i: int| 0 <= i < w.len() ==> s[#[trigger] w[i] as int].0 == TokenKind::Text
    &&& forall|i: int, j: int| 0 <= i < j < w.len() ==> #[trigger] w[i] < #[trigger] w[j]
    &&& forall|k: int| 0 <= k < s.len() && #[trigger] s[k].0 == TokenKind::Text ==> w.contains(
        k as usize,
    )
}

/// Positions of the text tokens, in order.
pub fn text_indices(stream: &TokenStream) -> (r: Vec<usize>)
    ensures
        is_text_index_list(stream@, r@),
        forall|i: int| 0 <= i < r@.len() ==> #[trigger] r@[i] < stream@.len(),
        forall|i: int| 0 <= i < r@.len() ==> stream@[#[trigger] r@[i] as int].0 == TokenKind::Text,
        forall|i: int, j: int| 0 <= i < j < r@.len() ==> #[trigger] r@[i] < #[trigger] r@[j],
        forall|k: int|
            0 <= k < stream@.len() && #[trigger] stream@[k].0 == TokenKind::Text ==> r@.contains(
                k as usize,
            ),
{
    let mut r: Vec<usize> = Vec::new();
    let mut j: usize = 0;
    while j < stream.0.len()
        invariant
            j <= stream@.len(),
            forall|i: int| 0 <= i < r@.len() ==> #[trigger] r@[i] < j,
            forall|i: int|
                0 <= i < r@.len() ==> stream@[#[trigger] r@[i] as int].0 == TokenKind::Text,
            forall|i: int, l: int| 0 <= i < l < r@.len() ==> #[trigger] r@[i] < #[trigger] r@[l],
            forall|k: int|
                0 <= k < j && #[trigger] stream@[k].0 == TokenKind::Text ==> r@.contains(
                    k as usize,
                ),
        decreases stream@.len() - j,
    {
        assert(stream.0@[j as int]@ == stream@[j as int]);
        if matches!(stream.0[j], TextToken::Text(_)) {
            let ghost r0 = r@;
            r.push(j);
            assert forall|k: int|
                0 <= k < j + 1 && #[trigger] stream@[k].0 == TokenKind::Text implies r@.contains(
                k as usize,
            ) by {
                if k < j {
                    assert(r0.contains(k as usize));
                    let w = choose|w: int| 0 <= w < r0.len() && r0[w] == k as usize;
                    assert(r@[w] == k as usize);
                } else {
                    assert(r@[r@.len() - 1] == j);
                }
            }
        }
        j = j + 1;
    }
    r
}

/// What `mutate_swap_words` does when it reports a change.
pub open spec fn swap_words_effect(old: Seq<TokenModel>, new: Seq<TokenModel>) -> bool {
    exists|a: int, b: int|
        {
            &&& 0 <= a < b < old.len()
            &&& old[a].0 == TokenKind::Text
            &&& old[b].0 == TokenKind::Text
            &&& new == old.update(a, old[b]).update(
                b,
                old[a],
            )
        }
}

/// Exchanges two random text tokens; nothing happens with fewer than two
/// text tokens or when both draws fall on the same one.
pub fn mutate_swap_words(rand: &mut StdRand, stream: &mut TokenStream) -> (r: bool)
    ensures
        !r ==> final(stream)@ == old(stream)@,
        r ==> swap_words_effect(old(stream)@, final(stream)@),
{
    let words = text_indices(stream);
    if words.len() < 2 {
        return false;
    }
    let x = between(rand, 0, words.len() - 1);
    let y = between(rand, 0, words.len() - 1);
    let (p, q) = if x < y {
        (x, y)
    } else {
        (y, x)
    };
    swap_words_drawn(stream, words.as_slice(), p, q)
}

/// Exchanges the `x`-th and `y`-th text tokens, given the positions `words`
/// of all text tokens; nothing happens where `x` and `y` coincide.
pub fn swap_words_drawn(stream: &mut TokenStream, words: &[usize], x: usize, y: usize) -> (r: bool)
    requires
        is_text_index_list(old(stream)@, words@),
        x < words@.len(),
        y < words@.len(),
    ensures
        r == (x != y),
        final(stream)@ == old(stream)@.update(
            words@[x as int] as int,
            old(stream)@[words@[y as int] as int],
        ).update(words@[y as int] as int, old(stream)@[words@[x as int] as int]),
{
    let a = words[x];
    let b = words[y];
    assert(x < y ==> a < b);
    assert(y < x ==> b < a);
    swap_drawn(stream, a, b)
}

/// What `mutate_truncate` does when it reports a change.
pub open spec fn truncate_effect(old: Seq<TokenModel>, new: Seq<TokenModel>) -> bool {
    exists|n: int| 0 <= n < old.len() && new == old.take(n)
}

/// Drops a random, non-empty suffix of the stream.
pub fn mutate_truncate(rand: &mut StdRand, stream: &mut TokenStream) -> (r: bool)
    ensures
        r == (old(stream)@.len() > 0),
        !r ==> final(stream)@ == old(stream)@,
        r ==> truncate_effect(old(stream)@, final(stream)@),
{
    let len = stream.len();
    if len == 0 {
        return false;
    }
    let ghost old_v = stream@;
    let n = between(rand, 0, len - 1);
    stream.0.truncate(n);
    assert(stream@ =~= old_v.take(n as int));
    true
}

/// A constant token holding a copy of the dictionary entry at `i`.
fn dict_token(dict: &[Vec<u8>], i: usize) -> (t: TextToken)
    requires
        i < dict@.len(),
    ensures
        t@ == (TokenKind::Constant, dict@[i as int]@),
{
    let mut d: Vec<u8> = Vec::new();
    crate::tokens::copy_vec(&mut d, dict[i].as_slice());
    TextToken::Constant(d)
}

/// What `mutate_dict_insert` does when it reports a change.
pub open spec fn dict_insert_effect(old: Seq<TokenModel>, new: Seq<TokenModel>, dict: Seq<Vec<u8>>) -> bool {
    exists|idx: int, e: int|
        0 <= idx <= old.len() && 0 <= e < dict.len() && new == old.insert(idx, (TokenKind::Constant, dict[e]@))
}

/// Inserts a dictionary entry as a constant token at a random position,
/// keeping the stream at most `max_tokens` long.
pub fn mutate_dict_insert(
    rand: &mut StdRand,
    stream: &mut TokenStream,
    dict: &[Vec<u8>],
    max_tokens: usize,
) -> (r: bool)
    ensures
        r == (dict@.len() > 0 && old(stream)@.len() < max_tokens),
        !r ==> final(stream)@ == old(stream)@,
        r ==> dict_insert_effect(old(stream)@, final(stream)@, dict@),
{
    let len = stream.len();
    if dict.len() == 0 || len >= max_tokens {
        return false;
    }
    let e = between(rand, 0, dict.len() - 1);
    let idx = between(rand, 0, len);
    let t = dict_token(dict, e);
    let ghost old_v = stream@;
    stream.0.insert(idx, t);
    assert(stream@ =~= old_v.insert(idx as int, (TokenKind::Constant, dict@[e as int]@)));
    true
}

/// What `mutate_dict_replace` does when it reports a change.
pub open spec fn dict_replace_effect(old: Seq<TokenModel>, new: Seq<TokenModel>, dict: Seq<Vec<u8>>) -> bool {
    exists|idx: int, e: int|
        0 <= idx < old.len() && 0 <= e < dict.len() && new == old.update(idx, (TokenKind::Constant, dict[e]@))
}

/// Overwrites a random token with a dictionary entry as a constant token.
pub fn mutate_dict_replace(rand: &mut StdRand, stream: &mut TokenStream, dict: &[Vec<u8>]) -> (r:
    bool)
    ensures
        r == (dict@.len() > 0 && old(stream)@.len() > 0),
        !r ==> final(stream)@ == old(stream)@,
        r ==> dict_replace_effect(old(stream)@, final(stream)@, dict@),
{
    let len = stream.len();
    if dict.len() == 0 || len == 0 {
        return false;
    }
    let e = between(rand, 0, dict.len() - 1);
    let idx = between(rand, 0, len - 1);
    let t = dict_token(dict, e);
    let ghost old_v = stream@;
    stream.0.set(idx, t);
    assert(stream@ =~= old_v.update(idx as int, (TokenKind::Constant, dict@[e as int]@)));
    true
}

/// What `mutate_swap_constants` does when it reports a change.
pub open spec fn swap_constants_effect(old: Seq<TokenModel>, new: Seq<TokenModel>, dict: Seq<Vec<u8>>) -> bool {
    exists|idx: int, e: int|
        {
            &&& 0 <= idx < old.len()
            &&& 0 <= e < dict.len()
            &&& old[idx].0 == TokenKind::Constant
            &&& new == old.update(idx, (TokenKind::Constant, dict[e]@))
        }
}

/// Replaces the payload of the first constant token found from a random
/// token on with another dictionary entry.
pub fn mutate_swap_constants(
    rand: &mut StdRand,
    stream: &mut TokenStream,
    dict: &[Vec<u8>],
) -> (r: bool)
    ensures
        dict@.len() == 0 || old(stream)@.len() == 0 ==> !r,
        dict@.len() > 0 && old(stream)@.len() > 0 && (forall|k: int|
            0 <= k < old(stream)@.len() ==> #[trigger] old(stream)@[k].0 == TokenKind::Constant)
            ==> r,
        (forall|k: int| 0 <= k < old(stream)@.len() ==> #[trigger] old(stream)@[k].0
            != TokenKind::Constant) ==> !r,
        !r ==> final(stream)@ == old(stream)@,
        r ==> swap_constants_effect(old(stream)@, final(stream)@, dict@),
{
    let len = stream.len();
    if dict.len() == 0 || len == 0 {
        return false;
    }
    let start = between(rand, 0, len - 1);
    let ghost s0 = stream@;
    let mut j: usize = start;
    while j < len
        invariant
            len == stream@.len(),
            dict@.len() > 0,
            stream@ == s0,
            s0 == old(stream)@,
            start <= j,
            start < len,
            forall|k: int| start <= k < j ==> #[trigger] s0[k].0 != TokenKind::Constant,
        decreases len - j,
    {
        assert(stream.0@[j as int]@ == stream@[j as int]);
        assert(s0[j as int].0 == stream.0@[j as int].kind());
        if stream.0[j].is_constant() {
            assert(s0[j as int].0 == TokenKind::Constant);
            let e = between(rand, 0, dict.len() - 1);
            let t = dict_token(dict, e);
            let ghost old_v = stream@;
            stream.0.set(j, t);
            assert(stream@ =~= old_v.update(j as int, (TokenKind::Constant, dict@[e as int]@)));
            return true;
        }
        j = j + 1;
    }
    assert(s0[start as int].0 != TokenKind::Constant);
    false
}

/// Inserts a random run of `other` at a random position, keeping the
/// stream at most `max_tokens` long.
pub fn mutate_crossover_insert(
    rand: &mut StdRand,
    stream: &mut TokenStream,
    other: &TokenStream,
    max_tokens: usize,
) -> (r: bool)
    ensures
        r == (other@.len() > 0 && old(stream)@.len() < max_tokens),
        !r ==> final(stream)@ == old(stream)@,
        r ==> final(stream)@.len() <= max_tokens,
        r ==> exists|to: int, s: int, e: int|
            0 <= s < e <= other@.len() && is_insertion(
                old(stream)@,
                final(stream)@,
                to,
                other@.subrange(s, e),
            ),
{
    let len = stream.len();
    if other.len() == 0 || len >= max_tokens {
        return false;
    }
    let (s, e) = random_range(rand, other.len(), max_tokens - len);
    let to = between(rand, 0, len);
    let run = copy_tokens(other, s, e);
    insert_run(stream, to, run);
    true
}

/// Overwrites a random token with a copy of a random token of `other`.
pub fn mutate_crossover_replace(
    rand: &mut StdRand,
    stream: &mut TokenStream,
    other: &TokenStream,
    max_tokens: usize,
) -> (r: bool)
    ensures
        r == (other@.len() > 0 && old(stream)@.len() > 0 && old(stream)@.len() <= max_tokens),
        !r ==> final(stream)@ == old(stream)@,
        r ==> exists|idx: int, from: int|
            0 <= idx < old(stream)@.len() && 0 <= from < other@.len() && final(stream)@ == old(
                stream,
            )@.update(idx, other@[from]),
{
    let len = stream.len();
    if other.len() == 0 || len == 0 || len > max_tokens {
        return false;
    }
    let from = between(rand, 0, other.len() - 1);
    let idx = between(rand, 0, len - 1);
    assert(other.0@[from as int]@ == other@[from as int]);
    let t = other.0[from].duplicate();
    let ghost old_v = stream@;
    stream.0.set(idx, t);
    assert(stream@ =~= old_v.update(idx as int, other@[from as int]));
    true
}

} // verus!
