//! Cutting tokens in two, and putting special bytes into text tokens.
use crate::rng::{between, StdRand};
use crate::token_ops::random_token;
use crate::tokens::{
    byte_ok, copy_range, number_ok, relexes_to_itself, token_ok, TextToken, TokenKind, TokenModel, TokenStream,
};
use vstd::prelude::*;

verus! {

/// `new` is `old` with the token at `idx` cut at `pos` into two tokens of
/// its kind, and `mid` put between the halves.
pub open spec fn is_split_of(
    old: Seq<TokenModel>,
    new: Seq<TokenModel>,
    idx: int,
    pos: int,
    mid: TokenModel,
) -> bool {
    let t = old[idx];
    &&& 0 <= idx < old.len()
    &&& 0 < pos < t.1.len()
    &&& new == old.take(idx) + seq![(t.0, t.1.take(pos)), mid, (t.0, t.1.skip(pos))] + old.skip(
        idx + 1,
    )
}

/// Whether the token at `idx` may be cut at `pos`: never a constant, and
/// never a number right after its first byte, which could leave a lone sign.
pub open spec fn split_allowed(t: TokenModel, pos: int) -> bool {
    &&& t.0 != TokenKind::Constant
    &&& 0 < pos < t.1.len()
    &&& !(t.0 == TokenKind::Number && pos == 1)
}

/// The token of the same kind as `like` holding `data`.
fn with_kind_of(like: &TextToken, data: Vec<u8>) -> (r: TextToken)
    ensures
        r@ == (like.kind(), data@),
{
    match like {
        TextToken::Constant(_) => TextToken::Constant(data),
        TextToken::Number(_) => TextToken::Number(data),
        TextToken::Whitespace(_) => TextToken::Whitespace(data),
        TextToken::Text(_) => TextToken::Text(data),
    }
}

/// Every token of `ts` can be cut at each of its interior bytes.
pub open spec fn all_splittable(ts: Seq<TokenModel>) -> bool {
    forall|k: int|
        0 <= k < ts.len() ==> (#[trigger] ts[k]).1.len() >= 2 && (ts[k].0 == TokenKind::Text
            || ts[k].0 == TokenKind::Whitespace)
}

/// Cuts the token at `idx` at byte `pos` and puts `mid` between the halves.
pub fn split_token_at(stream: &mut TokenStream, idx: usize, pos: usize, mid: TextToken)
    requires
        idx < old(stream)@.len(),
        0 < pos < old(stream)@[idx as int].1.len(),
    ensures
        is_split_of(old(stream)@, final(stream)@, idx as int, pos as int, mid@),
{
    let ghost old_v = stream@;
    let tok = stream.0.remove(idx);
    assert(tok@ == old_v[idx as int]);
    let data = tok.data();
    let head = with_kind_of(&tok, copy_range(data, 0, pos));
    let tail = with_kind_of(&tok, copy_range(data, pos, data.len()));
    let ghost mid_v = mid@;
    stream.0.insert(idx, tail);
    stream.0.insert(idx, mid);
    stream.0.insert(idx, head);
    proof {
        let t = old_v[idx as int];
        assert(t.1.subrange(0, pos as int) =~= t.1.take(pos as int));
        assert(t.1.subrange(pos as int, t.1.len() as int) =~= t.1.skip(pos as int));
        assert(stream@ =~= old_v.take(idx as int) + seq![
            (t.0, t.1.take(pos as int)),
            mid_v,
            (t.0, t.1.skip(pos as int)),
        ] + old_v.skip(idx as int + 1));
    }
}

/// Cutting a well-formed number after its second byte or later leaves two
/// well-formed numbers.
pub proof fn lemma_split_keeps_numbers(
    old: Seq<TokenModel>,
    new: Seq<TokenModel>,
    idx: int,
    pos: int,
    mid: TokenModel,
)
    requires
        is_split_of(old, new, idx, pos, mid),
        split_allowed(old[idx], pos),
        number_ok(mid),
        forall|k: int| 0 <= k < old.len() ==> number_ok(#[trigger] old[k]),
    ensures
        forall|k: int| 0 <= k < new.len() ==> number_ok(#[trigger] new[k]),
{
    let t = old[idx];
    let head = (t.0, t.1.take(pos));
    let tail = (t.0, t.1.skip(pos));
    assert(number_ok(t));
    if t.0 == TokenKind::Number {
        assert(byte_ok(t.0, t.1, pos - 1));
        assert forall|j: int| 0 <= j < head.1.len() implies #[trigger] byte_ok(head.0, head.1, j) by {
            assert(byte_ok(t.0, t.1, j));
        }
        assert forall|j: int| 0 <= j < tail.1.len() implies #[trigger] byte_ok(tail.0, tail.1, j) by {
            assert(byte_ok(t.0, t.1, j + pos));
        }
    }
    assert(number_ok(head));
    assert(number_ok(tail));
    assert forall|k: int| 0 <= k < new.len() implies number_ok(#[trigger] new[k]) by {
        if k < idx {
            assert(new[k] == old[k]);
        } else if k == idx {
            assert(new[k] == head);
        } else if k == idx + 1 {
            assert(new[k] == mid);
        } else if k == idx + 2 {
            assert(new[k] == tail);
        } else {
            assert(new[k] == old[k - 2]);
        }
    }
}

/// What `mutate_split` does when it reports a change.
pub open spec fn split_effect(old: Seq<TokenModel>, new: Seq<TokenModel>) -> bool {
    exists|idx: int, pos: int, mid: TokenModel|
        {
            &&& is_split_of(old, new, idx, pos, mid)
            &&& split_allowed(old[idx], pos)
            &&& mid.0 != TokenKind::Constant
            &&& 1 <= mid.1.len() <= 16
            &&& token_ok(mid)
            &&& relexes_to_itself(mid)
        }
}

/// Cuts a random token at a random interior byte and puts a fresh random
/// token between the halves. Refused (returns false, stream unchanged) on an
/// empty stream, when fewer than two slots are left below `max_len`, on a
/// constant or a token of one byte, and on a number cut after its first byte.
pub fn mutate_split(rand: &mut StdRand, stream: &mut TokenStream, max_len: usize) -> (r: bool)
    ensures
        old(stream)@.len() == 0 || max_len < old(stream)@.len() + 2 ==> !r,
        old(stream)@.len() > 0 && old(stream)@.len() + 2 <= max_len && all_splittable(
            old(stream)@,
        ) ==> r,
        !r ==> final(stream)@ == old(stream)@,
        r ==> final(stream)@.len() == old(stream)@.len() + 2,
        r ==> final(stream)@.len() <= max_len,
        r ==> split_effect(old(stream)@, final(stream)@),
        (forall|k: int| 0 <= k < old(stream)@.len() ==> number_ok(#[trigger] old(stream)@[k]))
            ==> (forall|k: int| 0 <= k < final(stream)@.len() ==> number_ok(
            #[trigger] final(stream)@[k],
        )),
{
    let len = stream.len();
    if len == 0 || max_len < 2 || max_len - 2 < len {
        return false;
    }
    let idx = between(rand, 0, len - 1);
    let tok = &stream.0[idx];
    assert(tok@ == stream@[idx as int]);
    let tlen = tok.len();
    if tlen <= 1 || tok.is_constant() {
        return false;
    }
    let pos = 1 + between(rand, 0, tlen - 2);
    if tok.is_number() && pos == 1 {
        return false;
    }
    let mid = random_token(rand);
    let ghost mid_v = mid@;
    let ghost old_v = stream@;
    split_token_at(stream, idx, pos, mid);
    assert(split_allowed(old_v[idx as int], pos as int));
    proof {
        if forall|k: int| 0 <= k < old_v.len() ==> number_ok(#[trigger] old_v[k]) {
            lemma_split_keeps_numbers(old_v, stream@, idx as int, pos as int, mid_v);
        }
    }
    assert(is_split_of(old_v, stream@, idx as int, pos as int, mid_v));
    true
}

/// The bytes that the special-byte operators put into text: NUL, DEL and
/// every ASCII punctuation byte.
pub open spec fn is_special(b: u8) -> bool {
    b == 0 || b == 127 || (33 <= b && b <= 47) || (58 <= b && b <= 64) || (91 <= b && b <= 96) || (
    123 <= b && b <= 125)
}

/// The special byte at `i` of the table the operators draw from.
fn special_byte(i: usize) -> (b: u8)
    requires
        i < 33,
    ensures
        is_special(b),
{
    if i == 0 {
        0
    } else if i <= 15 {
        (32 + i) as u8
    } else if i <= 22 {
        (42 + i) as u8
    } else if i == 23 {
        92
    } else if i == 24 {
        91
    } else if i <= 28 {
        (68 + i) as u8
    } else if i <= 31 {
        (94 + i) as u8
    } else {
        127
    }
}

/// The first text token at or after `start` (with a non-empty payload where
/// `nonempty`), if any.
pub fn first_text_from(stream: &TokenStream, start: usize, nonempty: bool) -> (r: Option<usize>)
    ensures
        match r {
            Some(j) => {
                &&& start <= j < stream@.len()
                &&& stream@[j as int].0 == TokenKind::Text
                &&& nonempty ==> stream@[j as int].1.len() > 0
                &&& forall|k: int|
                    start <= k < j ==> !(#[trigger] stream@[k].0 == TokenKind::Text && (!nonempty
                        || stream@[k].1.len() > 0))
            },
            None => forall|k: int|
                start <= k < stream@.len() ==> !(#[trigger] stream@[k].0 == TokenKind::Text && (
                !nonempty || stream@[k].1.len() > 0)),
        },
{
    let mut j: usize = start;
    while j < stream.0.len()
        invariant
            start <= j,
            forall|k: int|
                start <= k < j && k < stream@.len() ==> !(#[trigger] stream@[k].0
                    == TokenKind::Text && (!nonempty || stream@[k].1.len() > 0)),
        decreases stream@.len() - j,
    {
        let t = &stream.0[j];
        assert(t@ == stream@[j as int]);
        if matches!(t, TextToken::Text(_)) && (!nonempty || t.len() > 0) {
            return Some(j);
        }
        j = j + 1;
    }
    None
}

/// Puts byte `c` into the payload of the token at `j`, at `pos`.
pub fn insert_byte_at(stream: &mut TokenStream, j: usize, pos: usize, c: u8)
    requires
        j < old(stream)@.len(),
        pos <= old(stream)@[j as int].1.len(),
    ensures
        final(stream)@ == old(stream)@.update(
            j as int,
            (
                old(stream)@[j as int].0,
                old(stream)@[j as int].1.take(pos as int) + seq![c] + old(stream)@[j as int].1.skip(
                    pos as int,
                ),
            ),
        ),
{
    let ghost old_v = stream@;
    let tok = stream.0.remove(j);
    assert(tok@ == old_v[j as int]);
    let data = tok.data();
    let mut d = copy_range(data, 0, pos);
    d.push(c);
    let tail = copy_range(data, pos, data.len());
    let mut i: usize = 0;
    let ghost d0 = d@;
    while i < tail.len()
        invariant
            i <= tail@.len(),
            d@ == d0 + tail@.take(i as int),
        decreases tail@.len() - i,
    {
        d.push(tail[i]);
        i = i + 1;
        assert(d@ =~= d0 + tail@.take(i as int));
    }
    let t = with_kind_of(&tok, d);
    stream.0.insert(j, t);
    proof {
        let o = old_v[j as int];
        assert(tail@.take(i as int) =~= o.1.skip(pos as int));
        assert(d0 =~= o.1.take(pos as int) + seq![c]);
        assert(t@ == (o.0, o.1.take(pos as int) + seq![c] + o.1.skip(pos as int)));
        assert(stream@ =~= old_v.update(
            j as int,
            (o.0, o.1.take(pos as int) + seq![c] + o.1.skip(pos as int)),
        ));
    }
}

/// Overwrites the byte at `pos` of the payload of the token at `j` with `c`.
pub fn replace_byte_at(stream: &mut TokenStream, j: usize, pos: usize, c: u8)
    requires
        j < old(stream)@.len(),
        pos < old(stream)@[j as int].1.len(),
    ensures
        final(stream)@ == old(stream)@.update(
            j as int,
            (old(stream)@[j as int].0, old(stream)@[j as int].1.update(pos as int, c)),
        ),
{
    let ghost old_v = stream@;
    let tok = stream.0.remove(j);
    assert(tok@ == old_v[j as int]);
    let data = tok.data();
    let mut d = copy_range(data, 0, data.len());
    d.set(pos, c);
    let t = with_kind_of(&tok, d);
    stream.0.insert(j, t);
    proof {
        let o = old_v[j as int];
        assert(data@.subrange(0, data@.len() as int) =~= o.1);
        assert(stream@ =~= old_v.update(j as int, (o.0, o.1.update(pos as int, c))));
    }
}

/// What `mutate_special_insert` does when it reports a change.
pub open spec fn special_insert_effect(old: Seq<TokenModel>, new: Seq<TokenModel>) -> bool {
    exists|j: int, pos: int, c: u8|
        {
            &&& 0 <= j < old.len()
            &&& old[j].0 == TokenKind::Text
            &&& 0 <= pos <= old[j].1.len()
            &&& is_special(c)
            &&& new == old.update(
                j,
                (TokenKind::Text, old[j].1.take(pos) + seq![c] + old[j].1.skip(
                    pos,
                )),
            )
        }
}

/// Inserts a special byte at a random place of the first text token found
/// from a random token on.
pub fn mutate_special_insert(rand: &mut StdRand, stream: &mut TokenStream) -> (r: bool)
    ensures
        !r ==> final(stream)@ == old(stream)@,
        (forall|k: int| 0 <= k < old(stream)@.len() ==> #[trigger] old(stream)@[k].0
            != TokenKind::Text) ==> !r,
        old(stream)@.len() > 0 && (forall|k: int|
            0 <= k < old(stream)@.len() ==> #[trigger] old(stream)@[k].0 == TokenKind::Text
                && old(stream)@[k].1.len() < usize::MAX) ==> r,
        r ==> special_insert_effect(old(stream)@, final(stream)@),
{
    let len = stream.len();
    if len == 0 {
        return false;
    }
    let start = between(rand, 0, len - 1);
    match first_text_from(stream, start, false) {
        None => {
            let ghost t = stream@[start as int];
            assert(!(t.0 == TokenKind::Text && (!false || t.1.len() > 0)));
            false
        },
        Some(j) => {
            let c = special_byte(between(rand, 0, 32));
            let dlen = stream.0[j].len();
            assert(stream.0@[j as int]@ == stream@[j as int]);
            assert(stream@[j as int].0 == TokenKind::Text);
            if dlen == usize::MAX {
                return false;
            }
            let pos = between(rand, 0, dlen);
            insert_byte_at(stream, j, pos, c);
            true
        },
    }
}

/// What `mutate_special_replace` does when it reports a change.
pub open spec fn special_replace_effect(old: Seq<TokenModel>, new: Seq<TokenModel>) -> bool {
    exists|j: int, pos: int, c: u8|
        {
            &&& 0 <= j < old.len()
            &&& old[j].0 == TokenKind::Text
            &&& 0 <= pos < old[j].1.len()
            &&& is_special(c)
            &&& new == old.update(
                j,
                (TokenKind::Text, old[j].1.update(pos, c)),
            )
        }
}

/// Overwrites a random byte of the first non-empty text token found from a
/// random token on with a special byte.
pub fn mutate_special_replace(rand: &mut StdRand, stream: &mut TokenStream) -> (r: bool)
    ensures
        !r ==> final(stream)@ == old(stream)@,
        (forall|k: int| 0 <= k < old(stream)@.len() ==> #[trigger] old(stream)@[k].0
            != TokenKind::Text) ==> !r,
        old(stream)@.len() > 0 && (forall|k: int|
            0 <= k < old(stream)@.len() ==> #[trigger] old(stream)@[k].0 == TokenKind::Text
                && old(stream)@[k].1.len() > 0) ==> r,
        r ==> special_replace_effect(old(stream)@, final(stream)@),
{
    let len = stream.len();
    if len == 0 {
        return false;
    }
    let start = between(rand, 0, len - 1);
    match first_text_from(stream, start, true) {
        None => {
            let ghost t = stream@[start as int];
            assert(!(t.0 == TokenKind::Text && (!true || t.1.len() > 0)));
            false
        },
        Some(j) => {
            let c = special_byte(between(rand, 0, 32));
            let dlen = stream.0[j].len();
            assert(stream.0@[j as int]@ == stream@[j as int]);
            let pos = between(rand, 0, dlen - 1);
            replace_byte_at(stream, j, pos, c);
            true
        },
    }
}

} // verus!
