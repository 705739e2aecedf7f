//! Stacked random application of the token-stream catalogue.
//!
//! One mutation draws a stack depth and then, for each round, one of the
//! seventeen catalogue operators or one of the two crossover operators.
//! Fetching another corpus entry for a crossover round is the caller's
//! part: the mutator draws the entry's position, the caller resolves it,
//! skips the round where it is the entry being mutated or is empty, and
//! otherwise hands the entry's stream back to `apply_crossover`.
use crate::packet_mutators::keeps_within;
use crate::rng::{between, next_u64, reseed, seeded, StdRand};
use crate::token_mutators::{mutate_special_insert, mutate_special_replace, mutate_split};
use crate::token_ops::{
    copy_effect, delete_effect, dict_insert_effect, dict_replace_effect, flip_effect,
    interesting_effect, random_insert_effect, random_replace_effect, repeat_char_effect,
    repeat_token_effect, swap_constants_effect, swap_tokens_effect, swap_words_effect,
    truncate_effect, is_insertion,
    mutate_copy, mutate_crossover_insert, mutate_crossover_replace, mutate_delete,
    mutate_dict_insert, mutate_dict_replace, mutate_flip, mutate_interesting,
    mutate_random_insert, mutate_random_replace, mutate_repeat_char, mutate_repeat_token,
    mutate_swap_constants, mutate_swap_tokens, mutate_swap_words, mutate_truncate,
};
use crate::packets::PacketBasedInput;
use crate::token_mutators::{
    all_splittable, special_insert_effect, special_replace_effect, split_effect,
};
use crate::tokens::{TokenModel, TokenStream};
use vstd::prelude::*;

verus! {

/// Number of catalogue operators that work on the stream alone.
pub const NUM_MUTATORS: usize = 17;

/// Longest run of one byte that the byte-repeat operator adds.
pub const REPEAT_CHAR_MAX: usize = 16;

/// Most copies of one token that the token-repeat operator adds.
pub const REPEAT_TOKEN_MAX: usize = 4;

/// The stack depths a mutation may draw.
pub open spec fn is_stack_depth(n: usize) -> bool {
    n == 2 || n == 4 || n == 8 || n == 16 || n == 32
}

/// The stack depth at `i` of the table 2, 4, 8, 16, 32.
fn stack_depth(i: usize) -> (n: usize)
    requires
        i < 5,
    ensures
        is_stack_depth(n),
{
    if i == 0 {
        2
    } else if i == 1 {
        4
    } else if i == 2 {
        8
    } else if i == 3 {
        16
    } else {
        32
    }
}

/// Whether the dictionary is present and holds at least one entry.
pub open spec fn dict_has_entries(dict: Option<&[Vec<u8>]>) -> bool {
    dict matches Some(d) && d@.len() > 0
}

/// What catalogue operator `idx` reports on a stream `old`, wherever no
/// random draw decides it: which operators succeed for sure, and which are
/// refused (an empty stream, a full one, no dictionary).
pub open spec fn operator_outcome(
    idx: int,
    old: Seq<TokenModel>,
    dict: Option<&[Vec<u8>]>,
    max: int,
    r: bool,
) -> bool {
    &&& idx == 0 ==> r == (old.len() > 0 && old.len() < max)
    &&& idx == 1 ==> r == (old.len() > 0)
    &&& (idx == 2 || idx == 3 || idx == 6 || idx == 8 || idx == 9 || idx == 11) && old.len() == 0
        ==> !r
    &&& idx == 4 ==> r == (old.len() < max)
    &&& idx == 5 ==> r == (old.len() > 0)
    &&& idx == 7 ==> r == (old.len() > 0 && old.len() < max)
    &&& idx == 10 && (old.len() == 0 || max < old.len() + 2) ==> !r
    &&& idx == 10 && old.len() > 0 && old.len() + 2 <= max && all_splittable(old) ==> r
    &&& idx == 13 ==> r == (old.len() > 0)
    &&& idx == 14 ==> r == (dict_has_entries(dict) && old.len() < max)
    &&& idx == 15 ==> r == (dict_has_entries(dict) && old.len() > 0)
    &&& idx == 16 && !dict_has_entries(dict) ==> !r
}

/// `other` is an entry with packets, none of them without tokens.
pub open spec fn all_packets_filled(other: Option<&PacketBasedInput<TokenStream>>) -> bool {
    other matches Some(o) && o.packets@.len() > 0 && forall|j: int|
        0 <= j < o.packets@.len() ==> (#[trigger] o.packets@[j])@.len() > 0
}

/// What catalogue operator `idx` did to `old`, giving `new`, when it
/// reports a change.
pub open spec fn operator_effect(
    idx: int,
    old: Seq<TokenModel>,
    new: Seq<TokenModel>,
    dict: Option<&[Vec<u8>]>,
) -> bool {
    &&& idx == 0 ==> copy_effect(old, new)
    &&& idx == 1 ==> delete_effect(old, new)
    &&& idx == 2 ==> flip_effect(old, new)
    &&& idx == 3 ==> interesting_effect(old, new)
    &&& idx == 4 ==> random_insert_effect(old, new)
    &&& idx == 5 ==> random_replace_effect(old, new)
    &&& idx == 6 ==> repeat_char_effect(old, new, REPEAT_CHAR_MAX)
    &&& idx == 7 ==> repeat_token_effect(old, new, REPEAT_TOKEN_MAX)
    &&& idx == 8 ==> special_insert_effect(old, new)
    &&& idx == 9 ==> special_replace_effect(old, new)
    &&& idx == 10 ==> split_effect(old, new)
    &&& idx == 11 ==> swap_tokens_effect(old, new)
    &&& idx == 12 ==> swap_words_effect(old, new)
    &&& idx == 13 ==> truncate_effect(old, new)
    &&& idx == 14 ==> (match dict {
        Some(d) => dict_insert_effect(old, new, d@),
        None => false,
    })
    &&& idx == 15 ==> (match dict {
        Some(d) => dict_replace_effect(old, new, d@),
        None => false,
    })
    &&& idx == 16 ==> (match dict {
        Some(d) => swap_constants_effect(old, new, d@),
        None => false,
    })
}

/// Applies catalogue operator `idx` (0 to 16, in the order copy, delete,
/// flip, interesting, random insert, random replace, byte repeat, token
/// repeat, special insert, special replace, split, token swap, word swap,
/// truncate, dictionary insert, dictionary replace, constant swap). The
/// dictionary operators do nothing without a dictionary.
pub fn mutate_non_crossover(
    idx: usize,
    stream: &mut TokenStream,
    dict: Option<&[Vec<u8>]>,
    rand: &mut StdRand,
    max_tokens: usize,
) -> (r: bool)
    requires
        idx < NUM_MUTATORS,
    ensures
        operator_outcome(idx as int, old(stream)@, dict, max_tokens as int, r),
        r ==> operator_effect(idx as int, old(stream)@, final(stream)@, dict),
        !r ==> final(stream)@ == old(stream)@,
        keeps_within(old(stream)@.len() as int, final(stream)@.len() as int, 0, max_tokens as int),
{
    if idx == 0 {
        mutate_copy(rand, stream, max_tokens)
    } else if idx == 1 {
        mutate_delete(rand, stream)
    } else if idx == 2 {
        mutate_flip(rand, stream)
    } else if idx == 3 {
        mutate_interesting(rand, stream)
    } else if idx == 4 {
        mutate_random_insert(rand, stream, max_tokens)
    } else if idx == 5 {
        mutate_random_replace(rand, stream)
    } else if idx == 6 {
        mutate_repeat_char(rand, stream, REPEAT_CHAR_MAX)
    } else if idx == 7 {
        mutate_repeat_token(rand, stream, REPEAT_TOKEN_MAX, max_tokens)
    } else if idx == 8 {
        mutate_special_insert(rand, stream)
    } else if idx == 9 {
        mutate_special_replace(rand, stream)
    } else if idx == 10 {
        mutate_split(rand, stream, max_tokens)
    } else if idx == 11 {
        mutate_swap_tokens(rand, stream)
    } else if idx == 12 {
        mutate_swap_words(rand, stream)
    } else if idx == 13 {
        mutate_truncate(rand, stream)
    } else {
        match dict {
            None => false,
            Some(d) => {
                if idx == 14 {
                    mutate_dict_insert(rand, stream, d, max_tokens)
                } else if idx == 15 {
                    mutate_dict_replace(rand, stream, d)
                } else {
                    mutate_swap_constants(rand, stream, d)
                }
            },
        }
    }
}

/// The stacked mutator of token streams, with a generator of its own and
/// a bound on the stream length.
pub struct TokenStreamMutator {
    pub rand: StdRand,
    pub max_tokens: usize,
}

impl TokenStreamMutator {
    pub fn new(max_tokens: usize) -> (r: TokenStreamMutator)
        ensures
            r.max_tokens == max_tokens,
    {
        TokenStreamMutator { rand: seeded(0), max_tokens }
    }

    /// Restarts the generator from `seed` and draws the stack depth.
    pub fn start(&mut self, seed: u64) -> (n: usize)
        ensures
            is_stack_depth(n),
            final(self).max_tokens == old(self).max_tokens,
    {
        reseed(&mut self.rand, seed);
        stack_depth(between(&mut self.rand, 0, 4))
    }

    /// Draws the operator of one round: below `NUM_MUTATORS` a catalogue
    /// operator, `NUM_MUTATORS` a crossover insert, `NUM_MUTATORS + 1` a
    /// crossover replace.
    pub fn next_operator(&mut self) -> (m: usize)
        ensures
            m <= NUM_MUTATORS + 1,
            final(self).max_tokens == old(self).max_tokens,
    {
        between(&mut self.rand, 0, NUM_MUTATORS + 1)
    }

    /// Draws a position below `count` (a corpus entry, or a packet of one).
    pub fn draw_index(&mut self, count: usize) -> (i: usize)
        requires
            count > 0,
        ensures
            i < count,
            final(self).max_tokens == old(self).max_tokens,
    {
        between(&mut self.rand, 0, count - 1)
    }

    /// Applies catalogue operator `m` to `input`.
    pub fn apply(&mut self, m: usize, input: &mut TokenStream, dict: Option<&[Vec<u8>]>) -> (r:
        bool)
        requires
            m < NUM_MUTATORS,
        ensures
            operator_outcome(m as int, old(input)@, dict, old(self).max_tokens as int, r),
            r ==> operator_effect(m as int, old(input)@, final(input)@, dict),
            !r ==> final(input)@ == old(input)@,
            keeps_within(
                old(input)@.len() as int,
                final(input)@.len() as int,
                0,
                old(self).max_tokens as int,
            ),
            final(self).max_tokens == old(self).max_tokens,
    {
        let max_tokens = self.max_tokens;
        mutate_non_crossover(m, input, dict, &mut self.rand, max_tokens)
    }

    /// Applies crossover operator `m` with tokens of `other`, the stream of
    /// the corpus entry drawn for this round; `None` where the draw fell on
    /// the entry being mutated, and the round is skipped.
    pub fn apply_crossover(
        &mut self,
        m: usize,
        input: &mut TokenStream,
        other: Option<&TokenStream>,
    ) -> (r: bool)
        requires
            m == NUM_MUTATORS || m == NUM_MUTATORS + 1,
        ensures
            m == NUM_MUTATORS ==> r == ((other matches Some(o) && o@.len() > 0) && old(input)@.len()
                < old(self).max_tokens),
            m == NUM_MUTATORS + 1 ==> r == ((other matches Some(o) && o@.len() > 0) && 0 < old(
                input,
            )@.len() <= old(self).max_tokens),
            r && m == NUM_MUTATORS ==> (match other {
                Some(o) => exists|to: int, s: int, e: int|
                0 <= s < e <= o@.len() && is_insertion(
                    old(input)@,
                    final(input)@,
                    to,
                    o@.subrange(s, e),
                ),
                None => true,
            }),
            r && m == NUM_MUTATORS + 1 ==> (match other {
                Some(o) => exists|idx: int, from: int|
                0 <= idx < old(input)@.len() && 0 <= from < o@.len() && final(input)@ == old(
                    input,
                )@.update(idx, o@[from]),
                None => true,
            }),
            !r ==> final(input)@ == old(input)@,
            keeps_within(
                old(input)@.len() as int,
                final(input)@.len() as int,
                0,
                old(self).max_tokens as int,
            ),
            final(self).max_tokens == old(self).max_tokens,
    {
        let max_tokens = self.max_tokens;
        match other {
            None => false,
            Some(o) => {
                if m == NUM_MUTATORS {
                    mutate_crossover_insert(&mut self.rand, input, o, max_tokens)
                } else {
                    mutate_crossover_replace(&mut self.rand, input, o, max_tokens)
                }
            },
        }
    }

    /// Applies crossover operator `m` with a random packet of `other`, the
    /// token-stream input of the corpus entry drawn for this round; `None`
    /// where the draw fell on the entry being mutated. The round is skipped
    /// where there is no other entry or it holds no packets.
    pub fn apply_packet_crossover(
        &mut self,
        m: usize,
        packet: &mut TokenStream,
        other: Option<&PacketBasedInput<TokenStream>>,
    ) -> (r: bool)
        requires
            m == NUM_MUTATORS || m == NUM_MUTATORS + 1,
        ensures
            !(other matches Some(o) && o.packets@.len() > 0) ==> !r,
            m == NUM_MUTATORS && all_packets_filled(other) && old(packet)@.len() < old(
                self,
            ).max_tokens ==> r,
            m == NUM_MUTATORS + 1 && all_packets_filled(other) && 0 < old(packet)@.len() <= old(
                self,
            ).max_tokens ==> r,
            r && m == NUM_MUTATORS ==> (match other {
                Some(o) => exists|j: int, to: int, s: int, e: int|
                0 <= j < o.packets@.len() && 0 <= s < e <= o.packets@[j]@.len() && is_insertion(
                    old(packet)@,
                    final(packet)@,
                    to,
                    o.packets@[j]@.subrange(s, e),
                ),
                None => true,
            }),
            r && m == NUM_MUTATORS + 1 ==> (match other {
                Some(o) => exists|
                j: int,
                idx: int,
                from: int,
            |
                0 <= j < o.packets@.len() && 0 <= idx < old(packet)@.len() && 0 <= from
                    < o.packets@[j]@.len() && final(packet)@ == old(packet)@.update(
                    idx,
                    o.packets@[j]@[from],
                ),
                None => true,
            }),
            !r ==> final(packet)@ == old(packet)@,
            keeps_within(
                old(packet)@.len() as int,
                final(packet)@.len() as int,
                0,
                old(self).max_tokens as int,
            ),
            final(self).max_tokens == old(self).max_tokens,
    {
        match other {
            None => false,
            Some(o) => {
                if o.packets.len() == 0 {
                    return false;
                }
                let idx = self.draw_index(o.packets.len());
                let r = self.apply_crossover(m, packet, Some(&o.packets[idx]));
                r
            },
        }
    }
}

/// The stacked mutator applied to the token-stream packets of a
/// multi-packet input. It differs from [`TokenStreamMutator`] in where the
/// seed and the stack depth come from: both are drawn from the caller's
/// generator.
pub struct TokenStreamPacketMutator {
    pub streams: TokenStreamMutator,
}

impl TokenStreamPacketMutator {
    pub fn new(max_tokens: usize) -> (r: TokenStreamPacketMutator)
        ensures
            r.streams.max_tokens == max_tokens,
    {
        TokenStreamPacketMutator { streams: TokenStreamMutator::new(max_tokens) }
    }

    /// Reseeds from `state_rand` and draws the stack depth from it.
    pub fn start(&mut self, state_rand: &mut StdRand) -> (n: usize)
        ensures
            is_stack_depth(n),
            final(self).streams.max_tokens == old(self).streams.max_tokens,
    {
        let seed = next_u64(state_rand);
        reseed(&mut self.streams.rand, seed);
        stack_depth(between(state_rand, 0, 4))
    }
}

} // verus!
