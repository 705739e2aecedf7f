//! Structural mutation operators over the packet list of an input.
use crate::packets::{Packet, PacketBasedInput, RandomPacketCreator, SplitPacket};
use crate::rng::{between, seeded, StdRand};
use crate::MutationResult;
use vstd::prelude::*;

verus! {

/// A change of length from `a` to `b` that keeps a length inside
/// `[lo, hi]` once it is there.
pub open spec fn keeps_within(a: int, b: int, lo: int, hi: int) -> bool {
    lo <= a <= hi ==> lo <= b <= hi
}

/// The lengths of a list after each of a run of operator applications stay
/// inside the configured `[lo, hi]` when the list starts there and each
/// application keeps it there: insertion operators never exceed the
/// maximum, deletion operators never go below the minimum.
pub proof fn lemma_lengths_stay_within(lens: Seq<int>, lo: int, hi: int)
    requires
        lens.len() > 0,
        lo <= lens[0] <= hi,
        forall|i: int| 0 <= i < lens.len() - 1 ==> #[trigger] keeps_within(lens[i], lens[i + 1], lo, hi),
    ensures
        forall|i: int| 0 <= i < lens.len() ==> lo <= #[trigger] lens[i] <= hi,
    decreases lens.len(),
{
    if lens.len() > 1 {
        let init = lens.drop_last();
        assert forall|i: int| 0 <= i < init.len() - 1 implies #[trigger] keeps_within(
            init[i],
            init[i + 1],
            lo,
            hi,
        ) by {
            assert(keeps_within(lens[i], lens[i + 1], lo, hi));
        }
        lemma_lengths_stay_within(init, lo, hi);
        let m = lens.len() - 2;
        assert(lo <= init[m] <= hi);
        assert(keeps_within(lens[m], lens[m + 1], lo, hi));
        assert forall|i: int| 0 <= i < lens.len() implies lo <= #[trigger] lens[i] <= hi by {
            if i <= m {
                assert(init[i] == lens[i]);
            }
        }
    }
}

/// `n` copies of `c`.
pub open spec fn copies(c: Seq<u8>, n: nat) -> Seq<Seq<u8>> {
    Seq::new(n, |i: int| c)
}

/// Inserts a copy of a random packet at a random position, while the input
/// holds fewer than `max_length` packets.
pub struct PacketCopyMutator {
    pub max_length: usize,
}

impl PacketCopyMutator {
    pub fn new(max_length: usize) -> (r: PacketCopyMutator)
        ensures
            r.max_length == max_length,
    {
        PacketCopyMutator { max_length }
    }

    pub fn mutate<P: Packet>(
        &self,
        rand: &mut StdRand,
        input: &mut PacketBasedInput<P>,
    ) -> (r: MutationResult)
        ensures
            r == MutationResult::Skipped ==> final(input).packets@ == old(input).packets@,
            r == MutationResult::Mutated ==> exists|to: int, from: int|
                0 <= to <= old(input).packets@.len() && 0 <= from < old(input).packets@.len()
                    && final(input).packets@ == old(input).packets@.insert(
                    to,
                    final(input).packets@[to],
                ) && final(input).packets@[to]@ == old(input).packets@[from]@,
            (r == MutationResult::Skipped) == (old(input).contents().len() == 0 || old(
                input,
            ).contents().len() >= self.max_length),
            r == MutationResult::Skipped ==> final(input).contents() == old(input).contents(),
            r == MutationResult::Mutated ==> {
                &&& final(input).contents().len() == old(input).contents().len() + 1
                &&& final(input).contents().len() <= self.max_length
                &&& exists|to: int, from: int|
                    0 <= to <= old(input).contents().len() && 0 <= from < old(
                        input,
                    ).contents().len() && final(input).contents() == old(input).contents().insert(
                        to,
                        old(input).contents()[from],
                    )
            },
            forall|lo: int|
                #[trigger] keeps_within(
                    old(input).contents().len() as int,
                    final(input).contents().len() as int,
                    lo,
                    self.max_length as int,
                ),
    {
        let len = input.packets.len();
        if len == 0 || len >= self.max_length {
            return MutationResult::Skipped;
        }
        let ghost before = input.contents();
        let ghost bp = input.packets@;
        let to = between(rand, 0, len);
        let from = between(rand, 0, len - 1);
        let p = input.packets[from].duplicate();
        input.packets.insert(to, p);
        assert(input.contents() =~= before.insert(to as int, before[from as int]));
        assert(input.packets@ =~= bp.insert(to as int, input.packets@[to as int]));
        MutationResult::Mutated
    }
}

/// Removes a random packet, while the input holds more than `min_length`.
pub struct PacketDeleteMutator {
    pub min_length: usize,
}

impl PacketDeleteMutator {
    pub fn new(min_length: usize) -> (r: PacketDeleteMutator)
        ensures
            r.min_length == min_length,
    {
        PacketDeleteMutator { min_length }
    }

    pub fn mutate<P: Packet>(
        &self,
        rand: &mut StdRand,
        input: &mut PacketBasedInput<P>,
    ) -> (r: MutationResult)
        ensures
            r == MutationResult::Skipped ==> final(input).packets@ == old(input).packets@,
            r == MutationResult::Mutated ==> exists|idx: int|
                0 <= idx < old(input).packets@.len() && final(input).packets@ == old(
                    input,
                ).packets@.remove(idx),
            (r == MutationResult::Skipped) == (old(input).contents().len() == 0 || old(
                input,
            ).contents().len() <= self.min_length),
            r == MutationResult::Skipped ==> final(input).contents() == old(input).contents(),
            r == MutationResult::Mutated ==> {
                &&& final(input).contents().len() + 1 == old(input).contents().len()
                &&& final(input).contents().len() >= self.min_length
                &&& exists|idx: int|
                    0 <= idx < old(input).contents().len() && final(input).contents() == old(
                        input,
                    ).contents().remove(idx)
            },
            forall|hi: int|
                #[trigger] keeps_within(
                    old(input).contents().len() as int,
                    final(input).contents().len() as int,
                    self.min_length as int,
                    hi,
                ),
    {
        let len = input.packets.len();
        if len == 0 || len <= self.min_length {
            return MutationResult::Skipped;
        }
        let ghost before = input.contents();
        let ghost bp = input.packets@;
        let idx = between(rand, 0, len - 1);
        input.packets.remove(idx);
        assert(input.contents() =~= before.remove(idx as int));
        assert(input.packets@ =~= bp.remove(idx as int));
        MutationResult::Mutated
    }
}

/// Exchanges two distinct random packets.
pub struct PacketSwapMutator;

impl PacketSwapMutator {
    pub fn new() -> (r: PacketSwapMutator) {
        PacketSwapMutator
    }

    pub fn mutate<P: Packet>(
        &self,
        rand: &mut StdRand,
        input: &mut PacketBasedInput<P>,
    ) -> (r: MutationResult)
        ensures
            r == MutationResult::Skipped ==> final(input).packets@ == old(input).packets@,
            r == MutationResult::Mutated ==> exists|a: int, b: int|
                0 <= a < b < old(input).packets@.len() && final(input).packets@ == old(
                    input,
                ).packets@.update(a, old(input).packets@[b]).update(b, old(input).packets@[a]),
            old(input).contents().len() <= 1 ==> r == MutationResult::Skipped,
            r == MutationResult::Skipped ==> final(input).contents() == old(input).contents(),
            r == MutationResult::Mutated ==> exists|a: int, b: int|
                0 <= a < b < old(input).contents().len() && final(input).contents() == old(
                    input,
                ).contents().update(a, old(input).contents()[b]).update(
                    b,
                    old(input).contents()[a],
                ),
            forall|lo: int, hi: int|
                #[trigger] keeps_within(
                    old(input).contents().len() as int,
                    final(input).contents().len() as int,
                    lo,
                    hi,
                ),
    {
        let len = input.packets.len();
        if len <= 1 {
            return MutationResult::Skipped;
        }
        let to = between(rand, 0, len - 1);
        let from = between(rand, 0, len - 1);
        let ghost before = input.contents();
        let ghost bp = input.packets@;
        let r = self.swap_drawn(input, to, from);
        proof {
            if to > from {
                assert(input.packets@ =~= bp.update(from as int, bp[to as int]).update(
                    to as int,
                    bp[from as int],
                ));
                assert(input.contents() =~= before.update(from as int, before[to as int]).update(
                    to as int,
                    before[from as int],
                ));
            }
        }
        r
    }

    /// Exchanges the packets at the drawn positions `x` and `y`; skipped
    /// where they coincide.
    pub fn swap_drawn<P: Packet>(&self, input: &mut PacketBasedInput<P>, x: usize, y: usize) -> (r:
        MutationResult)
        requires
            x < old(input).packets@.len(),
            y < old(input).packets@.len(),
        ensures
            final(input).packets@ == old(input).packets@.update(
                x as int,
                old(input).packets@[y as int],
            ).update(y as int, old(input).packets@[x as int]),
            (r == MutationResult::Mutated) == (x != y),
            final(input).contents() == old(input).contents().update(
                x as int,
                old(input).contents()[y as int],
            ).update(y as int, old(input).contents()[x as int]),
    {
        let ghost before = input.contents();
        if x == y {
            assert(before.update(x as int, before[y as int]).update(y as int, before[x as int])
                =~= before);
            assert(input.packets@.update(x as int, input.packets@[y as int]).update(
                y as int,
                input.packets@[x as int],
            ) =~= input.packets@);
            return MutationResult::Skipped;
        }
        let (a, b) = if x < y {
            (x, y)
        } else {
            (y, x)
        };
        let ghost bp = input.packets@;
        let pb = input.packets.remove(b);
        let pa = input.packets.remove(a);
        input.packets.insert(a, pb);
        input.packets.insert(b, pa);
        assert(input.packets@ =~= bp.update(x as int, bp[y as int]).update(y as int, bp[x as int]));
        assert(input.contents() =~= before.update(x as int, before[y as int]).update(
            y as int,
            before[x as int],
        ));
        MutationResult::Mutated
    }
}

/// Puts one to `max_length - len` copies of a random packet in front of it.
pub struct PacketRepeatMutator {
    pub max_length: usize,
}

impl PacketRepeatMutator {
    pub fn new(max_length: usize) -> (r: PacketRepeatMutator)
        ensures
            r.max_length == max_length,
    {
        PacketRepeatMutator { max_length }
    }

    pub fn mutate<P: Packet>(
        &self,
        rand: &mut StdRand,
        input: &mut PacketBasedInput<P>,
    ) -> (r: MutationResult)
        ensures
            r == MutationResult::Skipped ==> final(input).packets@ == old(input).packets@,
            r == MutationResult::Mutated ==> exists|idx: int, n: int|
                {
                    &&& 0 <= idx < old(input).packets@.len()
                    &&& 1 <= n
                    &&& final(input).packets@.len() == old(input).packets@.len() + n
                    &&& final(input).packets@.take(idx) == old(input).packets@.take(idx)
                    &&& #[trigger] final(input).packets@.skip(idx + n) == old(input).packets@.skip(
                        idx,
                    )
                    &&& forall|k: int|
                        idx <= k < idx + n ==> (#[trigger] final(input).packets@[k])@ == old(
                            input,
                        ).packets@[idx]@
                },
            (r == MutationResult::Skipped) == (old(input).contents().len() == 0 || old(
                input,
            ).contents().len() >= self.max_length),
            r == MutationResult::Skipped ==> final(input).contents() == old(input).contents(),
            r == MutationResult::Mutated ==> {
                &&& final(input).contents().len() > old(input).contents().len()
                &&& final(input).contents().len() <= self.max_length
                &&& exists|idx: int, n: nat|
                    0 <= idx < old(input).contents().len() && n >= 1 && final(input).contents()
                        == old(input).contents().take(idx) + copies(old(input).contents()[idx], n)
                        + old(input).contents().skip(idx)
            },
            forall|lo: int|
                #[trigger] keeps_within(
                    old(input).contents().len() as int,
                    final(input).contents().len() as int,
                    lo,
                    self.max_length as int,
                ),
    {
        let len = input.packets.len();
        if len == 0 || len >= self.max_length {
            return MutationResult::Skipped;
        }
        let ghost before = input.contents();
        let ghost bp = input.packets@;
        let idx = between(rand, 0, len - 1);
        let n = 1 + between(rand, 0, self.max_length - len - 1);
        let mut k: usize = 0;
        while k < n
            invariant
                k <= n,
                bp.len() == before.len(),
                input.packets@.take(idx as int) == bp.take(idx as int),
                input.packets@.skip(idx + k) == bp.skip(idx as int),
                forall|j: int| idx <= j < idx + k ==> (#[trigger] input.packets@[j])@ == bp[idx as int]@,
                idx < before.len(),
                len == before.len(),
                len + n <= self.max_length,
                input.contents() == before.take(idx as int) + copies(before[idx as int], k as nat)
                    + before.skip(idx as int),
                input.packets@.len() == before.len() + k,
            decreases n - k,
        {
            assert(input.contents()[idx + k] == before[idx as int]);
            assert(input.packets@[idx + k] == input.packets@.skip(idx + k)[0]);
            let p = input.packets[idx + k].duplicate();
            let ghost c0 = input.contents();
            let ghost p0 = input.packets@;
            input.packets.insert(idx, p);
            k = k + 1;
            assert(input.packets@.take(idx as int) =~= p0.take(idx as int));
            assert(input.packets@.skip(idx + k) =~= p0.skip(idx + k - 1));
            assert forall|j: int| idx <= j < idx + k implies (#[trigger] input.packets@[j])@
                == bp[idx as int]@ by {
                if j > idx {
                    assert(input.packets@[j] == p0[j - 1]);
                }
            }
            assert(input.contents() =~= c0.insert(idx as int, before[idx as int]));
            assert(input.contents() =~= before.take(idx as int) + copies(
                before[idx as int],
                k as nat,
            ) + before.skip(idx as int));
        }
        proof {
            assert(forall|j: int| idx <= j < idx + n ==> (#[trigger] input.packets@[j])@
                == bp[idx as int]@);
        }
        MutationResult::Mutated
    }
}

/// Cuts a random packet in two adjacent packets of the same kind, while
/// the input holds fewer than `max_packets`.
pub struct PacketSplitMutator {
    pub max_packets: usize,
}

impl PacketSplitMutator {
    pub fn new(max_packets: usize) -> (r: PacketSplitMutator)
        ensures
            r.max_packets == max_packets,
    {
        PacketSplitMutator { max_packets }
    }

    pub fn mutate<P: SplitPacket>(
        &self,
        rand: &mut StdRand,
        input: &mut PacketBasedInput<P>,
    ) -> (r: MutationResult)
        ensures
            r == MutationResult::Skipped ==> final(input).packets@ == old(input).packets@,
            r == MutationResult::Mutated ==> exists|idx: int|
                0 <= idx < old(input).packets@.len() && final(input).packets@.take(idx) == old(
                    input,
                ).packets@.take(idx) && #[trigger] final(input).packets@.skip(idx + 2) == old(
                    input,
                ).packets@.skip(idx + 1),
            0 < old(input).packets@.len() < self.max_packets && (forall|k: int|
                0 <= k < old(input).packets@.len() ==> (#[trigger] old(input).packets@[k]).pieces()
                    >= 2) ==> r == MutationResult::Mutated,
            old(input).contents().len() == 0 || old(input).contents().len() >= self.max_packets
                ==> r == MutationResult::Skipped,
            r == MutationResult::Skipped ==> final(input).contents() == old(input).contents(),
            r == MutationResult::Mutated ==> {
                &&& final(input).contents().len() == old(input).contents().len() + 1
                &&& final(input).contents().len() <= self.max_packets
                &&& exists|idx: int|
                    0 <= idx < old(input).contents().len() && final(input).contents()[idx]
                        + final(input).contents()[idx + 1] == old(input).contents()[idx]
                        && final(input).contents().take(idx) == old(input).contents().take(idx)
                        && final(input).contents().skip(idx + 2) == old(input).contents().skip(
                        idx + 1,
                    )
            },
            forall|lo: int|
                #[trigger] keeps_within(
                    old(input).contents().len() as int,
                    final(input).contents().len() as int,
                    lo,
                    self.max_packets as int,
                ),
    {
        let len = input.packets.len();
        if len == 0 || len >= self.max_packets {
            return MutationResult::Skipped;
        }
        let ghost before = input.contents();
        let idx = between(rand, 0, len - 1);
        let ghost ps = input.packets@;
        let mut p = input.packets.remove(idx);
        assert(p == ps[idx as int]);
        assert(p.content() == before[idx as int]);
        let cut = p.split_packet(rand);
        input.packets.insert(idx, p);
        match cut {
            Some(tail) => {
                input.packets.insert(idx + 1, tail);
                assert(input.packets@.take(idx as int) =~= ps.take(idx as int));
                assert(input.packets@.skip(idx + 2) =~= ps.skip(idx + 1));
                assert(input.contents().take(idx as int) =~= before.take(idx as int));
                assert(input.contents().skip(idx + 2) =~= before.skip(idx + 1));
                MutationResult::Mutated
            },
            None => {
                assert(input.packets@ =~= ps);
                assert(input.contents() =~= before);
                MutationResult::Skipped
            },
        }
    }
}

/// Inserts a freshly synthesized packet at a random position, while the
/// input holds fewer than `max_packets`.
pub struct RandomPacketInsertionMutator {
    pub max_packets: usize,
}

impl RandomPacketInsertionMutator {
    pub fn new(max_packets: usize) -> (r: RandomPacketInsertionMutator)
        ensures
            r.max_packets == max_packets,
    {
        RandomPacketInsertionMutator { max_packets }
    }

    pub fn mutate<P: RandomPacketCreator>(
        &self,
        rand: &mut StdRand,
        input: &mut PacketBasedInput<P>,
    ) -> (r: MutationResult)
        ensures
            r == MutationResult::Skipped ==> final(input).packets@ == old(input).packets@,
            r == MutationResult::Mutated ==> exists|idx: int|
                {
                    &&& 0 <= idx <= old(input).packets@.len()
                    &&& final(input).packets@ == old(input).packets@.insert(idx, final(input).packets@[idx])
                    &&& (#[trigger] final(input).packets@[idx]).random_ok()
                },
            (r == MutationResult::Skipped) == (old(input).contents().len() >= self.max_packets),
            r == MutationResult::Skipped ==> final(input).contents() == old(input).contents(),
            r == MutationResult::Mutated ==> {
                &&& final(input).contents().len() == old(input).contents().len() + 1
                &&& final(input).contents().len() <= self.max_packets
                &&& exists|idx: int|
                    0 <= idx <= old(input).contents().len() && final(input).contents() == old(
                        input,
                    ).contents().insert(idx, final(input).contents()[idx])
            },
            forall|lo: int|
                #[trigger] keeps_within(
                    old(input).contents().len() as int,
                    final(input).contents().len() as int,
                    lo,
                    self.max_packets as int,
                ),
    {
        let len = input.packets.len();
        if len >= self.max_packets {
            return MutationResult::Skipped;
        }
        let ghost before = input.contents();
        let ghost bp = input.packets@;
        let idx = between(rand, 0, len);
        let p = P::create_random_packet(rand);
        input.packets.insert(idx, p);
        assert(input.packets@ =~= bp.insert(idx as int, input.packets@[idx as int]));
        assert(input.contents() =~= before.insert(idx as int, input.contents()[idx as int]));
        MutationResult::Mutated
    }
}

/// Inserts a copy of a random packet of another corpus entry at a random
/// position, while the input holds fewer than `max_length` packets. Draws
/// from a generator of its own.
pub struct PacketCrossoverMutator {
    pub max_length: usize,
    pub rand: StdRand,
}

impl PacketCrossoverMutator {
    pub fn new(max_length: usize, seed: u64) -> (r: PacketCrossoverMutator)
        ensures
            r.max_length == max_length,
    {
        PacketCrossoverMutator { max_length, rand: seeded(seed) }
    }

    /// `other` is the entry drawn from the corpus, or `None` where the draw
    /// fell on the entry being mutated.
    pub fn mutate<P: Packet>(
        &mut self,
        input: &mut PacketBasedInput<P>,
        other: Option<&PacketBasedInput<P>>,
    ) -> (r: MutationResult)
        ensures
            r == MutationResult::Skipped ==> final(input).packets@ == old(input).packets@,
            r == MutationResult::Mutated ==> (match other {
                Some(o) => exists|to: int, from: int|
                    {
                        &&& 0 <= to <= old(input).packets@.len()
                        &&& 0 <= from < o.packets@.len()
                        &&& final(input).packets@ == old(input).packets@.insert(to, final(input).packets@[to])
                        &&& (#[trigger] final(input).packets@[to])@ == (#[trigger] o.packets@[from])@
                    },
                None => false,
            }),
            (r == MutationResult::Mutated) == (old(input).contents().len() < old(self).max_length
                && (other matches Some(o) && o.contents().len() > 0)),
            final(self).max_length == old(self).max_length,
            r == MutationResult::Skipped ==> final(input).contents() == old(input).contents(),
            r == MutationResult::Mutated ==> {
                &&& final(input).contents().len() == old(input).contents().len() + 1
                &&& final(input).contents().len() <= old(self).max_length
                &&& other matches Some(o) && exists|to: int, from: int|
                    0 <= to <= old(input).contents().len() && 0 <= from < o.contents().len()
                        && final(input).contents() == old(input).contents().insert(
                        to,
                        o.contents()[from],
                    )
            },
            forall|lo: int|
                #[trigger] keeps_within(
                    old(input).contents().len() as int,
                    final(input).contents().len() as int,
                    lo,
                    old(self).max_length as int,
                ),
    {
        let len = input.packets.len();
        if len >= self.max_length {
            return MutationResult::Skipped;
        }
        match other {
            None => MutationResult::Skipped,
            Some(o) => {
                if o.packets.len() == 0 {
                    return MutationResult::Skipped;
                }
                let ghost before = input.contents();
                let ghost bp = input.packets@;
                let from = between(&mut self.rand, 0, o.packets.len() - 1);
                let p = o.packets[from].duplicate();
                assert(p.content() == o.contents()[from as int]);
                let to = between(&mut self.rand, 0, len);
                input.packets.insert(to, p);
                assert(input.packets@ =~= bp.insert(to as int, input.packets@[to as int]));
                assert(input.contents() =~= before.insert(to as int, o.contents()[from as int]));
                MutationResult::Mutated
            },
        }
    }
}

/// `b` agrees with `a` everywhere but at `idx`, and is as long.
pub open spec fn same_except(a: Seq<Seq<u8>>, b: Seq<Seq<u8>>, idx: int) -> bool {
    &&& a.len() == b.len()
    &&& forall|k: int| 0 <= k < a.len() && k != idx ==> #[trigger] b[k] == a[k]
}

/// A mutator of the content of one packet, working within a context `C`
/// (the fuzzer state) that holds the generator.
pub trait PacketMutator<P: Packet, C> {
    /// The generator of the context.
    fn generator(ctx: &mut C) -> &mut StdRand;

    fn mutate_packet(&mut self, ctx: &mut C, packet: &mut P) -> MutationResult;
}

/// Hands one random packet to a content mutator; the packet list keeps its
/// length and every other packet.
pub struct PacketContentMutator<M> {
    pub mutator: M,
}

impl<M> PacketContentMutator<M> {
    pub fn new(mutator: M) -> (r: PacketContentMutator<M>)
        ensures
            r.mutator == mutator,
    {
        PacketContentMutator { mutator }
    }

    /// Draws the packet whose content is mutated next; `None` for an input
    /// without packets.
    pub fn choose_packet<P: Packet>(&self, rand: &mut StdRand, input: &PacketBasedInput<P>) -> (r:
        Option<usize>)
        ensures
            r.is_none() == (input.packets@.len() == 0),
            r matches Some(i) ==> i < input.packets@.len(),
    {
        let len = input.packets.len();
        if len == 0 {
            None
        } else {
            Some(between(rand, 0, len - 1))
        }
    }

    pub fn mutate<P: Packet, C>(
        &mut self,
        ctx: &mut C,
        input: &mut PacketBasedInput<P>,
    ) -> (r: MutationResult) where M: PacketMutator<P, C>
        ensures
            old(input).contents().len() == 0 ==> r == MutationResult::Skipped,
            old(input).contents().len() == 0 ==> final(input).contents() == old(input).contents(),
            final(input).contents().len() == old(input).contents().len(),
            exists|idx: int|
                #[trigger] same_except(old(input).contents(), final(input).contents(), idx),
            old(input).packets@.len() == 0 ==> final(input).packets@ == old(input).packets@,
            old(input).packets@.len() > 0 ==> exists|idx: int|
                {
                    &&& 0 <= idx < old(input).packets@.len()
                    &&& final(input).packets@ == old(input).packets@.update(idx, #[trigger] final(input).packets@[idx])
                },
            forall|lo: int, hi: int|
                #[trigger] keeps_within(
                    old(input).contents().len() as int,
                    final(input).contents().len() as int,
                    lo,
                    hi,
                ),
    {
        let len = input.packets.len();
        if len == 0 {
            assert(same_except(input.contents(), input.contents(), 0));
            return MutationResult::Skipped;
        }
        let ghost before = input.contents();
        let idx = match self.choose_packet(M::generator(ctx), input) {
            Some(i) => i,
            None => 0,
        };
        let mut p = input.packets.remove(idx);
        let ghost bp = input.packets@;
        let r = self.mutator.mutate_packet(ctx, &mut p);
        input.packets.insert(idx, p);
        assert(input.packets@ =~= bp.insert(idx as int, input.packets@[idx as int]));
        assert(same_except(before, input.contents(), idx as int));
        r
    }
}

} // verus!
