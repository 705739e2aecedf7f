use tokenfuzz::packet_mutators::{
    PacketCopyMutator, PacketCrossoverMutator, PacketDeleteMutator, PacketRepeatMutator,
    PacketSplitMutator, PacketSwapMutator, RandomPacketInsertionMutator,
};
use tokenfuzz::packets::{Packet, PacketBasedInput, RandomPacketCreator, SplitPacket};
use tokenfuzz::rng::StdRand;
use tokenfuzz::tokens::TokenStream;
use tokenfuzz::MutationResult;

fn raw(packets: &[&[u8]]) -> PacketBasedInput<Vec<u8>> {
    PacketBasedInput::new(packets.iter().map(|p| p.to_vec()).collect())
}

fn contents<P: Packet>(input: &PacketBasedInput<P>) -> Vec<Vec<u8>> {
    input
        .packets()
        .iter()
        .map(|p| {
            let mut buf = vec![0u8; 4096];
            let n = p.serialize_content(&mut buf, 0);
            buf.truncate(n);
            buf
        })
        .collect()
}

fn to_txt<P: Packet>(input: &PacketBasedInput<P>) -> Vec<u8> {
    let mut buf = vec![0u8; 4096];
    let size = input.convert_to_txt(&mut buf);
    buf.truncate(size);
    buf
}

#[test]
fn test_txt() {
    let input = PacketBasedInput::<TokenStream>::parse_txt(b"----------------abc").unwrap();
    println!("{input:?}");
    assert_eq!(contents(&input), vec![b"".to_vec(), b"".to_vec(), b"abc".to_vec()]);
    let lens: Vec<usize> = input.packets().iter().map(|p| p.len()).collect();
    assert_eq!(lens, vec![0, 0, 1]);
    assert!(matches!(&input.packets()[2].tokens()[0], tokenfuzz::tokens::TextToken::Text(d) if d == b"abc"));

    let mut buf = vec![0u8; 1024];
    let size = input.convert_to_txt(&mut buf);
    println!("{}", std::str::from_utf8(&buf[..size]).unwrap());
    assert_eq!(&buf[..size], b"----------------abc");
}

#[test]
fn defaults_are_empty() {
    let input: PacketBasedInput<TokenStream> = PacketBasedInput::default();
    assert_eq!(input.len(), 0);
    assert_eq!(TokenStream::default().len(), 0);
}

#[test]
fn text_form_joins_with_separator() {
    let input = raw(&[b"USER a\r\n", b"PASS b\r\n"]);
    assert_eq!(to_txt(&input), b"USER a\r\n--------PASS b\r\n".to_vec());
    let empty = raw(&[]);
    assert_eq!(to_txt(&empty), Vec::<u8>::new());
}

#[test]
fn text_form_keeps_separator_in_buffer() {
    let input = raw(&[b"ab"]);
    let mut buf = vec![7u8; 12];
    let size = input.convert_to_txt(&mut buf);
    assert_eq!(size, 2);
    assert_eq!(buf, b"ab--------\x07\x07".to_vec());
}

#[test]
fn text_form_round_trips() {
    let inputs: Vec<Vec<&[u8]>> = vec![
        vec![b"USER a\r\n", b"PASS b\r\n", b"QUIT\r\n"],
        vec![b"x"],
        vec![b"", b"", b"abc"],
        vec![b"a-b", b"-c", b"d"],
        vec![],
    ];
    for packets in inputs {
        let input = raw(&packets);
        let back = PacketBasedInput::<Vec<u8>>::parse_txt(&to_txt(&input)).unwrap();
        assert_eq!(contents(&back), contents(&input));

        let streams: Vec<TokenStream> =
            packets.iter().map(|p| TokenStream::parse_bytes(p).unwrap()).collect();
        let input = PacketBasedInput::new(streams);
        let back = PacketBasedInput::<TokenStream>::parse_txt(&to_txt(&input)).unwrap();
        assert_eq!(contents(&back), contents(&input));
    }
}

#[test]
fn text_form_limits() {
    let merged = raw(&[b"a-", b"b"]);
    let back = PacketBasedInput::<Vec<u8>>::parse_txt(&to_txt(&merged)).unwrap();
    assert_eq!(contents(&back), vec![b"a".to_vec(), b"-b".to_vec()]);
    let trailing_empty = raw(&[b"a", b""]);
    let back = PacketBasedInput::<Vec<u8>>::parse_txt(&to_txt(&trailing_empty)).unwrap();
    assert_eq!(contents(&back), vec![b"a".to_vec()]);
}

#[test]
fn parse_txt_short_and_bad_segments() {
    let short = PacketBasedInput::<Vec<u8>>::parse_txt(b"abc").unwrap();
    assert_eq!(contents(&short), vec![b"abc".to_vec()]);
    let trailing = PacketBasedInput::<Vec<u8>>::parse_txt(b"abc--------").unwrap();
    assert_eq!(contents(&trailing), vec![b"abc".to_vec()]);
    assert!(PacketBasedInput::<TokenStream>::parse_txt(b"ok--------\xffbad").is_none());
    assert!(PacketBasedInput::<TokenStream>::parse_txt(b"\x80").is_none());
    assert!(PacketBasedInput::<Vec<u8>>::parse_txt(b"\x80").is_some());
}

#[test]
fn serialize_truncates_to_buffer() {
    let ts = TokenStream::parse_bytes(b"HELLO 123").unwrap();
    let mut buf = vec![0u8; 4];
    assert_eq!(ts.serialize_content(&mut buf, 0), 4);
    assert_eq!(buf, b"HELL".to_vec());
    let mut buf = vec![9u8; 6];
    assert_eq!(ts.serialize_content(&mut buf, 3), 3);
    assert_eq!(buf, b"\x09\x09\x09HEL".to_vec());
    let bytes = b"xyz".to_vec();
    let mut buf = vec![0u8; 5];
    assert_eq!(bytes.serialize_content(&mut buf, 0), 3);
    assert_eq!(buf, b"xyz\x00\x00".to_vec());
}

#[test]
fn copy_respects_max() {
    let mut rand = StdRand::with_seed(11);
    let m = PacketCopyMutator::new(3);
    let mut input = raw(&[b"a", b"b"]);
    assert_eq!(m.mutate(&mut rand, &mut input), MutationResult::Mutated);
    assert_eq!(input.len(), 3);
    assert_eq!(m.mutate(&mut rand, &mut input), MutationResult::Skipped);
    assert_eq!(input.len(), 3);
    let mut empty = raw(&[]);
    assert_eq!(m.mutate(&mut rand, &mut empty), MutationResult::Skipped);
}

#[test]
fn delete_respects_min() {
    let mut rand = StdRand::with_seed(12);
    let m = PacketDeleteMutator::new(1);
    let mut input = raw(&[b"a", b"b"]);
    assert_eq!(m.mutate(&mut rand, &mut input), MutationResult::Mutated);
    assert_eq!(input.len(), 1);
    assert_eq!(m.mutate(&mut rand, &mut input), MutationResult::Skipped);
    assert_eq!(input.len(), 1);
}

#[test]
fn swap_exchanges_two_packets() {
    for seed in 0..50u64 {
        let mut rand = StdRand::with_seed(seed);
        let mut input = raw(&[b"a", b"b", b"c"]);
        let r = PacketSwapMutator::new().mutate(&mut rand, &mut input);
        let c = contents(&input);
        let mut sorted = c.clone();
        sorted.sort();
        assert_eq!(sorted, vec![b"a".to_vec(), b"b".to_vec(), b"c".to_vec()]);
        let moved = (0..3).filter(|&i| c[i] != [b'a' + i as u8]).count();
        if r == MutationResult::Mutated {
            assert_eq!(moved, 2);
        } else {
            assert_eq!(moved, 0);
        }
    }
    let mut three = raw(&[b"a", b"b", b"c"]);
    assert_eq!(PacketSwapMutator::new().swap_drawn(&mut three, 1, 1), MutationResult::Skipped);
    assert_eq!(PacketSwapMutator::new().swap_drawn(&mut three, 2, 0), MutationResult::Mutated);
    assert_eq!(contents(&three), vec![b"c".to_vec(), b"b".to_vec(), b"a".to_vec()]);
    let mut rand = StdRand::with_seed(1);
    let mut one = raw(&[b"a"]);
    assert_eq!(PacketSwapMutator::new().mutate(&mut rand, &mut one), MutationResult::Skipped);
}

#[test]
fn repeat_never_exceeds_max() {
    for seed in 0..100u64 {
        let mut rand = StdRand::with_seed(seed);
        let m = PacketRepeatMutator::new(6);
        let mut input = raw(&[b"a", b"b"]);
        assert_eq!(m.mutate(&mut rand, &mut input), MutationResult::Mutated);
        assert!(input.len() > 2 && input.len() <= 6);
    }
    let mut rand = StdRand::with_seed(5);
    let mut full = raw(&[b"a", b"b"]);
    assert_eq!(PacketRepeatMutator::new(2).mutate(&mut rand, &mut full), MutationResult::Skipped);
}

#[test]
fn split_packet_mutator_cuts_in_two() {
    for seed in 0..50u64 {
        let mut rand = StdRand::with_seed(seed);
        let m = PacketSplitMutator::new(4);
        let mut input = raw(&[b"abcdef"]);
        assert_eq!(m.mutate(&mut rand, &mut input), MutationResult::Mutated);
        let c = contents(&input);
        assert_eq!(c.len(), 2);
        assert_eq!([c[0].clone(), c[1].clone()].concat(), b"abcdef".to_vec());
        assert!(!c[0].is_empty() && !c[1].is_empty());
    }
    let mut rand = StdRand::with_seed(2);
    let mut single = raw(&[b"a"]);
    assert_eq!(PacketSplitMutator::new(4).mutate(&mut rand, &mut single), MutationResult::Skipped);
    let mut full = raw(&[b"ab", b"cd"]);
    assert_eq!(PacketSplitMutator::new(2).mutate(&mut rand, &mut full), MutationResult::Skipped);
}

#[test]
fn token_stream_split_packet() {
    let mut rand = StdRand::with_seed(9);
    let mut ts = TokenStream::parse_bytes(b"A B").unwrap();
    let tail = ts.split_packet(&mut rand).unwrap();
    assert_eq!(ts.len() + tail.len(), 3);
    let mut one = TokenStream::parse_bytes(b"A").unwrap();
    assert!(one.split_packet(&mut rand).is_none());
}

#[test]
fn random_insertion_respects_max() {
    let mut rand = StdRand::with_seed(4);
    let m = RandomPacketInsertionMutator::new(2);
    let mut input: PacketBasedInput<TokenStream> = PacketBasedInput::new(vec![]);
    assert_eq!(m.mutate(&mut rand, &mut input), MutationResult::Mutated);
    assert_eq!(m.mutate(&mut rand, &mut input), MutationResult::Mutated);
    assert_eq!(m.mutate(&mut rand, &mut input), MutationResult::Skipped);
    assert_eq!(input.len(), 2);
    for p in input.packets() {
        let mut buf = vec![0u8; 256];
        let n = p.serialize_content(&mut buf, 0);
        assert!(n > 0);
        let back = TokenStream::parse_bytes(&buf[..n]).unwrap();
        assert!(back.len() >= 1);
    }
}

#[test]
fn random_raw_packet_length() {
    let mut rand = StdRand::with_seed(8);
    let mut nonzero = 0;
    for _ in 0..50 {
        let p = <Vec<u8> as RandomPacketCreator>::create_random_packet(&mut rand);
        assert!(!p.is_empty() && p.len() <= 32);
        nonzero += p.iter().filter(|b| **b != 0).count();
    }
    assert!(nonzero > 0);
}

#[test]
fn crossover_takes_from_other_entry() {
    let mut m = PacketCrossoverMutator::new(3, 42);
    let mut input = raw(&[b"a"]);
    let other = raw(&[b"x", b"y"]);
    assert_eq!(m.mutate(&mut input, None), MutationResult::Skipped);
    let empty = raw(&[]);
    assert_eq!(m.mutate(&mut input, Some(&empty)), MutationResult::Skipped);
    assert_eq!(m.mutate(&mut input, Some(&other)), MutationResult::Mutated);
    assert_eq!(input.len(), 2);
    let c = contents(&input);
    assert!(c.contains(&b"x".to_vec()) || c.contains(&b"y".to_vec()));
    assert_eq!(m.mutate(&mut input, Some(&other)), MutationResult::Mutated);
    assert_eq!(m.mutate(&mut input, Some(&other)), MutationResult::Skipped);
    assert_eq!(input.len(), 3);
}

#[test]
fn packet_operators_keep_length_within_bounds() {
    let (min, max) = (2usize, 6usize);
    let copy = PacketCopyMutator::new(max);
    let delete = PacketDeleteMutator::new(min);
    let repeat = PacketRepeatMutator::new(max);
    let split = PacketSplitMutator::new(max);
    let insert = RandomPacketInsertionMutator::new(max);
    let swap = PacketSwapMutator::new();
    let mut crossover = PacketCrossoverMutator::new(max, 3);
    let other = raw(&[b"zz", b"yy"]);
    for seed in 0..50u64 {
        let mut rand = StdRand::with_seed(seed);
        let mut input = raw(&[b"USER a", b"PASS b", b"QUIT"]);
        for step in 0..60usize {
            match (step + seed as usize) % 7 {
                0 => copy.mutate(&mut rand, &mut input),
                1 => delete.mutate(&mut rand, &mut input),
                2 => repeat.mutate(&mut rand, &mut input),
                3 => split.mutate(&mut rand, &mut input),
                4 => insert.mutate(&mut rand, &mut input),
                5 => swap.mutate(&mut rand, &mut input),
                _ => crossover.mutate(&mut input, Some(&other)),
            };
            assert!(input.len() >= min && input.len() <= max);
        }
    }
}
