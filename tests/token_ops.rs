use tokenfuzz::rng::StdRand;
use tokenfuzz::stream_mutator::{mutate_non_crossover, TokenStreamMutator, NUM_MUTATORS};
use tokenfuzz::token_ops::{
    mutate_copy, mutate_crossover_insert, mutate_crossover_replace, mutate_delete,
    mutate_dict_insert, mutate_dict_replace, mutate_flip, mutate_interesting,
    mutate_random_insert, mutate_random_replace, mutate_repeat_char, mutate_repeat_token,
    mutate_swap_constants, mutate_swap_tokens, mutate_swap_words, mutate_truncate, random_range,
};
use tokenfuzz::tokens::{TextToken, TokenStream};

fn stream(s: &str) -> TokenStream {
    TokenStream::parse_bytes(s.as_bytes()).unwrap()
}

fn payloads(ts: &TokenStream) -> Vec<Vec<u8>> {
    ts.tokens().iter().map(|t| t.data().to_vec()).collect()
}

#[test]
fn random_range_is_inside_limits() {
    let mut rand = StdRand::with_seed(1);
    for _ in 0..200 {
        let (s, e) = random_range(&mut rand, 10, 3);
        assert!(s < e && e <= 10 && e - s <= 3);
    }
}

#[test]
fn copy_inserts_a_run_within_max() {
    for seed in 0..100u64 {
        let mut rand = StdRand::with_seed(seed);
        let mut ts = stream("a b c");
        assert!(mutate_copy(&mut rand, &mut ts, 7));
        assert!(ts.len() > 5 && ts.len() <= 7);
    }
    let mut rand = StdRand::with_seed(2);
    let mut full = stream("a b c");
    assert!(!mutate_copy(&mut rand, &mut full, 5));
    let mut empty = TokenStream::new(vec![]);
    assert!(!mutate_copy(&mut rand, &mut empty, 5));
}

#[test]
fn delete_and_truncate_shrink() {
    let mut rand = StdRand::with_seed(3);
    let mut ts = stream("a b c");
    assert!(mutate_delete(&mut rand, &mut ts));
    assert_eq!(ts.len(), 4);
    assert!(mutate_truncate(&mut rand, &mut ts));
    assert!(ts.len() < 4);
    let mut empty = TokenStream::new(vec![]);
    assert!(!mutate_delete(&mut rand, &mut empty));
    assert!(!mutate_truncate(&mut rand, &mut empty));
}

#[test]
fn flip_keeps_tokens_valid() {
    for seed in 0..300u64 {
        let mut rand = StdRand::with_seed(seed);
        let mut ts = stream("USER 12 x\r\n");
        let before = payloads(&ts);
        let changed = mutate_flip(&mut rand, &mut ts);
        for t in ts.tokens() {
            assert!(t.verify());
        }
        let after = payloads(&ts);
        let diff: usize = before
            .iter()
            .zip(after.iter())
            .map(|(a, b)| a.iter().zip(b.iter()).filter(|(x, y)| x != y).count())
            .sum();
        assert_eq!(diff, if changed { 1 } else { 0 });
    }
}

#[test]
fn interesting_only_touches_numbers() {
    let values: Vec<&[u8]> = vec![b"0", b"-1", b"127", b"128", b"255", b"256", b"65535", b"65536"];
    for seed in 0..100u64 {
        let mut rand = StdRand::with_seed(seed);
        let mut ts = stream("x 5");
        if mutate_interesting(&mut rand, &mut ts) {
            assert!(values.contains(&ts.tokens()[2].data()));
            assert_eq!(ts.tokens()[0].data(), b"x");
        } else {
            assert_eq!(payloads(&ts), payloads(&stream("x 5")));
        }
    }
    let mut rand = StdRand::with_seed(4);
    let mut text_only = stream("abc");
    assert!(!mutate_interesting(&mut rand, &mut text_only));
}

#[test]
fn random_insert_and_replace() {
    let mut rand = StdRand::with_seed(5);
    let mut ts = stream("a b");
    assert!(mutate_random_insert(&mut rand, &mut ts, 4));
    assert_eq!(ts.len(), 4);
    assert!(!mutate_random_insert(&mut rand, &mut ts, 4));
    assert!(mutate_random_replace(&mut rand, &mut ts));
    assert_eq!(ts.len(), 4);
    for t in ts.tokens() {
        assert!(!t.is_empty());
    }
}

#[test]
fn repeat_char_grows_one_token() {
    for seed in 0..100u64 {
        let mut rand = StdRand::with_seed(seed);
        let mut ts = stream("abc");
        if mutate_repeat_char(&mut rand, &mut ts, 16) {
            let d = ts.tokens()[0].data();
            assert!(d.len() > 3 && d.len() <= 3 + 16);
        }
    }
    let mut rand = StdRand::with_seed(6);
    let mut sign = TokenStream::new(vec![TextToken::Number(b"-".to_vec())]);
    assert!(!mutate_repeat_char(&mut rand, &mut sign, 16));
}

#[test]
fn repeat_token_within_max() {
    for seed in 0..100u64 {
        let mut rand = StdRand::with_seed(seed);
        let mut ts = stream("a b");
        assert!(mutate_repeat_token(&mut rand, &mut ts, 4, 5));
        assert!(ts.len() > 3 && ts.len() <= 5);
    }
}

#[test]
fn swaps_exchange_tokens() {
    for seed in 0..100u64 {
        let mut rand = StdRand::with_seed(seed);
        let mut ts = stream("a 1 b");
        let changed = mutate_swap_words(&mut rand, &mut ts);
        let p = payloads(&ts);
        if changed {
            assert_eq!(p[0], b"b".to_vec());
            assert_eq!(p[4], b"a".to_vec());
        }
        assert_eq!(p[2], b"1".to_vec());
        let mut ts = stream("a1b");
        let changed = mutate_swap_tokens(&mut rand, &mut ts);
        let mut sorted = payloads(&ts);
        sorted.sort();
        let mut orig = payloads(&stream("a1b"));
        orig.sort();
        assert_eq!(sorted, orig);
        assert_eq!(payloads(&ts) != payloads(&stream("a1b")), changed);
    }
    let mut rand = StdRand::with_seed(7);
    let mut one_word = stream("a 1");
    assert!(!mutate_swap_words(&mut rand, &mut one_word));
}

#[test]
fn dictionary_operators() {
    let dict = vec![b"LIST".to_vec(), b"RETR".to_vec()];
    let none: Vec<Vec<u8>> = vec![];
    let mut rand = StdRand::with_seed(8);
    let mut ts = stream("x");
    assert!(!mutate_dict_insert(&mut rand, &mut ts, &none, 10));
    assert!(mutate_dict_insert(&mut rand, &mut ts, &dict, 10));
    assert_eq!(ts.len(), 2);
    assert!(ts.tokens().iter().any(|t| t.is_constant()));
    assert!(mutate_swap_constants(&mut rand, &mut ts, &dict));
    assert!(mutate_dict_replace(&mut rand, &mut ts, &dict));
    let mut plain = stream("x y");
    assert!(!mutate_swap_constants(&mut rand, &mut plain, &dict));
}

#[test]
fn crossover_operators() {
    let other = stream("RETR file");
    let mut rand = StdRand::with_seed(9);
    let mut ts = stream("a");
    assert!(mutate_crossover_insert(&mut rand, &mut ts, &other, 3));
    assert!(ts.len() > 1 && ts.len() <= 3);
    let empty = TokenStream::new(vec![]);
    assert!(!mutate_crossover_insert(&mut rand, &mut ts, &empty, 10));
    let mut one = stream("a");
    assert!(mutate_crossover_replace(&mut rand, &mut one, &other, 10));
    assert_eq!(one.len(), 1);
    assert!(payloads(&other).contains(&one.tokens()[0].data().to_vec()));
}

#[test]
fn stacked_rounds_respect_max_tokens() {
    let dict = vec![b"NOOP".to_vec()];
    let other = stream("PASS secret\r\n");
    for seed in 0..50u64 {
        let mut m = TokenStreamMutator::new(12);
        let mut ts = stream("PORT 127,0,0,1\r\n");
        let n = m.start(seed);
        assert!([2, 4, 8, 16, 32].contains(&n));
        for _ in 0..n {
            let op = m.next_operator();
            if op < NUM_MUTATORS {
                m.apply(op, &mut ts, Some(dict.as_slice()));
            } else {
                m.apply_crossover(op, &mut ts, Some(&other));
            }
            assert!(ts.len() <= 12);
        }
    }
}

#[test]
fn every_operator_keeps_bound() {
    for idx in 0..NUM_MUTATORS {
        for seed in 0..20u64 {
            let mut rand = StdRand::with_seed(seed);
            let mut ts = stream("a 1 b\r\n");
            let before = payloads(&ts);
            let changed = mutate_non_crossover(idx, &mut ts, None, &mut rand, 6);
            assert!(ts.len() <= 6);
            if !changed {
                assert_eq!(payloads(&ts), before);
            }
        }
    }
}

#[test]
fn operators_succeed_where_every_draw_works() {
    let dict = vec![b"LIST".to_vec()];
    for seed in 0..100u64 {
        let mut rand = StdRand::with_seed(seed);
        let mut numbers = TokenStream::new(vec![
            TextToken::Number(b"12".to_vec()),
            TextToken::Number(b"-3".to_vec()),
        ]);
        assert!(mutate_interesting(&mut rand, &mut numbers));
        let mut constants = TokenStream::new(vec![
            TextToken::Constant(b"USER".to_vec()),
            TextToken::Constant(b"x".to_vec()),
        ]);
        assert!(mutate_flip(&mut rand, &mut constants));
        assert!(mutate_swap_constants(&mut rand, &mut constants, &dict));
        let mut text = stream("ab");
        assert!(mutate_repeat_char(&mut rand, &mut text, 16));
    }
}

#[test]
fn fixed_seed_reproduces_a_mutation() {
    let run = |seed: u64| {
        let mut m = TokenStreamMutator::new(32);
        let mut ts = stream("RETR file.txt\r\n");
        let n = m.start(seed);
        for _ in 0..n {
            let op = m.next_operator();
            if op < NUM_MUTATORS {
                m.apply(op, &mut ts, None);
            }
        }
        payloads(&ts)
    };
    assert_eq!(run(1234), run(1234));
    assert_eq!(run(99), run(99));
    let outcomes: Vec<Vec<Vec<u8>>> = (0..20u64).map(run).collect();
    assert!(outcomes.iter().any(|o| *o != outcomes[0]));
}

#[test]
fn dictionary_operators_without_dictionary_do_nothing() {
    let empty: Vec<Vec<u8>> = vec![];
    for idx in 14..NUM_MUTATORS {
        for seed in 0..10u64 {
            let mut rand = StdRand::with_seed(seed);
            let mut ts = TokenStream::new(vec![TextToken::Constant(b"X".to_vec())]);
            assert!(!mutate_non_crossover(idx, &mut ts, None, &mut rand, 10));
            assert!(!mutate_non_crossover(idx, &mut ts, Some(empty.as_slice()), &mut rand, 10));
            assert_eq!(payloads(&ts), vec![b"X".to_vec()]);
        }
    }
}

#[test]
fn exact_outcomes_of_stream_operators() {
    let mut rand = StdRand::with_seed(21);
    let mut ts = stream("a b");
    assert!(mutate_non_crossover(0, &mut ts, None, &mut rand, 10));
    let mut ts = stream("a b");
    assert!(!mutate_non_crossover(0, &mut ts, None, &mut rand, 3));
    assert!(mutate_non_crossover(1, &mut ts, None, &mut rand, 3));
    assert!(mutate_non_crossover(13, &mut ts, None, &mut rand, 3));
    let mut empty = TokenStream::new(vec![]);
    for idx in 0..NUM_MUTATORS {
        if idx != 4 {
            assert!(!mutate_non_crossover(idx, &mut empty, None, &mut rand, 3));
        }
    }
}

#[test]
fn crossover_rounds_skip_without_other_entry() {
    let mut m = TokenStreamMutator::new(8);
    m.start(5);
    let mut ts = stream("a b");
    assert!(!m.apply_crossover(NUM_MUTATORS, &mut ts, None));
    let empty = TokenStream::new(vec![]);
    assert!(!m.apply_crossover(NUM_MUTATORS + 1, &mut ts, Some(&empty)));
    let other = stream("x");
    assert!(m.apply_crossover(NUM_MUTATORS, &mut ts, Some(&other)));
    assert!(m.apply_crossover(NUM_MUTATORS + 1, &mut ts, Some(&other)));
    let none_packets: tokenfuzz::packets::PacketBasedInput<TokenStream> =
        tokenfuzz::packets::PacketBasedInput::new(vec![]);
    assert!(!m.apply_packet_crossover(NUM_MUTATORS, &mut ts, Some(&none_packets)));
    assert!(!m.apply_packet_crossover(NUM_MUTATORS, &mut ts, None));
    let packets = tokenfuzz::packets::PacketBasedInput::new(vec![stream("y z")]);
    assert!(m.apply_packet_crossover(NUM_MUTATORS, &mut ts, Some(&packets)));
}

#[test]
fn swap_drawn_exchanges_or_skips() {
    let mut ts = stream("a1b");
    assert!(!tokenfuzz::token_ops::swap_drawn(&mut ts, 1, 1));
    assert!(tokenfuzz::token_ops::swap_drawn(&mut ts, 2, 0));
    assert_eq!(payloads(&ts), vec![b"b".to_vec(), b"1".to_vec(), b"a".to_vec()]);
}

#[test]
fn random_numbers_sometimes_signed() {
    let mut rand = StdRand::with_seed(77);
    let mut signed = 0;
    for _ in 0..400 {
        let t = TextToken::random_number(&mut rand, 8);
        if t.data()[0] == b'-' || t.data()[0] == b'+' {
            signed += 1;
        }
    }
    assert!(signed > 40 && signed < 180, "{signed}");
}

#[test]
fn flip_keeps_text_and_numbers_valid() {
    for seed in 0..500u64 {
        let mut rand = StdRand::with_seed(seed);
        let mut ts = TokenStream::new(vec![
            TextToken::Text(b"ok".to_vec()),
            TextToken::Number(b"5".to_vec()),
            TextToken::Number(b"-42".to_vec()),
        ]);
        mutate_flip(&mut rand, &mut ts);
        for t in ts.tokens() {
            assert!(t.verify(), "seed {seed}");
        }
        assert!(!ts.tokens()[0].data()[1..].iter().any(|b| *b == b'+' || *b == b'-'));
    }
}

#[test]
fn repeat_char_may_repeat_a_leading_digit() {
    let mut grew = false;
    for seed in 0..200u64 {
        let mut rand = StdRand::with_seed(seed);
        let mut ts = TokenStream::new(vec![TextToken::Number(b"7".to_vec())]);
        if mutate_repeat_char(&mut rand, &mut ts, 16) {
            grew = true;
            assert!(ts.tokens()[0].data().iter().all(|b| *b == b'7'));
        }
    }
    assert!(grew);
}

#[test]
fn word_swap_step_takes_drawn_positions() {
    let mut ts = stream("ab 1 cd");
    let words = tokenfuzz::token_ops::text_indices(&ts);
    assert_eq!(words, vec![0, 4]);
    assert!(!tokenfuzz::token_ops::swap_words_drawn(&mut ts, &words, 1, 1));
    assert!(tokenfuzz::token_ops::swap_words_drawn(&mut ts, &words, 1, 0));
    assert_eq!(payloads(&ts)[0], b"cd".to_vec());
    assert_eq!(payloads(&ts)[4], b"ab".to_vec());
}
