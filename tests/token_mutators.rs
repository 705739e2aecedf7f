use tokenfuzz::rng::StdRand;
use tokenfuzz::token_mutators::{mutate_special_insert, mutate_special_replace, mutate_split};
use tokenfuzz::packets::Packet;
use tokenfuzz::tokens::{TextToken, TokenStream};

fn seed_now() -> u64 {
    std::time::SystemTime::now()
        .duration_since(std::time::UNIX_EPOCH)
        .map(|d| d.as_nanos() as u64)
        .unwrap_or(0)
}

fn render(stream: &TokenStream) -> Vec<u8> {
    let mut buffer = vec![0u8; 1024];
    let size = stream.serialize_content(&mut buffer, 0);
    buffer.truncate(size);
    buffer
}

fn is_special(b: u8) -> bool {
    b == 0 || b == 127 || (33..=47).contains(&b) || (58..=64).contains(&b) || (91..=96).contains(&b) || (123..=125).contains(&b)
}

#[test]
fn test_special_insert() {
    let mut rand = StdRand::with_seed(seed_now());
    let stream = "PORT 127,0,0,1,80,80\r\n".parse::<TokenStream>().unwrap();

    for _ in 0..10 {
        let mut stream = stream.clone();
        let before = render(&stream);
        let mutated = mutate_special_insert(&mut rand, &mut stream);
        let after = render(&stream);
        println!("{}", String::from_utf8_lossy(&after));
        if mutated {
            assert_eq!(after.len(), before.len() + 1);
        } else {
            assert_eq!(after, before);
        }
    }
}

#[test]
fn test_special_replace() {
    let mut rand = StdRand::with_seed(seed_now());
    let stream = "PORT 127,0,0,1,80,80\r\n".parse::<TokenStream>().unwrap();

    for _ in 0..10 {
        let mut stream = stream.clone();
        let before = render(&stream);
        let mutated = mutate_special_replace(&mut rand, &mut stream);
        let after = render(&stream);
        println!("{}", String::from_utf8_lossy(&after));
        assert_eq!(after.len(), before.len());
        let diffs: Vec<usize> = (0..after.len()).filter(|&i| after[i] != before[i]).collect();
        assert!(diffs.len() <= 1);
        for i in diffs {
            assert!(mutated);
            assert!(is_special(after[i]));
        }
    }
}

#[test]
fn special_ops_skip_streams_without_text() {
    let mut rand = StdRand::with_seed(3);
    for _ in 0..20 {
        let mut stream = "12 34\t".parse::<TokenStream>().unwrap();
        assert!(!mutate_special_insert(&mut rand, &mut stream));
        assert!(!mutate_special_replace(&mut rand, &mut stream));
        assert_eq!(render(&stream), b"12 34\t".to_vec());
    }
    let mut empty = TokenStream::new(vec![]);
    assert!(!mutate_special_insert(&mut rand, &mut empty));
    assert!(!mutate_special_replace(&mut rand, &mut empty));
}

#[test]
fn test_split() {
    let mut rand = StdRand::with_seed(seed_now());
    let stream = "200 fuck my shit up".parse::<TokenStream>().unwrap();
    let mut count = 0;

    for _ in 0..10 {
        let mut stream = stream.clone();

        if mutate_split(&mut rand, &mut stream, 16) {
            let s = render(&stream);
            println!("{}", String::from_utf8_lossy(&s));
            assert!(stream.len() <= 16);
            count += 1;
        }
    }

    println!();
    println!("Mutated {count}/10");
}

#[test]
fn split_never_leaves_a_lone_sign() {
    for seed in 0..500u64 {
        let mut rand = StdRand::with_seed(seed);
        let mut stream = "+12 -345 +6".parse::<TokenStream>().unwrap();
        let before = stream.len();
        if mutate_split(&mut rand, &mut stream, 64) {
            assert_eq!(stream.len(), before + 2);
            for t in stream.tokens() {
                if let TextToken::Number(d) = t {
                    assert!(d.iter().any(|b| b.is_ascii_digit()), "seed {seed}");
                }
            }
        }
    }
}

#[test]
fn split_keeps_payload_around_new_token() {
    for seed in 0..100u64 {
        let mut rand = StdRand::with_seed(seed);
        let mut stream = "hello world".parse::<TokenStream>().unwrap();
        let old: Vec<Vec<u8>> = stream.tokens().iter().map(|t| t.data().to_vec()).collect();
        if mutate_split(&mut rand, &mut stream, 10) {
            let new: Vec<Vec<u8>> = stream.tokens().iter().map(|t| t.data().to_vec()).collect();
            assert_eq!(new.len(), old.len() + 2);
            let found = (0..old.len()).any(|i| {
                let mut joined = new[i].clone();
                joined.extend_from_slice(&new[i + 2]);
                joined == old[i] && new[..i] == old[..i] && new[i + 3..] == old[i + 1..]
            });
            assert!(found);
        }
    }
}

#[test]
fn split_without_two_free_slots_is_skipped() {
    for seed in 0..100u64 {
        let mut rand = StdRand::with_seed(seed);
        let mut stream = "abc def".parse::<TokenStream>().unwrap();
        let before = render(&stream);
        let n = stream.len();
        assert!(!mutate_split(&mut rand, &mut stream, n + 1));
        assert!(!mutate_split(&mut rand, &mut stream, n));
        assert!(!mutate_split(&mut rand, &mut stream, 0));
        assert_eq!(stream.len(), n);
        assert_eq!(render(&stream), before);
    }
    let mut empty = TokenStream::new(vec![]);
    let mut rand = StdRand::with_seed(1);
    assert!(!mutate_split(&mut rand, &mut empty, 100));
}

#[test]
fn split_refuses_constants_and_single_bytes() {
    for seed in 0..50u64 {
        let mut rand = StdRand::with_seed(seed);
        let mut stream = TokenStream::new(vec![
            TextToken::Constant(b"USER".to_vec()),
            TextToken::Text(b"x".to_vec()),
            TextToken::Number(b"-1".to_vec()),
        ]);
        assert!(!mutate_split(&mut rand, &mut stream, 100));
        assert_eq!(stream.len(), 3);
    }
}

#[test]
fn split_succeeds_on_splittable_streams() {
    for seed in 0..200u64 {
        let mut rand = StdRand::with_seed(seed);
        let mut stream = "ab  cd".parse::<TokenStream>().unwrap();
        assert!(mutate_split(&mut rand, &mut stream, 5));
        assert_eq!(stream.len(), 5);
        let mut text = "PORT".parse::<TokenStream>().unwrap();
        assert!(mutate_special_insert(&mut rand, &mut text));
        assert!(mutate_special_replace(&mut rand, &mut text));
    }
}
