use tokenfuzz::rng::StdRand;
use tokenfuzz::tokens::{TextToken, TokenStream};

fn kinds_and_data(ts: &TokenStream) -> Vec<(char, Vec<u8>)> {
    ts.tokens()
        .iter()
        .map(|t| {
            let k = match t {
                TextToken::Constant(_) => 'c',
                TextToken::Number(_) => 'n',
                TextToken::Whitespace(_) => 'w',
                TextToken::Text(_) => 't',
            };
            (k, t.data().to_vec())
        })
        .collect()
}

fn joined(ts: &TokenStream) -> Vec<u8> {
    ts.tokens().iter().flat_map(|t| t.data().to_vec()).collect()
}

#[test]
fn tokenizes_port_command() {
    let ts = TokenStream::parse_bytes(b"PORT 127,0,0,1,80,80\r\n").unwrap();
    let expected: Vec<(char, Vec<u8>)> = vec![
        ('t', b"PORT".to_vec()),
        ('w', b" ".to_vec()),
        ('n', b"127".to_vec()),
        ('t', b",".to_vec()),
        ('n', b"0".to_vec()),
        ('t', b",".to_vec()),
        ('n', b"0".to_vec()),
        ('t', b",".to_vec()),
        ('n', b"1".to_vec()),
        ('t', b",".to_vec()),
        ('n', b"80".to_vec()),
        ('t', b",".to_vec()),
        ('n', b"80".to_vec()),
        ('w', b"\r\n".to_vec()),
    ];
    assert_eq!(kinds_and_data(&ts), expected);
}

#[test]
fn from_str_matches_parse_bytes() {
    let a: TokenStream = "USER anonymous\r\n".parse().unwrap();
    let b = TokenStream::parse_bytes(b"USER anonymous\r\n").unwrap();
    assert_eq!(kinds_and_data(&a), kinds_and_data(&b));
}

#[test]
fn ascii_input_round_trips() {
    let inputs: Vec<&[u8]> = vec![
        b"",
        b"+",
        b"-",
        b"+-+",
        b"a+1",
        b"\x00\x7f  \t-12abc+",
        b"200 fuck my shit up",
        b"x1y2z3 \x0b\x0c",
    ];
    for s in inputs {
        let ts = TokenStream::parse_bytes(s).unwrap();
        assert_eq!(joined(&ts), s.to_vec());
    }
}

#[test]
fn lone_sign_is_text() {
    let ts = TokenStream::parse_bytes(b"+ -7").unwrap();
    assert_eq!(
        kinds_and_data(&ts),
        vec![('t', b"+".to_vec()), ('w', b" ".to_vec()), ('n', b"-7".to_vec())]
    );
}

#[test]
fn text_run_stops_at_digit_sign_and_space() {
    let ts = TokenStream::parse_bytes(b"ab+cd-e9 f").unwrap();
    assert_eq!(
        kinds_and_data(&ts),
        vec![
            ('t', b"ab".to_vec()),
            ('t', b"+cd".to_vec()),
            ('t', b"-e".to_vec()),
            ('n', b"9".to_vec()),
            ('w', b" ".to_vec()),
            ('t', b"f".to_vec()),
        ]
    );
}

#[test]
fn high_byte_is_reported() {
    assert_eq!(TokenStream::parse_bytes(b"abc\x80def").err(), Some(0x80));
    assert_eq!(TokenStream::parse_bytes(b"  \xff").err(), Some(0xff));
    assert_eq!(TokenStream::parse_bytes(b"12\xc3\xa9").err(), Some(0xc3));
    assert_eq!(TokenStream::parse_bytes(b"\x90").err(), Some(0x90));
}

#[test]
fn random_tokens_retokenize_to_themselves() {
    for seed in 0..200u64 {
        let mut rand = StdRand::with_seed(seed);
        let tokens = vec![
            TextToken::random_whitespace(&mut rand, 1, 16),
            TextToken::random_number(&mut rand, 16),
            TextToken::random_text(&mut rand, 1, 16),
        ];
        for t in tokens {
            assert!(t.verify());
            let ts = TokenStream::parse_bytes(t.data()).unwrap();
            assert_eq!(ts.len(), 1);
            let back = &ts.tokens()[0];
            assert_eq!(back.data(), t.data());
            assert_eq!(back.is_number(), t.is_number());
            assert_eq!(back.is_whitespace(), t.is_whitespace());
        }
    }
}

#[test]
fn random_lengths_stay_in_range() {
    let mut rand = StdRand::with_seed(7);
    for _ in 0..100 {
        let w = TextToken::random_whitespace(&mut rand, 2, 5);
        assert!(w.len() >= 2 && w.len() <= 5);
        let n = TextToken::random_number(&mut rand, 4);
        assert!(n.len() >= 2 && n.len() <= 4);
        let t = TextToken::random_text(&mut rand, 3, 3);
        assert_eq!(t.len(), 3);
    }
}

#[test]
fn verify_checks_alphabets() {
    assert!(TextToken::Number(b"-12".to_vec()).verify());
    assert!(!TextToken::Number(b"1-2".to_vec()).verify());
    assert!(TextToken::Whitespace(b" \t\r\n".to_vec()).verify());
    assert!(!TextToken::Whitespace(b" a".to_vec()).verify());
    assert!(!TextToken::Text(b"ab+".to_vec()).verify());
    assert!(!TextToken::Text(b"a+".to_vec()).verify());
    assert!(TextToken::Text(b"+a".to_vec()).verify());
    assert!(!TextToken::Number(b"".to_vec()).verify());
    assert!(!TextToken::Number(b"+".to_vec()).verify());
    assert!(TextToken::Number(b"7".to_vec()).verify());
    assert!(!TextToken::Text(b"a1".to_vec()).verify());
    assert!(!TextToken::Text(vec![0x80]).verify());
    assert!(TextToken::Constant(vec![0xff]).verify());
}

#[test]
fn clone_nodata_keeps_kind() {
    let t = TextToken::Number(b"42".to_vec()).clone_nodata();
    assert!(t.is_number());
    assert!(t.is_empty());
    let c = TextToken::Constant(b"x".to_vec()).clone_nodata();
    assert!(c.is_constant());
    assert_eq!(c.len(), 0);
}
