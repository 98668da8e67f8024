use xorcrack::attack::break_repeating_key_xor;
use xorcrack::error::CrackError;
use xorcrack::hamming::hamming;
use xorcrack::keysize::{
    many_average_normalized_hamming_for_keysize, many_rank, normalized_hamming_for_keysize,
    normalized_hamming_for_keysize_twice, rank_keysizes, rank_keysizes2,
};
use xorcrack::single::{best_score_byte_xor, best_score_of_all, byte_xor_solutions};
use xorcrack::transpose::{collate, interleave};
use xorcrack::xor::{byte_xor, fixed_xor, repeating_key_xor};

#[test]
fn c2() {
    let a = hex::decode("1c0111001f010100061a024b53535009181c").unwrap();
    let b = hex::decode("686974207468652062756c6c277320657965").unwrap();

    let expected = hex::decode("746865206b696420646f6e277420706c6179").unwrap();

    assert_eq!(fixed_xor(&a, &b).unwrap(), expected);
}

#[test]
fn fixed_xor_length_mismatch() {
    assert_eq!(fixed_xor(&[1, 2, 3], &[1, 2]), None);
    assert_eq!(fixed_xor(&[], &[]), Some(vec![]));
}

#[test]
fn c3() {
    let input = hex::decode("1b37373331363f78151b7f2b783431333d78397828372d363c78373e783a393b3736").unwrap();
    assert_eq!(best_score_byte_xor(&input).unwrap().0, "Cooking MC's like a pound of bacon".to_owned());
}

#[test]
fn c3_key_byte() {
    let input = hex::decode("1b37373331363f78151b7f2b783431333d78397828372d363c78373e783a393b3736").unwrap();
    let best = best_score_byte_xor(&input).unwrap();
    assert_eq!(best.1, 0x58);
    assert_eq!(best.1, 88);
}

#[test]
fn test_single_byte_xor() {
    let input = vec![0b11111111, 0b00000000, 0b10101010];
    let b = 0b11100111;
    assert_eq!(byte_xor(&input, b), vec![0b00011000, 0b11100111, 0b01001101]);
}

#[test]
fn c5() {
    let input = b"Burning 'em, if you ain't quick and nimble
I go crazy when I hear a cymbal";
    let key = b"ICE";

    let expected = hex::decode("0b3637272a2b2e63622c2e69692a23693a2a3c6324202d623d63343c2a26226324272765272a282b2f20430a652e2c652a3124333a653e2b2027630c692b20283165286326302e27282f").unwrap();

    assert_eq!(repeating_key_xor(input, key), expected)
}

#[test]
fn repeating_key_xor_empty_key() {
    assert_eq!(repeating_key_xor(b"abc", b""), Vec::<u8>::new());
}

#[test]
fn repeating_key_xor_twice_is_identity() {
    let plain = b"Some plaintext, with punctuation!\nAnd a second line.";
    for key in [&b"k"[..], &b"ICE"[..], &b"a longer key than usual"[..]] {
        let once = repeating_key_xor(plain, key);
        assert_ne!(once, plain.to_vec());
        assert_eq!(repeating_key_xor(&once, key), plain.to_vec());
    }
}

#[test]
fn test_hamming() {
    let a = b"this is a test";
    let b = b"wokka wokka!!!";

    assert_eq!(hamming(a, b), 37);
}

#[test]
fn hamming_metric_laws_on_values() {
    let a = b"abcdef";
    let b = b"zyxwvu";
    let c = b"a1c2e3";
    assert_eq!(hamming(a, a), 0);
    assert_eq!(hamming(a, b), hamming(b, a));
    assert!(hamming(a, c) <= hamming(a, b) + hamming(b, c));
    assert_eq!(hamming(&[0xff], &[0x00]), 8);
    assert_eq!(hamming(&[], &[]), 0);
}

#[test]
fn guess_keysize() {
    let cleartext = b"hello I believe in cars and technology";
    let vignere = repeating_key_xor(cleartext, b"yes");
    let keysizes = rank_keysizes(&vignere);

    assert_eq!(keysizes[0].0, 3);
}

#[test]
fn rank_keysizes_covers_range() {
    let bytes: Vec<u8> = (0u8..100).collect();
    let ranks = rank_keysizes(&bytes);
    let mut sizes: Vec<usize> = ranks.iter().map(|r| r.0).collect();
    sizes.sort();
    assert_eq!(sizes, (2usize..=40).collect::<Vec<usize>>());
    assert_eq!(rank_keysizes(&[1, 2, 3]).len(), 0);
    let short = rank_keysizes(&[0, 0, 0, 0, 0]);
    assert_eq!(short.len(), 1);
    assert_eq!(short[0].0, 2);
}

#[test]
fn normalized_distance_exact() {
    // "ab" vs "cd": 0x61^0x63 = 0x02, 0x62^0x64 = 0x06: three bits over two bytes
    let sc = normalized_hamming_for_keysize(b"abcd", 2);
    assert_eq!((sc.num, sc.den), (3, 2));
}

#[test]
fn test_collate() {
    let input = b"hello world!!!";
    let expected: Vec<Vec<u8>> = vec![
        b"hw!"[..].into(),
        b"eo!"[..].into(),
        b"lr"[..].into(),
        b"ll"[..].into(),
        b"od"[..].into(),
        b" !"[..].into(),
    ];
    assert_eq!(collate(input, 6).unwrap(), expected);
}

#[test]
fn collate_zero_blocks_is_invalid() {
    assert_eq!(collate(b"abc", 0), Err(CrackError::InvalidArgument));
}

#[test]
fn test_interleave() {
    let expected = b"hello world!!!";
    let input: Vec<Vec<u8>> = vec![
        b"hw!"[..].into(),
        b"eo!"[..].into(),
        b"lr"[..].into(),
        b"ll"[..].into(),
        b"od"[..].into(),
        b" !"[..].into(),
    ];
    assert_eq!(interleave(&input), expected);
}

#[test]
fn interleave_stops_at_first_exhausted_block() {
    let input: Vec<Vec<u8>> = vec![b"ad"[..].into(), b"b"[..].into(), b"cef"[..].into()];
    assert_eq!(interleave(&input), b"abcd".to_vec());
    assert_eq!(interleave(&[]), Vec::<u8>::new());
}

#[test]
fn collate_interleave_round_trip() {
    let s = b"The quick brown fox jumps over the lazy dog";
    for n in 1..=s.len() + 2 {
        assert_eq!(interleave(&collate(s, n).unwrap()), s.to_vec());
    }
}

#[test]
fn solutions_are_ranked() {
    let input = hex::decode("1b37373331363f78151b7f2b783431333d78397828372d363c78373e783a393b3736").unwrap();
    let all = byte_xor_solutions(&input);
    assert!(!all.is_empty());
    for w in all.windows(2) {
        let (a, b) = (&w[0], &w[1]);
        let l = a.2.num as f64 / a.2.den as f64;
        let r = b.2.num as f64 / b.2.den as f64;
        assert!(l <= r);
        if l == r {
            assert!(a.1 < b.1);
        }
    }
    for c in &all {
        let bytes: Vec<u8> = input.iter().map(|b| b ^ c.1).collect();
        assert_eq!(c.0.as_bytes(), &bytes[..]);
    }
}

#[test]
fn best_of_empty_input_fails() {
    assert_eq!(best_score_byte_xor(&[]).unwrap_err(), CrackError::EmptyResult);
    assert!(byte_xor_solutions(&[]).is_empty());
}

#[test]
fn pipeline_too_short() {
    assert_eq!(break_repeating_key_xor(b"abc").unwrap_err(), CrackError::NoKeysizeFound);
}

#[test]
fn pipeline_unsolvable_block() {
    // column 0 holds 0x00 and 0x80: every key leaves a stray byte of 0x80 or more
    let ct = [0x00u8, 0x41, 0x80, 0x41];
    assert_eq!(break_repeating_key_xor(&ct).unwrap_err(), CrackError::UnsolvableBlock(0));
}

#[test]
fn pipeline_recovers_key_and_plaintext() {
    let cleartext = b"hello I believe in cars and technology";
    let ct = repeating_key_xor(cleartext, b"yes");
    let (key, plain) = break_repeating_key_xor(&ct).unwrap();
    assert_eq!(key, b"yes".to_vec());
    assert_eq!(plain, cleartext.to_vec());
    assert_eq!(plain, repeating_key_xor(&ct, &key));
    for (j, col) in collate(&ct, 3).unwrap().iter().enumerate() {
        assert_eq!(best_score_byte_xor(col).unwrap().1, key[j]);
    }
}

#[test]
fn normalized_distance_two_pairs() {
    // pairs ("ab", "cd") and ("ab", "ab"): 3 + 0 bits over two pairs of two bytes
    let sc = normalized_hamming_for_keysize_twice(b"abcdabab", 2);
    assert_eq!((sc.num, sc.den), (3, 4));
    // fewer than four blocks: the first pair alone
    let sc = normalized_hamming_for_keysize_twice(b"abcdab", 2);
    assert_eq!((sc.num, sc.den), (3, 2));
}

#[test]
fn normalized_distance_many_pairs() {
    // three whole pairs of one-byte blocks: (0x00, 0x01), (0x03, 0x03), (0xff, 0x00)
    let sc = many_average_normalized_hamming_for_keysize(&[0x00, 0x01, 0x03, 0x03, 0xff, 0x00, 0x07], 1);
    assert_eq!((sc.num, sc.den), (9, 3));
    // at most twenty pairs are averaged
    let bytes = vec![0x0fu8; 100];
    let sc = many_average_normalized_hamming_for_keysize(&bytes, 2);
    assert_eq!((sc.num, sc.den), (0, 40));
}

#[test]
fn alternate_rankings_find_key_length() {
    let cleartext = b"hello I believe in cars and technology";
    let ct = repeating_key_xor(cleartext, b"yes");
    for ranks in [rank_keysizes2(&ct), many_rank(&ct)] {
        let mut sizes: Vec<usize> = ranks.iter().map(|r| r.0).collect();
        sizes.sort();
        assert_eq!(sizes, (2usize..=19).collect::<Vec<usize>>());
        for w in ranks.windows(2) {
            let l = w[0].1.num * w[1].1.den;
            let r = w[1].1.num * w[0].1.den;
            assert!(l < r || (l == r && w[0].0 < w[1].0));
        }
    }
    assert!(rank_keysizes2(b"abc").is_empty());
    assert!(many_rank(b"abc").is_empty());
}

#[test]
fn best_of_all_picks_the_english_line() {
    let english = hex::decode("1b37373331363f78151b7f2b783431333d78397828372d363c78373e783a393b3736").unwrap();
    let lines = vec![vec![0x00u8, 0x80], english, vec![]];
    let best = best_score_of_all(&lines).unwrap();
    assert_eq!(best.0, "Cooking MC's like a pound of bacon");
    assert_eq!(best.1, 88);
}

#[test]
fn best_of_all_without_candidates() {
    assert!(best_score_of_all(&[]).is_none());
    assert!(best_score_of_all(&[vec![0x00u8, 0x80], vec![]]).is_none());
}

#[test]
fn best_of_all_keeps_first_on_equal_scores() {
    let line = vec![0x10u8, 0x20, 0x30];
    let lines = vec![line.clone(), line.clone()];
    let best = best_score_of_all(&lines).unwrap();
    assert_eq!(best, best_score_byte_xor(&line).unwrap());
}
