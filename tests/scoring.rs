use xorcrack::score::{calc_letter_freqs, score_text};

#[test]
fn test_tally() {
    let input = "aaaabbcd";
    let f = calc_letter_freqs(input).unwrap();
    assert_eq!(f.total, 8);
    for (ch, freq) in [('a', 0.5), ('b', 0.25), ('c', 0.125), ('d', 0.125)] {
        assert_eq!(f.counts[ch as usize] as f64 / f.total as f64, freq);
    }
    let others: u64 = f
        .counts
        .iter()
        .enumerate()
        .filter(|(x, _)| !"abcd".contains(*x as u8 as char))
        .map(|(_, n)| *n)
        .sum();
    assert_eq!(others, 0);
}

#[test]
fn tally_folds_case_and_skips_unsupported() {
    let f = calc_letter_freqs("AaB\n\u{e9}").unwrap();
    assert_eq!(f.total, 3);
    assert_eq!(f.counts['a' as usize], 2);
    assert_eq!(f.counts['b' as usize], 1);
    assert_eq!(f.counts['A' as usize], 0);
    assert!(calc_letter_freqs("\n\t\u{e9}").is_none());
    assert!(calc_letter_freqs("").is_none());
}

#[test]
fn score_exact_values() {
    let s = score_text(" ").unwrap();
    assert_eq!((s.num, s.den), (4012413836056, 384621306852429));
    let s = score_text("aaaabbcd").unwrap();
    assert_eq!((s.num, s.den), (119203584831718, 24615763638555456));
    let s = score_text("Hello, World!").unwrap();
    assert_eq!((s.num, s.den), (90219394500970, 65001000858060501));
    assert!(((s.num as f64 / s.den as f64) - 0.0013879693129337767).abs() < 1e-15);
}

#[test]
fn score_of_text_without_supported_characters() {
    assert!(score_text("").is_none());
    assert!(score_text("\n\r\u{263a}").is_none());
}

#[test]
fn space_scores_better_than_rarest() {
    let best = score_text("     ").unwrap();
    for rare in ["^^^", "~", "^^^^^^^^"] {
        let worse = score_text(rare).unwrap();
        assert!(best.less_than(&worse));
        assert!(!worse.less_than(&best));
    }
}
