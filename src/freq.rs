//! Reference model of English text: occurrence counts of each printable
//! ASCII character in a reference corpus, letters case-folded to lower case.
use vstd::prelude::*;

verus! {

/// Sum of all reference counts.
pub const REFERENCE_TOTAL: u64 = 2360979;

/// Number of characters that the reference model knows.
pub const ALPHABET_SIZE: u64 = 69;

/// Occurrences of the (lower-case or non-letter) character with code `x` in
/// the reference corpus; zero for characters outside the model.
pub open spec fn ref_count(x: u8) -> nat {
    match x {
        0x20 => 407934, // ' '
        0x21 => 170, // '!'
        0x22 => 5804, // '"'
        0x23 => 425, // '#'
        0x24 => 1333, // '$'
        0x25 => 380, // '%'
        0x26 => 536, // '&'
        0x27 => 5816, // "'"
        0x28 => 5176, // '('
        0x29 => 5307, // ')'
        0x2a => 1493, // '*'
        0x2b => 511, // '+'
        0x2c => 17546, // ','
        0x2d => 32638, // '-'
        0x2e => 35940, // '.'
        0x2f => 3681, // '/'
        0x30 => 13109, // '0'
        0x31 => 10916, // '1'
        0x32 => 7894, // '2'
        0x33 => 4389, // '3'
        0x34 => 3204, // '4'
        0x35 => 3951, // '5'
        0x36 => 2739, // '6'
        0x37 => 2448, // '7'
        0x38 => 2505, // '8'
        0x39 => 2433, // '9'
        0x3a => 10347, // ':'
        0x3b => 2884, // ';'
        0x3c => 2911, // '<'
        0x3d => 540, // '='
        0x3e => 2952, // '>'
        0x3f => 3503, // '?'
        0x40 => 173, // '@'
        0x5b => 205, // '['
        0x5c => 37, // '\\'
        0x5d => 210, // ']'
        0x5e => 8, // '^'
        0x5f => 2755, // '_'
        0x60 => 21, // '`'
        0x61 => 123287 + 7444, // 'a'
        0x62 => 24227 + 5140, // 'b'
        0x63 => 50211 + 9283, // 'c'
        0x64 => 59577 + 7489, // 'd'
        0x65 => 203824 + 6351, // 'e'
        0x66 => 32616 + 3365, // 'f'
        0x67 => 37064 + 4459, // 'g'
        0x68 => 65217 + 5515, // 'h'
        0x69 => 116488 + 7631, // 'i'
        0x6a => 2061 + 4102, // 'j'
        0x6b => 16047 + 1633, // 'k'
        0x6c => 75450 + 4476, // 'l'
        0x6d => 39060 + 8386, // 'm'
        0x6e => 118108 + 4954, // 'n'
        0x6f => 137119 + 4378, // 'o'
        0x70 => 36791 + 6211, // 'p'
        0x71 => 1774 + 751, // 'q'
        0x72 => 101201 + 5986, // 'r'
        0x73 => 103814 + 9512, // 's'
        0x74 => 151376 + 7895, // 't'
        0x75 => 49901 + 1934, // 'u'
        0x76 => 20109 + 2119, // 'v'
        0x77 => 30974 + 6005, // 'w'
        0x78 => 4635 + 815, // 'x'
        0x79 => 26924 + 722, // 'y'
        0x7a => 1417 + 180, // 'z'
        0x7b => 62, // '{'
        0x7c => 16, // '|'
        0x7d => 61, // '}'
        0x7e => 8, // '~'
        _ => 0,
    }
}

/// The character with code `x` belongs to the model.
pub open spec fn in_alphabet(x: u8) -> bool {
    ref_count(x) > 0
}

/// Sum of the reference counts of the codes below `k`.
pub open spec fn ref_sum(k: nat) -> nat
    decreases k,
{
    if k == 0 {
        0
    } else {
        ref_sum((k - 1) as nat) + ref_count((k - 1) as u8)
    }
}

/// Number of codes below `k` that belong to the model.
pub open spec fn alphabet_below(k: nat) -> nat
    decreases k,
{
    if k == 0 {
        0
    } else {
        alphabet_below((k - 1) as nat) + if in_alphabet((k - 1) as u8) {
            1nat
        } else {
            0nat
        }
    }
}

/// Reference count of the character with code `x`.
pub fn reference_count(x: u8) -> (r: u64)
    ensures
        r == ref_count(x),
{
    match x {
        0x20 => 407934, // ' '
        0x21 => 170, // '!'
        0x22 => 5804, // '"'
        0x23 => 425, // '#'
        0x24 => 1333, // '$'
        0x25 => 380, // '%'
        0x26 => 536, // '&'
        0x27 => 5816, // "'"
        0x28 => 5176, // '('
        0x29 => 5307, // ')'
        0x2a => 1493, // '*'
        0x2b => 511, // '+'
        0x2c => 17546, // ','
        0x2d => 32638, // '-'
        0x2e => 35940, // '.'
        0x2f => 3681, // '/'
        0x30 => 13109, // '0'
        0x31 => 10916, // '1'
        0x32 => 7894, // '2'
        0x33 => 4389, // '3'
        0x34 => 3204, // '4'
        0x35 => 3951, // '5'
        0x36 => 2739, // '6'
        0x37 => 2448, // '7'
        0x38 => 2505, // '8'
        0x39 => 2433, // '9'
        0x3a => 10347, // ':'
        0x3b => 2884, // ';'
        0x3c => 2911, // '<'
        0x3d => 540, // '='
        0x3e => 2952, // '>'
        0x3f => 3503, // '?'
        0x40 => 173, // '@'
        0x5b => 205, // '['
        0x5c => 37, // '\\'
        0x5d => 210, // ']'
        0x5e => 8, // '^'
        0x5f => 2755, // '_'
        0x60 => 21, // '`'
        0x61 => 123287 + 7444, // 'a'
        0x62 => 24227 + 5140, // 'b'
        0x63 => 50211 + 9283, // 'c'
        0x64 => 59577 + 7489, // 'd'
        0x65 => 203824 + 6351, // 'e'
        0x66 => 32616 + 3365, // 'f'
        0x67 => 37064 + 4459, // 'g'
        0x68 => 65217 + 5515, // 'h'
        0x69 => 116488 + 7631, // 'i'
        0x6a => 2061 + 4102, // 'j'
        0x6b => 16047 + 1633, // 'k'
        0x6c => 75450 + 4476, // 'l'
        0x6d => 39060 + 8386, // 'm'
        0x6e => 118108 + 4954, // 'n'
        0x6f => 137119 + 4378, // 'o'
        0x70 => 36791 + 6211, // 'p'
        0x71 => 1774 + 751, // 'q'
        0x72 => 101201 + 5986, // 'r'
        0x73 => 103814 + 9512, // 's'
        0x74 => 151376 + 7895, // 't'
        0x75 => 49901 + 1934, // 'u'
        0x76 => 20109 + 2119, // 'v'
        0x77 => 30974 + 6005, // 'w'
        0x78 => 4635 + 815, // 'x'
        0x79 => 26924 + 722, // 'y'
        0x7a => 1417 + 180, // 'z'
        0x7b => 62, // '{'
        0x7c => 16, // '|'
        0x7d => 61, // '}'
        0x7e => 8, // '~'
        _ => 0,
    }
}

/// No count exceeds the largest one, and no code of 128 or above has one.
pub proof fn lemma_ref_count_bounds(x: u8)
    ensures
        ref_count(x) <= 407934,
        x >= 128 ==> ref_count(x) == 0,
{
}

/// The reference counts add up to `REFERENCE_TOTAL`, so the relative
/// frequencies `ref_count(x) / REFERENCE_TOTAL` add up to one.
pub proof fn lemma_ref_sum()
    ensures
        ref_sum(128) == REFERENCE_TOTAL,
{
    assert(ref_sum(0) == 0);
    assert(ref_sum(1) == 0);
    assert(ref_sum(2) == 0);
    assert(ref_sum(3) == 0);
    assert(ref_sum(4) == 0);
    assert(ref_sum(5) == 0);
    assert(ref_sum(6) == 0);
    assert(ref_sum(7) == 0);
    assert(ref_sum(8) == 0);
    assert(ref_sum(9) == 0);
    assert(ref_sum(10) == 0);
    assert(ref_sum(11) == 0);
    assert(ref_sum(12) == 0);
    assert(ref_sum(13) == 0);
    assert(ref_sum(14) == 0);
    assert(ref_sum(15) == 0);
    assert(ref_sum(16) == 0);
    assert(ref_sum(17) == 0);
    assert(ref_sum(18) == 0);
    assert(ref_sum(19) == 0);
    assert(ref_sum(20) == 0);
    assert(ref_sum(21) == 0);
    assert(ref_sum(22) == 0);
    assert(ref_sum(23) == 0);
    assert(ref_sum(24) == 0);
    assert(ref_sum(25) == 0);
    assert(ref_sum(26) == 0);
    assert(ref_sum(27) == 0);
    assert(ref_sum(28) == 0);
    assert(ref_sum(29) == 0);
    assert(ref_sum(30) == 0);
    assert(ref_sum(31) == 0);
    assert(ref_sum(32) == 0);
    assert(ref_sum(33) == 407934);
    assert(ref_sum(34) == 408104);
    assert(ref_sum(35) == 413908);
    assert(ref_sum(36) == 414333);
    assert(ref_sum(37) == 415666);
    assert(ref_sum(38) == 416046);
    assert(ref_sum(39) == 416582);
    assert(ref_sum(40) == 422398);
    assert(ref_sum(41) == 427574);
    assert(ref_sum(42) == 432881);
    assert(ref_sum(43) == 434374);
    assert(ref_sum(44) == 434885);
    assert(ref_sum(45) == 452431);
    assert(ref_sum(46) == 485069);
    assert(ref_sum(47) == 521009);
    assert(ref_sum(48) == 524690);
    assert(ref_sum(49) == 537799);
    assert(ref_sum(50) == 548715);
    assert(ref_sum(51) == 556609);
    assert(ref_sum(52) == 560998);
    assert(ref_sum(53) == 564202);
    assert(ref_sum(54) == 568153);
    assert(ref_sum(55) == 570892);
    assert(ref_sum(56) == 573340);
    assert(ref_sum(57) == 575845);
    assert(ref_sum(58) == 578278);
    assert(ref_sum(59) == 588625);
    assert(ref_sum(60) == 591509);
    assert(ref_sum(61) == 594420);
    assert(ref_sum(62) == 594960);
    assert(ref_sum(63) == 597912);
    assert(ref_sum(64) == 601415);
    assert(ref_sum(65) == 601588);
    assert(ref_sum(66) == 601588);
    assert(ref_sum(67) == 601588);
    assert(ref_sum(68) == 601588);
    assert(ref_sum(69) == 601588);
    assert(ref_sum(70) == 601588);
    assert(ref_sum(71) == 601588);
    assert(ref_sum(72) == 601588);
    assert(ref_sum(73) == 601588);
    assert(ref_sum(74) == 601588);
    assert(ref_sum(75) == 601588);
    assert(ref_sum(76) == 601588);
    assert(ref_sum(77) == 601588);
    assert(ref_sum(78) == 601588);
    assert(ref_sum(79) == 601588);
    assert(ref_sum(80) == 601588);
    assert(ref_sum(81) == 601588);
    assert(ref_sum(82) == 601588);
    assert(ref_sum(83) == 601588);
    assert(ref_sum(84) == 601588);
    assert(ref_sum(85) == 601588);
    assert(ref_sum(86) == 601588);
    assert(ref_sum(87) == 601588);
    assert(ref_sum(88) == 601588);
    assert(ref_sum(89) == 601588);
    assert(ref_sum(90) == 601588);
    assert(ref_sum(91) == 601588);
    assert(ref_sum(92) == 601793);
    assert(ref_sum(93) == 601830);
    assert(ref_sum(94) == 602040);
    assert(ref_sum(95) == 602048);
    assert(ref_sum(96) == 604803);
    assert(ref_sum(97) == 604824);
    assert(ref_sum(98) == 735555);
    assert(ref_sum(99) == 764922);
    assert(ref_sum(100) == 824416);
    assert(ref_sum(101) == 891482);
    assert(ref_sum(102) == 1101657);
    assert(ref_sum(103) == 1137638);
    assert(ref_sum(104) == 1179161);
    assert(ref_sum(105) == 1249893);
    assert(ref_sum(106) == 1374012);
    assert(ref_sum(107) == 1380175);
    assert(ref_sum(108) == 1397855);
    assert(ref_sum(109) == 1477781);
    assert(ref_sum(110) == 1525227);
    assert(ref_sum(111) == 1648289);
    assert(ref_sum(112) == 1789786);
    assert(ref_sum(113) == 1832788);
    assert(ref_sum(114) == 1835313);
    assert(ref_sum(115) == 1942500);
    assert(ref_sum(116) == 2055826);
    assert(ref_sum(117) == 2215097);
    assert(ref_sum(118) == 2266932);
    assert(ref_sum(119) == 2289160);
    assert(ref_sum(120) == 2326139);
    assert(ref_sum(121) == 2331589);
    assert(ref_sum(122) == 2359235);
    assert(ref_sum(123) == 2360832);
    assert(ref_sum(124) == 2360894);
    assert(ref_sum(125) == 2360910);
    assert(ref_sum(126) == 2360971);
    assert(ref_sum(127) == 2360979);
    assert(ref_sum(128) == 2360979);
}

/// `ALPHABET_SIZE` codes have a reference count.
pub proof fn lemma_alphabet_size()
    ensures
        alphabet_below(128) == ALPHABET_SIZE,
{
    assert(alphabet_below(0) == 0);
    assert(alphabet_below(1) == 0);
    assert(alphabet_below(2) == 0);
    assert(alphabet_below(3) == 0);
    assert(alphabet_below(4) == 0);
    assert(alphabet_below(5) == 0);
    assert(alphabet_below(6) == 0);
    assert(alphabet_below(7) == 0);
    assert(alphabet_below(8) == 0);
    assert(alphabet_below(9) == 0);
    assert(alphabet_below(10) == 0);
    assert(alphabet_below(11) == 0);
    assert(alphabet_below(12) == 0);
    assert(alphabet_below(13) == 0);
    assert(alphabet_below(14) == 0);
    assert(alphabet_below(15) == 0);
    assert(alphabet_below(16) == 0);
    assert(alphabet_below(17) == 0);
    assert(alphabet_below(18) == 0);
    assert(alphabet_below(19) == 0);
    assert(alphabet_below(20) == 0);
    assert(alphabet_below(21) == 0);
    assert(alphabet_below(22) == 0);
    assert(alphabet_below(23) == 0);
    assert(alphabet_below(24) == 0);
    assert(alphabet_below(25) == 0);
    assert(alphabet_below(26) == 0);
    assert(alphabet_below(27) == 0);
    assert(alphabet_below(28) == 0);
    assert(alphabet_below(29) == 0);
    assert(alphabet_below(30) == 0);
    assert(alphabet_below(31) == 0);
    assert(alphabet_below(32) == 0);
    assert(alphabet_below(33) == 1);
    assert(alphabet_below(34) == 2);
    assert(alphabet_below(35) == 3);
    assert(alphabet_below(36) == 4);
    assert(alphabet_below(37) == 5);
    assert(alphabet_below(38) == 6);
    assert(alphabet_below(39) == 7);
    assert(alphabet_below(40) == 8);
    assert(alphabet_below(41) == 9);
    assert(alphabet_below(42) == 10);
    assert(alphabet_below(43) == 11);
    assert(alphabet_below(44) == 12);
    assert(alphabet_below(45) == 13);
    assert(alphabet_below(46) == 14);
    assert(alphabet_below(47) == 15);
    assert(alphabet_below(48) == 16);
    assert(alphabet_below(49) == 17);
    assert(alphabet_below(50) == 18);
    assert(alphabet_below(51) == 19);
    assert(alphabet_below(52) == 20);
    assert(alphabet_below(53) == 21);
    assert(alphabet_below(54) == 22);
    assert(alphabet_below(55) == 23);
    assert(alphabet_below(56) == 24);
    assert(alphabet_below(57) == 25);
    assert(alphabet_below(58) == 26);
    assert(alphabet_below(59) == 27);
    assert(alphabet_below(60) == 28);
    assert(alphabet_below(61) == 29);
    assert(alphabet_below(62) == 30);
    assert(alphabet_below(63) == 31);
    assert(alphabet_below(64) == 32);
    assert(alphabet_below(65) == 33);
    assert(alphabet_below(66) == 33);
    assert(alphabet_below(67) == 33);
    assert(alphabet_below(68) == 33);
    assert(alphabet_below(69) == 33);
    assert(alphabet_below(70) == 33);
    assert(alphabet_below(71) == 33);
    assert(alphabet_below(72) == 33);
    assert(alphabet_below(73) == 33);
    assert(alphabet_below(74) == 33);
    assert(alphabet_below(75) == 33);
    assert(alphabet_below(76) == 33);
    assert(alphabet_below(77) == 33);
    assert(alphabet_below(78) == 33);
    assert(alphabet_below(79) == 33);
    assert(alphabet_below(80) == 33);
    assert(alphabet_below(81) == 33);
    assert(alphabet_below(82) == 33);
    assert(alphabet_below(83) == 33);
    assert(alphabet_below(84) == 33);
    assert(alphabet_below(85) == 33);
    assert(alphabet_below(86) == 33);
    assert(alphabet_below(87) == 33);
    assert(alphabet_below(88) == 33);
    assert(alphabet_below(89) == 33);
    assert(alphabet_below(90) == 33);
    assert(alphabet_below(91) == 33);
    assert(alphabet_below(92) == 34);
    assert(alphabet_below(93) == 35);
    assert(alphabet_below(94) == 36);
    assert(alphabet_below(95) == 37);
    assert(alphabet_below(96) == 38);
    assert(alphabet_below(97) == 39);
    assert(alphabet_below(98) == 40);
    assert(alphabet_below(99) == 41);
    assert(alphabet_below(100) == 42);
    assert(alphabet_below(101) == 43);
    assert(alphabet_below(102) == 44);
    assert(alphabet_below(103) == 45);
    assert(alphabet_below(104) == 46);
    assert(alphabet_below(105) == 47);
    assert(alphabet_below(106) == 48);
    assert(alphabet_below(107) == 49);
    assert(alphabet_below(108) == 50);
    assert(alphabet_below(109) == 51);
    assert(alphabet_below(110) == 52);
    assert(alphabet_below(111) == 53);
    assert(alphabet_below(112) == 54);
    assert(alphabet_below(113) == 55);
    assert(alphabet_below(114) == 56);
    assert(alphabet_below(115) == 57);
    assert(alphabet_below(116) == 58);
    assert(alphabet_below(117) == 59);
    assert(alphabet_below(118) == 60);
    assert(alphabet_below(119) == 61);
    assert(alphabet_below(120) == 62);
    assert(alphabet_below(121) == 63);
    assert(alphabet_below(122) == 64);
    assert(alphabet_below(123) == 65);
    assert(alphabet_below(124) == 66);
    assert(alphabet_below(125) == 67);
    assert(alphabet_below(126) == 68);
    assert(alphabet_below(127) == 69);
    assert(alphabet_below(128) == 69);
}

} // verus!
