use sigscan::pattern::{EXACT, WILDCARD};
use sigscan::signature::{hex_digit, CompileError};
use sigscan::{get_pattern_size, Pattern};

fn render<const N: usize>(p: &Pattern<N>) -> String {
    let bytes = &p.data()[..p.len()];
    let tokens: Vec<String> = bytes.iter().map(|b| format!("{:02X}", b)).collect();
    tokens.join(" ")
}

fn malformed<const N: usize>(sig: &str) -> bool {
    matches!(Pattern::<N>::try_from_str(sig), Err(CompileError::MalformedSignature))
}

#[test]
fn compiles_mixed_signature() {
    let p = Pattern::<5>::try_from_str("FF D8 ?? 03").unwrap();
    assert_eq!(p.len(), 4);
    assert_eq!(&p.data()[..4], &[0xFF, 0xD8, 0x00, 0x03]);
    assert_eq!(&p.mask()[..4], &[EXACT, EXACT, WILDCARD, EXACT]);
    assert!(!p.has_no_wildcards());
    assert_eq!(p.search(&[0x00, 0xFF, 0xD8, 0x77, 0x03, 0x00]), Some(1));
    assert_eq!(p.simd_search(&[0x00, 0xFF, 0xD8, 0x77, 0x03, 0x00]), Some(1));
    assert_eq!(p.par_search(&[0x00, 0xFF, 0xD8, 0x77, 0x03, 0x00]), Some(1));
}

#[test]
fn capacity_two_is_too_small_for_three_tokens() {
    assert_eq!(get_pattern_size("FF ?? 00"), 3);
    assert_eq!(Pattern::<2>::try_from_str("FF ?? 00").unwrap_err(), CompileError::Capacity);
}

#[test]
fn capacity_must_exceed_the_group_count() {
    assert_eq!(Pattern::<3>::try_from_str("FF ?? 00").unwrap_err(), CompileError::Capacity);
    let p = Pattern::<4>::try_from_str("FF ?? 00").unwrap();
    assert_eq!(p.len(), 3);
    let roomy = Pattern::<64>::try_from_str("FF ?? 00").unwrap();
    assert_eq!(roomy.len(), 3);
    assert_eq!(&roomy.data()[..3], &p.data()[..3]);
    assert_eq!(&roomy.mask()[..3], &p.mask()[..3]);
}

#[test]
fn capacity_is_checked_before_the_grammar() {
    assert_eq!(Pattern::<1>::try_from_str("zz").unwrap_err(), CompileError::Capacity);
    assert_eq!(Pattern::<2>::try_from_str("zz").unwrap_err(), CompileError::MalformedSignature);
    assert_eq!(Pattern::<0>::try_from_str("").unwrap_err(), CompileError::Capacity);
    assert_eq!(Pattern::<3>::try_from_str("F F F").unwrap_err(), CompileError::Capacity);
    assert_eq!(Pattern::<4>::try_from_str("F F F").unwrap_err(), CompileError::MalformedSignature);
}

#[test]
fn group_count_of_signatures() {
    assert_eq!(get_pattern_size(""), 1);
    assert_eq!(get_pattern_size("FF"), 1);
    assert_eq!(get_pattern_size("FF D8"), 2);
    assert_eq!(get_pattern_size("FF D8 ?? 03"), 4);
    assert_eq!(get_pattern_size("FF   D8"), 2);
    assert_eq!(get_pattern_size(" FF"), 2);
    assert_eq!(get_pattern_size("FF "), 2);
    assert_eq!(get_pattern_size(" "), 2);
    assert_eq!(get_pattern_size("   "), 2);
    assert_eq!(get_pattern_size(" a b "), 4);
    assert_eq!(get_pattern_size("a\tb"), 1);
}

#[test]
fn group_count_is_the_length_of_what_compiles() {
    for sig in ["00", "?? 01", "0a 0B ?? ff", "?? ?? ?? ??", "12 34 56 78 9A BC DE F0"] {
        let p = Pattern::<16>::try_from_str(sig).unwrap();
        assert_eq!(p.len(), get_pattern_size(sig));
    }
}

#[test]
fn hex_digits_of_either_case() {
    let p = Pattern::<5>::try_from_str("0a Ff aB 9c").unwrap();
    assert_eq!(&p.data()[..4], &[0x0A, 0xFF, 0xAB, 0x9C]);
    assert!(p.has_no_wildcards());
    let q = Pattern::<5>::try_from_str("0A FF AB 9C").unwrap();
    assert_eq!(&q.data()[..4], &p.data()[..4]);
    assert_eq!(&q.mask()[..4], &[EXACT; 4]);
}

#[test]
fn every_hex_digit_decodes() {
    let digits = b"0123456789ABCDEF";
    for (value, digit) in digits.iter().enumerate() {
        assert_eq!(hex_digit(*digit), Some(value as u8));
        assert_eq!(hex_digit(digit.to_ascii_lowercase()), Some(value as u8));
    }
    for other in [b' ', b'?', b'G', b'g', b'/', b':', b'@', b'`', b'+', b'-', 0u8, 0x80, 0xFF] {
        assert_eq!(hex_digit(other), None);
    }
}

#[test]
fn every_byte_value_compiles() {
    for hi in 0..16u8 {
        for lo in 0..16u8 {
            let sig = format!("{:X}{:x}", hi, lo);
            let p = Pattern::<2>::try_from_str(&sig).unwrap();
            assert_eq!(p.len(), 1);
            assert_eq!(p.data()[0], hi * 16 + lo);
            assert_eq!(p.mask()[0], EXACT);
        }
    }
}

#[test]
fn single_tokens() {
    let byte = Pattern::<2>::try_from_str("7f").unwrap();
    assert_eq!((byte.len(), byte.data()[0], byte.mask()[0]), (1, 0x7F, EXACT));
    assert!(byte.has_no_wildcards());
    let wild = Pattern::<2>::try_from_str("??").unwrap();
    assert_eq!((wild.len(), wild.data()[0], wild.mask()[0]), (1, 0x00, WILDCARD));
    assert!(!wild.has_no_wildcards());
}

#[test]
fn wildcard_may_stand_anywhere() {
    let first = Pattern::<4>::try_from_str("?? 01 02").unwrap();
    assert_eq!(&first.mask()[..3], &[WILDCARD, EXACT, EXACT]);
    assert_eq!(&first.data()[..3], &[0, 1, 2]);
    let last = Pattern::<4>::try_from_str("01 02 ??").unwrap();
    assert_eq!(&last.mask()[..3], &[EXACT, EXACT, WILDCARD]);
    assert_eq!(&last.data()[..3], &[1, 2, 0]);
    let all = Pattern::<4>::try_from_str("?? ?? ??").unwrap();
    assert_eq!(&all.mask()[..3], &[WILDCARD; 3]);
    assert_eq!(&all.data()[..3], &[0; 3]);
}

#[test]
fn empty_signature_is_malformed() {
    assert!(malformed::<2>(""));
}

#[test]
fn dangling_digit_is_malformed() {
    assert!(malformed::<8>("F"));
    assert!(malformed::<8>("FF D"));
    assert!(malformed::<8>("FF D8 ?? 0"));
    assert!(malformed::<8>("F D8"));
}

#[test]
fn overlong_token_is_malformed() {
    assert!(malformed::<8>("FFF"));
    assert!(malformed::<8>("FF D80"));
    assert!(malformed::<8>("FFD8"));
    assert!(malformed::<8>("???"));
    assert!(malformed::<8>("????"));
    assert!(malformed::<8>("??FF"));
}

#[test]
fn half_wildcard_is_malformed() {
    assert!(malformed::<8>("?"));
    assert!(malformed::<8>("FF ?"));
    assert!(malformed::<8>("? FF"));
    assert!(malformed::<8>("?F"));
    assert!(malformed::<8>("F?"));
    assert!(malformed::<8>("FF ?0 01"));
}

#[test]
fn stray_space_is_malformed() {
    assert!(malformed::<8>(" "));
    assert!(malformed::<8>(" FF"));
    assert!(malformed::<8>("FF "));
    assert!(malformed::<8>("?? "));
    assert!(malformed::<8>("FF  D8"));
    assert!(malformed::<8>("??  D8"));
}

#[test]
fn foreign_character_is_malformed() {
    assert!(malformed::<8>("GG"));
    assert!(malformed::<8>("0x"));
    assert!(malformed::<8>("+F"));
    assert!(malformed::<8>("-1"));
    assert!(malformed::<8>("FF\tD8"));
    assert!(malformed::<8>("FF,D8"));
    assert!(malformed::<8>("F\u{0}"));
    assert!(malformed::<8>("\u{e9}"));
    assert!(malformed::<8>("FF \u{ff26}\u{ff26}"));
}

#[test]
fn from_str_gives_what_try_from_str_gives() {
    let sig = "DE AD ?? EF";
    let p = Pattern::<5>::from_str(sig);
    let q = Pattern::<5>::try_from_str(sig).unwrap();
    assert_eq!(p.len(), q.len());
    assert_eq!(&p.data()[..4], &q.data()[..4]);
    assert_eq!(&p.mask()[..4], &q.mask()[..4]);
    assert_eq!(p.has_no_wildcards(), q.has_no_wildcards());
}

#[test]
fn compiling_twice_gives_the_same_pattern() {
    let sig = "48 8B ?? ?? 05 e8";
    let p = Pattern::<7>::try_from_str(sig).unwrap();
    let q = Pattern::<7>::try_from_str(sig).unwrap();
    assert_eq!(p.len(), q.len());
    assert_eq!(p.data(), q.data());
    assert_eq!(p.mask(), q.mask());
}

#[test]
fn rendering_gives_the_signature_back() {
    for sig in ["00", "FF D8 00 03", "12 34 56 78 9A BC DE F0", "0F F0"] {
        let p = Pattern::<9>::try_from_str(sig).unwrap();
        assert_eq!(render(&p), sig);
    }
}

#[test]
fn rendering_gives_the_signature_back_in_upper_case() {
    let p = Pattern::<5>::try_from_str("de Ad bE ef").unwrap();
    assert_eq!(render(&p), "DE AD BE EF");
}
