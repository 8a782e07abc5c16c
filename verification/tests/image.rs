use sigscan::Pattern;

const SIGNATURE: &str = "?? ?? ?? D1 ?? ?? ?? A9 ?? ?? ?? 91 ?? ?? ?? A9 ?? ?? ?? A9 ?? ?? ?? A9 ?? ?? ?? D5 F5 03 03 2A ?? ?? ?? F9 F6 03 02 2A F3 03 01 AA F4 03 00 AA ?? ?? ?? F8 ?? ?? ?? F9 ?? ?? ?? B4 9F 00 08 EB";

const OFFSET: usize = 100932284;

/// A buffer the size of a large binary, with one place that the signature
/// matches.
fn image() -> Vec<u8> {
    let p = Pattern::<65>::try_from_str(SIGNATURE).unwrap();
    let mut bytes = vec![0u8; OFFSET + 4096];
    for j in 0..p.len() {
        bytes[OFFSET + j] = if p.mask()[j] == 0 { 0x5A } else { p.data()[j] };
    }
    bytes
}

#[test]
fn scalar() {
    let pat = Pattern::<65>::from_str(SIGNATURE);
    let sus = image();
    assert_eq!(pat.search(&sus).unwrap(), 100932284);
}

#[test]
fn simd() {
    let pat = Pattern::<65>::from_str(SIGNATURE);
    let sus = image();
    assert_eq!(pat.simd_search(&sus).unwrap(), 100932284);
}

#[test]
fn mt() {
    let pat = Pattern::<65>::from_str(SIGNATURE);
    let sus = image();
    assert_eq!(pat.par_search(&sus).unwrap(), 100932284);
}
