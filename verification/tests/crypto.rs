use ryke::crypto::{derive_child_keys, prf_plus};

fn hex(s: &str) -> Vec<u8> {
    (0..s.len()).step_by(2).map(|i| u8::from_str_radix(&s[i..i + 2], 16).unwrap()).collect()
}

const STREAM: &str = "b9bdc08988b4c2b75aa93e596ac84205fa2ddde1bf7a2572067b00e14b237732\
830509981ad2f94a8c32a47daa2255b660c436347ae756a6edc023477d809590e682f61d9c04b06b";

#[test]
fn prf_plus_has_exact_bytes() {
    assert_eq!(prf_plus(&[0x0b; 20], b"Hi There", 72), hex(STREAM));
    assert_eq!(prf_plus(&[0x0b; 20], b"Hi There", 0), Vec::<u8>::new());
    // A shorter request is a prefix of a longer one.
    for len in [1usize, 31, 32, 33, 64, 65] {
        assert_eq!(prf_plus(&[0x0b; 20], b"Hi There", len), hex(STREAM)[..len]);
    }
}

#[test]
fn prf_plus_fills_its_longest_output() {
    let out = prf_plus(b"key", b"seed", 8160);
    assert_eq!(out.len(), 8160);
    assert_eq!(out[..72], prf_plus(b"key", b"seed", 72)[..]);
}

#[test]
fn child_keys_are_cut_in_order() {
    let keys = derive_child_keys(&[0x0b; 20], b"Hi ", b"There", 20, 16);
    let stream = hex(STREAM);
    assert_eq!(keys.encr_i, stream[..20]);
    assert_eq!(keys.integ_i, stream[20..36]);
    assert_eq!(keys.encr_r, stream[36..56]);
    assert_eq!(keys.integ_r, stream[56..72]);
}
