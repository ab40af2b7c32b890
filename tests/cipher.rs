use rc4::{rc4, rc4_g, KeyError, RC4Key};
use std::array;

fn scheduled(key: &[u8]) -> RC4Key {
    let mut k = RC4Key::new();
    assert_eq!(k.init(key), Ok(()));
    k
}

fn is_permutation(t: &[u8; 256]) -> bool {
    let mut seen = [false; 256];
    for &v in t.iter() {
        if seen[v as usize] {
            return false;
        }
        seen[v as usize] = true;
    }
    true
}

#[test]
fn round_trip() {
    let mut a: [u8; 69] = array::from_fn(|i| i.try_into().unwrap());
    let mut k = RC4Key::new();

    assert_eq!(k.init(b"key"), Ok(()));
    rc4(&mut a, &mut k);
    assert_ne!(a, [0u8; 69]);
    assert_ne!(a, array::from_fn(|i| i.try_into().unwrap()));

    assert_eq!(k.init(b"key"), Ok(()));
    rc4(&mut a, &mut k);
    assert_eq!(a, array::from_fn(|i| i.try_into().unwrap()));
}

#[test]
fn new_state_is_zeroed() {
    let k = RC4Key::new();
    assert_eq!(k.state, [0u8; 256]);
    assert_eq!((k.x, k.y), (0, 0));
}

#[test]
fn worked_example_ciphertext() {
    let mut a: [u8; 69] = array::from_fn(|i| i as u8);
    let mut k = scheduled(b"key");
    rc4(&mut a, &mut k);
    assert_eq!(a[..8], [216, 51, 195, 0, 64, 181, 8, 176]);
    assert_eq!(a[66..], [245, 132, 19]);
}

#[test]
fn generator_first_bytes() {
    let mut k = scheduled(b"key");
    let ks: Vec<u8> = (0..8).map(|_| k.next_byte()).collect();
    assert_eq!(ks, vec![216, 50, 193, 3, 68, 176, 14, 183]);
    assert_eq!((k.x, k.y), (8, 243));
}

#[test]
fn schedule_table_start() {
    let k = scheduled(b"key");
    assert_eq!(k.state[..8], [152, 150, 216, 151, 190, 40, 36, 251]);
    assert_eq!((k.x, k.y), (0, 0));
}

#[test]
fn schedule_keeps_slot_zero_of_used_state() {
    let mut k = scheduled(b"Key");
    let mut buf = [0u8; 256];
    rc4(&mut buf, &mut k);
    let before = k.state[0];
    assert_eq!(k.init(b"Key"), Ok(()));
    let mut fresh = RC4Key::new();
    fresh.state[0] = before;
    assert_eq!(fresh.init(b"Key"), Ok(()));
    assert_eq!(k.state, fresh.state);
}

#[test]
fn short_plaintext_vector() {
    let mut s = *b"Plaintext";
    let mut k = scheduled(b"Key");
    rc4(&mut s, &mut k);
    assert_eq!(s, [0xa5, 0xc3, 0x38, 0xf1, 0xba, 0x3e, 0x60, 0x7a, 0xcb]);
}

#[test]
fn round_trip_fresh_states() {
    for key in [&b"k"[..], b"secret", &[7u8; 255][..]] {
        let plain: Vec<u8> = (0..1000u32).map(|i| (i * 7 % 251) as u8).collect();
        let mut buf = plain.clone();
        rc4(&mut buf, &mut scheduled(key));
        assert_ne!(buf, plain);
        rc4(&mut buf, &mut scheduled(key));
        assert_eq!(buf, plain);
    }
}

#[test]
fn round_trip_on_reused_state_can_fail() {
    let mut k = scheduled(b"key");
    let mut buf = [0u8; 256];
    rc4(&mut buf, &mut k);
    assert_eq!(k.init(b"key"), Ok(()));
    rc4(&mut buf, &mut k);
    assert!(buf[..114].iter().all(|&b| b == 0));
    assert_ne!(buf[114], 0);
}

#[test]
fn round_trip_empty_buffer() {
    let mut k = scheduled(b"key");
    let mut buf: [u8; 0] = [];
    rc4(&mut buf, &mut k);
    assert_eq!((k.x, k.y), (0, 0));
}

#[test]
fn determinism() {
    let mut a: Vec<u8> = (0..300u32).map(|i| i as u8).collect();
    let mut b = a.clone();
    rc4(&mut a, &mut scheduled(b"determinism"));
    rc4(&mut b, &mut scheduled(b"determinism"));
    assert_eq!(a, b);
}

#[test]
fn permutation_after_schedule_and_steps() {
    let mut k = scheduled(b"perm");
    assert!(is_permutation(&k.state));
    let mut buf = [0u8; 5000];
    rc4(&mut buf, &mut k);
    assert!(is_permutation(&k.state));
}

#[test]
fn stream_matches_buffer() {
    let src: Vec<u8> = (0..500u32).map(|i| (i * 13) as u8).collect();
    let mut buf = src.clone();
    let mut kb = scheduled(b"stream");
    rc4(&mut buf, &mut kb);
    let mut ks = scheduled(b"stream");
    let streamed: Vec<u8> = src.iter().map(|&b| rc4_g(b, &mut ks)).collect();
    assert_eq!(streamed, buf);
    assert_eq!(kb.state, ks.state);
    assert_eq!((kb.x, kb.y), (ks.x, ks.y));
}

#[test]
fn empty_key_is_refused() {
    let mut k = scheduled(b"key");
    let state = k.state;
    assert_eq!(k.init(&[]), Err(KeyError::InvalidKey));
    assert_eq!(k.state, state);
    assert_eq!((k.x, k.y), (0, 0));
}

#[test]
fn long_key_uses_first_255_bytes() {
    let long: Vec<u8> = (0..300u32).map(|i| (i * 31 + 5) as u8).collect();
    let a = scheduled(&long);
    let b = scheduled(&long[..255]);
    assert_eq!(a.state, b.state);
    let c = scheduled(&long[..254]);
    assert_ne!(a.state, c.state);
}

#[test]
fn zero_generator_byte_leaves_data() {
    let mut one = [1u8];
    rc4(&mut one, &mut scheduled(&[232]));
    assert_eq!(one, [1]);
    let mut three = [1u8, 1, 1];
    rc4(&mut three, &mut scheduled(&[232]));
    assert_eq!(three, [1, 1 ^ 155, 1 ^ 141]);
}

#[test]
fn stream_byte_changes_data() {
    let mut k = scheduled(b"key");
    assert_eq!(rc4_g(0, &mut k), 216);
    assert_eq!(rc4_g(1, &mut k), 1 ^ 50);
}

#[test]
fn round_trip_with_preset_slot_zero() {
    let plain: Vec<u8> = (0..700u32).map(|i| (i * 3) as u8).collect();
    let mut first = RC4Key::new();
    first.state[0] = 77;
    assert_eq!(first.init(b"slot"), Ok(()));
    let mut buf = plain.clone();
    rc4(&mut buf, &mut first);
    let mut second = RC4Key::new();
    second.state[0] = 77;
    assert_eq!(second.init(b"slot"), Ok(()));
    rc4(&mut buf, &mut second);
    assert_eq!(buf, plain);
}
