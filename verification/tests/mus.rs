use doomfront::mus::is_mus;

#[test]
fn magic_is_recognised() {
    assert!(is_mus(&[0x4D, 0x55, 0x53, 0x1A]));
    assert!(is_mus(b"MUS\x1A and the rest of a header"));
}

#[test]
fn short_or_wrong_input_is_refused() {
    assert!(!is_mus(&[]));
    assert!(!is_mus(b"MUS"));
    assert!(!is_mus(b"MUS\x1B"));
    assert!(!is_mus(b"MThd"));
    assert!(!is_mus(b"mus\x1A"));
}
