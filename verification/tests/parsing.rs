use verlet_arena::hex::hex_to_int;

#[test]
fn hex_parses_plain_digits() {
    assert_eq!(hex_to_int("ff00ff"), 0xff00ff);
    assert_eq!(hex_to_int("a"), 10);
    assert_eq!(hex_to_int("10"), 16);
    assert_eq!(hex_to_int("0"), 0);
}

#[test]
fn hex_parses_mixed_case() {
    assert_eq!(hex_to_int("DeadBeef"), 0xDEADBEEF);
    assert_eq!(hex_to_int("ABCDEF"), 0xabcdef);
}

#[test]
fn hex_strips_leading_marks() {
    assert_eq!(hex_to_int("0xff"), 255);
    assert_eq!(hex_to_int("0x0x0xff"), 255);
}

#[test]
fn hex_fills_a_full_word() {
    assert_eq!(hex_to_int("FFFFFFFF"), u32::MAX);
    assert_eq!(hex_to_int("00000000"), 0);
}
