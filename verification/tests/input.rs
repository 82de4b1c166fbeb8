use nraps::get_index;
use nraps::parse_unsigned;
use nraps::scan_ascii_chunk;
use nraps::skip_line;

#[test]
fn key_slots() {
    assert_eq!(get_index(b'l', b'k', 5), 0); // analk
    assert_eq!(get_index(b'e', b's', 8), 1); // mattypes
    assert_eq!(get_index(b'p', b's', 12), 2); // energygroups
    assert_eq!(get_index(b'n', b's', 11), 3); // generations
    assert_eq!(get_index(b'e', b's', 9), 4); // histories
    assert_eq!(get_index(b'i', b'p', 4), 5); // skip
    assert_eq!(get_index(b's', b's', 6), 6); // numass
    assert_eq!(get_index(b'd', b's', 7), 7); // numrods
    assert_eq!(get_index(b'i', b'a', 6), 8); // roddia
    assert_eq!(get_index(b'c', b'h', 8), 9); // rodpitch
    assert_eq!(get_index(b'f', b'r', 4), 10); // mpfr
    assert_eq!(get_index(b'w', b'r', 4), 11); // mpwr
    assert_eq!(get_index(b'd', b'l', 6), 12); // boundl
    assert_eq!(get_index(b'd', b'r', 6), 13); // boundr
    assert_eq!(get_index(b'g', b't', 4), 14); // sigt
    assert_eq!(get_index(b'g', b's', 4), 15); // sigs
    assert_eq!(get_index(b'm', b'u', 2), 16); // mu
    assert_eq!(get_index(b'g', b'a', 4), 17); // siga
    assert_eq!(get_index(b'g', b'f', 4), 18); // sigf
    assert_eq!(get_index(b'u', b't', 3), 19); // nut
    assert_eq!(get_index(b'i', b't', 4), 20); // chit
    assert_eq!(get_index(b'a', b't', 4), 21); // scat
    assert_eq!(get_index(b'i', b'd', 5), 22); // matid
    assert_eq!(get_index(b'o', b'n', 8), 23); // solution
    assert_eq!(get_index(b'e', b'r', 6), 24); // solver
    assert_eq!(get_index(b'z', b'z', 4), 25); // unknown
    assert_eq!(get_index(b'e', b's', 7), 25); // known suffix, wrong length
}

#[test]
fn skip_line_positions() {
    let buffer = b"abc\ndef\n";
    assert_eq!(skip_line(0, buffer.len(), buffer), 4);
    assert_eq!(skip_line(4, buffer.len(), buffer), 8);
    let tailless = b"abc";
    assert_eq!(skip_line(0, tailless.len(), tailless), 4);
}

#[test]
fn scan_collects_assignments() {
    let text = b"# header comment\n\
                 analk = 1\n\
                 mattypes = 4\n\
                 sigt = 0.2 0.3\n\
                 analk = 7\n";
    let slots = scan_ascii_chunk(text);
    assert_eq!(slots.len(), 26);
    assert_eq!(slots[0], b" 1 7".to_vec());
    assert_eq!(slots[1], b" 4".to_vec());
    assert_eq!(slots[14], b" 0.2 0.3".to_vec());
    assert_eq!(slots[2], Vec::<u8>::new());
}

#[test]
fn scan_uppercase_keys_and_unknowns() {
    let text = b"ANALK = 3\nmystery = 9\n";
    let slots = scan_ascii_chunk(text);
    assert_eq!(slots[0], b" 3".to_vec());
    assert_eq!(slots[25], b" 9".to_vec());
}

#[test]
fn unsigned_decimal_values() {
    assert_eq!(parse_unsigned(b"0"), Some(0));
    assert_eq!(parse_unsigned(b"25"), Some(25));
    assert_eq!(parse_unsigned(b"10000"), Some(10000));
    assert_eq!(parse_unsigned(b"18446744073709551615"), Some(u64::MAX));
}

#[test]
fn unsigned_decimal_rejects() {
    assert_eq!(parse_unsigned(b""), None);
    assert_eq!(parse_unsigned(b"12a"), None);
    assert_eq!(parse_unsigned(b"-3"), None);
    assert_eq!(parse_unsigned(b" 7"), None);
    assert_eq!(parse_unsigned(b"18446744073709551616"), None);
}

#[test]
fn scan_then_parse_counters() {
    // Each slot holds " value"; the leading separator space is dropped
    // before the number is read.
    let slots = scan_ascii_chunk(b"generations = 10\nhistories = 10000\n");
    assert_eq!(parse_unsigned(&slots[3][1..]), Some(10));
    assert_eq!(parse_unsigned(&slots[4][1..]), Some(10000));
}

#[test]
fn scan_empty_and_comment_only() {
    let slots = scan_ascii_chunk(b"");
    assert_eq!(slots.len(), 26);
    assert!(slots.iter().all(|s| s.is_empty()));
    let slots = scan_ascii_chunk(b"# nothing here\n# and more\n");
    assert!(slots.iter().all(|s| s.is_empty()));
}
