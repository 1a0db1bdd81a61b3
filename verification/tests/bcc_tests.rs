use x328_proto::bcc;

#[test]
fn bcc_known_values() {
    assert_eq!(bcc(b"1234+56\x03"), 0x2f);
    assert_eq!(bcc(b"123412345\x03"), 0x36);
}

#[test]
fn bcc_is_deterministic_and_printable() {
    let samples: [&[u8]; 4] = [b"", b"0020+56\x03", b"1234-54321\x03", b"9999+0\x03"];
    for s in samples {
        assert_eq!(bcc(s), bcc(s));
        let c = bcc(s);
        assert!((0x20..=0x7f).contains(&c));
    }
}

#[test]
fn bcc_clamps_low_results() {
    // the XOR fold of an empty span is 0, lifted into the printable band
    assert_eq!(bcc(b""), 0x20);
    // a span folding to a control character is lifted by 0x20
    assert_eq!(bcc(&[0x03]), 0x23);
    assert_eq!(bcc(&[0x41, 0x41]), 0x20);
}
