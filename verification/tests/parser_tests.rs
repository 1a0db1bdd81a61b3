use x328_proto::bcc;
use x328_proto::buffer::Buffer;
use x328_proto::parser::{parse_addr, parse_command, parse_read_response, parse_write_response};
use x328_proto::parser::{AddrParse, CommandToken, ResponseToken};
use x328_proto::types::{addr, param, value, ValueFormat};
use x328_proto::{Value, ACK, ENQ, EOT, ETX, NAK, STX};

#[test]
fn test_parse_command() {
    let mut buf = Buffer::new();
    buf.write(b"0");
    assert_eq!(parse_command(buf.as_ref()), (1, CommandToken::NeedData));

    assert_eq!(parse_command(b"\x15"), (1, CommandToken::ReadAgain));
    assert_eq!(parse_command(b"\x08"), (1, CommandToken::ReadPrevious));
    assert_eq!(parse_command(b"\x06"), (1, CommandToken::ReadNext));
}

#[test]
fn nom_parser_test_address() {
    assert_eq!(parse_addr(b"11223", 0), AddrParse::Done { address: addr(12) });
    assert_eq!(parse_addr(b"1132", 0), AddrParse::Error);
    assert_eq!(parse_addr(b"aa22", 0), AddrParse::Error);
    assert_eq!(parse_addr(b"122", 0), AddrParse::Incomplete);
}

#[test]
fn test_write_command() {
    let mut cmd = Vec::<u8>::new();
    let address = addr(10);
    let parameter = param(1234);
    let val: Value = 12345_u16.into();

    cmd.push(EOT);
    cmd.extend_from_slice(&address.to_bytes());
    cmd.push(STX);

    assert_eq!(parse_command(&cmd), (0, CommandToken::NeedData));

    cmd.extend_from_slice(b"123412345\x03");
    // missing bcc
    assert_eq!(parse_command(&cmd), (0, CommandToken::NeedData));

    let correct_bcc = bcc(&cmd.as_slice()[6..]);
    cmd.push(correct_bcc);
    assert_eq!(
        parse_command(&cmd),
        (cmd.len(), CommandToken::WriteParameter(address, parameter, val))
    );
    let x = cmd.len() - 1;
    cmd[x] = correct_bcc + 1; // invalid BCC
    assert_eq!(parse_command(&cmd), (cmd.len(), CommandToken::InvalidPayload(address)));

    cmd[x] = correct_bcc; // valid BCC
    let full_len = cmd.len();
    cmd.extend_from_slice(b"asd");
    assert_eq!(
        parse_command(&cmd),
        (full_len, CommandToken::WriteParameter(address, parameter, val))
    );
}

#[test]
fn read_command() {
    let mut buf = vec![EOT];
    buf.extend_from_slice(b"1199"); // address
    buf.extend_from_slice(b"0010"); // parameter
    let enq_pos = buf.len();
    buf.push(ENQ);

    // valid read command
    match parse_command(&buf) {
        (10, CommandToken::ReadParameter(a, p)) => {
            assert_eq!(a, addr(19));
            assert_eq!(p, param(10));
        }
        tok => panic!("Invalid token {:?}", tok),
    }

    // valid command, short read
    for len in 0..enq_pos {
        assert_eq!(parse_command(&buf[..len]), (0, CommandToken::NeedData));
    }

    // corrupted parameter or ENQ byte
    for n in 5..=enq_pos {
        let old = buf[n];
        buf[n] = b'A';
        match parse_command(&buf) {
            (consumed, CommandToken::InvalidPayload(a)) => {
                assert_eq!(a, addr(19));
                assert_eq!(consumed, enq_pos + 1);
            }
            tok => panic!("Invalid token {:?}", tok),
        }
        buf[n] = old;
    }

    // corrupted EOT
    buf[0] += 1;
    match parse_command(&buf) {
        (10, CommandToken::NeedData) => {}
        tok => panic!("Invalid token {:?}", tok),
    }
    buf[0] -= 1;
    // corrupted address
    buf[1] += 1;
    match parse_command(&buf) {
        (10, CommandToken::NeedData) => {}
        tok => panic!("Invalid token {:?}", tok),
    }
    buf[1] -= 1;
}

/// Parsing recovers if a command is interrupted and a new command is
/// transmitted.
#[test]
fn overlapping_commands() {
    let mut read_cmd = vec![EOT];
    read_cmd.extend_from_slice(b"1199"); // address
    read_cmd.extend_from_slice(b"0010"); // parameter
    read_cmd.push(ENQ);

    for brk in 1..(read_cmd.len() - 1) {
        let buf: Vec<_> = read_cmd[..brk]
            .iter()
            .copied()
            .chain(read_cmd.iter().copied())
            .collect();
        match parse_command(&buf) {
            (consumed, CommandToken::ReadParameter(_, _)) => assert_eq!(consumed, buf.len()),
            t => panic!("{:?}", t),
        }
    }
}

fn push_spveb(buf: &mut Vec<u8>, parameter: &[u8], val: &[u8]) {
    buf.push(STX);
    let bcc_start = buf.len();
    buf.extend_from_slice(parameter);
    buf.extend_from_slice(val);
    buf.push(ETX);
    let check = bcc(&buf[bcc_start..]);
    buf.push(check);
}

#[test]
fn read_response() {
    let mut buf = Vec::new();
    push_spveb(&mut buf, b"1234", b"-54321");

    let bcc_pos = buf.len() - 1;

    // valid response
    match parse_read_response(&buf) {
        ResponseToken::ReadOk { parameter, value: v } => {
            assert_eq!(parameter, param(1234));
            assert_eq!(v, value(-54321));
        }
        _ => panic!("Invalid response"),
    }

    // valid response, short read
    for len in 0..(buf.len() - 1) {
        let x = parse_read_response(&buf[..len]);
        assert_eq!(x, ResponseToken::NeedData);
    }

    // trailing data
    buf.push(0);
    assert_eq!(parse_read_response(&buf), ResponseToken::InvalidDataReceived);
    buf.pop();

    // BCC checksum mismatch
    buf[bcc_pos] += 1;
    assert_eq!(parse_read_response(&buf), ResponseToken::InvalidDataReceived);
    buf[bcc_pos] -= 1;

    // STX -> NAK
    buf[0] = NAK;
    assert_eq!(parse_read_response(&buf), ResponseToken::InvalidDataReceived);
    // STX -> EOT
    buf[0] = EOT;
    assert_eq!(parse_read_response(&buf), ResponseToken::InvalidDataReceived);
    buf[0] = STX;

    // bad parameter
    assert_eq!(parse_read_response(&[EOT]), ResponseToken::InvalidParameter);
    assert_eq!(parse_read_response(&[EOT, EOT]), ResponseToken::InvalidDataReceived);
}

#[test]
fn write_command() {
    let mut buf = vec![EOT];
    buf.extend_from_slice(b"1199"); // address
    let stx_pos = buf.len();
    push_spveb(&mut buf, b"1234", b"-54321");
    let cmd_len = buf.len();

    // valid command
    match parse_command(&buf) {
        (consumed, CommandToken::WriteParameter(a, p, v)) => {
            assert_eq!(consumed, cmd_len);
            assert_eq!(a, addr(19));
            assert_eq!(p, param(1234));
            assert_eq!(v, value(-54321));
        }
        x => panic!("{:?}", x),
    };

    // valid command, short read
    for n in 0..(cmd_len - 1) {
        assert_eq!(parse_command(&buf[..n]), (0, CommandToken::NeedData));
    }

    // corrupt EOT or addr
    for n in 0..stx_pos {
        buf[n] += 1;
        assert_eq!(parse_command(&buf), (cmd_len, CommandToken::NeedData));
        buf[n] -= 1;
    }

    // corrupt payload
    for n in stx_pos..cmd_len {
        buf[n] += 3; // +1 would turn the ETX into an EOT, which gives NeedData
        match parse_command(&buf) {
            (consumed, CommandToken::InvalidPayload(a)) if consumed == cmd_len && a == addr(19) => {
            }
            x => panic!("{:?} => {:?}", String::from_utf8_lossy(&buf), x),
        }
        buf[n] -= 3;
    }
}

#[test]
fn write_response() {
    for b in 0u8..=255 {
        match parse_write_response(&[b]) {
            ResponseToken::WriteOk if b == ACK => {}
            ResponseToken::WriteFailed if b == NAK => {}
            ResponseToken::InvalidParameter if b == EOT => {}
            ResponseToken::InvalidDataReceived if ![ACK, NAK, EOT].contains(&b) => {}
            tok => panic!("Invalid response token {} => {:?}", b, tok),
        }
    }

    assert_eq!(parse_write_response(&[ACK, ACK]), ResponseToken::InvalidDataReceived);
}

/// A single corrupted byte in a write frame yields a short, invalid or
/// different-but-valid parse, never a panic or an over-long consumed count.
#[test]
fn write_frame_mutations() {
    let mut buf = vec![EOT];
    buf.extend_from_slice(b"4433");
    push_spveb(&mut buf, b"1234", b"+56");
    for n in 0..buf.len() {
        let old = buf[n];
        for delta in [1u8, 3, 0x80, 0xff] {
            buf[n] = old.wrapping_add(delta);
            let (consumed, _) = parse_command(&buf);
            assert!(consumed <= buf.len());
        }
        buf[n] = old;
    }
}

/// The BCC is an XOR fold, so it cannot catch every corruption: in this
/// frame, writing the Wide-format zero, replacing the third value byte with
/// ETX truncates the value field to "+0" - still zero - and the next byte
/// happens to equal the BCC of the shortened span. The parse accepts the
/// shorter frame; only the consumed count differs from the intact frame.
#[test]
fn wide_zero_corruption_reparses() {
    let mut buf = vec![EOT];
    buf.extend_from_slice(b"1100"); // address 10
    buf.push(STX);
    buf.extend_from_slice(b"0008"); // parameter 8
    let wide_zero = x328_proto::Value::new_fmt(0, ValueFormat::Wide).unwrap();
    buf.extend_from_slice(&wide_zero.to_bytes()); // "+00000"
    buf.push(ETX);
    let check = bcc(&buf[6..]);
    buf.push(check);

    let full = parse_command(&buf);
    assert_eq!(full, (18, CommandToken::WriteParameter(addr(10), param(8), value(0))));

    buf[12] = ETX;
    let corrupted = parse_command(&buf);
    assert_eq!(corrupted, (14, CommandToken::WriteParameter(addr(10), param(8), value(0))));
}
