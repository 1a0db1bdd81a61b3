use x328_proto::master::Error;
use x328_proto::types::{addr, param, value};
use x328_proto::Master;

#[test]
fn write_parameter() {
    let (a, p, v) = (addr(43), param(1234), value(56));
    let master = Master::new();
    let x = master.write_parameter(a, p, v);
    assert_eq!(x.get_data(), b"\x044433\x021234+56\x03\x2F");
}

#[test]
fn read_parameter() {
    let (a, p, v) = (addr(43), param(1234), value(12345));
    let master = Master::new();
    let x = master.read_parameter(a, p);
    assert_eq!(x.get_data(), b"\x0444331234\x05");
    let mut recv = x.data_sent();
    assert_eq!(recv.receive_data(b"\x02123412345\x03\x36").unwrap().unwrap(), v);
}

#[test]
fn read_again() {
    let (a, p, _v) = (addr(10), param(20), value(56));
    // a successful read establishes the read-again context
    let master = Master::new();
    let cmd = master.read_parameter_again(a, p);
    let mut recv = cmd.data_sent();
    let mut response = vec![x328_proto::STX];
    response.extend_from_slice(b"0020+56\x03");
    let check = x328_proto::bcc(&response[1..]);
    response.push(check);
    assert!(recv.receive_data(&response).unwrap().is_ok());
    let idle = recv.finish();

    let send = idle.read_parameter_again(a, p.next().unwrap());
    assert_eq!(send.get_data(), [x328_proto::ACK]);
}

#[test]
fn read_again_needs_adjacent_parameter() {
    let a = addr(10);
    let master = Master::new();
    let cmd = master.read_parameter_again(a, param(20));
    // the long form is used when no context exists
    assert_eq!(cmd.get_data(), b"\x0411000020\x05");
    let mut recv = cmd.data_sent();
    let mut response = vec![x328_proto::STX];
    response.extend_from_slice(b"0020+56\x03");
    let check = x328_proto::bcc(&response[1..]);
    response.push(check);
    assert!(recv.receive_data(&response).unwrap().is_ok());
    let idle = recv.finish();

    // a jump of two parameters falls back to the long form
    let send = idle.read_parameter_again(a, param(22));
    assert_eq!(send.get_data(), b"\x0411000022\x05");
}

#[test]
fn write_response_mapping() {
    let run = |response: &[u8]| {
        let master = Master::new();
        let cmd = master.write_parameter(addr(1), param(1), value(1));
        let mut recv = cmd.data_sent();
        recv.receive_data(response)
    };
    assert_eq!(run(&[x328_proto::ACK]), Some(Ok(())));
    assert_eq!(run(&[x328_proto::NAK]), Some(Err(Error::CommandFailed)));
    assert_eq!(run(&[x328_proto::EOT]), Some(Err(Error::InvalidParameter)));
    assert_eq!(run(&[x328_proto::STX]), Some(Err(Error::ProtocolError)));
    assert_eq!(run(&[]), None);
}

#[test]
fn read_response_parameter_mismatch() {
    let master = Master::new();
    let cmd = master.read_parameter(addr(43), param(1234));
    let mut recv = cmd.data_sent();
    // a well-formed response for a different parameter is a protocol error
    let mut response = vec![x328_proto::STX];
    response.extend_from_slice(b"1235+56\x03");
    let check = x328_proto::bcc(&response[1..]);
    response.push(check);
    assert_eq!(recv.receive_data(&response), Some(Err(Error::ProtocolError)));
}
