use x328_proto::scanner::{ControllerEvent, NodeEvent, Scanner};
use x328_proto::types::{addr, param, value};
use x328_proto::{Master, ACK};

#[test]
fn scan_write_transaction() {
    let master = Master::new();
    let cmd = master.write_parameter(addr(43), param(1234), value(56));
    let frame = cmd.get_data().to_vec();

    let mut scanner = Scanner::new();
    let (consumed, event) = scanner.recv_from_ctrl(&frame);
    assert_eq!(consumed, frame.len());
    assert_eq!(event, Some(ControllerEvent::Write(addr(43), param(1234), value(56))));

    let (consumed, event) = scanner.recv_from_node(&[ACK]);
    assert_eq!(consumed, 1);
    assert_eq!(event, Some(NodeEvent::Write(Ok(()))));
}

#[test]
fn scan_read_transaction() {
    let master = Master::new();
    let cmd = master.read_parameter(addr(43), param(1234));
    let frame = cmd.get_data().to_vec();

    let mut scanner = Scanner::new();
    let (consumed, event) = scanner.recv_from_ctrl(&frame);
    assert_eq!(consumed, frame.len());
    assert_eq!(event, Some(ControllerEvent::Read(addr(43), param(1234))));

    let response = b"\x02123412345\x03\x36";
    let (consumed, event) = scanner.recv_from_node(response);
    assert_eq!(consumed, response.len());
    assert_eq!(event, Some(NodeEvent::Read(Ok(value(12345)))));

    // a short-form read continues from the observed context
    let (consumed, event) = scanner.recv_from_ctrl(&[ACK]);
    assert_eq!(consumed, 1);
    assert_eq!(event, Some(ControllerEvent::Read(addr(43), param(1235))));
}

#[test]
fn scan_node_timeout() {
    let master = Master::new();
    let cmd = master.read_parameter(addr(43), param(1234));
    let frame = cmd.get_data().to_vec();

    let mut scanner = Scanner::new();
    scanner.recv_from_ctrl(&frame);
    // a new command before any response: the node timed out
    let (consumed, event) = scanner.recv_from_ctrl(&frame);
    assert_eq!(consumed, 0);
    assert_eq!(event, Some(ControllerEvent::NodeTimeout));
    // the command is then consumed normally
    let (consumed, event) = scanner.recv_from_ctrl(&frame);
    assert_eq!(consumed, frame.len());
    assert_eq!(event, Some(ControllerEvent::Read(addr(43), param(1234))));
}

#[test]
fn scan_unexpected_transmission() {
    let mut scanner = Scanner::new();
    let (consumed, event) = scanner.recv_from_node(b"\x06\x06");
    assert_eq!(consumed, 2);
    assert_eq!(event, Some(NodeEvent::UnexpectedTransmission));
}

#[test]
fn scan_incomplete_response() {
    let master = Master::new();
    let cmd = master.read_parameter(addr(43), param(1234));
    let frame = cmd.get_data().to_vec();

    let mut scanner = Scanner::new();
    scanner.recv_from_ctrl(&frame);
    // a partial response consumes nothing; the caller retries with more
    let (consumed, event) = scanner.recv_from_node(b"\x021234");
    assert_eq!(consumed, 0);
    assert_eq!(event, None);
    let response = b"\x02123412345\x03\x36";
    let (consumed, event) = scanner.recv_from_node(response);
    assert_eq!(consumed, response.len());
    assert_eq!(event, Some(NodeEvent::Read(Ok(value(12345)))));
}
