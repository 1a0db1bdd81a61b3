use x328_proto::master::Error;
use x328_proto::node::Node;
use x328_proto::types::{addr, param, value};
use x328_proto::{Master, ACK, BS, EOT, NAK};

fn recv(node: Node, data: &[u8]) -> Node {
    match node {
        Node::ReceiveData(r) => r.receive_data(data),
        _ => panic!("node is not receiving"),
    }
}

fn take_send_data(node: Node) -> (Vec<u8>, Node) {
    match node {
        Node::SendData(mut sd) => {
            let data = sd.send_data();
            (data, sd.data_sent())
        }
        _ => panic!("node has nothing to send"),
    }
}

/// Write 43/1234 = 56: the controller emits the documented frame and the
/// node, returning write_ok, emits a single ACK.
#[test]
fn write_43_1234_is_56() {
    let master = Master::new();
    let cmd = master.write_parameter(addr(43), param(1234), value(56));
    let frame = cmd.get_data().to_vec();
    assert_eq!(frame, b"\x044433\x021234+56\x03\x2F");

    let node = Node::new(addr(43));
    let node = recv(node, &frame);
    let node = match node {
        Node::WriteParameter(wp) => {
            assert_eq!(wp.address(), addr(43));
            assert_eq!(wp.parameter(), param(1234));
            assert_eq!(wp.value(), value(56));
            wp.write_ok()
        }
        _ => panic!("expected a write request"),
    };
    let (reply, _node) = take_send_data(node);
    assert_eq!(reply, vec![ACK]);

    let mut wrecv = cmd.data_sent();
    assert_eq!(wrecv.receive_data(&reply), Some(Ok(())));
}

/// Read 43/1234 -> 12345: the controller emits the documented read frame
/// and the node's reply carries the value with the BCC of "1234" "12345" ETX.
#[test]
fn read_43_1234_yields_12345() {
    let master = Master::new();
    let cmd = master.read_parameter(addr(43), param(1234));
    let frame = cmd.get_data().to_vec();
    assert_eq!(frame, b"\x0444331234\x05");

    let node = Node::new(addr(43));
    let node = recv(node, &frame);
    let node = match node {
        Node::ReadParameter(rp) => {
            assert_eq!(rp.address(), addr(43));
            assert_eq!(rp.parameter(), param(1234));
            rp.send_reply_ok(value(12345))
        }
        _ => panic!("expected a read request"),
    };
    let (reply, _node) = take_send_data(node);
    assert_eq!(reply, b"\x021234+12345\x03\x3D");

    let mut rrecv = cmd.data_sent();
    assert_eq!(rrecv.receive_data(&reply), Some(Ok(value(12345))));
}

/// Read-again chain: after a successful read of 43/1234, reading 43/1235
/// with read_parameter_again emits a single ACK, and the node serves it as
/// a read of the next parameter.
#[test]
fn read_again_chain() {
    // controller side: complete a read of 43/1234 first
    let master = Master::new();
    let cmd = master.read_parameter_again(addr(43), param(1234));
    let frame = cmd.get_data().to_vec();

    // node side serves the read
    let node = Node::new(addr(43));
    let node = recv(node, &frame);
    let node = match node {
        Node::ReadParameter(rp) => rp.send_reply_ok(value(12345)),
        _ => panic!("expected a read request"),
    };
    let (reply, node) = take_send_data(node);

    let mut rrecv = cmd.data_sent();
    assert_eq!(rrecv.receive_data(&reply), Some(Ok(value(12345))));
    let idle = rrecv.finish();

    // the next read is one parameter up: a single ACK on the wire
    let cmd = idle.read_parameter_again(addr(43), param(1235));
    assert_eq!(cmd.get_data(), [ACK]);

    // the node turns that ACK into a read of 43/1235
    let node = recv(node, cmd.get_data());
    match node {
        Node::ReadParameter(rp) => {
            assert_eq!(rp.address(), addr(43));
            assert_eq!(rp.parameter(), param(1235));
        }
        _ => panic!("expected a read request"),
    }
}

/// Bad BCC: the node replies NAK to a corrupted write frame and returns to
/// receiving; the controller maps any response other than ACK/NAK/EOT to a
/// protocol error.
#[test]
fn bad_bcc() {
    let master = Master::new();
    let cmd = master.write_parameter(addr(43), param(1234), value(56));
    let mut frame = cmd.get_data().to_vec();
    let last = frame.len() - 1;
    frame[last] ^= 0x01;

    let node = Node::new(addr(43));
    let node = recv(node, &frame);
    let (reply, node) = take_send_data(node);
    assert_eq!(reply, vec![NAK]);
    assert!(matches!(node, Node::ReceiveData(_)));

    let mut wrecv = cmd.data_sent();
    assert_eq!(wrecv.receive_data(&[x328_proto::STX]), Some(Err(Error::ProtocolError)));
}

/// Interrupted then repeated command: a partial read command followed by a
/// full one parses as the full command, consuming the whole buffer.
#[test]
fn interrupted_then_repeated_command() {
    let node = Node::new(addr(43));
    let node = recv(node, b"\x044433");
    let node = recv(node, b"00");
    let node = recv(node, b"\x0444330010\x05");
    match node {
        Node::ReadParameter(rp) => {
            assert_eq!(rp.address(), addr(43));
            assert_eq!(rp.parameter(), param(10));
        }
        _ => panic!("expected a read request"),
    }
}

/// Invalid parameter on the node: the EOT reply surfaces as
/// InvalidParameter at the controller.
#[test]
fn invalid_parameter_on_node() {
    let master = Master::new();
    let cmd = master.read_parameter(addr(43), param(3));
    let frame = cmd.get_data().to_vec();

    let node = Node::new(addr(43));
    let node = recv(node, &frame);
    let node = match node {
        Node::ReadParameter(rp) => {
            assert_eq!(rp.parameter(), param(3));
            rp.send_invalid_parameter()
        }
        _ => panic!("expected a read request"),
    };
    let (reply, _node) = take_send_data(node);
    assert_eq!(reply, vec![EOT]);

    let mut rrecv = cmd.data_sent();
    assert_eq!(rrecv.receive_data(&reply), Some(Err(Error::InvalidParameter)));
}

/// Commands addressed to another node are dropped without a reply or a
/// state change; a node at the broadcast address 0 serves them.
#[test]
fn node_address_filter() {
    let master = Master::new();
    let cmd = master.read_parameter(addr(43), param(7));
    let frame = cmd.get_data().to_vec();

    let node = Node::new(addr(10));
    let node = recv(node, &frame);
    assert!(matches!(node, Node::ReceiveData(_)));

    let broadcast = Node::new(addr(0));
    let broadcast = recv(broadcast, &frame);
    assert!(matches!(broadcast, Node::ReadParameter(_)));
}

/// Short-form reads at the ends of the parameter range are answered with a
/// single EOT.
#[test]
fn short_form_at_range_ends() {
    // establish a read-again context at parameter 9999
    let master = Master::new();
    let cmd = master.read_parameter(addr(43), param(9999));
    let node = Node::new(addr(43));
    let node = recv(node, cmd.get_data());
    let node = match node {
        Node::ReadParameter(rp) => rp.send_reply_ok(value(1)),
        _ => panic!("expected a read request"),
    };
    let (_, node) = take_send_data(node);
    // ACK at 9999: no next parameter
    let node = recv(node, &[ACK]);
    let (reply, _) = take_send_data(node);
    assert_eq!(reply, vec![EOT]);

    // the same at parameter 0 with BS
    let master = Master::new();
    let cmd = master.read_parameter(addr(43), param(0));
    let node = Node::new(addr(43));
    let node = recv(node, cmd.get_data());
    let node = match node {
        Node::ReadParameter(rp) => rp.send_reply_ok(value(1)),
        _ => panic!("expected a read request"),
    };
    let (_, node) = take_send_data(node);
    let node = recv(node, &[BS]);
    let (reply, _) = take_send_data(node);
    assert_eq!(reply, vec![EOT]);
}

/// NAK re-reads the same parameter; a short form without a prior read is
/// silently ignored.
#[test]
fn short_form_same_and_without_context() {
    let master = Master::new();
    let cmd = master.read_parameter(addr(43), param(20));
    let node = Node::new(addr(43));
    let node = recv(node, cmd.get_data());
    let node = match node {
        Node::ReadParameter(rp) => rp.send_reply_ok(value(5)),
        _ => panic!("expected a read request"),
    };
    let (_, node) = take_send_data(node);
    let node = recv(node, &[NAK]);
    match node {
        Node::ReadParameter(rp) => assert_eq!(rp.parameter(), param(20)),
        _ => panic!("expected a read request"),
    }

    let fresh = Node::new(addr(43));
    let fresh = recv(fresh, &[ACK]);
    assert!(matches!(fresh, Node::ReceiveData(_)));
}

/// write_error and send_read_failed both answer with a single NAK;
/// no_reply sends nothing and returns to receiving.
#[test]
fn error_replies() {
    let master = Master::new();
    let cmd = master.write_parameter(addr(5), param(3), value(1));
    let node = Node::new(addr(5));
    let node = recv(node, cmd.get_data());
    let node = match node {
        Node::WriteParameter(wp) => wp.write_error(),
        _ => panic!("expected a write request"),
    };
    let (reply, _) = take_send_data(node);
    assert_eq!(reply, vec![NAK]);

    let master = Master::new();
    let cmd = master.read_parameter(addr(5), param(3));
    let node = Node::new(addr(5));
    let node = recv(node, cmd.get_data());
    let node = match node {
        Node::ReadParameter(rp) => rp.send_read_failed(),
        _ => panic!("expected a read request"),
    };
    let (reply, _) = take_send_data(node);
    assert_eq!(reply, vec![NAK]);

    let master = Master::new();
    let cmd = master.read_parameter(addr(5), param(3));
    let node = Node::new(addr(5));
    let node = recv(node, cmd.get_data());
    let node = match node {
        Node::ReadParameter(rp) => rp.no_reply(),
        _ => panic!("expected a read request"),
    };
    assert!(matches!(node, Node::ReceiveData(_)));
}
