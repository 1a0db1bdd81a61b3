//! A passive observer that reconstructs X3.28 bus transactions from the byte
//! streams of both channels: what the controller transmits and what the
//! nodes transmit. Useful for sniffing a bus or splitting it into segments.
//!
//! Controller traffic is decoded with the same parser a node uses; node
//! traffic with the same parsers the controller uses, in the context of the
//! last observed command.

use vstd::prelude::*;
use vstd::slice::slice_subrange;
use crate::buffer::mask_bytes;
use crate::master;
use crate::master::{read_response_result, write_response_result};
use crate::parser::{
    parse_command, parse_command_spec, parse_read_response, parse_read_response_spec,
    parse_write_response, parse_write_response_spec, CommandToken, ResponseToken,
};
use crate::types::{param_next, param_prev, Address, Parameter, Value};

verus! {

/// What the scanner expects to see next on the bus.
#[derive(Debug, Copy, Clone, PartialEq, Eq, Structural)]
pub enum Expect {
    /// A command from the controller.
    Command,
    /// A node's response to the given read command.
    ReadResponse(Address, Parameter),
    /// A node's response to a write command.
    WriteResponse,
}

/// Events generated by transmissions from the bus controller.
#[derive(Debug, Copy, Clone, PartialEq)]
pub enum ControllerEvent {
    /// Parameter read request.
    Read(Address, Parameter),
    /// Parameter write request.
    Write(Address, Parameter, Value),
    /// The controller issued a new request without receiving a response to
    /// the previous one.
    NodeTimeout,
}

/// Events generated by transmissions from a bus node.
#[derive(Debug, Copy, Clone, PartialEq)]
pub enum NodeEvent {
    /// Write request response.
    Write(Result<(), master::Error>),
    /// Read request response.
    Read(Result<Value, master::Error>),
    /// Data was received from a node without a corresponding controller
    /// request.
    UnexpectedTransmission,
}

/// Either a controller event or a node event.
#[derive(Debug, Copy, Clone, PartialEq)]
pub enum Event {
    /// Event generated by data on the controller tx channel.
    Ctrl(ControllerEvent),
    /// Event generated by data on the node tx channel.
    Node(NodeEvent),
}

impl From<ControllerEvent> for Event {
    fn from(value: ControllerEvent) -> (r: Event) {
        Event::Ctrl(value)
    }
}

impl vstd::std_specs::convert::FromSpecImpl<ControllerEvent> for Event {
    open spec fn obeys_from_spec() -> bool {
        true
    }

    open spec fn from_spec(t: ControllerEvent) -> Event {
        Event::Ctrl(t)
    }
}

impl From<NodeEvent> for Event {
    fn from(value: NodeEvent) -> (r: Event) {
        Event::Node(value)
    }
}

impl vstd::std_specs::convert::FromSpecImpl<NodeEvent> for Event {
    open spec fn obeys_from_spec() -> bool {
        true
    }

    open spec fn from_spec(t: NodeEvent) -> Event {
        Event::Node(t)
    }
}

/// How the scanner advances on controller traffic: the consumed bytes, the
/// event if any, and the next expectation and shadow read-again context. A
/// command observed while a response was still expected reports a node
/// timeout without consuming anything.
pub open spec fn ctrl_step_spec(
    expect: Expect,
    ra: Option<(Address, Parameter)>,
    s: Seq<u8>,
) -> (int, Option<ControllerEvent>, Expect, Option<(Address, Parameter)>) {
    if expect != Expect::Command {
        (0, Some(ControllerEvent::NodeTimeout), Expect::Command, None)
    } else {
        let r = parse_command_spec(s);
        let c = r.0;
        match r.1 {
            CommandToken::WriteParameter(a, p, v) => (
                c,
                Some(ControllerEvent::Write(a, p, v)),
                Expect::WriteResponse,
                None,
            ),
            CommandToken::ReadParameter(a, p) => (
                c,
                Some(ControllerEvent::Read(a, p)),
                Expect::ReadResponse(a, p),
                Some((a, p)),
            ),
            CommandToken::ReadAgain => match ra {
                Some((la, lp)) => (
                    c,
                    Some(ControllerEvent::Read(la, lp)),
                    Expect::ReadResponse(la, lp),
                    Some((la, lp)),
                ),
                None => (c, None, Expect::Command, None),
            },
            CommandToken::ReadNext => match ra {
                Some((la, lp)) => match param_next(lp) {
                    Some(np) => (
                        c,
                        Some(ControllerEvent::Read(la, np)),
                        Expect::ReadResponse(la, np),
                        Some((la, np)),
                    ),
                    None => (c, None, Expect::Command, None),
                },
                None => (c, None, Expect::Command, None),
            },
            CommandToken::ReadPrevious => match ra {
                Some((la, lp)) => match param_prev(lp) {
                    Some(np) => (
                        c,
                        Some(ControllerEvent::Read(la, np)),
                        Expect::ReadResponse(la, np),
                        Some((la, np)),
                    ),
                    None => (c, None, Expect::Command, None),
                },
                None => (c, None, Expect::Command, None),
            },
            CommandToken::InvalidPayload(_) => (c, None, Expect::Command, None),
            CommandToken::NeedData => (c, None, Expect::Command, None),
        }
    }
}

/// The first prefix of the node's bytes that decides a read response: its
/// length and the decision, or none when even the whole input is still
/// incomplete. Received bytes pass through the 7-bit mask, as they do in
/// the controller's receive buffer.
pub open spec fn node_read_scan_spec(s: Seq<u8>, p: Parameter, k: int) -> (
    int,
    Option<Result<Value, master::Error>>,
)
    decreases s.len() - k,
{
    if k < 0 || k > s.len() {
        (0, None)
    } else {
        match read_response_result(parse_read_response_spec(mask_bytes(s.take(k))), p) {
            Some(r) => (k, Some(r)),
            None => if k >= s.len() {
                (0, None)
            } else {
                node_read_scan_spec(s, p, k + 1)
            },
        }
    }
}

/// How the scanner advances on node traffic.
pub open spec fn node_step_scan_spec(expect: Expect, s: Seq<u8>) -> (
    int,
    Option<NodeEvent>,
    Expect,
) {
    match expect {
        Expect::Command => (s.len() as int, Some(NodeEvent::UnexpectedTransmission), expect),
        Expect::ReadResponse(_, p) => {
            let r = node_read_scan_spec(s, p, 0);
            match r.1 {
                Some(res) => (r.0, Some(NodeEvent::Read(res)), Expect::Command),
                None => (0, None, expect),
            }
        },
        Expect::WriteResponse => {
            if s.len() == 0 {
                (0, None, expect)
            } else {
                match write_response_result(parse_write_response_spec(s.take(1))) {
                    Some(res) => (1, Some(NodeEvent::Write(res)), Expect::Command),
                    None => (0, None, expect),
                }
            }
        },
    }
}

/// Decodes both directions of a shared bus into X3.28 transaction events.
pub struct Scanner {
    expect: Expect,
    read_again: Option<(Address, Parameter)>,
}

impl Scanner {
    pub closed spec fn expect_spec(self) -> Expect {
        self.expect
    }

    pub closed spec fn ra_spec(self) -> Option<(Address, Parameter)> {
        self.read_again
    }

    pub open spec fn wf(self) -> bool {
        (match self.ra_spec() {
            Some((a, p)) => a.wf() && p.wf(),
            None => true,
        }) && (match self.expect_spec() {
            Expect::ReadResponse(a, p) => a.wf() && p.wf(),
            _ => true,
        })
    }

    /// Create a new scanner instance.
    pub fn new() -> (s: Scanner)
        ensures
            s.expect_spec() == Expect::Command,
            s.ra_spec() is None,
            s.wf(),
    {
        Scanner { expect: Expect::Command, read_again: None }
    }

    /// Parse data from the bus controller. The return value is the number
    /// of bytes consumed to generate the returned event; `&data[consumed..]`
    /// should be passed in the next call, together with any newly received
    /// data. Invalid leading data is consumed without an event.
    pub fn recv_from_ctrl(&mut self, data: &[u8]) -> (r: (usize, Option<ControllerEvent>))
        requires
            old(self).wf(),
        ensures
            final(self).wf(),
            ({
                let g = ctrl_step_spec(old(self).expect_spec(), old(self).ra_spec(), data@);
                r.0 as int == g.0 && r.1 == g.1 && final(self).expect_spec() == g.2 && final(self).ra_spec() == g.3
            }),
            r.0 <= data@.len(),
    {
        let ra = self.read_again;
        self.read_again = None;
        match self.expect {
            Expect::Command => {},
            _ => {
                self.expect = Expect::Command;
                return (0, Some(ControllerEvent::NodeTimeout));
            },
        }
        let (consumed, token) = parse_command(data);
        let event = match token {
            CommandToken::WriteParameter(a, p, v) => {
                self.expect = Expect::WriteResponse;
                Some(ControllerEvent::Write(a, p, v))
            },
            CommandToken::ReadParameter(a, p) => {
                self.expect = Expect::ReadResponse(a, p);
                self.read_again = Some((a, p));
                Some(ControllerEvent::Read(a, p))
            },
            CommandToken::ReadAgain => {
                match ra {
                    Some((la, lp)) => {
                        self.expect = Expect::ReadResponse(la, lp);
                        self.read_again = Some((la, lp));
                        Some(ControllerEvent::Read(la, lp))
                    },
                    None => None,
                }
            },
            CommandToken::ReadNext => {
                match ra {
                    Some((la, lp)) => {
                        match lp.next() {
                            Some(np) => {
                                self.expect = Expect::ReadResponse(la, np);
                                self.read_again = Some((la, np));
                                Some(ControllerEvent::Read(la, np))
                            },
                            None => None,
                        }
                    },
                    None => None,
                }
            },
            CommandToken::ReadPrevious => {
                match ra {
                    Some((la, lp)) => {
                        match lp.prev() {
                            Some(np) => {
                                self.expect = Expect::ReadResponse(la, np);
                                self.read_again = Some((la, np));
                                Some(ControllerEvent::Read(la, np))
                            },
                            None => None,
                        }
                    },
                    None => None,
                }
            },
            CommandToken::InvalidPayload(_) => None,
            CommandToken::NeedData => None,
        };
        (consumed, event)
    }

    /// Parse data from the bus nodes. The return value is the number of
    /// bytes consumed to generate the returned event; `&data[consumed..]`
    /// should be passed in the next call, together with any newly received
    /// data.
    pub fn recv_from_node(&mut self, data: &[u8]) -> (r: (usize, Option<NodeEvent>))
        requires
            old(self).wf(),
        ensures
            final(self).wf(),
            final(self).ra_spec() == old(self).ra_spec(),
            ({
                let g = node_step_scan_spec(old(self).expect_spec(), data@);
                r.0 as int == g.0 && r.1 == g.1 && final(self).expect_spec() == g.2
            }),
            r.0 <= data@.len(),
    {
        match self.expect {
            Expect::Command => (data.len(), Some(NodeEvent::UnexpectedTransmission)),
            Expect::ReadResponse(_, p) => {
                let parameter = p;
                let masked = crate::buffer::mask_slice(data);
                let mut k: usize = 0;
                loop
                    invariant
                        0 <= k <= data@.len(),
                        masked@ == mask_bytes(data@),
                        node_read_scan_spec(data@, parameter, 0) == node_read_scan_spec(
                            data@,
                            parameter,
                            k as int,
                        ),
                        self == old(self),
                    decreases data@.len() - k,
                {
                    proof {
                        assert(mask_bytes(data@.take(k as int)) =~= mask_bytes(data@).take(
                            k as int,
                        ));
                    }
                    let prefix = slice_subrange(masked.as_slice(), 0, k);
                    let decision: Option<Result<Value, master::Error>> = match parse_read_response(
                        prefix,
                    ) {
                        ResponseToken::NeedData => None,
                        ResponseToken::ReadOk { parameter: p2, value } => {
                            if p2.0 == parameter.0 {
                                proof {
                                    assert(p2 == parameter);
                                }
                                Some(Ok(value))
                            } else {
                                proof {
                                    assert(p2 != parameter);
                                }
                                Some(Err(master::Error::ProtocolError))
                            }
                        },
                        ResponseToken::InvalidParameter => Some(
                            Err(master::Error::InvalidParameter),
                        ),
                        _ => Some(Err(master::Error::ProtocolError)),
                    };
                    match decision {
                        Some(res) => {
                            self.expect = Expect::Command;
                            return (k, Some(NodeEvent::Read(res)));
                        },
                        None => {
                            if k == data.len() {
                                return (0, None);
                            }
                            k = k + 1;
                        },
                    }
                }
            },
            Expect::WriteResponse => {
                if data.len() == 0 {
                    return (0, None);
                }
                let first = slice_subrange(data, 0, 1);
                proof {
                    assert(first@ =~= data@.take(1));
                }
                let res: Result<(), master::Error> = match parse_write_response(first) {
                    ResponseToken::WriteOk => Ok(()),
                    ResponseToken::WriteFailed => Err(master::Error::CommandFailed),
                    ResponseToken::InvalidParameter => Err(master::Error::InvalidParameter),
                    _ => Err(master::Error::ProtocolError),
                };
                self.expect = Expect::Command;
                (1, Some(NodeEvent::Write(res)))
            },
        }
    }
}

} // verus!
