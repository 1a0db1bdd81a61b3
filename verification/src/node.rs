//! The node (responder) half of the X3.28 protocol.
//!
//! The machine is a sum of phase states, moved by value from one phase to
//! the next: `ReceiveData` accumulates bus bytes until a command for this
//! node is complete; `ReadParameter` and `WriteParameter` await the caller's
//! decision on that command; `SendData` holds the reply until it has been
//! transmitted. Exactly one phase value exists at a time, so command
//! processing is strictly serial.

use vstd::prelude::*;
use crate::buffer::{buffer_write_spec, Buffer};
use crate::parser::{
    command_token_wf, parse_command, parse_command_spec, read_frame_spec,
    read_response_frame_spec, write_frame_spec, CommandToken,
};
use crate::parser::{lemma_read_command_round_trip, lemma_write_command_round_trip};
use crate::types::{param_next, param_prev, value_from_int, Address, Parameter, Value};
use crate::{ACK, BS, EOT, NAK};

verus! {

/// Does this node serve commands sent to `a`? Address 0 is the broadcast
/// address: a node configured at 0 accepts commands to any address.
pub open spec fn for_us_spec(node_addr: Address, a: Address) -> bool {
    node_addr == a || node_addr.0 == 0
}

/// The read-again context after a consumed token: commands served by this
/// node and short-form reads consume it; commands for other nodes and
/// discarded noise leave it alone.
pub open spec fn ra_after_token(
    node_addr: Address,
    tok: CommandToken,
    ra: Option<(Address, Parameter)>,
) -> Option<(Address, Parameter)> {
    match tok {
        CommandToken::ReadParameter(a, _) => if for_us_spec(node_addr, a) {
            None
        } else {
            ra
        },
        CommandToken::WriteParameter(a, _, _) => if for_us_spec(node_addr, a) {
            None
        } else {
            ra
        },
        CommandToken::InvalidPayload(a) => if a == node_addr {
            None
        } else {
            ra
        },
        CommandToken::ReadAgain => None,
        CommandToken::ReadNext => None,
        CommandToken::ReadPrevious => None,
        CommandToken::NeedData => ra,
    }
}

/// Outcome of repeatedly parsing the buffer: either more input is needed
/// with `rest` still buffered, or a final token that emptied the buffer.
/// Only the token that empties the buffer is acted upon; the read-again
/// context carried with it is the one current when that token was parsed.
pub enum NodeDrain {
    More { rest: Seq<u8>, ra: Option<(Address, Parameter)> },
    Token { tok: CommandToken, ra: Option<(Address, Parameter)> },
}

pub open spec fn node_drain_spec(
    node_addr: Address,
    s: Seq<u8>,
    ra: Option<(Address, Parameter)>,
) -> NodeDrain
    decreases s.len(),
{
    let r = parse_command_spec(s);
    if r.0 <= 0 {
        NodeDrain::More { rest: s, ra }
    } else if r.0 >= s.len() {
        NodeDrain::Token { tok: r.1, ra }
    } else {
        node_drain_spec(node_addr, s.skip(r.0), ra_after_token(node_addr, r.1, ra))
    }
}

/// The abstract next state of a node that received bytes: stay receiving,
/// reply with `data`, or hand the caller a read or write request.
pub enum NodeStep {
    Recv { rest: Seq<u8>, ra: Option<(Address, Parameter)> },
    Send { data: Seq<u8>, ra: Option<(Address, Parameter)> },
    Read { address: Address, parameter: Parameter },
    Write { address: Address, parameter: Parameter, value: Value },
}

/// How a final token is dispatched: commands for this node become read or
/// write requests, short-form reads follow the read-again context, a
/// garbled payload for this node is answered with `NAK`, and everything
/// else leaves the machine receiving.
pub open spec fn token_step_spec(
    node_addr: Address,
    tok: CommandToken,
    ra: Option<(Address, Parameter)>,
) -> NodeStep {
    match tok {
        CommandToken::ReadParameter(a, p) => {
            if for_us_spec(node_addr, a) {
                NodeStep::Read { address: a, parameter: p }
            } else {
                NodeStep::Recv { rest: Seq::empty(), ra }
            }
        },
        CommandToken::WriteParameter(a, p, v) => {
            if for_us_spec(node_addr, a) {
                NodeStep::Write { address: a, parameter: p, value: v }
            } else {
                NodeStep::Recv { rest: Seq::empty(), ra }
            }
        },
        CommandToken::ReadAgain => {
            match ra {
                Some((la, lp)) => NodeStep::Read { address: la, parameter: lp },
                None => NodeStep::Recv { rest: Seq::empty(), ra: None },
            }
        },
        CommandToken::ReadNext => {
            match ra {
                Some((la, lp)) => match param_next(lp) {
                    Some(np) => NodeStep::Read { address: la, parameter: np },
                    None => NodeStep::Send { data: seq![EOT], ra: None },
                },
                None => NodeStep::Recv { rest: Seq::empty(), ra: None },
            }
        },
        CommandToken::ReadPrevious => {
            match ra {
                Some((la, lp)) => match param_prev(lp) {
                    Some(np) => NodeStep::Read { address: la, parameter: np },
                    None => NodeStep::Send { data: seq![EOT], ra: None },
                },
                None => NodeStep::Recv { rest: Seq::empty(), ra: None },
            }
        },
        CommandToken::InvalidPayload(a) => {
            if a == node_addr {
                NodeStep::Send { data: seq![NAK], ra: None }
            } else {
                NodeStep::Recv { rest: Seq::empty(), ra }
            }
        },
        CommandToken::NeedData => NodeStep::Recv { rest: Seq::empty(), ra },
    }
}

/// How a node with address `node_addr`, read-again context `ra` and
/// buffered input `s` advances: the final parsed token is dispatched
/// according to the addressing and short-form rules.
pub open spec fn node_step_spec(
    node_addr: Address,
    s: Seq<u8>,
    ra: Option<(Address, Parameter)>,
) -> NodeStep {
    match node_drain_spec(node_addr, s, ra) {
        NodeDrain::More { rest, ra: ra2 } => NodeStep::Recv { rest, ra: ra2 },
        NodeDrain::Token { tok, ra: ra2 } => token_step_spec(node_addr, tok, ra2),
    }
}

struct NodeCore {
    address: Address,
    read_again_param: Option<(Address, Parameter)>,
}

impl NodeCore {
    spec fn wf(self) -> bool {
        self.address.wf() && (match self.read_again_param {
            Some((a, p)) => a.wf() && p.wf(),
            None => true,
        })
    }
}

/// The node state machine: one value of this enum exists per node, moved
/// through its phases by the methods of the phase structs.
pub enum Node {
    /// More data needs to be received from the bus.
    ReceiveData(ReceiveData),
    /// Data is waiting to be transmitted.
    SendData(SendData),
    /// A parameter read request addressed to this node.
    ReadParameter(ReadParam),
    /// A parameter write request addressed to this node.
    WriteParameter(WriteParam),
}

impl Node {
    pub open spec fn wf(self) -> bool {
        match self {
            Node::ReceiveData(x) => x.wf(),
            Node::SendData(x) => x.wf(),
            Node::ReadParameter(x) => x.wf(),
            Node::WriteParameter(x) => x.wf(),
        }
    }

    /// The address this node serves.
    pub open spec fn node_addr_spec(self) -> Address {
        match self {
            Node::ReceiveData(x) => x.node_addr_spec(),
            Node::SendData(x) => x.node_addr_spec(),
            Node::ReadParameter(x) => x.node_addr_spec(),
            Node::WriteParameter(x) => x.node_addr_spec(),
        }
    }

    /// The live read-again context.
    pub open spec fn ra_spec(self) -> Option<(Address, Parameter)> {
        match self {
            Node::ReceiveData(x) => x.ra_spec(),
            Node::SendData(x) => x.ra_spec(),
            Node::ReadParameter(x) => x.ra_spec(),
            Node::WriteParameter(x) => x.ra_spec(),
        }
    }

    /// Create a new protocol instance, accepting commands for the given
    /// address.
    pub fn new(address: Address) -> (r: Node)
        requires
            address.wf(),
        ensures
            r matches Node::ReceiveData(rd) && rd.node_addr_spec() == address && rd.ra_spec()
                is None && rd.buffered() == Seq::<u8>::empty(),
            r.wf(),
    {
        Node::ReceiveData(
            ReceiveData {
                core: NodeCore { address, read_again_param: None },
                input_buffer: Buffer::new(),
            },
        )
    }

    /// Do not send any reply; return to the idle receiving state. The bus
    /// controller will be left waiting until it times out.
    pub fn no_reply(self) -> (r: Node)
        requires
            self.wf(),
        ensures
            r matches Node::ReceiveData(rd) && rd.node_addr_spec() == self.node_addr_spec()
                && rd.ra_spec() == self.ra_spec() && rd.buffered() == Seq::<u8>::empty(),
            r.wf(),
    {
        let core = match self {
            Node::ReceiveData(x) => x.core,
            Node::SendData(x) => x.core,
            Node::ReadParameter(x) => x.core,
            Node::WriteParameter(x) => x.core,
        };
        Node::ReceiveData(ReceiveData { core, input_buffer: Buffer::new() })
    }
}

/// "Receive data from the bus" state.
pub struct ReceiveData {
    core: NodeCore,
    input_buffer: Buffer,
}

impl ReceiveData {
    pub closed spec fn node_addr_spec(self) -> Address {
        self.core.address
    }

    pub closed spec fn ra_spec(self) -> Option<(Address, Parameter)> {
        self.core.read_again_param
    }

    pub closed spec fn buf_all(self) -> Seq<u8> {
        self.input_buffer.all_bytes()
    }

    pub closed spec fn buf_pos(self) -> int {
        self.input_buffer.pos()
    }

    /// The bytes received but not yet consumed by parsing.
    pub open spec fn buffered(self) -> Seq<u8> {
        self.buf_all().skip(self.buf_pos())
    }

    pub open spec fn wf(self) -> bool {
        self.node_addr_spec().wf() && 0 <= self.buf_pos() <= self.buf_all().len() <= 40 && (
        match self.ra_spec() {
            Some((a, p)) => a.wf() && p.wf(),
            None => true,
        })
    }

    /// Feed received bytes into the internal buffer and advance the state
    /// machine as far as the buffered input allows.
    pub fn receive_data(self, data: &[u8]) -> (r: Node)
        requires
            self.wf(),
        ensures
            r.wf(),
            r.node_addr_spec() == self.node_addr_spec(),
            ({
                let w = buffer_write_spec(self.buf_all(), self.buf_pos(), data@);
                let s = w.0.skip(w.1);
                match node_step_spec(self.node_addr_spec(), s, self.ra_spec()) {
                    NodeStep::Recv { rest, ra } => r matches Node::ReceiveData(rd)
                        && rd.node_addr_spec() == self.node_addr_spec() && rd.ra_spec() == ra
                        && rd.buf_all() == w.0 && rd.buf_pos() == w.1 + (s.len() - rest.len())
                        && rd.buffered() == rest,
                    NodeStep::Send { data: d, ra } => r matches Node::SendData(sd)
                        && sd.node_addr_spec() == self.node_addr_spec() && sd.ra_spec() == ra
                        && sd.data_spec() == d,
                    NodeStep::Read { address, parameter } => r matches Node::ReadParameter(rp)
                        && rp.node_addr_spec() == self.node_addr_spec() && rp.ra_spec() is None
                        && rp.address_spec() == address && rp.parameter_spec() == parameter,
                    NodeStep::Write { address, parameter, value } => r matches Node::WriteParameter(
                        wp,
                    ) && wp.node_addr_spec() == self.node_addr_spec() && wp.ra_spec() is None
                        && wp.address_spec() == address && wp.parameter_spec() == parameter
                        && wp.value_spec() == value,
                }
            }),
    {
        let mut this = self;
        this.input_buffer.write(data);
        let ghost s0 = this.input_buffer.bytes();
        let ghost ra0 = this.core.read_again_param;
        loop
            invariant
                this.core.wf(),
                0 <= this.input_buffer.pos() <= this.input_buffer.all_bytes().len() <= 40,
                this.core.address == self.node_addr_spec(),
                this.input_buffer.all_bytes() == buffer_write_spec(
                    self.buf_all(),
                    self.buf_pos(),
                    data@,
                ).0,
                this.input_buffer.pos() == buffer_write_spec(
                    self.buf_all(),
                    self.buf_pos(),
                    data@,
                ).1 + (s0.len() - this.input_buffer.bytes().len()),
                node_drain_spec(self.node_addr_spec(), s0, ra0) == node_drain_spec(
                    self.node_addr_spec(),
                    this.input_buffer.bytes(),
                    this.core.read_again_param,
                ),
                s0 == buffer_write_spec(self.buf_all(), self.buf_pos(), data@).0.skip(
                    buffer_write_spec(self.buf_all(), self.buf_pos(), data@).1,
                ),
                ra0 == self.ra_spec(),
            decreases this.input_buffer.bytes().len(),
        {
            let (consumed, token) = parse_command(this.input_buffer.as_ref());
            if consumed == 0 {
                proof {
                    assert(node_drain_spec(self.node_addr_spec(), s0, ra0) == (NodeDrain::More {
                        rest: this.input_buffer.bytes(),
                        ra: this.core.read_again_param,
                    }));
                }
                return Node::ReceiveData(this);
            }
            this.input_buffer.consume(consumed);
            let taken = this.core.read_again_param;
            if this.input_buffer.len() == 0 {
                proof {
                    assert(node_drain_spec(self.node_addr_spec(), s0, ra0) == (NodeDrain::Token {
                        tok: token,
                        ra: taken,
                    }));
                }
                return dispatch_token(this.core.address, this.input_buffer, token, taken);
            }
            // an intermediate token: it only adjusts the read-again context
            this.core.read_again_param = match token {
                CommandToken::ReadParameter(a, _) => {
                    if a.0 == this.core.address.0 || this.core.address.0 == 0 {
                        None
                    } else {
                        taken
                    }
                },
                CommandToken::WriteParameter(a, _, _) => {
                    if a.0 == this.core.address.0 || this.core.address.0 == 0 {
                        None
                    } else {
                        taken
                    }
                },
                CommandToken::InvalidPayload(a) => {
                    if a.0 == this.core.address.0 {
                        None
                    } else {
                        taken
                    }
                },
                CommandToken::ReadAgain => None,
                CommandToken::ReadNext => None,
                CommandToken::ReadPrevious => None,
                CommandToken::NeedData => taken,
            };
        }
    }
}

/// Dispatch the final token of a parse round: the buffer is empty, `ra` is
/// the context current when the token was parsed.
fn dispatch_token(
    address: Address,
    buffer: Buffer,
    token: CommandToken,
    ra: Option<(Address, Parameter)>,
) -> (r: Node)
    requires
        address.wf(),
        command_token_wf(token),
        buffer.wf(),
        buffer.bytes().len() == 0,
        (match ra {
            Some((a, p)) => a.wf() && p.wf(),
            None => true,
        }),
    ensures
        r.wf(),
        r.node_addr_spec() == address,
        ({
            match token_step_spec(address, token, ra) {
                NodeStep::Recv { rest, ra: ra2 } => r matches Node::ReceiveData(rd)
                    && rd.node_addr_spec() == address && rd.ra_spec() == ra2 && rd.buffered()
                    == rest && rd.buf_all() == buffer.all_bytes() && rd.buf_pos()
                    == buffer.pos(),
                NodeStep::Send { data: d, ra: ra2 } => r matches Node::SendData(sd)
                    && sd.node_addr_spec() == address && sd.ra_spec() == ra2 && sd.data_spec()
                    == d,
                NodeStep::Read { address: a, parameter: p } => r matches Node::ReadParameter(rp)
                    && rp.node_addr_spec() == address && rp.ra_spec() is None
                    && rp.address_spec() == a && rp.parameter_spec() == p,
                NodeStep::Write { address: a, parameter: p, value: v } => r matches
                    Node::WriteParameter(wp) && wp.node_addr_spec() == address && wp.ra_spec()
                    is None && wp.address_spec() == a && wp.parameter_spec() == p
                    && wp.value_spec() == v,
            }
        }),
{
    match token {
        CommandToken::ReadParameter(a, p) => {
            if a.0 == address.0 || address.0 == 0 {
                Node::ReadParameter(
                    ReadParam {
                        core: NodeCore { address, read_again_param: None },
                        address: a,
                        parameter: p,
                    },
                )
            } else {
                Node::ReceiveData(
                    ReceiveData {
                        core: NodeCore { address, read_again_param: ra },
                        input_buffer: buffer,
                    },
                )
            }
        },
        CommandToken::WriteParameter(a, p, v) => {
            if a.0 == address.0 || address.0 == 0 {
                Node::WriteParameter(
                    WriteParam {
                        core: NodeCore { address, read_again_param: None },
                        address: a,
                        parameter: p,
                        value: v,
                    },
                )
            } else {
                Node::ReceiveData(
                    ReceiveData {
                        core: NodeCore { address, read_again_param: ra },
                        input_buffer: buffer,
                    },
                )
            }
        },
        CommandToken::ReadAgain => {
            match ra {
                Some((la, lp)) => Node::ReadParameter(
                    ReadParam {
                        core: NodeCore { address, read_again_param: None },
                        address: la,
                        parameter: lp,
                    },
                ),
                None => Node::ReceiveData(
                    ReceiveData {
                        core: NodeCore { address, read_again_param: None },
                        input_buffer: buffer,
                    },
                ),
            }
        },
        CommandToken::ReadNext => {
            match ra {
                Some((la, lp)) => {
                    match lp.next() {
                        Some(np) => Node::ReadParameter(
                            ReadParam {
                                core: NodeCore { address, read_again_param: None },
                                address: la,
                                parameter: np,
                            },
                        ),
                        None => send_single(address, EOT),
                    }
                },
                None => Node::ReceiveData(
                    ReceiveData {
                        core: NodeCore { address, read_again_param: None },
                        input_buffer: buffer,
                    },
                ),
            }
        },
        CommandToken::ReadPrevious => {
            match ra {
                Some((la, lp)) => {
                    match lp.prev() {
                        Some(np) => Node::ReadParameter(
                            ReadParam {
                                core: NodeCore { address, read_again_param: None },
                                address: la,
                                parameter: np,
                            },
                        ),
                        None => send_single(address, EOT),
                    }
                },
                None => Node::ReceiveData(
                    ReceiveData {
                        core: NodeCore { address, read_again_param: None },
                        input_buffer: buffer,
                    },
                ),
            }
        },
        CommandToken::InvalidPayload(a) => {
            if a.0 == address.0 {
                send_single(address, NAK)
            } else {
                Node::ReceiveData(
                    ReceiveData {
                        core: NodeCore { address, read_again_param: ra },
                        input_buffer: buffer,
                    },
                )
            }
        },
        CommandToken::NeedData => Node::ReceiveData(
            ReceiveData { core: NodeCore { address, read_again_param: ra }, input_buffer: buffer },
        ),
    }
}

fn send_single(address: Address, byte: u8) -> (r: Node)
    requires
        address.wf(),
    ensures
        r matches Node::SendData(sd) && sd.node_addr_spec() == address && sd.ra_spec() is None
            && sd.data_spec() == seq![byte],
        r.wf(),
{
    let mut d: Vec<u8> = Vec::new();
    d.push(byte);
    proof {
        assert(d@ =~= seq![byte]);
    }
    Node::SendData(SendData { core: NodeCore { address, read_again_param: None }, data: d })
}

/// "Transmit a reply on the bus" state.
pub struct SendData {
    core: NodeCore,
    data: Vec<u8>,
}

impl SendData {
    pub closed spec fn node_addr_spec(self) -> Address {
        self.core.address
    }

    pub closed spec fn ra_spec(self) -> Option<(Address, Parameter)> {
        self.core.read_again_param
    }

    /// The reply bytes still waiting to be transmitted.
    pub closed spec fn data_spec(self) -> Seq<u8> {
        self.data@
    }

    pub open spec fn wf(self) -> bool {
        self.node_addr_spec().wf() && (match self.ra_spec() {
            Some((a, p)) => a.wf() && p.wf(),
            None => true,
        })
    }

    /// Take the reply bytes to be sent on the bus; subsequent calls return
    /// an empty vector.
    pub fn send_data(&mut self) -> (r: Vec<u8>)
        ensures
            r@ == old(self).data_spec(),
            final(self).data_spec() == Seq::<u8>::empty(),
            final(self).node_addr_spec() == old(self).node_addr_spec(),
            final(self).ra_spec() == old(self).ra_spec(),
            old(self).wf() ==> final(self).wf(),
    {
        let r = self.data.split_off(0);
        proof {
            assert(r@ =~= old(self).data_spec());
            assert(self.data@ =~= Seq::<u8>::empty());
        }
        r
    }

    /// Signal that the reply has been transmitted; the machine returns to
    /// receiving.
    pub fn data_sent(self) -> (r: Node)
        requires
            self.wf(),
        ensures
            r matches Node::ReceiveData(rd) && rd.node_addr_spec() == self.node_addr_spec()
                && rd.ra_spec() == self.ra_spec() && rd.buffered() == Seq::<u8>::empty(),
            r.wf(),
    {
        Node::ReceiveData(ReceiveData { core: self.core, input_buffer: Buffer::new() })
    }
}

/// "Read command received" state: the bus controller expects a reply with
/// the current value of the requested parameter.
pub struct ReadParam {
    core: NodeCore,
    address: Address,
    parameter: Parameter,
}

impl ReadParam {
    pub closed spec fn node_addr_spec(self) -> Address {
        self.core.address
    }

    pub closed spec fn ra_spec(self) -> Option<(Address, Parameter)> {
        self.core.read_again_param
    }

    /// The address the request was sent to.
    pub closed spec fn address_spec(self) -> Address {
        self.address
    }

    /// The parameter whose value is requested.
    pub closed spec fn parameter_spec(self) -> Parameter {
        self.parameter
    }

    pub open spec fn wf(self) -> bool {
        self.node_addr_spec().wf() && self.address_spec().wf() && self.parameter_spec().wf() && (
        match self.ra_spec() {
            Some((a, p)) => a.wf() && p.wf(),
            None => true,
        })
    }

    /// Reply with the parameter's value: `STX P P P P V..V ETX BCC`. This
    /// establishes the read-again context `(address, parameter)`.
    pub fn send_reply_ok(self, value: Value) -> (r: Node)
        requires
            self.wf(),
            value.wf(),
        ensures
            r matches Node::SendData(sd) && sd.node_addr_spec() == self.node_addr_spec()
                && sd.ra_spec() == Some((self.address_spec(), self.parameter_spec()))
                && sd.data_spec() == read_response_frame_spec(self.parameter_spec(), value),
            r.wf(),
    {
        let mut data: Vec<u8> = Vec::new();
        data.push(crate::STX);
        let mut body = self.parameter.to_bytes();
        let mut vb = value.to_bytes();
        body.append(&mut vb);
        body.push(crate::ETX);
        proof {
            assert(body@ =~= crate::parser::spv_body_spec(self.parameter, value));
        }
        let check = crate::bcc(body.as_slice());
        data.append(&mut body);
        data.push(check);
        proof {
            assert(data@ =~= read_response_frame_spec(self.parameter_spec(), value));
        }
        Node::SendData(
            SendData {
                core: NodeCore {
                    address: self.core.address,
                    read_again_param: Some((self.address, self.parameter)),
                },
                data,
            },
        )
    }

    /// Inform the controller that the parameter in the request is invalid:
    /// the reply is a single `EOT`.
    pub fn send_invalid_parameter(self) -> (r: Node)
        requires
            self.wf(),
        ensures
            r matches Node::SendData(sd) && sd.node_addr_spec() == self.node_addr_spec()
                && sd.ra_spec() is None && sd.data_spec() == seq![EOT],
            r.wf(),
    {
        send_single(self.core.address, EOT)
    }

    /// Inform the controller that the read failed for some reason other
    /// than an invalid parameter number: the reply is a single `NAK`.
    pub fn send_read_failed(self) -> (r: Node)
        requires
            self.wf(),
        ensures
            r matches Node::SendData(sd) && sd.node_addr_spec() == self.node_addr_spec()
                && sd.ra_spec() is None && sd.data_spec() == seq![NAK],
            r.wf(),
    {
        send_single(self.core.address, NAK)
    }

    /// Do not send any reply; return to the idle receiving state.
    pub fn no_reply(self) -> (r: Node)
        requires
            self.wf(),
        ensures
            r matches Node::ReceiveData(rd) && rd.node_addr_spec() == self.node_addr_spec()
                && rd.ra_spec() == self.ra_spec() && rd.buffered() == Seq::<u8>::empty(),
            r.wf(),
    {
        Node::ReceiveData(ReceiveData { core: self.core, input_buffer: Buffer::new() })
    }

    /// The address the request was sent to.
    pub fn address(&self) -> (r: Address)
        ensures
            r == self.address_spec(),
    {
        self.address
    }

    /// The parameter whose value is to be returned.
    pub fn parameter(&self) -> (r: Parameter)
        ensures
            r == self.parameter_spec(),
    {
        self.parameter
    }
}

/// "Write command received" state: the bus controller wants to change the
/// value of the requested parameter.
pub struct WriteParam {
    core: NodeCore,
    address: Address,
    parameter: Parameter,
    value: Value,
}

impl WriteParam {
    pub closed spec fn node_addr_spec(self) -> Address {
        self.core.address
    }

    pub closed spec fn ra_spec(self) -> Option<(Address, Parameter)> {
        self.core.read_again_param
    }

    /// The address the request was sent to.
    pub closed spec fn address_spec(self) -> Address {
        self.address
    }

    /// The parameter to be written.
    pub closed spec fn parameter_spec(self) -> Parameter {
        self.parameter
    }

    /// The new value for the parameter.
    pub closed spec fn value_spec(self) -> Value {
        self.value
    }

    pub open spec fn wf(self) -> bool {
        self.node_addr_spec().wf() && self.address_spec().wf() && self.parameter_spec().wf()
            && self.value_spec().wf() && (match self.ra_spec() {
            Some((a, p)) => a.wf() && p.wf(),
            None => true,
        })
    }

    /// Inform the controller that the parameter value was successfully
    /// updated: the reply is a single `ACK`.
    pub fn write_ok(self) -> (r: Node)
        requires
            self.wf(),
        ensures
            r matches Node::SendData(sd) && sd.node_addr_spec() == self.node_addr_spec()
                && sd.ra_spec() is None && sd.data_spec() == seq![ACK],
            r.wf(),
    {
        send_single(self.core.address, ACK)
    }

    /// The parameter or value is invalid, or something else prevents the
    /// write: the reply is a single `NAK`.
    pub fn write_error(self) -> (r: Node)
        requires
            self.wf(),
        ensures
            r matches Node::SendData(sd) && sd.node_addr_spec() == self.node_addr_spec()
                && sd.ra_spec() is None && sd.data_spec() == seq![NAK],
            r.wf(),
    {
        send_single(self.core.address, NAK)
    }

    /// Do not send any reply; return to the idle receiving state.
    pub fn no_reply(self) -> (r: Node)
        requires
            self.wf(),
        ensures
            r matches Node::ReceiveData(rd) && rd.node_addr_spec() == self.node_addr_spec()
                && rd.ra_spec() == self.ra_spec() && rd.buffered() == Seq::<u8>::empty(),
            r.wf(),
    {
        Node::ReceiveData(ReceiveData { core: self.core, input_buffer: Buffer::new() })
    }

    /// The address the write request was sent to.
    pub fn address(&self) -> (r: Address)
        ensures
            r == self.address_spec(),
    {
        self.address
    }

    /// The parameter to be written.
    pub fn parameter(&self) -> (r: Parameter)
        ensures
            r == self.parameter_spec(),
    {
        self.parameter
    }

    /// The new value for the parameter.
    pub fn value(&self) -> (r: Value)
        ensures
            r == self.value_spec(),
    {
        self.value
    }
}

/// Node address filter: a full command frame addressed to another node,
/// when this node's address is not the broadcast address 0, causes no
/// reply and no state change: the machine stays in the receiving state
/// with its read-again context intact.
/// A buffer holding exactly one whole-buffer token drains to that token.
proof fn lemma_drain_single_token(
    node_addr: Address,
    s: Seq<u8>,
    ra: Option<(Address, Parameter)>,
    tok: CommandToken,
)
    requires
        s.len() >= 1,
        parse_command_spec(s) == (s.len() as int, tok),
    ensures
        node_drain_spec(node_addr, s, ra) == (NodeDrain::Token { tok, ra }),
{
}

pub proof fn lemma_node_address_filter(
    addr: Address,
    a: Address,
    p: Parameter,
    v: Value,
    ra: Option<(Address, Parameter)>,
)
    requires
        addr.wf(),
        a.wf(),
        p.wf(),
        v.wf(),
        addr != a,
        addr.0 != 0,
    ensures
        node_step_spec(addr, read_frame_spec(a, p), ra) == (NodeStep::Recv {
            rest: Seq::empty(),
            ra,
        }),
        node_step_spec(addr, write_frame_spec(a, p, v), ra) == (NodeStep::Recv {
            rest: Seq::empty(),
            ra,
        }),
{
    lemma_read_command_round_trip(a, p);
    lemma_write_command_round_trip(a, p, v);
    assert(!for_us_spec(addr, a));
    let rf = read_frame_spec(a, p);
    assert(rf.len() == 10) by {
        crate::types::lemma_dec_digits_shape(p.0 as int, 4);
    }
    lemma_drain_single_token(addr, rf, ra, CommandToken::ReadParameter(a, p));
    let wf = write_frame_spec(a, p, v);
    assert(wf.len() >= 7);
    lemma_drain_single_token(
        addr,
        wf,
        ra,
        CommandToken::WriteParameter(a, p, value_from_int(v.0 as int)),
    );
}

/// Short-form reads against a live read-again context `(la, lp)`: `ACK`
/// asks for the next higher parameter, `NAK` for the same one, `BS` for the
/// next lower one; stepping beyond either end of the parameter range is
/// answered with a single `EOT`.
pub proof fn lemma_short_form_read(addr: Address, la: Address, lp: Parameter)
    requires
        addr.wf(),
        la.wf(),
        lp.wf(),
    ensures
        node_step_spec(addr, seq![ACK], Some((la, lp))) == (match param_next(lp) {
            Some(np) => NodeStep::Read { address: la, parameter: np },
            None => NodeStep::Send { data: seq![EOT], ra: None },
        }),
        node_step_spec(addr, seq![NAK], Some((la, lp))) == (NodeStep::Read {
            address: la,
            parameter: lp,
        }),
        node_step_spec(addr, seq![BS], Some((la, lp))) == (match param_prev(lp) {
            Some(np) => NodeStep::Read { address: la, parameter: np },
            None => NodeStep::Send { data: seq![EOT], ra: None },
        }),
{
    let ra = Some((la, lp));
    assert(parse_command_spec(seq![ACK]) == (1int, CommandToken::ReadNext));
    assert(parse_command_spec(seq![NAK]) == (1int, CommandToken::ReadAgain));
    assert(parse_command_spec(seq![BS]) == (1int, CommandToken::ReadPrevious));
    assert(node_drain_spec(addr, seq![ACK], ra) == (NodeDrain::Token {
        tok: CommandToken::ReadNext,
        ra,
    }));
    assert(node_drain_spec(addr, seq![NAK], ra) == (NodeDrain::Token {
        tok: CommandToken::ReadAgain,
        ra,
    }));
    assert(node_drain_spec(addr, seq![BS], ra) == (NodeDrain::Token {
        tok: CommandToken::ReadPrevious,
        ra,
    }));
}

} // verus!
