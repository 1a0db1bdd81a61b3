//! The bus controller half of the X3.28 protocol.
//!
//! A command is one exchange: the controller hands out a send handle holding
//! the frame to transmit; `data_sent` turns it into a receive handle; feeding
//! received bytes yields the command's outcome. The handles own the
//! controller while the exchange runs, so only one command can be in flight
//! at a time; completion or abandonment hands the controller back.

use vstd::prelude::*;
use crate::buffer::{buffer_write_spec, Buffer};
use crate::parser::{
    parse_read_response, parse_read_response_spec, parse_write_response,
    parse_write_response_spec, read_frame_spec, spv_body_spec, write_frame_spec, ResponseToken,
};
use crate::types::{Address, Parameter, Value};
use crate::{ACK, BS, ENQ, EOT, NAK, STX};

verus! {

/// Error type for the X3.28 bus controller.
#[derive(Debug, Copy, Clone, PartialEq, Eq, Structural)]
pub enum Error {
    /// The node responded `EOT` to a command, indicating that the sent
    /// `Parameter` doesn't exist on the node.
    InvalidParameter,
    /// `NAK` response from the node, indicating that the command couldn't be
    /// processed successfully.
    CommandFailed,
    /// Invalid data received from the node, or some other protocol failure.
    ProtocolError,
}

/// The short-form byte for a consecutive read, when the previous successful
/// read context allows one: same node, and a parameter one below, equal to,
/// or one above the previous one.
pub open spec fn short_form_spec(
    ra: Option<(Address, Parameter)>,
    address: Address,
    parameter: Parameter,
) -> Option<u8> {
    match ra {
        Some((old_addr, old_param)) => {
            if old_addr == address {
                if parameter.0 == old_param.0 {
                    Some(NAK)
                } else if parameter.0 == old_param.0 + 1 {
                    Some(ACK)
                } else if parameter.0 == old_param.0 - 1 {
                    Some(BS)
                } else {
                    None
                }
            } else {
                None
            }
        },
        None => None,
    }
}

/// The controller's reading of a write response token: `ACK` is success,
/// `NAK` a failed command, `EOT` an invalid parameter, anything else a
/// protocol error; an incomplete response is no decision yet.
pub open spec fn write_response_result(tok: ResponseToken) -> Option<Result<(), Error>> {
    match tok {
        ResponseToken::NeedData => None,
        ResponseToken::WriteOk => Some(Ok(())),
        ResponseToken::WriteFailed => Some(Err(Error::CommandFailed)),
        ResponseToken::InvalidParameter => Some(Err(Error::InvalidParameter)),
        _ => Some(Err(Error::ProtocolError)),
    }
}

/// The controller's reading of a read response token, in the context of the
/// requested parameter: a well-formed frame for that parameter yields its
/// value; `EOT` an invalid parameter; a parameter mismatch or malformed
/// input a protocol error; an incomplete response is no decision yet.
pub open spec fn read_response_result(tok: ResponseToken, parameter: Parameter) -> Option<
    Result<Value, Error>,
> {
    match tok {
        ResponseToken::NeedData => None,
        ResponseToken::ReadOk { parameter: p2, value } => {
            if p2 == parameter {
                Some(Ok(value))
            } else {
                Some(Err(Error::ProtocolError))
            }
        },
        ResponseToken::InvalidParameter => Some(Err(Error::InvalidParameter)),
        _ => Some(Err(Error::ProtocolError)),
    }
}

/// X3.28 bus controller.
pub struct Master {
    read_again: Option<(Address, Parameter)>,
}

impl Master {
    /// The last successful read context, which a following
    /// `read_parameter_again` may shorten into a one-byte command.
    pub closed spec fn read_again_spec(self) -> Option<(Address, Parameter)> {
        self.read_again
    }

    pub open spec fn wf(self) -> bool {
        match self.read_again_spec() {
            Some((a, p)) => a.wf() && p.wf(),
            None => true,
        }
    }

    /// Create a new instance of the X3.28 bus controller protocol.
    pub fn new() -> (m: Master)
        ensures
            m.read_again_spec() is None,
            m.wf(),
    {
        Master { read_again: None }
    }

    /// Initiate a write command to a node. The returned handle holds the
    /// frame to transmit and owns the controller until the exchange ends.
    pub fn write_parameter(self, address: Address, parameter: Parameter, value: Value) -> (h:
        WriteCmd)
        requires
            address.wf(),
            parameter.wf(),
            value.wf(),
        ensures
            h.data_spec() == write_frame_spec(address, parameter, value),
            h.master_ra() is None,
    {
        let mut data: Vec<u8> = Vec::new();
        data.push(EOT);
        let mut ab = address.to_bytes();
        data.append(&mut ab);
        data.push(STX);
        let mut body = parameter.to_bytes();
        let mut vb = value.to_bytes();
        body.append(&mut vb);
        body.push(crate::ETX);
        proof {
            assert(body@ =~= spv_body_spec(parameter, value));
        }
        let check = crate::bcc(body.as_slice());
        data.append(&mut body);
        data.push(check);
        proof {
            assert(data@ =~= write_frame_spec(address, parameter, value));
        }
        WriteCmd { master: Master { read_again: None }, data }
    }

    /// Initiate a read command to a node, always in the long form; any prior
    /// read-again context is cleared.
    pub fn read_parameter(self, address: Address, parameter: Parameter) -> (h: ReadCmd)
        requires
            address.wf(),
            parameter.wf(),
        ensures
            h.data_spec() == read_frame_spec(address, parameter),
            h.param_spec() == parameter,
            h.ra_addr() is None,
            h.master_ra() is None,
            h.wf(),
    {
        let data = read_frame_bytes(address, parameter);
        ReadCmd {
            master: Master { read_again: None },
            data,
            parameter,
            read_again: None,
        }
    }

    /// Initiate a read command to a node, using the abbreviated one-byte
    /// form when the previous successful read allows it. On success the
    /// read-again context becomes `(address, parameter)`.
    pub fn read_parameter_again(self, address: Address, parameter: Parameter) -> (h: ReadCmd)
        requires
            address.wf(),
            parameter.wf(),
            self.wf(),
        ensures
            h.data_spec() == (match short_form_spec(self.read_again_spec(), address, parameter) {
                Some(b) => seq![b],
                None => read_frame_spec(address, parameter),
            }),
            h.param_spec() == parameter,
            h.ra_addr() == Some(address),
            h.master_ra() is None,
            h.wf(),
    {
        let mut this = self;
        let short = this.try_read_again(address, parameter);
        let data = match short {
            Some(b) => {
                let mut d: Vec<u8> = Vec::new();
                d.push(b);
                proof {
                    assert(d@ =~= seq![b]);
                }
                d
            },
            None => read_frame_bytes(address, parameter),
        };
        ReadCmd { master: this, data, parameter, read_again: Some(address) }
    }

    /// Decide whether the short "read-again" command form applies, consuming
    /// the stored context.
    pub fn try_read_again(&mut self, address: Address, parameter: Parameter) -> (r: Option<u8>)
        requires
            old(self).wf(),
            parameter.wf(),
        ensures
            r == short_form_spec(old(self).read_again_spec(), address, parameter),
            final(self).read_again_spec() is None,
    {
        let taken = self.read_again.take();
        match taken {
            None => None,
            Some((old_addr, old_param)) => {
                if old_addr.0 == address.0 {
                    if parameter.0 == old_param.0 {
                        Some(NAK)
                    } else if parameter.0 == old_param.0 + 1 {
                        Some(ACK)
                    } else if parameter.0 == old_param.0 - 1 {
                        Some(BS)
                    } else {
                        None
                    }
                } else {
                    None
                }
            },
        }
    }
}

/// The long-form read frame `EOT | A A A A | P P P P | ENQ`.
fn read_frame_bytes(address: Address, parameter: Parameter) -> (r: Vec<u8>)
    requires
        address.wf(),
        parameter.wf(),
    ensures
        r@ == read_frame_spec(address, parameter),
{
    let mut data: Vec<u8> = Vec::new();
    data.push(EOT);
    let mut ab = address.to_bytes();
    data.append(&mut ab);
    let mut pb = parameter.to_bytes();
    data.append(&mut pb);
    data.push(ENQ);
    proof {
        assert(data@ =~= read_frame_spec(address, parameter));
    }
    data
}

/// An in-flight write command, holding the frame to transmit.
pub struct WriteCmd {
    master: Master,
    data: Vec<u8>,
}

impl WriteCmd {
    /// The frame to transmit.
    pub closed spec fn data_spec(self) -> Seq<u8> {
        self.data@
    }

    pub closed spec fn master_ra(self) -> Option<(Address, Parameter)> {
        self.master.read_again_spec()
    }

    /// The bytes that are to be sent on the bus.
    pub fn get_data(&self) -> (r: &[u8])
        ensures
            r@ == self.data_spec(),
    {
        self.data.as_slice()
    }

    /// Call when the frame has been transmitted; the returned handle
    /// receives the node's response.
    pub fn data_sent(self) -> (h: WriteRecv)
        ensures
            h.master_ra() == self.master_ra(),
    {
        WriteRecv { master: self.master }
    }

    /// Abandon the exchange and return the controller to idle.
    pub fn abort(self) -> (m: Master)
        ensures
            m.read_again_spec() == self.master_ra(),
    {
        self.master
    }
}

/// Awaits a node's response to a write command.
pub struct WriteRecv {
    master: Master,
}

impl WriteRecv {
    pub closed spec fn master_ra(self) -> Option<(Address, Parameter)> {
        self.master.read_again_spec()
    }

    /// Parse the node's one-byte response: `ACK` is success, `NAK` a failed
    /// command, `EOT` an invalid parameter, anything else a protocol error;
    /// an empty read asks for more data.
    pub fn receive_data(&mut self, data: &[u8]) -> (r: Option<Result<(), Error>>)
        ensures
            final(self).master_ra() == old(self).master_ra(),
            r == (match parse_write_response_spec(data@) {
                ResponseToken::NeedData => None::<Result<(), Error>>,
                ResponseToken::WriteOk => Some(Ok::<(), Error>(())),
                ResponseToken::WriteFailed => Some(Err::<(), Error>(Error::CommandFailed)),
                ResponseToken::InvalidParameter => Some(
                    Err::<(), Error>(Error::InvalidParameter),
                ),
                _ => Some(Err::<(), Error>(Error::ProtocolError)),
            }),
    {
        match parse_write_response(data) {
            ResponseToken::NeedData => None,
            ResponseToken::WriteOk => Some(Ok(())),
            ResponseToken::WriteFailed => Some(Err(Error::CommandFailed)),
            ResponseToken::InvalidParameter => Some(Err(Error::InvalidParameter)),
            _ => Some(Err(Error::ProtocolError)),
        }
    }

    /// Finish the exchange and hand the controller back.
    pub fn finish(self) -> (m: Master)
        ensures
            m.read_again_spec() == self.master_ra(),
    {
        self.master
    }
}

/// An in-flight read command, holding the frame to transmit.
pub struct ReadCmd {
    master: Master,
    data: Vec<u8>,
    parameter: Parameter,
    read_again: Option<Address>,
}

impl ReadCmd {
    /// The frame to transmit.
    pub closed spec fn data_spec(self) -> Seq<u8> {
        self.data@
    }

    pub closed spec fn param_spec(self) -> Parameter {
        self.parameter
    }

    pub closed spec fn ra_addr(self) -> Option<Address> {
        self.read_again
    }

    pub closed spec fn master_ra(self) -> Option<(Address, Parameter)> {
        self.master.read_again_spec()
    }

    pub open spec fn wf(self) -> bool {
        self.param_spec().wf() && (match self.ra_addr() {
            Some(a) => a.wf(),
            None => true,
        }) && (match self.master_ra() {
            Some((a, p)) => a.wf() && p.wf(),
            None => true,
        })
    }

    /// The bytes that are to be sent on the bus.
    pub fn get_data(&self) -> (r: &[u8])
        ensures
            r@ == self.data_spec(),
    {
        self.data.as_slice()
    }

    /// Call when the frame has been transmitted; the returned handle
    /// receives the node's response.
    pub fn data_sent(self) -> (h: ReadRecv)
        ensures
            h.master_ra() == self.master_ra(),
            h.param_spec() == self.param_spec(),
            h.ra_addr() == self.ra_addr(),
            h.buf_all() == Seq::<u8>::empty(),
            h.buf_pos() == 0,
            self.wf() ==> h.wf(),
    {
        ReadRecv {
            master: self.master,
            buffer: Buffer::new(),
            parameter: self.parameter,
            read_again: self.read_again,
        }
    }

    /// Abandon the exchange and return the controller to idle.
    pub fn abort(self) -> (m: Master)
        ensures
            m.read_again_spec() == self.master_ra(),
    {
        self.master
    }
}

/// Awaits and accumulates a node's response to a read command.
pub struct ReadRecv {
    master: Master,
    buffer: Buffer,
    parameter: Parameter,
    read_again: Option<Address>,
}

impl ReadRecv {
    pub closed spec fn param_spec(self) -> Parameter {
        self.parameter
    }

    pub closed spec fn ra_addr(self) -> Option<Address> {
        self.read_again
    }

    pub closed spec fn master_ra(self) -> Option<(Address, Parameter)> {
        self.master.read_again_spec()
    }

    pub closed spec fn buf_all(self) -> Seq<u8> {
        self.buffer.all_bytes()
    }

    pub closed spec fn buf_pos(self) -> int {
        self.buffer.pos()
    }

    pub open spec fn wf(self) -> bool {
        self.param_spec().wf() && 0 <= self.buf_pos() <= self.buf_all().len() <= 40 && (
        match self.ra_addr() {
            Some(a) => a.wf(),
            None => true,
        }) && (match self.master_ra() {
            Some((a, p)) => a.wf() && p.wf(),
            None => true,
        })
    }

    /// Accumulate received bytes and try to parse them as a read response.
    /// A well-formed frame whose parameter matches the request yields its
    /// value and establishes the read-again context; `EOT` means the
    /// parameter is invalid on the node; a parameter mismatch, a bad BCC or
    /// other malformed input is a protocol error.
    pub fn receive_data(&mut self, data: &[u8]) -> (r: Option<Result<Value, Error>>)
        requires
            old(self).wf(),
        ensures
            final(self).wf(),
            final(self).param_spec() == old(self).param_spec(),
            final(self).ra_addr() == old(self).ra_addr(),
            ({
                let w = buffer_write_spec(old(self).buf_all(), old(self).buf_pos(), data@);
                let vis = w.0.skip(w.1);
                final(self).buf_all() == w.0 && final(self).buf_pos() == w.1
                    && match parse_read_response_spec(vis) {
                    ResponseToken::NeedData => r is None && final(self).master_ra() == old(self).master_ra(),
                    ResponseToken::ReadOk { parameter, value } => {
                        if parameter == old(self).param_spec() {
                            r == Some(Ok::<Value, Error>(value)) && final(self).master_ra() == (
                            match old(self).ra_addr() {
                                Some(a) => Some((a, old(self).param_spec())),
                                None => None::<(Address, Parameter)>,
                            })
                        } else {
                            r == Some(Err::<Value, Error>(Error::ProtocolError)) && final(self).master_ra() == old(self).master_ra()
                        }
                    },
                    ResponseToken::InvalidParameter => r == Some(
                        Err::<Value, Error>(Error::InvalidParameter),
                    ) && final(self).master_ra() == old(self).master_ra(),
                    _ => r == Some(Err::<Value, Error>(Error::ProtocolError)) && final(self).master_ra() == old(self).master_ra(),
                }
            }),
    {
        self.buffer.write(data);
        match parse_read_response(self.buffer.as_ref()) {
            ResponseToken::NeedData => None,
            ResponseToken::ReadOk { parameter, value } => {
                if parameter.0 == self.parameter.0 {
                    proof {
                        assert(parameter == old(self).param_spec());
                    }
                    self.master.read_again = match self.read_again {
                        Some(a) => Some((a, self.parameter)),
                        None => None,
                    };
                    Some(Ok(value))
                } else {
                    proof {
                        assert(parameter != old(self).param_spec());
                    }
                    Some(Err(Error::ProtocolError))
                }
            },
            ResponseToken::InvalidParameter => Some(Err(Error::InvalidParameter)),
            _ => Some(Err(Error::ProtocolError)),
        }
    }

    /// Finish the exchange and hand the controller back.
    pub fn finish(self) -> (m: Master)
        ensures
            m.read_again_spec() == self.master_ra(),
            (match self.master_ra() {
                Some((a, p)) => a.wf() && p.wf(),
                None => true,
            }) ==> m.wf(),
    {
        self.master
    }
}

} // verus!
