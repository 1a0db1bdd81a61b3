//! Streaming recognizers for the X3.28 wire format.
//!
//! The parsers never fail: insufficient input yields a `NeedData` token and
//! malformed input a malformed-token variant. Node-side command parsing
//! recovers from noise and partial frames by discarding everything before the
//! last `EOT` in the buffer.

use vstd::prelude::*;
use vstd::slice::slice_subrange;
use crate::types::{
    addr_bytes_spec, all_digits, digits_val, is_digit, lemma_dec_digits_shape,
    lemma_dec_digits_val, lemma_pow10_pos, lemma_value_round_trip, param_bytes_spec, pow10,
    valid_value_field, value_bytes_spec, value_field_val, value_from_int, Address, Parameter,
    Value,
};
use crate::{bcc, bcc_spec, lemma_bcc_printable, ACK, BS, ENQ, EOT, ETX, NAK, STX};

verus! {

/// Node-to-controller response tokens, as seen by the controller.
#[derive(Debug, Copy, Clone, PartialEq)]
pub enum ResponseToken {
    /// `ACK`: the write was accepted.
    WriteOk,
    /// `NAK`: the write or read was refused.
    WriteFailed,
    /// `EOT`: the parameter does not exist on the node.
    InvalidParameter,
    /// A well-formed read response frame.
    ReadOk { parameter: Parameter, value: Value },
    /// The input is a proper prefix of a valid response.
    NeedData,
    /// The input cannot be a valid response.
    InvalidDataReceived,
}

/// Controller-to-node command tokens, as seen by a node.
#[derive(Debug, Copy, Clone, PartialEq)]
pub enum CommandToken {
    /// A full write command frame.
    WriteParameter(Address, Parameter, Value),
    /// A full read command frame.
    ReadParameter(Address, Parameter),
    /// `NAK`: read the same parameter again.
    ReadAgain,
    /// `ACK`: read the next higher parameter.
    ReadNext,
    /// `BS`: read the next lower parameter.
    ReadPrevious,
    /// A frame addressed by a valid `EOT` + address whose payload is garbled.
    InvalidPayload(Address),
    /// No complete command is available yet.
    NeedData,
}

/// A byte of the value-field alphabet: a digit or a sign.
pub open spec fn is_value_char(b: u8) -> bool {
    is_digit(b) || b == 0x2b || b == 0x2d
}

/// The length of the run of value-alphabet bytes starting at `i`, capped at
/// `cap`.
pub open spec fn value_run_from(s: Seq<u8>, i: int, cap: int) -> int
    decreases cap,
{
    if cap <= 0 || i < 0 || i >= s.len() || !is_value_char(s[i]) {
        0
    } else {
        1 + value_run_from(s, i + 1, cap - 1)
    }
}

/// The index of the last `EOT` in `s`, or -1 when there is none.
pub open spec fn last_eot_idx(s: Seq<u8>) -> int
    decreases s.len(),
{
    if s.len() == 0 {
        -1
    } else if s.last() == EOT {
        s.len() - 1
    } else {
        last_eot_idx(s.drop_last())
    }
}

/// Outcome of a streaming sub-parse: more input needed, definitely
/// malformed, or done having used `used` bytes.
#[derive(Debug, Copy, Clone, PartialEq)]
pub enum AddrParse {
    Incomplete,
    Error,
    Done { address: Address },
}

/// The doubled-digit address field at `s[i..i+4]`, streaming: a non-digit in
/// the available window is an error; running out of input while all bytes so
/// far are digits asks for more; four digits must be doubled pairwise.
pub open spec fn parse_addr_spec(s: Seq<u8>, i: int) -> AddrParse {
    if exists|j: int| i <= j < i + 4 && j < s.len() && !is_digit(#[trigger] s[j]) {
        AddrParse::Error
    } else if s.len() < i + 4 {
        AddrParse::Incomplete
    } else if s[i] == s[i + 1] && s[i + 2] == s[i + 3] {
        AddrParse::Done { address: Address((10 * (s[i + 1] - 0x30) + (s[i + 2] - 0x30)) as u8) }
    } else {
        AddrParse::Error
    }
}

/// Outcome of parsing the `STX param value ETX BCC` payload.
#[derive(Debug, Copy, Clone, PartialEq)]
pub enum SpvParse {
    Incomplete,
    Error,
    Done { used: usize, parameter: Parameter, value: Value },
}

/// The `STX | P P P P | V..V | ETX | BCC` payload starting at `s[i]`,
/// streaming. The BCC covers the parameter, the value and the `ETX`.
pub open spec fn parse_spv_spec(s: Seq<u8>, i: int) -> SpvParse {
    if i >= s.len() {
        SpvParse::Incomplete
    } else if s[i] != STX {
        SpvParse::Error
    } else if exists|j: int| i + 1 <= j < i + 5 && j < s.len() && !is_digit(#[trigger] s[j]) {
        SpvParse::Error
    } else if s.len() < i + 5 {
        SpvParse::Incomplete
    } else {
        let p = digits_val(s.subrange(i + 1, i + 5));
        let k = value_run_from(s, i + 5, 6);
        let e = i + 5 + k;  // position of the ETX terminator
        if e >= s.len() {
            SpvParse::Incomplete
        } else if k == 0 || s[e] != ETX {
            SpvParse::Error
        } else if !valid_value_field(s.subrange(i + 5, e)) {
            SpvParse::Error
        } else if e + 1 >= s.len() {
            SpvParse::Incomplete
        } else if s[e + 1] != bcc_spec(s.subrange(i + 1, e + 1)) {
            SpvParse::Error
        } else {
            SpvParse::Done {
                used: (7 + k) as usize,
                parameter: Parameter(p as i16),
                value: value_from_int(value_field_val(s.subrange(i + 5, e))),
            }
        }
    }
}

/// A command parse attempt on the tail of the buffer that starts at its last
/// `EOT`: the pair of bytes used (relative to the tail) and the token. A
/// garbled payload behind a valid address resolves to `InvalidPayload` and
/// uses the whole tail; garbage behind the `EOT` that is not even an address
/// is discarded silently.
pub open spec fn parse_at_eot_spec(t: Seq<u8>) -> (int, CommandToken) {
    match parse_addr_spec(t, 1) {
        AddrParse::Incomplete => (0, CommandToken::NeedData),
        AddrParse::Error => (t.len() as int, CommandToken::NeedData),
        AddrParse::Done { address } => {
            if t.len() <= 5 {
                (0, CommandToken::NeedData)
            } else if t[5] == STX {
                match parse_spv_spec(t, 5) {
                    SpvParse::Incomplete => (0, CommandToken::NeedData),
                    SpvParse::Error => (t.len() as int, CommandToken::InvalidPayload(address)),
                    SpvParse::Done { used, parameter, value } => (
                        5 + used as int,
                        CommandToken::WriteParameter(address, parameter, value),
                    ),
                }
            } else {
                // read command: four parameter digits then ENQ
                if exists|j: int| 5 <= j < 9 && j < t.len() && !is_digit(#[trigger] t[j]) {
                    (t.len() as int, CommandToken::InvalidPayload(address))
                } else if t.len() < 10 {
                    (0, CommandToken::NeedData)
                } else if t[9] == ENQ {
                    (
                        10,
                        CommandToken::ReadParameter(
                            address,
                            Parameter(digits_val(t.subrange(5, 9)) as i16),
                        ),
                    )
                } else {
                    (t.len() as int, CommandToken::InvalidPayload(address))
                }
            }
        },
    }
}

/// The command parse of a whole buffer: short-form bytes are recognised at
/// the buffer head; otherwise everything before the last `EOT` is noise, and
/// the tail from that `EOT` is parsed. With no `EOT` at all the whole buffer
/// is discarded. The pair is (bytes consumed, token).
pub open spec fn parse_command_spec(s: Seq<u8>) -> (int, CommandToken) {
    if s.len() > 0 && s[0] == ACK {
        (1, CommandToken::ReadNext)
    } else if s.len() > 0 && s[0] == NAK {
        (1, CommandToken::ReadAgain)
    } else if s.len() > 0 && s[0] == BS {
        (1, CommandToken::ReadPrevious)
    } else {
        let e = last_eot_idx(s);
        if e < 0 {
            (s.len() as int, CommandToken::NeedData)
        } else {
            let (used, tok) = parse_at_eot_spec(s.skip(e));
            (e + used, tok)
        }
    }
}

/// The controller-side parse of a write response: exactly one byte, `ACK`,
/// `NAK` or `EOT`; anything longer or different is invalid.
pub open spec fn parse_write_response_spec(s: Seq<u8>) -> ResponseToken {
    if s.len() == 0 {
        ResponseToken::NeedData
    } else if s.len() > 1 {
        ResponseToken::InvalidDataReceived
    } else if s[0] == ACK {
        ResponseToken::WriteOk
    } else if s[0] == NAK {
        ResponseToken::WriteFailed
    } else if s[0] == EOT {
        ResponseToken::InvalidParameter
    } else {
        ResponseToken::InvalidDataReceived
    }
}

/// The controller-side parse of a read response: a single `EOT`, or a full
/// `STX param value ETX BCC` frame using the whole buffer.
pub open spec fn parse_read_response_spec(s: Seq<u8>) -> ResponseToken {
    if s.len() == 0 {
        ResponseToken::NeedData
    } else if s[0] == EOT {
        if s.len() == 1 {
            ResponseToken::InvalidParameter
        } else {
            ResponseToken::InvalidDataReceived
        }
    } else {
        match parse_spv_spec(s, 0) {
            SpvParse::Incomplete => ResponseToken::NeedData,
            SpvParse::Error => ResponseToken::InvalidDataReceived,
            SpvParse::Done { used, parameter, value } => {
                if used == s.len() {
                    ResponseToken::ReadOk { parameter, value }
                } else {
                    ResponseToken::InvalidDataReceived
                }
            },
        }
    }
}

proof fn lemma_value_run_from_bounds(s: Seq<u8>, i: int, cap: int)
    ensures
        0 <= value_run_from(s, i, cap),
        cap >= 0 ==> value_run_from(s, i, cap) <= cap,
    decreases cap,
{
    if !(cap <= 0 || i < 0 || i >= s.len() || !is_value_char(s[i])) {
        lemma_value_run_from_bounds(s, i + 1, cap - 1);
    }
}

/// A run length is pinned down by its three properties: every byte in it is
/// a value char, and it stops at the cap, the end of input, or a non-value
/// byte.
proof fn lemma_value_run_from_eq(s: Seq<u8>, i: int, cap: int, k: int)
    requires
        0 <= k <= cap,
        i >= 0,
        i + k <= s.len(),
        forall|j: int| i <= j < i + k ==> is_value_char(#[trigger] s[j]),
        k < cap ==> i + k >= s.len() || !is_value_char(s[i + k]),
    ensures
        value_run_from(s, i, cap) == k,
    decreases cap,
{
    if cap <= 0 {
    } else if i >= s.len() || !is_value_char(s[i]) {
        if k > 0 {
            assert(is_value_char(s[i]));
        }
    } else {
        assert(k >= 1);
        assert forall|j: int| i + 1 <= j < i + k implies is_value_char(#[trigger] s[j]) by {
            assert(i <= j < i + k);
        }
        lemma_value_run_from_eq(s, i + 1, cap - 1, k - 1);
    }
}

/// A digit string of length `w` denotes a number below `10^w`.
pub proof fn lemma_digits_val_bound(s: Seq<u8>)
    requires
        all_digits(s),
    ensures
        0 <= digits_val(s) < pow10(s.len() as int),
    decreases s.len(),
{
    if s.len() == 0 {
    } else {
        assert(all_digits(s.drop_last()));
        lemma_digits_val_bound(s.drop_last());
        let a = digits_val(s.drop_last());
        assert(a * 10 + 9 < 10 * pow10(s.len() - 1)) by (nonlinear_arith)
            requires
                0 <= a < pow10(s.len() - 1),
        ;
    }
}

/// The closed form of a four-digit field.
proof fn lemma_digits_val_4(d: Seq<u8>)
    requires
        d.len() == 4,
        all_digits(d),
    ensures
        digits_val(d) == 1000 * (d[0] - 0x30) + 100 * (d[1] - 0x30) + 10 * (d[2] - 0x30) + (
        d[3] - 0x30),
        0 <= digits_val(d) <= 9999,
{
    let d3 = d.drop_last();
    let d2 = d3.drop_last();
    let d1 = d2.drop_last();
    let d0 = d1.drop_last();
    assert(d0.len() == 0);
    assert(digits_val(d1) == digits_val(d0) * 10 + (d1.last() - 0x30));
    assert(digits_val(d2) == digits_val(d1) * 10 + (d2.last() - 0x30));
    assert(digits_val(d3) == digits_val(d2) * 10 + (d3.last() - 0x30));
    assert(digits_val(d) == digits_val(d3) * 10 + (d.last() - 0x30));
    assert(d1.last() == d[0] && d2.last() == d[1] && d3.last() == d[2] && d.last() == d[3]);
}

/// Every valid value field denotes an integer the `Value` type can hold.
pub proof fn lemma_value_field_range(s: Seq<u8>)
    requires
        valid_value_field(s),
    ensures
        -99999 <= value_field_val(s) <= 999999,
{
    assert(pow10(5) == 100000 && pow10(6) == 1000000) by {
        reveal_with_fuel(pow10, 7);
    }
    if s[0] == 0x2b || s[0] == 0x2d {
        let d = s.skip(1);
        assert(all_digits(d));
        lemma_digits_val_bound(d);
        lemma_pow10_mono(d.len() as int, 5);
    } else {
        assert(is_digit(s[0]));
        assert(all_digits(s));
        lemma_digits_val_bound(s);
        lemma_pow10_mono(s.len() as int, 6);
    }
}

proof fn lemma_pow10_mono(a: int, b: int)
    requires
        a <= b,
    ensures
        pow10(a) <= pow10(b),
    decreases b,
{
    if a < b && b > 0 {
        lemma_pow10_mono(a, b - 1);
        lemma_pow10_pos(b - 1);
    }
}

fn is_digit_exec(b: u8) -> (r: bool)
    ensures
        r == is_digit(b),
{
    0x30 <= b && b <= 0x39
}

fn is_value_char_exec(b: u8) -> (r: bool)
    ensures
        r == is_value_char(b),
{
    (0x30 <= b && b <= 0x39) || b == 0x2b || b == 0x2d
}

/// The index of the last `EOT` in the buffer, if any.
fn find_last_eot(buf: &[u8]) -> (r: Option<usize>)
    ensures
        match r {
            Some(e) => e as int == last_eot_idx(buf@) && e < buf@.len(),
            None => last_eot_idx(buf@) == -1,
        },
{
    let mut i: usize = buf.len();
    proof {
        assert(buf@.subrange(0, buf@.len() as int) =~= buf@);
    }
    while i > 0
        invariant
            0 <= i <= buf@.len(),
            last_eot_idx(buf@) == last_eot_idx(buf@.subrange(0, i as int)),
        decreases i,
    {
        proof {
            assert(buf@.subrange(0, i as int).drop_last() =~= buf@.subrange(0, i - 1));
            assert(buf@.subrange(0, i as int).last() == buf@[i - 1]);
        }
        if buf[i - 1] == EOT {
            return Some(i - 1);
        }
        i = i - 1;
    }
    proof {
        assert(buf@.subrange(0, 0) =~= Seq::<u8>::empty());
    }
    None
}

/// The doubled-digit address field at `buf[i..i+4]`.
pub fn parse_addr(buf: &[u8], i: usize) -> (r: AddrParse)
    ensures
        r == parse_addr_spec(buf@, i as int),
{
    let mut j: usize = 0;
    while j < 4
        invariant
            0 <= j <= 4,
            j > 0 ==> i + j <= buf@.len(),
            forall|t: int| i <= t < i + j ==> is_digit(#[trigger] buf@[t]),
        decreases 4 - j,
    {
        if i >= buf.len() || buf.len() - i <= j {
            return AddrParse::Incomplete;
        }
        if !is_digit_exec(buf[i + j]) {
            return AddrParse::Error;
        }
        j = j + 1;
    }
    proof {
        assert(is_digit(buf@[i as int]) && is_digit(buf@[i + 1]) && is_digit(buf@[i + 2])
            && is_digit(buf@[i + 3]));
    }
    let a = buf[i];
    let b = buf[i + 1];
    let c = buf[i + 2];
    let d = buf[i + 3];
    if a == b && c == d {
        AddrParse::Done { address: Address(10 * (b - 0x30) + (c - 0x30)) }
    } else {
        AddrParse::Error
    }
}

/// The `STX param value ETX BCC` payload starting at `buf[i]`.
#[verifier::rlimit(100)]
fn parse_spv(buf: &[u8], i: usize) -> (r: SpvParse)
    ensures
        r == parse_spv_spec(buf@, i as int),
        r matches SpvParse::Done { used, parameter, value } ==> i + used <= buf@.len()
            && parameter.wf() && value.wf(),
{
    if i >= buf.len() {
        return SpvParse::Incomplete;
    }
    if buf[i] != STX {
        return SpvParse::Error;
    }
    // four parameter digits
    let mut j: usize = 1;
    while j < 5
        invariant
            1 <= j <= 5,
            i + j <= buf@.len(),
            forall|t: int| i + 1 <= t < i + j ==> is_digit(#[trigger] buf@[t]),
        decreases 5 - j,
    {
        if buf.len() - i <= j {
            return SpvParse::Incomplete;
        }
        if !is_digit_exec(buf[i + j]) {
            return SpvParse::Error;
        }
        j = j + 1;
    }
    proof {
        assert(is_digit(buf@[i + 1]) && is_digit(buf@[i + 2]) && is_digit(buf@[i + 3]) && is_digit(
            buf@[i + 4],
        ));
    }
    let p: u16 = 1000 * (buf[i + 1] - 0x30) as u16 + 100 * (buf[i + 2] - 0x30) as u16 + 10 * (buf[i
        + 3] - 0x30) as u16 + (buf[i + 4] - 0x30) as u16;
    proof {
        let d = buf@.subrange(i + 1, i + 5);
        assert(all_digits(d));
        lemma_digits_val_4(d);
        assert(d[0] == buf@[i + 1] && d[1] == buf@[i + 2] && d[2] == buf@[i + 3] && d[3] == buf@[i
            + 4]);
    }
    // the run of value-alphabet bytes, at most six long
    let mut k: usize = 0;
    let mut stopped = false;
    while k < 6 && !stopped
        invariant
            0 <= k <= 6,
            i + 5 + k <= buf@.len(),
            forall|t: int| i + 5 <= t < i + 5 + k ==> is_value_char(#[trigger] buf@[t]),
            stopped ==> (i + 5 + k >= buf@.len() || !is_value_char(buf@[i + 5 + k])),
        decreases 6 - k, (if stopped { 0int } else { 1int }),
    {
        if buf.len() - i <= 5 + k {
            stopped = true;
        } else if !is_value_char_exec(buf[i + 5 + k]) {
            stopped = true;
        } else {
            k = k + 1;
        }
    }
    proof {
        lemma_value_run_from_eq(buf@, i + 5, 6, k as int);
    }
    if buf.len() - i <= 5 + k {
        return SpvParse::Incomplete;
    }
    if k == 0 {
        return SpvParse::Error;
    }
    let e = i + 5 + k;
    if buf[e] != ETX {
        return SpvParse::Error;
    }
    // the value field must be an optional sign followed by digits
    let ghost vf = buf@.subrange(i + 5, e as int);
    let first = buf[i + 5];
    let has_sign = first == 0x2b || first == 0x2d;
    if has_sign && k < 2 {
        proof {
            assert(!valid_value_field(vf));
        }
        return SpvParse::Error;
    }
    let dstart = if has_sign {
        i + 6
    } else {
        i + 5
    };
    let mut m: usize = dstart;
    while m < e
        invariant
            dstart <= m <= e,
            i + 5 <= dstart <= i + 6,
            dstart <= e < buf@.len(),
            forall|t: int| dstart <= t < m ==> is_digit(#[trigger] buf@[t]),
        decreases e - m,
    {
        if !is_digit_exec(buf[m]) {
            proof {
                let vfl = buf@.subrange(i + 5, e as int);
                assert(vfl[m - (i + 5)] == buf@[m as int]);
                if m > i + 5 {
                    assert(vfl.skip(1)[m - (i + 6)] == buf@[m as int]);
                    assert(!all_digits(vfl.skip(1)));
                } else {
                    assert(!is_digit(vfl[0]));
                    assert(!(vfl[0] == 0x2b || vfl[0] == 0x2d)) by {
                        assert(buf@[i + 5] == vfl[0]);
                    }
                }
                assert(!all_digits(vfl));
                assert(!valid_value_field(vfl));
            }
            return SpvParse::Error;
        }
        m = m + 1;
    }
    proof {
        if has_sign {
            assert(vf.skip(1) =~= buf@.subrange(dstart as int, e as int));
            assert(all_digits(vf.skip(1)));
            assert(valid_value_field(vf));
        } else {
            assert(vf =~= buf@.subrange(dstart as int, e as int));
            assert(all_digits(vf));
            assert(valid_value_field(vf));
        }
    }
    // magnitude of the value
    let mut mag: u32 = 0;
    let mut m2: usize = dstart;
    while m2 < e
        invariant
            dstart <= m2 <= e,
            i + 5 <= dstart <= i + 6,
            dstart <= e < buf@.len(),
            e - dstart <= 6,
            forall|t: int| dstart <= t < e ==> is_digit(#[trigger] buf@[t]),
            mag == digits_val(buf@.subrange(dstart as int, m2 as int)),
            mag < pow10(m2 - dstart),
        decreases e - m2,
    {
        proof {
            let pre = buf@.subrange(dstart as int, m2 as int);
            let post = buf@.subrange(dstart as int, m2 + 1);
            assert(post.drop_last() =~= pre);
            assert(post.last() == buf@[m2 as int]);
            lemma_pow10_mono(m2 - dstart, 5);
            assert(pow10(5) == 100000 && pow10(6) == 1000000) by {
                reveal_with_fuel(pow10, 7);
            }
            assert(mag * 10 + 9 < 10 * pow10(m2 - dstart)) by (nonlinear_arith)
                requires
                    0 <= mag < pow10(m2 - dstart),
            ;
        }
        mag = mag * 10 + (buf[m2] - 0x30) as u32;
        m2 = m2 + 1;
    }
    proof {
        assert(pow10(5) == 100000 && pow10(6) == 1000000) by {
            reveal_with_fuel(pow10, 7);
        }
        if has_sign {
            lemma_pow10_mono(e - dstart, 5);
            assert(mag < 100000);
            assert(vf.skip(1) =~= buf@.subrange(dstart as int, e as int));
        } else {
            lemma_pow10_mono(e - dstart, 6);
            assert(mag < 1000000);
            assert(vf =~= buf@.subrange(dstart as int, e as int));
        }
    }
    let val: i32 = if first == 0x2d {
        -(mag as i32)
    } else {
        mag as i32
    };
    proof {
        assert(val == value_field_val(vf));
        lemma_value_field_range(vf);
    }
    // block check character
    if buf.len() - i <= 6 + k {
        return SpvParse::Incomplete;
    }
    let span = slice_subrange(buf, i + 1, e + 1);
    let expected = bcc(span);
    if buf[e + 1] != expected {
        return SpvParse::Error;
    }
    let fmt = if val < -9999 {
        crate::types::ValueFormat::Wide
    } else {
        crate::types::ValueFormat::Normal
    };
    proof {
        assert(Parameter(p as i16).wf());
        assert(Value(val, fmt).wf());
        assert(Value(val, fmt) == value_from_int(value_field_val(vf)));
    }
    SpvParse::Done { used: 7 + k, parameter: Parameter(p as i16), value: Value(val, fmt) }
}

/// Well-formedness of the data a command token carries.
pub open spec fn command_token_wf(tok: CommandToken) -> bool {
    match tok {
        CommandToken::WriteParameter(a, p, v) => a.wf() && p.wf() && v.wf(),
        CommandToken::ReadParameter(a, p) => a.wf() && p.wf(),
        CommandToken::InvalidPayload(a) => a.wf(),
        _ => true,
    }
}

/// Well-formedness of the data a response token carries.
pub open spec fn response_token_wf(tok: ResponseToken) -> bool {
    match tok {
        ResponseToken::ReadOk { parameter, value } => parameter.wf() && value.wf(),
        _ => true,
    }
}

/// The command parse of the tail that starts at the buffer's last `EOT`.
fn parse_at_eot(t: &[u8]) -> (r: (usize, CommandToken))
    ensures
        r.0 as int == parse_at_eot_spec(t@).0,
        r.1 == parse_at_eot_spec(t@).1,
        r.0 <= t@.len(),
        command_token_wf(r.1),
{
    match parse_addr(t, 1) {
        AddrParse::Incomplete => (0, CommandToken::NeedData),
        AddrParse::Error => (t.len(), CommandToken::NeedData),
        AddrParse::Done { address } => {
            if t.len() <= 5 {
                (0, CommandToken::NeedData)
            } else if t[5] == STX {
                match parse_spv(t, 5) {
                    SpvParse::Incomplete => (0, CommandToken::NeedData),
                    SpvParse::Error => (t.len(), CommandToken::InvalidPayload(address)),
                    SpvParse::Done { used, parameter, value } => (
                        5 + used,
                        CommandToken::WriteParameter(address, parameter, value),
                    ),
                }
            } else {
                // read command: four parameter digits then ENQ
                let mut j: usize = 5;
                while j < 9
                    invariant
                        5 <= j <= 9,
                        j > 5 ==> j <= t@.len(),
                        forall|x: int| 5 <= x < j ==> is_digit(#[trigger] t@[x]),
                    decreases 9 - j,
                {
                    if t.len() <= j {
                        return (0, CommandToken::NeedData);
                    }
                    if !is_digit_exec(t[j]) {
                        return (t.len(), CommandToken::InvalidPayload(address));
                    }
                    j = j + 1;
                }
                proof {
                    assert(is_digit(t@[5]) && is_digit(t@[6]) && is_digit(t@[7]) && is_digit(
                        t@[8],
                    ));
                }
                if t.len() < 10 {
                    return (0, CommandToken::NeedData);
                }
                if t[9] == ENQ {
                    let p: u16 = 1000 * (t[5] - 0x30) as u16 + 100 * (t[6] - 0x30) as u16 + 10 * (
                    t[7] - 0x30) as u16 + (t[8] - 0x30) as u16;
                    proof {
                        let d = t@.subrange(5, 9);
                        assert(all_digits(d));
                        lemma_digits_val_4(d);
                        assert(d[0] == t@[5] && d[1] == t@[6] && d[2] == t@[7] && d[3] == t@[8]);
                    }
                    (10, CommandToken::ReadParameter(address, Parameter(p as i16)))
                } else {
                    (t.len(), CommandToken::InvalidPayload(address))
                }
            }
        },
    }
}

/// Incremental parse of controller-to-node traffic. Returns the number of
/// consumed bytes and the token they denote; zero consumed bytes always come
/// with `NeedData`, and `NeedData` with partially consumed input means noise
/// was discarded.
pub fn parse_command(buf: &[u8]) -> (r: (usize, CommandToken))
    ensures
        r.0 as int == parse_command_spec(buf@).0,
        r.1 == parse_command_spec(buf@).1,
        r.0 <= buf@.len(),
        command_token_wf(r.1),
{
    if buf.len() > 0 {
        let b = buf[0];
        if b == ACK {
            return (1, CommandToken::ReadNext);
        }
        if b == NAK {
            return (1, CommandToken::ReadAgain);
        }
        if b == BS {
            return (1, CommandToken::ReadPrevious);
        }
    }
    match find_last_eot(buf) {
        None => (buf.len(), CommandToken::NeedData),
        Some(e) => {
            let t = slice_subrange(buf, e, buf.len());
            proof {
                assert(t@ =~= buf@.skip(e as int));
            }
            let (u, tok) = parse_at_eot(t);
            (e + u, tok)
        },
    }
}

/// Parse a node's response to a read command.
pub fn parse_read_response(buf: &[u8]) -> (r: ResponseToken)
    ensures
        r == parse_read_response_spec(buf@),
        response_token_wf(r),
{
    if buf.len() == 0 {
        return ResponseToken::NeedData;
    }
    if buf[0] == EOT {
        return if buf.len() == 1 {
            ResponseToken::InvalidParameter
        } else {
            ResponseToken::InvalidDataReceived
        };
    }
    match parse_spv(buf, 0) {
        SpvParse::Incomplete => ResponseToken::NeedData,
        SpvParse::Error => ResponseToken::InvalidDataReceived,
        SpvParse::Done { used, parameter, value } => {
            if used == buf.len() {
                ResponseToken::ReadOk { parameter, value }
            } else {
                ResponseToken::InvalidDataReceived
            }
        },
    }
}

/// Parse a node's response to a write command.
pub fn parse_write_response(buf: &[u8]) -> (r: ResponseToken)
    ensures
        r == parse_write_response_spec(buf@),
{
    if buf.len() == 0 {
        ResponseToken::NeedData
    } else if buf.len() > 1 {
        ResponseToken::InvalidDataReceived
    } else {
        let b = buf[0];
        if b == ACK {
            ResponseToken::WriteOk
        } else if b == NAK {
            ResponseToken::WriteFailed
        } else if b == EOT {
            ResponseToken::InvalidParameter
        } else {
            ResponseToken::InvalidDataReceived
        }
    }
}

/// The BCC-covered body of a write command or read response:
/// `P P P P | V..V | ETX`.
pub open spec fn spv_body_spec(p: Parameter, v: Value) -> Seq<u8> {
    param_bytes_spec(p.0 as int) + value_bytes_spec(v.0 as int, v.1) + seq![ETX]
}

/// The full write command frame:
/// `EOT | A A A A | STX | P P P P | V..V | ETX | BCC`.
pub open spec fn write_frame_spec(a: Address, p: Parameter, v: Value) -> Seq<u8> {
    seq![EOT] + addr_bytes_spec(a.0 as int) + seq![STX] + spv_body_spec(p, v) + seq![
        bcc_spec(spv_body_spec(p, v)),
    ]
}

/// The full read command frame: `EOT | A A A A | P P P P | ENQ`.
pub open spec fn read_frame_spec(a: Address, p: Parameter) -> Seq<u8> {
    seq![EOT] + addr_bytes_spec(a.0 as int) + param_bytes_spec(p.0 as int) + seq![ENQ]
}

/// The full read response frame: `STX | P P P P | V..V | ETX | BCC`.
pub open spec fn read_response_frame_spec(p: Parameter, v: Value) -> Seq<u8> {
    seq![STX] + spv_body_spec(p, v) + seq![bcc_spec(spv_body_spec(p, v))]
}

/// A valid value field consists of value-alphabet bytes only.
proof fn lemma_value_field_chars(s: Seq<u8>)
    requires
        valid_value_field(s),
    ensures
        forall|i: int| 0 <= i < s.len() ==> is_value_char(#[trigger] s[i]),
{
    assert forall|i: int| 0 <= i < s.len() implies is_value_char(#[trigger] s[i]) by {
        if all_digits(s) {
            assert(is_digit(s[i]));
        } else {
            if i >= 1 {
                assert(is_digit(s.skip(1)[i - 1]));
            }
        }
    }
}

/// When a buffer holds `EOT` at `e` and nothing later, `e` is its last `EOT`.
proof fn lemma_last_eot_at(s: Seq<u8>, e: int)
    requires
        0 <= e < s.len(),
        s[e] == EOT,
        forall|i: int| e < i < s.len() ==> #[trigger] s[i] != EOT,
    ensures
        last_eot_idx(s) == e,
    decreases s.len(),
{
    if s.len() - 1 > e {
        assert(s.last() != EOT);
        lemma_last_eot_at(s.drop_last(), e);
    }
}

/// An `STX param value ETX BCC` frame embedded at `i` parses to exactly its
/// parameter and value, whatever follows it.
pub proof fn lemma_parse_spv_frame(s: Seq<u8>, i: int, p: Parameter, v: Value)
    requires
        p.wf(),
        v.wf(),
        0 <= i,
        i + 7 + value_bytes_spec(v.0 as int, v.1).len() <= s.len(),
        (s.subrange(i, i + 7 + value_bytes_spec(v.0 as int, v.1).len()) == seq![STX]
            + spv_body_spec(p, v) + seq![bcc_spec(spv_body_spec(p, v))]),
    ensures
        parse_spv_spec(s, i) == (SpvParse::Done {
            used: (7 + value_bytes_spec(v.0 as int, v.1).len()) as usize,
            parameter: p,
            value: value_from_int(v.0 as int),
        }),
{
    let vb = value_bytes_spec(v.0 as int, v.1);
    let kk = vb.len() as int;
    let body = spv_body_spec(p, v);
    let l = 7 + kk;
    let f = s.subrange(i, i + l);
    lemma_value_round_trip(v);
    assert(1 <= kk <= 6);
    lemma_dec_digits_shape(p.0 as int, 4);
    lemma_value_field_chars(vb);
    // the frame's bytes, position by position
    let g = seq![STX] + body + seq![bcc_spec(body)];
    assert(f == g);
    assert(body.len() == 5 + kk);
    assert(s[i] == f[0] && g[0] == STX);
    assert forall|x: int| 0 <= x < 4 implies s[i + 1 + x] == #[trigger] param_bytes_spec(
        p.0 as int,
    )[x] by {
        assert(s[i + 1 + x] == f[1 + x]);
        assert(g[1 + x] == body[x]);
        assert(body[x] == param_bytes_spec(p.0 as int)[x]);
    }
    assert forall|x: int| 0 <= x < kk implies s[i + 5 + x] == #[trigger] vb[x] by {
        assert(s[i + 5 + x] == f[5 + x]);
        assert(g[5 + x] == body[4 + x]);
        assert(body[4 + x] == vb[x]);
    }
    assert(s[i + 5 + kk] == f[5 + kk] && g[5 + kk] == body[4 + kk] && body[4 + kk] == ETX);
    assert(s[i + 6 + kk] == f[6 + kk] && g[6 + kk] == bcc_spec(body));
    // the four parameter digits
    assert forall|j: int| i + 1 <= j < i + 5 implies is_digit(#[trigger] s[j]) by {
        let x = j - (i + 1);
        assert(s[j] == param_bytes_spec(p.0 as int)[x]);
        assert(is_digit(param_bytes_spec(p.0 as int)[x]));
    }
    assert(s.subrange(i + 1, i + 5) =~= param_bytes_spec(p.0 as int));
    assert(pow10(4) == 10000) by {
        reveal_with_fuel(pow10, 5);
    }
    lemma_dec_digits_val(p.0 as int, 4);
    // the value run stops exactly at the ETX
    assert forall|j: int| i + 5 <= j < i + 5 + kk implies is_value_char(#[trigger] s[j]) by {
        let x = j - (i + 5);
        assert(s[j] == vb[x]);
        assert(is_value_char(vb[x]));
    }
    assert(!is_value_char(ETX));
    lemma_value_run_from_eq(s, i + 5, 6, kk);
    let e = i + 5 + kk;
    assert(s.subrange(i + 5, e) =~= vb);
    assert(s.subrange(i + 1, e + 1) =~= body);
    assert(parse_spv_spec(s, i) == SpvParse::Done {
        used: (7 + kk) as usize,
        parameter: Parameter(p.0),
        value: value_from_int(value_field_val(vb)),
    });
    assert(Parameter(p.0) == p);
}

/// The bytes of a BCC body are 7-bit, so its BCC is printable.
proof fn lemma_spv_body_7bit(p: Parameter, v: Value)
    requires
        p.wf(),
        v.wf(),
    ensures
        forall|i: int|
            0 <= i < spv_body_spec(p, v).len() ==> #[trigger] spv_body_spec(p, v)[i] <= 0x7f,
        0x20 <= bcc_spec(spv_body_spec(p, v)) <= 0x7f,
{
    let body = spv_body_spec(p, v);
    let vb = value_bytes_spec(v.0 as int, v.1);
    lemma_value_round_trip(v);
    lemma_value_field_chars(vb);
    lemma_dec_digits_shape(p.0 as int, 4);
    assert forall|i: int| 0 <= i < body.len() implies #[trigger] body[i] <= 0x7f by {
        if i < 4 {
            assert(body[i] == param_bytes_spec(p.0 as int)[i]);
            assert(is_digit(body[i]));
        } else if i < 4 + vb.len() {
            assert(body[i] == vb[i - 4]);
            assert(is_value_char(body[i]));
        } else {
            assert(body[i] == ETX);
        }
    }
    lemma_bcc_printable(body);
}

/// Write command round trip: the encoded frame for `(a, p, v)` parses back
/// to `WriteParameter(a, p, v)` (with the default format for the value's
/// range), consuming the whole frame.
pub proof fn lemma_write_command_round_trip(a: Address, p: Parameter, v: Value)
    requires
        a.wf(),
        p.wf(),
        v.wf(),
    ensures
        parse_command_spec(write_frame_spec(a, p, v)) == (
            write_frame_spec(a, p, v).len() as int,
            CommandToken::WriteParameter(a, p, value_from_int(v.0 as int)),
        ),
{
    let f = write_frame_spec(a, p, v);
    let body = spv_body_spec(p, v);
    let vb = value_bytes_spec(v.0 as int, v.1);
    let kk = vb.len() as int;
    lemma_value_round_trip(v);
    lemma_value_field_chars(vb);
    lemma_dec_digits_shape(p.0 as int, 4);
    lemma_spv_body_7bit(p, v);
    assert(f.len() == 12 + kk);
    assert(f[0] == EOT);
    assert(f[0] != ACK && f[0] != NAK && f[0] != BS);
    // no EOT after position 0
    assert forall|i: int| 0 < i < f.len() implies #[trigger] f[i] != EOT by {
        if i < 5 {
            assert(f[i] == addr_bytes_spec(a.0 as int)[i - 1]);
            assert(is_digit(f[i]));
        } else if i == 5 {
            assert(f[i] == STX);
        } else if i < 6 + body.len() {
            assert(f[i] == body[i - 6]);
            assert(f[i] <= 0x7f);
            if i - 6 < 4 {
                assert(is_digit(body[i - 6]));
            } else if i - 6 < 4 + kk {
                assert(is_value_char(body[i - 6]));
            } else {
                assert(body[i - 6] == ETX);
            }
        } else {
            assert(f[i] == bcc_spec(body));
            assert(f[i] >= 0x20);
        }
    }
    lemma_last_eot_at(f, 0);
    assert(f.skip(0) =~= f);
    // the address field
    assert(forall|x: int| 0 <= x < 4 ==> f[1 + x] == #[trigger] addr_bytes_spec(a.0 as int)[x]);
    assert(forall|j: int| 1 <= j < 5 ==> is_digit(#[trigger] f[j]));
    assert(f[1] == f[2] && f[3] == f[4]);
    assert(parse_addr_spec(f, 1) == AddrParse::Done {
        address: Address((10 * (f[2] - 0x30) + (f[3] - 0x30)) as u8),
    });
    assert(10 * ((a.0 as int) / 10) + (a.0 as int) % 10 == a.0 as int);
    assert(Address((10 * (f[2] - 0x30) + (f[3] - 0x30)) as u8) == a);
    // the payload
    assert(f[5] == STX);
    assert(f.subrange(5, 5 + 7 + kk) =~= seq![STX] + body + seq![bcc_spec(body)]);
    lemma_parse_spv_frame(f, 5, p, v);
}

/// Read command round trip: the encoded frame for `(a, p)` parses back to
/// `ReadParameter(a, p)`, consuming the whole frame.
pub proof fn lemma_read_command_round_trip(a: Address, p: Parameter)
    requires
        a.wf(),
        p.wf(),
    ensures
        parse_command_spec(read_frame_spec(a, p)) == (
            10int,
            CommandToken::ReadParameter(a, p),
        ),
{
    let f = read_frame_spec(a, p);
    lemma_dec_digits_shape(p.0 as int, 4);
    assert(f.len() == 10);
    assert(f[0] == EOT);
    assert(f[0] != ACK && f[0] != NAK && f[0] != BS);
    assert(forall|x: int| 0 <= x < 4 ==> f[1 + x] == #[trigger] addr_bytes_spec(a.0 as int)[x]);
    assert(forall|x: int| 0 <= x < 4 ==> f[5 + x] == #[trigger] param_bytes_spec(p.0 as int)[x]);
    assert(f[9] == ENQ);
    assert forall|i: int| 0 < i < f.len() implies #[trigger] f[i] != EOT by {
        if i < 5 {
            assert(is_digit(f[i]));
        } else if i < 9 {
            assert(is_digit(f[i]));
        } else {
            assert(f[i] == ENQ);
        }
    }
    lemma_last_eot_at(f, 0);
    assert(f.skip(0) =~= f);
    assert(forall|j: int| 1 <= j < 5 ==> is_digit(#[trigger] f[j]));
    assert(f[1] == f[2] && f[3] == f[4]);
    assert(10 * ((a.0 as int) / 10) + (a.0 as int) % 10 == a.0 as int);
    assert(parse_addr_spec(f, 1) == AddrParse::Done { address: a });
    assert(f[5] != STX);
    assert(forall|j: int| 5 <= j < 9 ==> is_digit(#[trigger] f[j]));
    assert(f.subrange(5, 9) =~= param_bytes_spec(p.0 as int));
    assert(pow10(4) == 10000) by {
        reveal_with_fuel(pow10, 5);
    }
    lemma_dec_digits_val(p.0 as int, 4);
    assert(Parameter(digits_val(f.subrange(5, 9)) as i16) == p);
}

/// Read response round trip: the encoded frame for `(p, v)` parses back to
/// `ReadOk` with the same parameter and the same value integer.
pub proof fn lemma_read_response_round_trip(p: Parameter, v: Value)
    requires
        p.wf(),
        v.wf(),
    ensures
        parse_read_response_spec(read_response_frame_spec(p, v))
            == (ResponseToken::ReadOk { parameter: p, value: value_from_int(v.0 as int) }),
{
    let f = read_response_frame_spec(p, v);
    let vb = value_bytes_spec(v.0 as int, v.1);
    let kk = vb.len() as int;
    lemma_value_round_trip(v);
    lemma_dec_digits_shape(p.0 as int, 4);
    assert(f.len() == 7 + kk);
    assert(f[0] == STX);
    assert(f[0] != EOT);
    assert(f.subrange(0, 7 + kk) =~= f);
    lemma_parse_spv_frame(f, 0, p, v);
}

/// Two equal-length spans differing in exactly one byte have XOR folds
/// differing by exactly that byte pair's XOR.
proof fn lemma_xor_fold_one_diff(t1: Seq<u8>, t2: Seq<u8>, j: int)
    requires
        t1.len() == t2.len(),
        0 <= j < t1.len(),
        forall|x: int| 0 <= x < t1.len() && x != j ==> t1[x] == #[trigger] t2[x],
    ensures
        (crate::xor_fold(t1) ^ crate::xor_fold(t2)) == (t1[j] ^ t2[j]),
    decreases t1.len(),
{
    let a1 = crate::xor_fold(t1.drop_last());
    let a2 = crate::xor_fold(t2.drop_last());
    let l1 = t1.last();
    let l2 = t2.last();
    if j == t1.len() - 1 {
        assert(t1.drop_last() =~= t2.drop_last());
        assert((a1 ^ l1) ^ (a1 ^ l2) == l1 ^ l2) by (bit_vector);
    } else {
        lemma_xor_fold_one_diff(t1.drop_last(), t2.drop_last(), j);
        assert(l1 == l2);
        let d = t1[j] ^ t2[j];
        assert((a1 ^ a2 == d) ==> ((a1 ^ l1) ^ (a2 ^ l1) == d)) by (bit_vector);
    }
}

/// Corrupting one byte of a BCC-covered span by anything other than flipping
/// the 0x20 bit changes the BCC: the clamp maps two XOR folds to the same
/// byte only when they differ by exactly 0x20.
proof fn lemma_bcc_detects_one_diff(t1: Seq<u8>, t2: Seq<u8>, j: int)
    requires
        t1.len() == t2.len(),
        0 <= j < t1.len(),
        forall|x: int| 0 <= x < t1.len() && x != j ==> t1[x] == #[trigger] t2[x],
        t1[j] != t2[j],
        (t1[j] ^ t2[j]) != 0x20,
    ensures
        bcc_spec(t1) != bcc_spec(t2),
{
    lemma_xor_fold_one_diff(t1, t2, j);
    let x = crate::xor_fold(t1);
    let y = crate::xor_fold(t2);
    let u = t1[j];
    let w = t2[j];
    let d = u ^ w;
    assert(d != 0) by {
        assert((u ^ w) == 0 ==> u == w) by (bit_vector);
    }
    assert((if x < 0x20 {
        (x + 0x20) as u8
    } else {
        x
    }) != (if y < 0x20 {
        (y + 0x20) as u8
    } else {
        y
    })) by (bit_vector)
        requires
            (x ^ y) == d,
            d != 0,
            d != 0x20,
    ;
}

/// Two value-alphabet bytes never differ by exactly the 0x20 bit: both have
/// it set.
proof fn lemma_value_chars_xor(a: u8, b: u8)
    requires
        is_value_char(a),
        is_value_char(b),
    ensures
        (a ^ b) != 0x20,
{
    assert((a ^ b) != 0x20) by (bit_vector)
        requires
            (0x30 <= a <= 0x39 || a == 0x2b || a == 0x2d),
            (0x30 <= b <= 0x39 || b == 0x2b || b == 0x2d),
    ;
}

/// A run of `m` value-alphabet bytes gives a run length of at least `m`.
proof fn lemma_value_run_from_at_least(s: Seq<u8>, i: int, cap: int, m: int)
    requires
        0 <= m <= cap,
        0 <= i,
        i + m <= s.len(),
        forall|j: int| i <= j < i + m ==> is_value_char(#[trigger] s[j]),
    ensures
        value_run_from(s, i, cap) >= m,
    decreases m,
{
    lemma_value_run_from_bounds(s, i, cap);
    if m > 0 {
        assert(is_value_char(s[i]));
        assert forall|j: int| i + 1 <= j < i + 1 + (m - 1) implies is_value_char(
            #[trigger] s[j],
        ) by {
            assert(i <= j < i + m);
        }
        lemma_value_run_from_at_least(s, i + 1, cap - 1, m - 1);
        assert(value_run_from(s, i, cap) == 1 + value_run_from(s, i + 1, cap - 1));
    }
}

/// Read response robustness: corrupting any single byte of an encoded read
/// response frame can never be mistaken for a successful read. The parse of
/// the corrupted frame is `NeedData`, `InvalidDataReceived` or
/// `InvalidParameter` - never `ReadOk` - because every corruption either
/// breaks the frame structure or is caught by the BCC.
pub proof fn lemma_read_response_single_corruption(p: Parameter, v: Value, s: Seq<u8>, i: int)
    requires
        p.wf(),
        v.wf(),
        s.len() == read_response_frame_spec(p, v).len(),
        0 <= i < s.len(),
        forall|x: int|
            0 <= x < s.len() && x != i ==> s[x] == #[trigger] read_response_frame_spec(p, v)[x],
        s[i] != read_response_frame_spec(p, v)[i],
    ensures
        parse_read_response_spec(s) is NeedData || parse_read_response_spec(s)
            is InvalidDataReceived || parse_read_response_spec(s) is InvalidParameter,
{
    let f = read_response_frame_spec(p, v);
    let vb = value_bytes_spec(v.0 as int, v.1);
    let kk = vb.len() as int;
    let body = spv_body_spec(p, v);
    let e = 5 + kk;
    lemma_value_round_trip(v);
    lemma_dec_digits_shape(p.0 as int, 4);
    lemma_value_field_chars(vb);
    // the frame's layout
    let g = seq![STX] + body + seq![bcc_spec(body)];
    assert(f == g);
    assert(body.len() == 5 + kk);
    assert(f.len() == 7 + kk);
    assert(1 <= kk <= 6);
    assert(f[0] == STX);
    assert forall|x: int| 0 <= x < body.len() implies f[1 + x] == #[trigger] body[x] by {
        assert(g[1 + x] == body[x]);
    }
    assert(f[e] == ETX) by {
        assert(body[4 + kk] == ETX);
    }
    assert(f[e + 1] == bcc_spec(body)) by {
        assert(g[6 + kk] == bcc_spec(body));
    }
    assert forall|x: int| 1 <= x < 5 implies is_digit(#[trigger] f[x]) by {
        assert(body[x - 1] == param_bytes_spec(p.0 as int)[x - 1]);
        assert(is_digit(param_bytes_spec(p.0 as int)[x - 1]));
    }
    assert forall|x: int| 5 <= x < e implies is_value_char(#[trigger] f[x]) by {
        assert(body[x - 1] == vb[x - 5]);
        assert(is_value_char(vb[x - 5]));
    }
    if parse_read_response_spec(s) is ReadOk {
        assert(s[0] != EOT);
        let d = parse_spv_spec(s, 0);
        assert(d is Done);
        let k = value_run_from(s, 5, 6);
        lemma_value_run_from_bounds(s, 5, 6);
        // the parse consumed the whole buffer, so the value runs agree
        assert(d matches SpvParse::Done { used, .. } && used == s.len());
        assert(k == kk);
        // the structure the successful parse guarantees
        assert(s[0] == STX);
        assert(!(exists|j: int| 1 <= j < 5 && j < s.len() && !is_digit(#[trigger] s[j])));
        assert(s[e] == ETX);
        assert(s[e + 1] == bcc_spec(s.subrange(1, e + 1)));
        if i == 0 {
            assert(s[0] != f[0]);
            assert(false);
        } else if i <= 4 {
            if !is_digit(s[i]) {
                assert(1 <= i < 5 && i < s.len() && !is_digit(s[i]));
                assert(false);
            } else {
                // structure intact: the BCC catches the changed digit
                let span = s.subrange(1, e + 1);
                assert(span.len() == body.len());
                assert forall|x: int| 0 <= x < body.len() && x != i - 1 implies span[x]
                    == #[trigger] body[x] by {
                    assert(span[x] == s[1 + x]);
                    assert(s[1 + x] == f[1 + x]);
                }
                assert(span[i - 1] == s[i] && body[i - 1] == f[i]);
                lemma_value_chars_xor(s[i], f[i]);
                lemma_bcc_detects_one_diff(span, body, i - 1);
                assert(s[e + 1] == f[e + 1]);
                assert(false);
            }
        } else if i < e {
            if !is_value_char(s[i]) {
                // the value run would stop early, leaving bytes unconsumed
                assert forall|j: int| 5 <= j < i implies is_value_char(#[trigger] s[j]) by {
                    assert(s[j] == f[j]);
                }
                lemma_value_run_from_eq(s, 5, 6, i - 5);
                assert(false);
            } else {
                // structure intact: the BCC catches the changed value byte
                let span = s.subrange(1, e + 1);
                assert(span.len() == body.len());
                assert forall|x: int| 0 <= x < body.len() && x != i - 1 implies span[x]
                    == #[trigger] body[x] by {
                    assert(span[x] == s[1 + x]);
                    assert(s[1 + x] == f[1 + x]);
                }
                assert(span[i - 1] == s[i] && body[i - 1] == f[i]);
                lemma_value_chars_xor(s[i], f[i]);
                lemma_bcc_detects_one_diff(span, body, i - 1);
                assert(s[e + 1] == f[e + 1]);
                assert(false);
            }
        } else if i == e {
            // the successful parse needs an ETX exactly where the corrupted
            // byte sits
            assert(s[e] != ETX);
            assert(false);
        } else {
            // only the BCC byte itself is left, and it no longer matches
            assert(i == e + 1);
            let span = s.subrange(1, e + 1);
            assert forall|x: int| 0 <= x < body.len() implies span[x] == #[trigger] body[x] by {
                assert(span[x] == s[1 + x]);
                assert(s[1 + x] == f[1 + x]);
            }
            assert(span =~= body);
            assert(s[e + 1] != f[e + 1]);
            assert(false);
        }
    }
}

/// The byte-level layout of a write command frame.
proof fn lemma_write_frame_layout(a: Address, p: Parameter, v: Value)
    requires
        a.wf(),
        p.wf(),
        v.wf(),
    ensures
        ({
            let f = write_frame_spec(a, p, v);
            let body = spv_body_spec(p, v);
            let kk = value_bytes_spec(v.0 as int, v.1).len() as int;
            &&& 1 <= kk <= 6
            &&& f.len() == 12 + kk
            &&& body.len() == 5 + kk
            &&& f[0] == EOT
            &&& (forall|x: int| 1 <= x < 5 ==> is_digit(#[trigger] f[x]))
            &&& f[1] == f[2] && f[3] == f[4]
            &&& f[5] == STX
            &&& (forall|x: int| 0 <= x < body.len() ==> f[6 + x] == #[trigger] body[x])
            &&& (forall|x: int| 6 <= x < 10 ==> is_digit(#[trigger] f[x]))
            &&& (forall|x: int|
                10 <= x < 10 + kk ==> is_value_char(#[trigger] f[x]) && f[x] != ETX)
            &&& f[10 + kk] == ETX
            &&& f[11 + kk] == bcc_spec(body)
            &&& (forall|x: int| 0 < x < f.len() ==> #[trigger] f[x] != EOT)
            &&& (forall|x: int| 6 <= x < f.len() ==> #[trigger] f[x] != STX)
        }),
{
    let f = write_frame_spec(a, p, v);
    let body = spv_body_spec(p, v);
    let vb = value_bytes_spec(v.0 as int, v.1);
    let kk = vb.len() as int;
    lemma_value_round_trip(v);
    lemma_value_field_chars(vb);
    lemma_dec_digits_shape(p.0 as int, 4);
    lemma_spv_body_7bit(p, v);
    assert(body.len() == 5 + kk);
    assert forall|x: int| 0 <= x < body.len() implies f[6 + x] == #[trigger] body[x] by {
        assert(f[6 + x] == (seq![EOT] + addr_bytes_spec(a.0 as int) + seq![STX] + body + seq![
            bcc_spec(body),
        ])[6 + x]);
    }
    assert forall|x: int| 1 <= x < 5 implies is_digit(#[trigger] f[x]) by {
        assert(f[x] == addr_bytes_spec(a.0 as int)[x - 1]);
    }
    assert forall|x: int| 6 <= x < 10 implies is_digit(#[trigger] f[x]) by {
        assert(f[x] == body[x - 6]);
        assert(body[x - 6] == param_bytes_spec(p.0 as int)[x - 6]);
        assert(is_digit(param_bytes_spec(p.0 as int)[x - 6]));
    }
    assert forall|x: int| 10 <= x < 10 + kk implies is_value_char(#[trigger] f[x]) && f[x]
        != ETX by {
        assert(f[x] == body[x - 6]);
        assert(body[x - 6] == vb[x - 10]);
        assert(is_value_char(vb[x - 10]));
    }
    assert(f[10 + kk] == ETX) by {
        assert(f[10 + kk] == body[4 + kk]);
    }
    assert(f[11 + kk] == bcc_spec(body)) by {
        assert(f[11 + kk] == (seq![EOT] + addr_bytes_spec(a.0 as int) + seq![STX] + body + seq![
            bcc_spec(body),
        ])[11 + kk]);
    }
    assert forall|x: int| 0 < x < f.len() implies #[trigger] f[x] != EOT by {
        if x < 5 {
            assert(is_digit(f[x]));
        } else if x == 5 {
        } else if x < 11 + kk {
            assert(f[x] == body[x - 6]);
            if x < 10 {
                assert(is_digit(f[x]));
            } else if x < 10 + kk {
                assert(is_value_char(f[x]));
            }
        } else {
            assert(f[x] == bcc_spec(body));
            assert(f[x] >= 0x20);
        }
    }
    assert forall|x: int| 6 <= x < f.len() implies #[trigger] f[x] != STX by {
        if x < 11 + kk {
            assert(f[x] == body[x - 6]);
            if x < 10 {
                assert(is_digit(f[x]));
            } else if x < 10 + kk {
                assert(is_value_char(f[x]));
            }
        } else {
            assert(f[x] == bcc_spec(body));
            assert(f[x] >= 0x20);
        }
    }
}

/// A buffer without any `EOT` has no last `EOT`.
proof fn lemma_no_eot(s: Seq<u8>)
    requires
        forall|x: int| 0 <= x < s.len() ==> #[trigger] s[x] != EOT,
    ensures
        last_eot_idx(s) == -1,
    decreases s.len(),
{
    if s.len() > 0 {
        assert(s.last() != EOT);
        lemma_no_eot(s.drop_last());
    }
}

/// Write command robustness: corrupting any single byte of an encoded write
/// command frame can never be mistaken for a write command that consumes
/// the whole frame. Every corruption either breaks the frame structure,
/// moves the recognised `EOT` into a position where no `STX` can follow, or
/// is caught by the BCC.
pub proof fn lemma_write_command_single_corruption(
    a: Address,
    p: Parameter,
    v: Value,
    s: Seq<u8>,
    i: int,
)
    requires
        a.wf(),
        p.wf(),
        v.wf(),
        s.len() == write_frame_spec(a, p, v).len(),
        0 <= i < s.len(),
        forall|x: int|
            0 <= x < s.len() && x != i ==> s[x] == #[trigger] write_frame_spec(a, p, v)[x],
        s[i] != write_frame_spec(a, p, v)[i],
    ensures
        !(parse_command_spec(s).0 == s.len() && parse_command_spec(s).1 is WriteParameter),
{
    let f = write_frame_spec(a, p, v);
    let body = spv_body_spec(p, v);
    let vb = value_bytes_spec(v.0 as int, v.1);
    let kk = vb.len() as int;
    lemma_write_frame_layout(a, p, v);
    if parse_command_spec(s).0 == s.len() && parse_command_spec(s).1 is WriteParameter {
        // a short-form head byte would give a short-form token
        assert(!(s[0] == ACK || s[0] == NAK || s[0] == BS));
        if i == 0 {
            // the frame's only EOT is corrupted away: everything is noise
            assert forall|x: int| 0 <= x < s.len() implies #[trigger] s[x] != EOT by {
                if x != 0 {
                    assert(s[x] == f[x]);
                }
            }
            lemma_no_eot(s);
            assert(false);
        } else if s[i] == EOT {
            // the corrupted byte becomes the last EOT, and what follows it
            // is too short or has no STX at the right place
            assert forall|x: int| i < x < s.len() implies #[trigger] s[x] != EOT by {
                assert(s[x] == f[x]);
            }
            lemma_last_eot_at(s, i);
            let t = s.skip(i);
            if i + 5 < s.len() {
                assert(t[5] == s[i + 5]);
                assert(s[i + 5] == f[i + 5]);
                assert(f[i + 5] != STX);
                assert(false);
            } else {
                assert(t.len() <= 5);
                assert(false);
            }
        } else {
            // the EOT at the head is still the last one: the parse sees the
            // whole frame
            assert forall|x: int| 0 < x < s.len() implies #[trigger] s[x] != EOT by {
                if x != i {
                    assert(s[x] == f[x]);
                }
            }
            assert(s[0] == f[0]);
            lemma_last_eot_at(s, 0);
            assert(s.skip(0) =~= s);
            // the successful write parse pins the frame structure
            let k = value_run_from(s, 10, 6);
            lemma_value_run_from_bounds(s, 10, 6);
            assert(k == kk);
            assert(s[5] == STX);
            assert(!(exists|j: int| 1 <= j < 5 && j < s.len() && !is_digit(#[trigger] s[j])));
            assert(s[1] == s[2] && s[3] == s[4]);
            assert(!(exists|j: int| 6 <= j < 10 && j < s.len() && !is_digit(#[trigger] s[j])));
            assert(s[10 + kk] == ETX);
            assert(s[11 + kk] == bcc_spec(s.subrange(6, 11 + kk)));
            if i <= 4 {
                // a corrupted address byte breaks the doubled-digit pattern
                if i == 1 {
                    assert(s[2] == f[2] && f[1] == f[2]);
                } else if i == 2 {
                    assert(s[1] == f[1] && f[1] == f[2]);
                } else if i == 3 {
                    assert(s[4] == f[4] && f[3] == f[4]);
                } else {
                    assert(s[3] == f[3] && f[3] == f[4]);
                }
                assert(false);
            } else if i == 5 {
                assert(s[5] != f[5]);
                assert(false);
            } else if i <= 9 {
                if !is_digit(s[i]) {
                    assert(6 <= i < 10 && i < s.len() && !is_digit(s[i]));
                    assert(false);
                } else {
                    let span = s.subrange(6, 11 + kk);
                    assert(span.len() == body.len());
                    assert forall|x: int| 0 <= x < body.len() && x != i - 6 implies span[x]
                        == #[trigger] body[x] by {
                        assert(span[x] == s[6 + x]);
                        assert(s[6 + x] == f[6 + x]);
                    }
                    assert(span[i - 6] == s[i] && body[i - 6] == f[i]);
                    lemma_value_chars_xor(s[i], f[i]);
                    lemma_bcc_detects_one_diff(span, body, i - 6);
                    assert(s[11 + kk] == f[11 + kk]);
                    assert(false);
                }
            } else if i < 10 + kk {
                if !is_value_char(s[i]) {
                    // the value run would stop early, making the frame short
                    assert forall|j: int| 10 <= j < i implies is_value_char(#[trigger] s[j]) by {
                        assert(s[j] == f[j]);
                    }
                    lemma_value_run_from_eq(s, 10, 6, i - 10);
                    assert(false);
                } else {
                    let span = s.subrange(6, 11 + kk);
                    assert(span.len() == body.len());
                    assert forall|x: int| 0 <= x < body.len() && x != i - 6 implies span[x]
                        == #[trigger] body[x] by {
                        assert(span[x] == s[6 + x]);
                        assert(s[6 + x] == f[6 + x]);
                    }
                    assert(span[i - 6] == s[i] && body[i - 6] == f[i]);
                    lemma_value_chars_xor(s[i], f[i]);
                    lemma_bcc_detects_one_diff(span, body, i - 6);
                    assert(s[11 + kk] == f[11 + kk]);
                    assert(false);
                }
            } else if i == 10 + kk {
                assert(s[10 + kk] != f[10 + kk]);
                assert(false);
            } else {
                assert(i == 11 + kk);
                let span = s.subrange(6, 11 + kk);
                assert forall|x: int| 0 <= x < body.len() implies span[x] == #[trigger] body[x] by {
                    assert(span[x] == s[6 + x]);
                    assert(s[6 + x] == f[6 + x]);
                }
                assert(span =~= body);
                assert(s[11 + kk] != f[11 + kk]);
                assert(false);
            }
        }
    }
}

} // verus!
