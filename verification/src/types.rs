//! Range-checked types for X3.28 addresses, parameters and values, and their
//! fixed-width ASCII-decimal wire encodings.

use vstd::prelude::*;
use vstd::arithmetic::div_mod::lemma_fundamental_div_mod;

verus! {

/// Error type for this module.
#[derive(Debug, Copy, Clone, PartialEq, Eq, Structural)]
pub enum Error {
    /// The value isn't a valid X3.28 node address.
    InvalidAddress,
    /// The value isn't a valid X3.28 parameter.
    InvalidParameter,
    /// The value isn't a valid X3.28 value.
    InvalidValue,
}

/// An ASCII decimal digit.
pub open spec fn is_digit(b: u8) -> bool {
    0x30 <= b <= 0x39
}

pub open spec fn all_digits(s: Seq<u8>) -> bool {
    forall|i: int| 0 <= i < s.len() ==> is_digit(#[trigger] s[i])
}

/// The number a big-endian digit string denotes.
pub open spec fn digits_val(s: Seq<u8>) -> int
    decreases s.len(),
{
    if s.len() == 0 {
        0
    } else {
        digits_val(s.drop_last()) * 10 + (s.last() - 0x30)
    }
}

/// `n` written as `width` big-endian decimal digits, zero-padded.
pub open spec fn dec_digits(n: int, width: int) -> Seq<u8>
    decreases width,
{
    if width <= 0 {
        Seq::<u8>::empty()
    } else {
        dec_digits(n / 10, width - 1).push((0x30 + n % 10) as u8)
    }
}

pub open spec fn pow10(w: int) -> int
    decreases w,
{
    if w <= 0 {
        1
    } else {
        10 * pow10(w - 1)
    }
}

/// The number of decimal digits of `n`, for `0 <= n <= 999999`.
pub open spec fn n_digits(n: int) -> int {
    if n < 10 {
        1
    } else if n < 100 {
        2
    } else if n < 1000 {
        3
    } else if n < 10000 {
        4
    } else if n < 100000 {
        5
    } else {
        6
    }
}

pub proof fn lemma_pow10_pos(w: int)
    ensures
        pow10(w) >= 1,
    decreases w,
{
    if w > 0 {
        lemma_pow10_pos(w - 1);
    }
}

/// A fixed-width digit string has that width and holds digits only.
pub proof fn lemma_dec_digits_shape(n: int, width: int)
    requires
        n >= 0,
        width >= 0,
    ensures
        dec_digits(n, width).len() == width,
        all_digits(dec_digits(n, width)),
    decreases width,
{
    if width > 0 {
        lemma_dec_digits_shape(n / 10, width - 1);
        assert(0 <= n % 10 < 10);
    }
}

/// Writing `n` as `width` digits and reading them back yields `n`, as long as
/// `n` fits in that width.
pub proof fn lemma_dec_digits_val(n: int, width: int)
    requires
        0 <= n < pow10(width),
        width >= 0,
    ensures
        digits_val(dec_digits(n, width)) == n,
    decreases width,
{
    if width == 0 {
        assert(n == 0);
    } else {
        lemma_pow10_pos(width - 1);
        assert(n / 10 < pow10(width - 1) && n / 10 >= 0) by (nonlinear_arith)
            requires
                n >= 0,
                n < 10 * pow10(width - 1),
                pow10(width - 1) >= 1,
        ;
        lemma_dec_digits_val(n / 10, width - 1);
        let s = dec_digits(n / 10, width - 1);
        let d = (0x30 + n % 10) as u8;
        assert(s.push(d).drop_last() =~= s);
        assert(s.push(d).last() == d);
        lemma_fundamental_div_mod(n, 10);
    }
}

/// Address is a range-checked [0, 99] integer, representing a node address.
/// Address 0 is the broadcast address: a node configured at 0 accepts
/// commands to any address.
#[derive(Debug, Copy, Clone, PartialEq, Eq, PartialOrd, Ord, Hash, Structural)]
pub struct Address(pub u8);

impl Address {
    pub open spec fn wf(self) -> bool {
        self.0 <= 99
    }
}

/// On the wire an address is four ASCII digits, tens digit doubled then units
/// digit doubled.
pub open spec fn addr_bytes_spec(a: int) -> Seq<u8> {
    seq![
        (0x30 + a / 10) as u8,
        (0x30 + a / 10) as u8,
        (0x30 + a % 10) as u8,
        (0x30 + a % 10) as u8,
    ]
}

/// Create a new [`Address`]; out-of-range input is excluded by contract.
pub fn addr(a: u8) -> (r: Address)
    requires
        a <= 99,
    ensures
        r == Address(a),
{
    Address(a)
}

impl Address {
    /// Create a new address, checking that the address is in [0, 99].
    pub fn new(address: i32) -> (r: Result<Address, Error>)
        ensures
            r == if 0 <= address <= 99 {
                Ok::<Address, Error>(Address(address as u8))
            } else {
                Err::<Address, Error>(Error::InvalidAddress)
            },
    {
        if 0 <= address && address <= 99 {
            Ok(Address(address as u8))
        } else {
            Err(Error::InvalidAddress)
        }
    }

    /// The wire form: tens digit doubled, then units digit doubled.
    pub fn to_bytes(self) -> (r: Vec<u8>)
        requires
            self.wf(),
        ensures
            r@ == addr_bytes_spec(self.0 as int),
    {
        let t: u8 = 0x30 + self.0 / 10;
        let u: u8 = 0x30 + self.0 % 10;
        let r: Vec<u8> = vec![t, t, u, u];
        proof {
            assert(r@ =~= addr_bytes_spec(self.0 as int));
        }
        r
    }
}

/// `Parameter` is a range-checked [0, 9999] integer, representing a register
/// in a node.
#[derive(Debug, Copy, Clone, PartialEq, Eq, PartialOrd, Ord, Hash, Structural)]
pub struct Parameter(pub i16);

impl Parameter {
    pub open spec fn wf(self) -> bool {
        0 <= self.0 <= 9999
    }
}

/// On the wire a parameter is four ASCII digits, zero-padded.
pub open spec fn param_bytes_spec(p: int) -> Seq<u8> {
    dec_digits(p, 4)
}

/// Create a new [`Parameter`]; out-of-range input is excluded by contract.
pub fn param(p: i16) -> (r: Parameter)
    requires
        0 <= p <= 9999,
    ensures
        r == Parameter(p),
{
    Parameter(p)
}

impl Parameter {
    /// Create a new `Parameter`, checking that the given value is in the
    /// range [0, 9999].
    pub fn new(parameter: i32) -> (r: Result<Parameter, Error>)
        ensures
            r == if 0 <= parameter <= 9999 {
                Ok::<Parameter, Error>(Parameter(parameter as i16))
            } else {
                Err::<Parameter, Error>(Error::InvalidParameter)
            },
    {
        if 0 <= parameter && parameter <= 9999 {
            Ok(Parameter(parameter as i16))
        } else {
            Err(Error::InvalidParameter)
        }
    }

    /// The wire form: four ASCII digits, zero-padded.
    pub fn to_bytes(self) -> (r: Vec<u8>)
        requires
            self.wf(),
        ensures
            r@ == param_bytes_spec(self.0 as int),
    {
        let p: u16 = self.0 as u16;
        let b0: u8 = 0x30 + ((p / 1000) % 10) as u8;
        let b1: u8 = 0x30 + ((p / 100) % 10) as u8;
        let b2: u8 = 0x30 + ((p / 10) % 10) as u8;
        let b3: u8 = 0x30 + (p % 10) as u8;
        let r: Vec<u8> = vec![b0, b1, b2, b3];
        proof {
            let n = self.0 as int;
            reveal_with_fuel(dec_digits, 5);
            assert(n / 10 / 10 == n / 100) by (nonlinear_arith)
                requires
                    0 <= n <= 9999,
            ;
            assert(n / 10 / 10 / 10 == n / 1000) by (nonlinear_arith)
                requires
                    0 <= n <= 9999,
            ;
            assert(n / 1000 / 10 == 0) by (nonlinear_arith)
                requires
                    0 <= n <= 9999,
            ;
            assert((n / 1000) % 10 == n / 1000) by (nonlinear_arith)
                requires
                    0 <= n <= 9999,
            ;
            assert(r@ =~= param_bytes_spec(n));
        }
        r
    }

    /// Returns the next higher numbered parameter, or None at the maximum.
    pub fn next(self) -> (r: Option<Parameter>)
        ensures
            r == param_next(self),
    {
        if self.0 < 9999 {
            Some(Parameter(self.0 + 1))
        } else {
            None
        }
    }

    /// Returns the next lower numbered parameter, or None at zero.
    pub fn prev(self) -> (r: Option<Parameter>)
        ensures
            r == param_prev(self),
    {
        if self.0 > 0 {
            Some(Parameter(self.0 - 1))
        } else {
            None
        }
    }
}

/// The parameter one step up, or None at 9999.
pub open spec fn param_next(p: Parameter) -> Option<Parameter> {
    if p.0 < 9999 {
        Some(Parameter((p.0 + 1) as i16))
    } else {
        None
    }
}

/// The parameter one step down, or None at 0.
pub open spec fn param_prev(p: Parameter) -> Option<Parameter> {
    if p.0 > 0 {
        Some(Parameter((p.0 - 1) as i16))
    } else {
        None
    }
}

/// For every parameter that has a predecessor, stepping down and back up
/// returns the same parameter; 9999 has no successor and 0 no predecessor.
pub proof fn lemma_parameter_next_prev(p: Parameter)
    requires
        p.wf(),
    ensures
        param_next(Parameter(9999)) is None,
        param_prev(Parameter(0)) is None,
        p.0 >= 1 ==> param_prev(p) is Some && param_next(param_prev(p)->0) == Some(p),
{
}

/// `ValueFormat` determines how a `Value` is represented in the on-wire
/// format.
#[derive(Debug, Copy, Clone, PartialEq, Eq, Structural)]
pub enum ValueFormat {
    /// Always uses six bytes on the wire, leading sign included if it fits.
    Wide,
    /// Uses as few bytes as possible for representing the value.
    Normal,
}

/// Value represents a parameter value that can be sent over the X3.28
/// protocol. Normal format covers [-9999, 999999]; Wide format covers
/// [-99999, 99999], always encoded as six bytes.
#[derive(Debug, Copy, Clone)]
pub struct Value(pub i32, pub ValueFormat);

impl Value {
    pub open spec fn wf(self) -> bool {
        match self.1 {
            ValueFormat::Normal => -9999 <= self.0 <= 999999,
            ValueFormat::Wide => -99999 <= self.0 <= 99999,
        }
    }
}

impl PartialEq for Value {
    /// Two values are equal when their integers are; the format is only a
    /// choice of wire encoding.
    fn eq(&self, other: &Value) -> (r: bool) {
        self.0 == other.0
    }
}

impl vstd::std_specs::cmp::PartialEqSpecImpl for Value {
    open spec fn obeys_eq_spec() -> bool {
        true
    }

    open spec fn eq_spec(&self, other: &Value) -> bool {
        self.0 == other.0
    }
}

/// The value a parsed value field denotes, carrying the default format for
/// its range.
pub open spec fn value_from_int(v: int) -> Value {
    Value(v as i32, if v < -9999 {
        ValueFormat::Wide
    } else {
        ValueFormat::Normal
    })
}

/// The wire form of a value: an optional sign followed by decimal digits.
/// Normal format uses as few digits as possible and omits the sign for
/// six-digit non-negative values; Wide format is always a sign and five
/// zero-padded digits.
pub open spec fn value_bytes_spec(v: int, fmt: ValueFormat) -> Seq<u8> {
    let mag = if v < 0 {
        -v
    } else {
        v
    };
    match fmt {
        ValueFormat::Normal => {
            let w = n_digits(mag);
            if v < 0 {
                seq![0x2du8] + dec_digits(mag, w)
            } else if w == 6 {
                dec_digits(mag, 6)
            } else {
                seq![0x2bu8] + dec_digits(mag, w)
            }
        },
        ValueFormat::Wide => {
            (if v < 0 {
                seq![0x2du8]
            } else {
                seq![0x2bu8]
            }) + dec_digits(mag, 5)
        },
    }
}

/// A syntactically valid wire value field: one to six bytes, either all
/// digits or a sign followed by digits.
pub open spec fn valid_value_field(s: Seq<u8>) -> bool {
    1 <= s.len() <= 6 && (all_digits(s) || ((s[0] == 0x2b || s[0] == 0x2d) && s.len() >= 2
        && all_digits(s.skip(1))))
}

/// The integer a valid value field denotes.
pub open spec fn value_field_val(s: Seq<u8>) -> int {
    if s.len() > 0 && s[0] == 0x2b {
        digits_val(s.skip(1))
    } else if s.len() > 0 && s[0] == 0x2d {
        -digits_val(s.skip(1))
    } else {
        digits_val(s)
    }
}

/// Create a new [`Value`] with the default format for its range;
/// out-of-range input is excluded by contract.
pub fn value(v: i32) -> (r: Value)
    requires
        -99999 <= v <= 999999,
    ensures
        r == value_from_int(v as int),
        r.wf(),
{
    if v < -9999 {
        Value(v, ValueFormat::Wide)
    } else {
        Value(v, ValueFormat::Normal)
    }
}

impl Value {
    /// Create a new `Value`, checking that it can be represented on the
    /// wire: the format is Normal when the value is at least -9999, Wide
    /// otherwise.
    pub fn new(v: i32) -> (r: Result<Value, Error>)
        ensures
            r == if -99999 <= v <= 999999 {
                Ok::<Value, Error>(value_from_int(v as int))
            } else {
                Err::<Value, Error>(Error::InvalidValue)
            },
            r is Ok ==> r->Ok_0.wf(),
    {
        if -99999 <= v && v <= 999999 {
            Ok(value(v))
        } else {
            Err(Error::InvalidValue)
        }
    }

    /// Create a new Value with the given on-wire format; fails when the
    /// value does not fit that format's range.
    pub fn new_fmt(v: i32, format: ValueFormat) -> (r: Result<Value, Error>)
        ensures
            r == if Value(v, format).wf() {
                Ok::<Value, Error>(Value(v, format))
            } else {
                Err::<Value, Error>(Error::InvalidValue)
            },
    {
        let ok = match format {
            ValueFormat::Normal => -9999 <= v && v <= 999999,
            ValueFormat::Wide => -99999 <= v && v <= 99999,
        };
        if ok {
            Ok(Value(v, format))
        } else {
            Err(Error::InvalidValue)
        }
    }

    /// Returns the contained value as u16 if it can be converted without
    /// truncation.
    pub fn try_into_u16(self) -> (r: Option<u16>)
        ensures
            r == if 0 <= self.0 <= 65535 {
                Some(self.0 as u16)
            } else {
                None::<u16>
            },
    {
        if 0 <= self.0 && self.0 <= 65535 {
            Some(self.0 as u16)
        } else {
            None
        }
    }

    /// Format the value into the on-wire representation.
    pub fn to_bytes(self) -> (r: Vec<u8>)
        requires
            self.wf(),
        ensures
            r@ == value_bytes_spec(self.0 as int, self.1),
    {
        let mag: u32 = if self.0 < 0 {
            (-self.0) as u32
        } else {
            self.0 as u32
        };
        let mut r: Vec<u8> = Vec::new();
        let width: usize = match self.1 {
            ValueFormat::Wide => 5,
            ValueFormat::Normal => {
                if mag < 10 {
                    1
                } else if mag < 100 {
                    2
                } else if mag < 1000 {
                    3
                } else if mag < 10000 {
                    4
                } else if mag < 100000 {
                    5
                } else {
                    6
                }
            },
        };
        let six_digit_normal = matches!(self.1, ValueFormat::Normal) && width == 6;
        if self.0 < 0 {
            r.push(0x2d);
        } else if !six_digit_normal {
            r.push(0x2b);
        }
        push_dec(&mut r, mag, width);
        proof {
            assert(r@ =~= value_bytes_spec(self.0 as int, self.1));
        }
        r
    }
}

/// Append `n` as `width` big-endian decimal digits, zero-padded.
fn push_dec(buf: &mut Vec<u8>, n: u32, width: usize)
    ensures
        final(buf)@ == old(buf)@ + dec_digits(n as int, width as int),
    decreases width,
{
    if width > 0 {
        push_dec(buf, n / 10, width - 1);
        buf.push(0x30 + (n % 10) as u8);
        proof {
            assert(final(buf)@ =~= old(buf)@ + dec_digits(n as int, width as int));
        }
    } else {
        proof {
            assert(final(buf)@ =~= old(buf)@ + dec_digits(n as int, 0));
        }
    }
}

/// Value round trip: the wire form of any well-formed value is a valid value
/// field denoting the same integer, and the Wide form is exactly six bytes.
pub proof fn lemma_value_round_trip(v: Value)
    requires
        v.wf(),
    ensures
        valid_value_field(value_bytes_spec(v.0 as int, v.1)),
        value_field_val(value_bytes_spec(v.0 as int, v.1)) == v.0 as int,
        v.1 == ValueFormat::Wide ==> value_bytes_spec(v.0 as int, v.1).len() == 6,
{
    let n = v.0 as int;
    let mag = if n < 0 {
        -n
    } else {
        n
    };
    let s = value_bytes_spec(n, v.1);
    match v.1 {
        ValueFormat::Normal => {
            let w = n_digits(mag);
            assert(pow10(1) == 10 && pow10(2) == 100 && pow10(3) == 1000 && pow10(4) == 10000
                && pow10(5) == 100000 && pow10(6) == 1000000) by {
                reveal_with_fuel(pow10, 7);
            }
            lemma_dec_digits_shape(mag, w);
            lemma_dec_digits_val(mag, w);
            if n < 0 {
                assert(s.skip(1) =~= dec_digits(mag, w));
            } else if w == 6 {
                assert(s =~= dec_digits(mag, 6));
            } else {
                assert(s.skip(1) =~= dec_digits(mag, w));
            }
        },
        ValueFormat::Wide => {
            assert(pow10(5) == 100000) by {
                reveal_with_fuel(pow10, 7);
            }
            lemma_dec_digits_shape(mag, 5);
            lemma_dec_digits_val(mag, 5);
            assert(s.skip(1) =~= dec_digits(mag, 5));
        },
    }
}

/// Conversion of loose integers into a checked [`Address`].
pub trait IntoAddress: Sized {
    /// The integer this value stands for.
    spec fn addr_int(self) -> int;

    /// Convert `self` to an [`Address`], failing when it is out of range.
    fn into_address(self) -> (r: Result<Address, Error>)
        ensures
            r == (if 0 <= self.addr_int() <= 99 {
                Ok::<Address, Error>(Address(self.addr_int() as u8))
            } else {
                Err::<Address, Error>(Error::InvalidAddress)
            }),
    ;
}

impl IntoAddress for Address {
    open spec fn addr_int(self) -> int {
        self.0 as int
    }

    fn into_address(self) -> (r: Result<Address, Error>) {
        if self.0 <= 99 {
            Ok(self)
        } else {
            Err(Error::InvalidAddress)
        }
    }
}

impl IntoAddress for u8 {
    open spec fn addr_int(self) -> int {
        self as int
    }

    fn into_address(self) -> (r: Result<Address, Error>) {
        if self <= 99 {
            Ok(Address(self))
        } else {
            Err(Error::InvalidAddress)
        }
    }
}

impl IntoAddress for i32 {
    open spec fn addr_int(self) -> int {
        self as int
    }

    fn into_address(self) -> (r: Result<Address, Error>) {
        Address::new(self)
    }
}

impl IntoAddress for usize {
    open spec fn addr_int(self) -> int {
        self as int
    }

    fn into_address(self) -> (r: Result<Address, Error>) {
        if self <= 99 {
            Ok(Address(self as u8))
        } else {
            Err(Error::InvalidAddress)
        }
    }
}

/// Conversion of loose integers into a checked [`Parameter`].
pub trait IntoParameter: Sized {
    /// The integer this value stands for.
    spec fn param_int(self) -> int;

    /// Convert `self` to a [`Parameter`], failing when it is out of range.
    fn into_parameter(self) -> (r: Result<Parameter, Error>)
        ensures
            r == (if 0 <= self.param_int() <= 9999 {
                Ok::<Parameter, Error>(Parameter(self.param_int() as i16))
            } else {
                Err::<Parameter, Error>(Error::InvalidParameter)
            }),
    ;
}

impl IntoParameter for Parameter {
    open spec fn param_int(self) -> int {
        self.0 as int
    }

    fn into_parameter(self) -> (r: Result<Parameter, Error>) {
        if 0 <= self.0 && self.0 <= 9999 {
            Ok(self)
        } else {
            Err(Error::InvalidParameter)
        }
    }
}

impl IntoParameter for i16 {
    open spec fn param_int(self) -> int {
        self as int
    }

    fn into_parameter(self) -> (r: Result<Parameter, Error>) {
        if 0 <= self && self <= 9999 {
            Ok(Parameter(self))
        } else {
            Err(Error::InvalidParameter)
        }
    }
}

impl IntoParameter for i32 {
    open spec fn param_int(self) -> int {
        self as int
    }

    fn into_parameter(self) -> (r: Result<Parameter, Error>) {
        Parameter::new(self)
    }
}

impl IntoParameter for usize {
    open spec fn param_int(self) -> int {
        self as int
    }

    fn into_parameter(self) -> (r: Result<Parameter, Error>) {
        if self <= 9999 {
            Ok(Parameter(self as i16))
        } else {
            Err(Error::InvalidParameter)
        }
    }
}

/// Conversion of loose integers into a checked [`Value`].
pub trait IntoValue: Sized {
    /// The integer this value stands for.
    spec fn value_int(self) -> int;

    /// Convert `self` to a [`Value`], failing when it is out of range.
    fn into_value(self) -> (r: Result<Value, Error>)
        ensures
            r == (if -99999 <= self.value_int() <= 999999 {
                Ok::<Value, Error>(value_from_int(self.value_int()))
            } else {
                Err::<Value, Error>(Error::InvalidValue)
            }),
    ;
}

impl IntoValue for i32 {
    open spec fn value_int(self) -> int {
        self as int
    }

    fn into_value(self) -> (r: Result<Value, Error>) {
        Value::new(self)
    }
}

impl IntoValue for i16 {
    open spec fn value_int(self) -> int {
        self as int
    }

    fn into_value(self) -> (r: Result<Value, Error>) {
        Value::new(self as i32)
    }
}

impl IntoValue for u16 {
    open spec fn value_int(self) -> int {
        self as int
    }

    fn into_value(self) -> (r: Result<Value, Error>) {
        Value::new(self as i32)
    }
}

impl From<u16> for Value {
    /// A `u16` always fits the Normal format.
    fn from(val: u16) -> (r: Value) {
        Value(val as i32, ValueFormat::Normal)
    }
}

impl vstd::std_specs::convert::FromSpecImpl<u16> for Value {
    open spec fn obeys_from_spec() -> bool {
        true
    }

    open spec fn from_spec(t: u16) -> Value {
        Value(t as i32, ValueFormat::Normal)
    }
}

impl From<i16> for Value {
    /// An `i16` fits the Normal format above -9999, the Wide format below.
    fn from(val: i16) -> (r: Value) {
        let v: i32 = val as i32;
        if v < -9999 {
            Value(v, ValueFormat::Wide)
        } else {
            Value(v, ValueFormat::Normal)
        }
    }
}

impl vstd::std_specs::convert::FromSpecImpl<i16> for Value {
    open spec fn obeys_from_spec() -> bool {
        true
    }

    open spec fn from_spec(t: i16) -> Value {
        value_from_int(t as int)
    }
}

} // verus!
