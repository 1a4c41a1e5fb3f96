//! Field values of every scalar kind, with one codec for all of them.

use vstd::prelude::*;
use crate::codec::{
    angles_text, attenuation_code, attenuation_of_code, color_exact, color_text, decode_angles,
    decode_color, dirt_code, dirt_of_code, encode_angles, encode_color, int_of,
    lemma_angles_round_trip, lemma_color_round_trip, parse_angles, parse_color, parse_int, Angles,
    BspLightAttenuation, Color, DirtMode, Override,
};
use crate::decimal::{
    decimal_text, decode_decimal, decode_number, encode_decimal, lemma_decimal_round_trip,
    parse_decimal, parse_number, Decimal,
};
use crate::text::{chars_of, string_of};

verus! {

/// The type of a field.
#[derive(Clone, Copy, Debug, PartialEq, Eq, Structural)]
pub enum ScalarKind {
    /// A boolean written as an integer.
    Flag,
    /// An override written as `1`, `0` (unset) or `-1`.
    Override,
    /// A decimal number.
    Number,
    /// An unsigned 32-bit integer.
    Count,
    /// Text, kept verbatim.
    Text,
    /// Yaw, pitch and roll.
    Angles,
    /// An RGB color.
    Color,
    /// A [`DirtMode`] written as its code.
    Dirt,
    /// A [`BspLightAttenuation`] written as its code.
    Attenuation,
}

/// The value of one field of a bundle.
#[derive(Clone, Debug, PartialEq, Eq)]
pub enum Value {
    /// An optional field that is not set; its key is omitted from the text.
    Absent,
    Flag(bool),
    Override(Override),
    Number(Decimal),
    Count(u32),
    Text(String),
    Angles(Angles),
    Color(Color),
    Dirt(DirtMode),
    Attenuation(BspLightAttenuation),
}

/// Why a field's text was not taken.
#[derive(Clone, Copy, Debug, PartialEq, Eq, Structural)]
pub enum DecodeErrorKind {
    /// The text does not parse as the field's type.
    FieldDecodeError,
    /// The text is an integer that no named value of the field's enumeration has.
    UnknownEnumValue,
}

/// `v` is a value of a field of kind `k`, or the absent value.
pub open spec fn fits(k: ScalarKind, v: Value) -> bool {
    match v {
        Value::Absent => true,
        Value::Flag(_) => k == ScalarKind::Flag,
        Value::Override(_) => k == ScalarKind::Override,
        Value::Number(_) => k == ScalarKind::Number,
        Value::Count(_) => k == ScalarKind::Count,
        Value::Text(_) => k == ScalarKind::Text,
        Value::Angles(_) => k == ScalarKind::Angles,
        Value::Color(_) => k == ScalarKind::Color,
        Value::Dirt(_) => k == ScalarKind::Dirt,
        Value::Attenuation(_) => k == ScalarKind::Attenuation,
    }
}

pub open spec fn integer_text(n: nat) -> Seq<char> {
    decimal_text(Decimal { negative: false, magnitude: n as u64, scale: 0 })
}

pub open spec fn override_text(o: Override) -> Seq<char> {
    match o {
        Override::Unset => integer_text(0),
        Override::ForceTrue => integer_text(1),
        Override::ForceFalse => decimal_text(Decimal { negative: true, magnitude: 1, scale: 0 }),
    }
}

/// The text written for a value; the absent value writes nothing.
pub open spec fn value_text(v: Value) -> Seq<char> {
    match v {
        Value::Absent => seq![],
        Value::Flag(b) => integer_text(if b { 1 } else { 0 }),
        Value::Override(o) => override_text(o),
        Value::Number(d) => decimal_text(d),
        Value::Count(n) => integer_text(n as nat),
        Value::Text(t) => t@,
        Value::Angles(a) => angles_text(a),
        Value::Color(c) => color_text(c),
        Value::Dirt(m) => integer_text(dirt_code(m)),
        Value::Attenuation(a) => integer_text(attenuation_code(a)),
    }
}

pub open spec fn override_of_int(i: int) -> Override {
    if i == 0 {
        Override::Unset
    } else if i > 0 {
        Override::ForceTrue
    } else {
        Override::ForceFalse
    }
}

/// `r` is the outcome of reading the text `s` as a field of kind `k`.
///
/// Booleans take any nonzero integer as true; overrides take a positive
/// integer as forced on and a negative one as forced off.
pub open spec fn decodes_as(k: ScalarKind, s: Seq<char>, r: Result<Value, DecodeErrorKind>) -> bool {
    let bad = Err(DecodeErrorKind::FieldDecodeError);
    match k {
        ScalarKind::Flag => r == match parse_int(s) {
            Some(i) => Ok(Value::Flag(i != 0)),
            None => bad,
        },
        ScalarKind::Override => r == match parse_int(s) {
            Some(i) => Ok(Value::Override(override_of_int(i))),
            None => bad,
        },
        ScalarKind::Number => r == match parse_number(s) {
            Some(d) => Ok(Value::Number(d)),
            None => bad,
        },
        ScalarKind::Count => r == match parse_decimal(s) {
            Some(d) => if d.scale == 0 && !d.negative && d.magnitude <= u32::MAX {
                Ok(Value::Count(d.magnitude as u32))
            } else {
                bad
            },
            None => bad,
        },
        ScalarKind::Text => match r {
            Ok(Value::Text(t)) => t@ == s,
            _ => false,
        },
        ScalarKind::Angles => r == match parse_angles(s) {
            Some(a) => Ok(Value::Angles(a)),
            None => bad,
        },
        ScalarKind::Color => r == match parse_color(s) {
            Some(c) => Ok(Value::Color(c)),
            None => bad,
        },
        ScalarKind::Dirt => r == match parse_int(s) {
            Some(i) => match dirt_of_code(i) {
                Some(m) => Ok(Value::Dirt(m)),
                None => Err(DecodeErrorKind::UnknownEnumValue),
            },
            None => bad,
        },
        ScalarKind::Attenuation => r == match parse_int(s) {
            Some(i) => match attenuation_of_code(i) {
                Some(a) => Ok(Value::Attenuation(a)),
                None => Err(DecodeErrorKind::UnknownEnumValue),
            },
            None => bad,
        },
    }
}

fn decode_int(s: &Vec<char>) -> (r: Option<i128>)
    ensures
        match r {
            Some(i) => parse_int(s@) == Some(i as int),
            None => parse_int(s@) is None,
        },
{
    match decode_decimal(s) {
        Some(d) => if d.scale == 0 {
            let m = d.magnitude as i128;
            assert(int_of(d) == if d.negative { -m } else { m as int });
            Some(if d.negative { -m } else { m })
        } else {
            None
        },
        None => None,
    }
}

/// Reads the text `text` as a field of kind `k`.
pub fn decode_value(k: ScalarKind, text: &str) -> (r: Result<Value, DecodeErrorKind>)
    ensures
        decodes_as(k, text@, r),
{
    let s = chars_of(text);
    let bad = Err(DecodeErrorKind::FieldDecodeError);
    match k {
        ScalarKind::Flag => match decode_int(&s) {
            Some(i) => Ok(Value::Flag(i != 0)),
            None => bad,
        },
        ScalarKind::Override => match decode_int(&s) {
            Some(i) => Ok(
                Value::Override(
                    if i == 0 {
                        Override::Unset
                    } else if i > 0 {
                        Override::ForceTrue
                    } else {
                        Override::ForceFalse
                    },
                ),
            ),
            None => bad,
        },
        ScalarKind::Number => match decode_number(&s) {
            Some(d) => Ok(Value::Number(d)),
            None => bad,
        },
        ScalarKind::Count => match decode_decimal(&s) {
            Some(d) => if d.scale == 0 && !d.negative && d.magnitude <= u32::MAX as u64 {
                Ok(Value::Count(d.magnitude as u32))
            } else {
                bad
            },
            None => bad,
        },
        ScalarKind::Text => Ok(Value::Text(string_of(&s))),
        ScalarKind::Angles => match decode_angles(&s) {
            Some(a) => Ok(Value::Angles(a)),
            None => bad,
        },
        ScalarKind::Color => match decode_color(&s) {
            Some(c) => Ok(Value::Color(c)),
            None => bad,
        },
        ScalarKind::Dirt => match decode_int(&s) {
            Some(i) => match DirtMode::from_code(i) {
                Some(m) => Ok(Value::Dirt(m)),
                None => Err(DecodeErrorKind::UnknownEnumValue),
            },
            None => bad,
        },
        ScalarKind::Attenuation => match decode_int(&s) {
            Some(i) => match BspLightAttenuation::from_code(i) {
                Some(a) => Ok(Value::Attenuation(a)),
                None => Err(DecodeErrorKind::UnknownEnumValue),
            },
            None => bad,
        },
    }
}

fn encode_integer(n: u64) -> (r: Vec<char>)
    ensures
        r@ == integer_text(n as nat),
{
    encode_decimal(&Decimal { negative: false, magnitude: n, scale: 0 })
}

/// Writes the text of a value; the absent value writes the empty text.
pub fn encode_value(v: &Value) -> (r: String)
    ensures
        r@ == value_text(*v),
{
    let s: Vec<char> = match v {
        Value::Absent => Vec::new(),
        Value::Flag(b) => encode_integer(if *b { 1 } else { 0 }),
        Value::Override(o) => match o {
            Override::Unset => encode_integer(0),
            Override::ForceTrue => encode_integer(1),
            Override::ForceFalse => encode_decimal(
                &Decimal { negative: true, magnitude: 1, scale: 0 },
            ),
        },
        Value::Number(d) => encode_decimal(d),
        Value::Count(n) => encode_integer(*n as u64),
        Value::Text(t) => {
            return t.clone();
        },
        Value::Angles(a) => encode_angles(a),
        Value::Color(c) => encode_color(c),
        Value::Dirt(m) => encode_integer(m.code()),
        Value::Attenuation(a) => encode_integer(a.code()),
    };
    string_of(&s)
}

/// A value whose text reads back as that same value: any value but a color
/// whose channels are not non-negative integers, or all lie within `(0, 1]`.
pub open spec fn encodable(v: Value) -> bool {
    match v {
        Value::Color(c) => color_exact(c),
        _ => true,
    }
}

proof fn lemma_integer_round_trip(n: nat)
    requires
        n <= u64::MAX,
    ensures
        parse_decimal(integer_text(n)) == Some(Decimal { negative: false, magnitude: n as u64, scale: 0 }),
        parse_int(integer_text(n)) == Some(n as int),
{
    lemma_decimal_round_trip(Decimal { negative: false, magnitude: n as u64, scale: 0 });
}

/// Reading back the text written for a present value of a field's kind
/// yields that same value.
pub proof fn lemma_value_round_trip(k: ScalarKind, v: Value)
    requires
        fits(k, v),
        v !is Absent,
        encodable(v),
    ensures
        decodes_as(k, value_text(v), Ok(v)),
{
    match v {
        Value::Flag(b) => lemma_integer_round_trip(if b { 1 } else { 0 }),
        Value::Override(o) => {
            lemma_integer_round_trip(0);
            lemma_integer_round_trip(1);
            lemma_decimal_round_trip(Decimal { negative: true, magnitude: 1, scale: 0 });
        },
        Value::Number(d) => lemma_decimal_round_trip(d),
        Value::Count(n) => lemma_integer_round_trip(n as nat),
        Value::Angles(a) => lemma_angles_round_trip(a),
        Value::Color(c) => lemma_color_round_trip(c),
        Value::Dirt(m) => lemma_integer_round_trip(dirt_code(m)),
        Value::Attenuation(a) => lemma_integer_round_trip(attenuation_code(a)),
        _ => {},
    }
}

} // verus!
