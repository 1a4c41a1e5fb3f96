//! Typed scalar values and their flat text form.

use vstd::prelude::*;
use crate::decimal::{
    decimal_text, decode_number, encode_decimal, lemma_decimal_round_trip, lemma_pow10_grows,
    lemma_pow10_positive, parse_decimal, parse_number, pow10, Decimal,
};
use crate::text::{join3, lemma_words_join3, push_all, split_words, words, words_view};

verus! {

/// A three-state setting that either forces a boolean or defers to a fallback.
#[derive(Clone, Copy, Debug, PartialEq, Eq, Structural)]
pub enum Override {
    Unset,
    ForceTrue,
    ForceFalse,
}

impl Override {
    /// Resolves the setting against the value of the broader scope.
    pub fn resolve(self, fallback: bool) -> (r: bool)
        ensures
            r == match self {
                Override::Unset => fallback,
                Override::ForceTrue => true,
                Override::ForceFalse => false,
            },
    {
        match self {
            Override::Unset => fallback,
            Override::ForceTrue => true,
            Override::ForceFalse => false,
        }
    }
}

/// How dirtmapping samples are laid out.
#[derive(Clone, Copy, Debug, PartialEq, Eq, Structural)]
pub enum DirtMode {
    Ordered,
    Randomized,
}

/// How light fades over distance.
#[derive(Clone, Copy, Debug, PartialEq, Eq, Structural)]
pub enum BspLightAttenuation {
    /// Linear attenuation.
    Linear,
    /// 1/x attenuation.
    Reciprocal,
    /// 1/(x^2) attenuation.
    ReciprocalSquare,
    /// No attenuation.
    NoAttenuation,
    /// No attenuation, never raising lighting above the light's value.
    LocalMinLight,
    /// 1/(x^2) attenuation without the bright spot near the source.
    ReciprocalSquareTweaked,
}

pub open spec fn dirt_code(m: DirtMode) -> nat {
    match m {
        DirtMode::Ordered => 0,
        DirtMode::Randomized => 1,
    }
}

pub open spec fn dirt_of_code(i: int) -> Option<DirtMode> {
    if i == 0 {
        Some(DirtMode::Ordered)
    } else if i == 1 {
        Some(DirtMode::Randomized)
    } else {
        None
    }
}

pub open spec fn attenuation_code(a: BspLightAttenuation) -> nat {
    match a {
        BspLightAttenuation::Linear => 0,
        BspLightAttenuation::Reciprocal => 1,
        BspLightAttenuation::ReciprocalSquare => 2,
        BspLightAttenuation::NoAttenuation => 3,
        BspLightAttenuation::LocalMinLight => 4,
        BspLightAttenuation::ReciprocalSquareTweaked => 5,
    }
}

pub open spec fn attenuation_of_code(i: int) -> Option<BspLightAttenuation> {
    if i == 0 {
        Some(BspLightAttenuation::Linear)
    } else if i == 1 {
        Some(BspLightAttenuation::Reciprocal)
    } else if i == 2 {
        Some(BspLightAttenuation::ReciprocalSquare)
    } else if i == 3 {
        Some(BspLightAttenuation::NoAttenuation)
    } else if i == 4 {
        Some(BspLightAttenuation::LocalMinLight)
    } else if i == 5 {
        Some(BspLightAttenuation::ReciprocalSquareTweaked)
    } else {
        None
    }
}

impl DirtMode {
    /// The integer code written for this mode.
    pub fn code(self) -> (r: u64)
        ensures
            r == dirt_code(self),
    {
        match self {
            DirtMode::Ordered => 0,
            DirtMode::Randomized => 1,
        }
    }

    /// The mode with integer code `i`, if there is one.
    pub fn from_code(i: i128) -> (r: Option<DirtMode>)
        ensures
            r == dirt_of_code(i as int),
    {
        if i == 0 {
            Some(DirtMode::Ordered)
        } else if i == 1 {
            Some(DirtMode::Randomized)
        } else {
            None
        }
    }
}

impl BspLightAttenuation {
    /// The integer code written for this formula.
    pub fn code(self) -> (r: u64)
        ensures
            r == attenuation_code(self),
    {
        match self {
            BspLightAttenuation::Linear => 0,
            BspLightAttenuation::Reciprocal => 1,
            BspLightAttenuation::ReciprocalSquare => 2,
            BspLightAttenuation::NoAttenuation => 3,
            BspLightAttenuation::LocalMinLight => 4,
            BspLightAttenuation::ReciprocalSquareTweaked => 5,
        }
    }

    /// The formula with integer code `i`, if there is one.
    pub fn from_code(i: i128) -> (r: Option<BspLightAttenuation>)
        ensures
            r == attenuation_of_code(i as int),
    {
        if i == 0 {
            Some(BspLightAttenuation::Linear)
        } else if i == 1 {
            Some(BspLightAttenuation::Reciprocal)
        } else if i == 2 {
            Some(BspLightAttenuation::ReciprocalSquare)
        } else if i == 3 {
            Some(BspLightAttenuation::NoAttenuation)
        } else if i == 4 {
            Some(BspLightAttenuation::LocalMinLight)
        } else if i == 5 {
            Some(BspLightAttenuation::ReciprocalSquareTweaked)
        } else {
            None
        }
    }
}

/// Yaw, pitch and roll in degrees, in that order.
#[derive(Clone, Copy, Debug, PartialEq, Eq, Structural)]
pub struct Angles {
    pub yaw: Decimal,
    pub pitch: Decimal,
    pub roll: Decimal,
}

/// An RGB color whose channels are kept on the 0–255 scale; the normalized
/// value of a channel is that channel divided by 255.
#[derive(Clone, Copy, Debug, PartialEq, Eq, Structural)]
pub struct Color {
    pub r: Decimal,
    pub g: Decimal,
    pub b: Decimal,
}


pub open spec fn int_of(d: Decimal) -> int {
    if d.negative { -(d.magnitude as int) } else { d.magnitude as int }
}

/// The integer written by `s`, if it is a decimal number without a point.
pub open spec fn parse_int(s: Seq<char>) -> Option<int> {
    match parse_decimal(s) {
        Some(d) => if d.scale == 0 { Some(int_of(d)) } else { None },
        None => None,
    }
}

/// A channel read from text lies within `[0, 1]`.
pub open spec fn unit_channel(d: Decimal) -> bool {
    !d.negative && d.magnitude <= pow10(d.scale as nat)
}

pub open spec fn scale_channel(d: Decimal) -> Decimal {
    Decimal { negative: d.negative, magnitude: (d.magnitude * 255) as u64, scale: d.scale }
}

/// The color that three channels read from text denote: channels that all lie
/// within `[0, 1]` are already normalized and are brought to the 0–255 scale;
/// otherwise they are taken on the 0–255 scale as they are.
pub open spec fn color_from(r: Decimal, g: Decimal, b: Decimal) -> Option<Color> {
    if unit_channel(r) && unit_channel(g) && unit_channel(b) {
        if r.magnitude * 255 <= u64::MAX && g.magnitude * 255 <= u64::MAX && b.magnitude * 255
            <= u64::MAX {
            Some(Color { r: scale_channel(r), g: scale_channel(g), b: scale_channel(b) })
        } else {
            None
        }
    } else {
        Some(Color { r, g, b })
    }
}

/// A channel rounded half up to the nearest integer.
pub open spec fn round_channel(d: Decimal) -> nat {
    if d.scale == 0 {
        d.magnitude as nat
    } else {
        (d.magnitude as nat / pow10((d.scale - 1) as nat) + 5) / 10
    }
}

pub open spec fn rounded(d: Decimal) -> Decimal {
    Decimal { negative: d.negative, magnitude: round_channel(d) as u64, scale: 0 }
}

/// A channel is written as its sign and its value rounded to an integer.
pub open spec fn channel_text(d: Decimal) -> Seq<char> {
    decimal_text(rounded(d))
}

pub open spec fn color_text(c: Color) -> Seq<char> {
    join3(channel_text(c.r), channel_text(c.g), channel_text(c.b))
}

pub open spec fn angles_text(a: Angles) -> Seq<char> {
    join3(decimal_text(a.yaw), decimal_text(a.pitch), decimal_text(a.roll))
}

/// The three decimals that `s` holds as three whitespace-separated words.
pub open spec fn parse_triple(s: Seq<char>) -> Option<(Decimal, Decimal, Decimal)> {
    let w = words(s);
    if w.len() == 3 {
        match (parse_number(w[0]), parse_number(w[1]), parse_number(w[2])) {
            (Some(a), Some(b), Some(c)) => Some((a, b, c)),
            _ => None,
        }
    } else {
        None
    }
}

pub open spec fn parse_angles(s: Seq<char>) -> Option<Angles> {
    match parse_triple(s) {
        Some(t) => Some(Angles { yaw: t.0, pitch: t.1, roll: t.2 }),
        None => None,
    }
}

pub open spec fn parse_color(s: Seq<char>) -> Option<Color> {
    match parse_triple(s) {
        Some(t) => color_from(t.0, t.1, t.2),
        None => None,
    }
}

/// Reads three whitespace-separated decimals.
pub fn decode_triple(s: &Vec<char>) -> (r: Option<(Decimal, Decimal, Decimal)>)
    ensures
        r == parse_triple(s@),
{
    let w = split_words(s);
    assert(words_view(w@).len() == w@.len());
    if w.len() != 3 {
        return None;
    }
    assert(words_view(w@)[0] == w@[0]@);
    assert(words_view(w@)[1] == w@[1]@);
    assert(words_view(w@)[2] == w@[2]@);
    let a = decode_number(&w[0]);
    let b = decode_number(&w[1]);
    let c = decode_number(&w[2]);
    match (a, b, c) {
        (Some(a), Some(b), Some(c)) => Some((a, b, c)),
        _ => None,
    }
}

/// `10^n`, or `None` when it exceeds `u64::MAX`.
fn pow10_u64(n: u32) -> (r: Option<u64>)
    ensures
        match r {
            Some(p) => p == pow10(n as nat),
            None => pow10(n as nat) > u64::MAX,
        },
{
    let mut p: u64 = 1;
    let mut i: u32 = 0;
    while i < n
        invariant
            i <= n,
            p == pow10(i as nat),
        decreases n - i,
    {
        if p > u64::MAX / 10 {
            proof {
                lemma_pow10_grows(i as nat + 1, n as nat);
            }
            return None;
        }
        p = p * 10;
        i += 1;
    }
    Some(p)
}



fn is_unit_channel(d: &Decimal) -> (r: bool)
    ensures
        r == unit_channel(*d),
{
    if d.negative {
        return false;
    }
    match pow10_u64(d.scale) {
        Some(p) => d.magnitude <= p,
        None => true,
    }
}

/// Builds the color that three channels read from text denote.
pub fn color_from_channels(r: Decimal, g: Decimal, b: Decimal) -> (c: Option<Color>)
    ensures
        c == color_from(r, g, b),
{
    if is_unit_channel(&r) && is_unit_channel(&g) && is_unit_channel(&b) {
        if r.magnitude <= u64::MAX / 255 && g.magnitude <= u64::MAX / 255 && b.magnitude <= u64::MAX
            / 255 {
            Some(
                Color {
                    r: Decimal { negative: false, magnitude: r.magnitude * 255, scale: r.scale },
                    g: Decimal { negative: false, magnitude: g.magnitude * 255, scale: g.scale },
                    b: Decimal { negative: false, magnitude: b.magnitude * 255, scale: b.scale },
                },
            )
        } else {
            None
        }
    } else {
        Some(Color { r, g, b })
    }
}

/// Rounds a channel half up to the nearest integer.
pub fn round_to_integer(d: &Decimal) -> (r: u64)
    ensures
        r == round_channel(*d),
{
    proof {
        lemma_round_fits(*d);
    }
    if d.scale == 0 {
        return d.magnitude;
    }
    let mut q: u64 = d.magnitude;
    let mut i: u32 = 0;
    assert(pow10(0) == 1);
    while i < d.scale - 1
        invariant
            d.scale >= 1,
            i <= d.scale - 1,
            q == d.magnitude as nat / pow10(i as nat),
        decreases d.scale - 1 - i,
    {
        proof {
            lemma_pow10_positive(i as nat);
            vstd::arithmetic::div_mod::lemma_div_denominator(
                d.magnitude as int,
                pow10(i as nat) as int,
                10,
            );
            assert(pow10(i as nat + 1) == pow10(i as nat) * 10);
        }
        q = q / 10;
        i += 1;
    }
    q / 10 + if q % 10 >= 5 { 1 } else { 0 }
}

proof fn lemma_round_fits(d: Decimal)
    ensures
        round_channel(d) <= u64::MAX,
{
    if d.scale > 0 {
        lemma_pow10_positive((d.scale - 1) as nat);
        vstd::arithmetic::div_mod::lemma_div_is_ordered_by_denominator(
            d.magnitude as int,
            1,
            pow10((d.scale - 1) as nat) as int,
        );
    }
}

/// Writes three words joined by single spaces.
fn push_join3(a: &Vec<char>, b: &Vec<char>, c: &Vec<char>) -> (r: Vec<char>)
    ensures
        r@ == join3(a@, b@, c@),
{
    let mut out: Vec<char> = Vec::new();
    push_all(&mut out, a);
    out.push(' ');
    push_all(&mut out, b);
    out.push(' ');
    push_all(&mut out, c);
    assert(out@ =~= join3(a@, b@, c@));
    out
}

/// Writes yaw, pitch and roll.
pub fn encode_angles(a: &Angles) -> (r: Vec<char>)
    ensures
        r@ == angles_text(*a),
{
    push_join3(&encode_decimal(&a.yaw), &encode_decimal(&a.pitch), &encode_decimal(&a.roll))
}

fn encode_channel(d: &Decimal) -> (r: Vec<char>)
    ensures
        r@ == channel_text(*d),
{
    let n = round_to_integer(d);
    encode_decimal(&Decimal { negative: d.negative, magnitude: n, scale: 0 })
}

/// Writes a color on the 0–255 scale, each channel rounded to an integer.
pub fn encode_color(c: &Color) -> (r: Vec<char>)
    ensures
        r@ == color_text(*c),
{
    push_join3(&encode_channel(&c.r), &encode_channel(&c.g), &encode_channel(&c.b))
}

/// Reads yaw, pitch and roll.
pub fn decode_angles(s: &Vec<char>) -> (r: Option<Angles>)
    ensures
        r == parse_angles(s@),
{
    match decode_triple(s) {
        Some(t) => Some(Angles { yaw: t.0, pitch: t.1, roll: t.2 }),
        None => None,
    }
}

/// Reads a color given either on the 0–1 or on the 0–255 scale.
pub fn decode_color(s: &Vec<char>) -> (r: Option<Color>)
    ensures
        r == parse_color(s@),
{
    match decode_triple(s) {
        Some(t) => color_from_channels(t.0, t.1, t.2),
        None => None,
    }
}

/// A color is written exactly when its channels are integers, and read back
/// as written unless all of them lie within `[0, 1]` and one is not zero.
pub open spec fn color_exact(c: Color) -> bool {
    &&& c.r.scale == 0 && c.g.scale == 0 && c.b.scale == 0
    &&& (!(unit_channel(c.r) && unit_channel(c.g) && unit_channel(c.b)) || (c.r.magnitude == 0
        && c.g.magnitude == 0 && c.b.magnitude == 0))
}

/// Whether a color survives its own text round trip.
pub fn color_round_trips(c: &Color) -> (r: bool)
    ensures
        r == color_exact(*c),
{
    c.r.scale == 0 && c.g.scale == 0 && c.b.scale == 0 && (!(is_unit_channel(&c.r)
        && is_unit_channel(&c.g) && is_unit_channel(&c.b)) || (c.r.magnitude == 0 && c.g.magnitude
        == 0 && c.b.magnitude == 0))
}

#[verifier::rlimit(30)]
pub proof fn lemma_angles_round_trip(a: Angles)
    ensures
        parse_angles(angles_text(a)) == Some(a),
{
    let (x, y, z) = (decimal_text(a.yaw), decimal_text(a.pitch), decimal_text(a.roll));
    lemma_decimal_round_trip(a.yaw);
    lemma_decimal_round_trip(a.pitch);
    lemma_decimal_round_trip(a.roll);
    lemma_words_join3(x, y, z);
    let w = words(angles_text(a));
    assert(w[0] == x && w[1] == y && w[2] == z);
    assert(parse_triple(angles_text(a)) == Some((a.yaw, a.pitch, a.roll)));
}

#[verifier::rlimit(30)]
pub proof fn lemma_color_round_trip(c: Color)
    requires
        color_exact(c),
    ensures
        parse_color(color_text(c)) == Some(c),
{
    assert(rounded(c.r) == c.r);
    assert(rounded(c.g) == c.g);
    assert(rounded(c.b) == c.b);
    lemma_decimal_round_trip(c.r);
    lemma_decimal_round_trip(c.g);
    lemma_decimal_round_trip(c.b);
    lemma_words_join3(decimal_text(c.r), decimal_text(c.g), decimal_text(c.b));
    let w = words(color_text(c));
    assert(w[0] == decimal_text(c.r) && w[1] == decimal_text(c.g) && w[2] == decimal_text(c.b));
    assert(parse_triple(color_text(c)) == Some((c.r, c.g, c.b)));
    if !(unit_channel(c.r) && unit_channel(c.g) && unit_channel(c.b)) {
    } else {
        assert(scale_channel(c.r) == c.r);
        assert(scale_channel(c.g) == c.g);
        assert(scale_channel(c.b) == c.b);
    }
}

} // verus!
