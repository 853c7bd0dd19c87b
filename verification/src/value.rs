//! Resolved runtime values and the arithmetic defined over them.
use vstd::prelude::*;

use crate::color::{
    color_hex_chars, spec_color_div, spec_color_mul, ColorValue,
};
use crate::decimal::{
    dec_chars, dec_wf, spec_dec_div, spec_dec_div100, spec_dec_mul, Decimal,
};
use crate::errors::{Error, SpecError};
use crate::strutil::{chars_to_string, push_str_chars};

verus! {

/// A number's unit: bare, pixels, or a percentage.
#[derive(Debug, Clone, Copy, PartialEq, Eq, Structural)]
pub enum NumberType {
    Bare,
    Pixels,
    Percentage,
}

/// A fully resolved token value: a color, a number with a unit, or opaque
/// text that matched neither.
#[derive(Debug, PartialEq, Eq)]
pub enum Value {
    Color(ColorValue),
    Number(Decimal, NumberType),
    Any(String),
}

/// The mathematical image of a [`Value`].
pub enum SpecValue {
    Color(ColorValue),
    Number(Decimal, NumberType),
    Any(Seq<char>),
}

impl View for Value {
    type V = SpecValue;

    open spec fn view(&self) -> SpecValue {
        match self {
            Value::Color(c) => SpecValue::Color(*c),
            Value::Number(d, t) => SpecValue::Number(*d, *t),
            Value::Any(s) => SpecValue::Any(s@),
        }
    }
}

/// A well-formed value: numeric magnitudes are normalized.
pub open spec fn spec_value_wf(v: SpecValue) -> bool {
    match v {
        SpecValue::Number(d, _) => dec_wf(d),
        _ => true,
    }
}

/// The stylesheet text of a number: its decimal text with the unit suffix.
pub open spec fn number_css_chars(d: Decimal, t: NumberType) -> Seq<char> {
    match t {
        NumberType::Bare => dec_chars(d),
        NumberType::Pixels => dec_chars(d) + "px"@,
        NumberType::Percentage => dec_chars(d) + "%"@,
    }
}

/// The constant text of a number: percentages become their fractional
/// equivalent, and the text always carries a decimal point.
pub open spec fn number_rust_chars(d: Decimal, t: NumberType) -> Seq<char> {
    let shifted = if t is Percentage {
        spec_dec_div100(d)
    } else {
        d
    };
    if shifted.scale == 0 {
        dec_chars(shifted) + "."@
    } else {
        dec_chars(shifted)
    }
}

/// The stylesheet text of a value.
pub open spec fn value_css_chars(v: SpecValue) -> Seq<char> {
    match v {
        SpecValue::Color(c) => color_hex_chars(c),
        SpecValue::Number(d, t) => number_css_chars(d, t),
        SpecValue::Any(s) => s,
    }
}

/// The constant-declaration text of a value: colors and opaque text are
/// quoted string literals, numbers are bare numerics.
pub open spec fn value_rust_chars(v: SpecValue) -> Seq<char> {
    match v {
        SpecValue::Color(c) => "\""@ + color_hex_chars(c) + "\""@,
        SpecValue::Number(d, t) => number_rust_chars(d, t),
        SpecValue::Any(s) => "\""@ + s + "\""@,
    }
}

/// The target-language type of a value's constant.
pub open spec fn value_rust_type_chars(v: SpecValue) -> Seq<char> {
    match v {
        SpecValue::Number(_, _) => "f32"@,
        _ => "&'static str"@,
    }
}

/// The constant text of a value with numbers also quoted, used inside
/// composite constant lists.
pub open spec fn value_rust_string_chars(v: SpecValue) -> Seq<char> {
    match v {
        SpecValue::Number(_, _) => "\""@ + value_rust_chars(v) + "\""@,
        _ => value_rust_chars(v),
    }
}

/// The product of two values: defined componentwise on two colors and on
/// the magnitudes of two numbers — the left operand's unit is kept — and a
/// type-mismatch fault on every other pairing.
pub open spec fn spec_value_mul(a: SpecValue, b: SpecValue) -> Result<SpecValue, SpecError> {
    match (a, b) {
        (SpecValue::Color(x), SpecValue::Color(y)) => Ok(SpecValue::Color(spec_color_mul(x, y))),
        (SpecValue::Number(d1, t1), SpecValue::Number(d2, t2)) => match spec_dec_mul(d1, d2) {
            Some(p) => Ok(SpecValue::Number(p, t1)),
            None => Err(SpecError::Overflow),
        },
        _ => Err(SpecError::TypeMismatch),
    }
}

/// The quotient of two values, under the same pairing policy as the
/// product; dividing a number by zero is a fault.
pub open spec fn spec_value_div(a: SpecValue, b: SpecValue) -> Result<SpecValue, SpecError> {
    match (a, b) {
        (SpecValue::Color(x), SpecValue::Color(y)) => Ok(SpecValue::Color(spec_color_div(x, y))),
        (SpecValue::Number(d1, t1), SpecValue::Number(d2, t2)) => if d2.mantissa == 0 {
            Err(SpecError::DivideByZero)
        } else {
            match spec_dec_div(d1, d2) {
                Some(q) => Ok(SpecValue::Number(q, t1)),
                None => Err(SpecError::Overflow),
            }
        },
        _ => Err(SpecError::TypeMismatch),
    }
}

impl NumberType {
    /// The stylesheet text of a number of this unit.
    pub fn to_css(&self, value: &Decimal) -> (r: String)
        ensures
            r@ == number_css_chars(*value, *self),
    {
        let mut v = value.to_chars();
        match self {
            NumberType::Bare => {},
            NumberType::Pixels => push_str_chars(&mut v, "px"),
            NumberType::Percentage => push_str_chars(&mut v, "%"),
        }
        chars_to_string(&v)
    }

    /// The constant text of a number of this unit: percentages become
    /// fractions, and a decimal point is always present.
    pub fn to_rust(&self, value: &Decimal) -> (r: String)
        requires
            dec_wf(*value),
        ensures
            r@ == number_rust_chars(*value, *self),
    {
        let shifted = match self {
            NumberType::Percentage => value.div100(),
            _ => *value,
        };
        let mut v = shifted.to_chars();
        if shifted.scale == 0 {
            push_str_chars(&mut v, ".");
        }
        chars_to_string(&v)
    }
}

impl Value {
    /// The stylesheet text of this value.
    pub fn to_css(&self) -> (r: String)
        ensures
            r@ == value_css_chars(self@),
    {
        match self {
            Value::Color(c) => {
                let v = c.to_hex_chars();
                chars_to_string(&v)
            },
            Value::Number(d, t) => t.to_css(d),
            Value::Any(s) => {
                let mut v: Vec<char> = Vec::new();
                push_str_chars(&mut v, s.as_str());
                chars_to_string(&v)
            },
        }
    }

    /// The constant text of this value.
    pub fn to_rust(&self) -> (r: String)
        requires
            spec_value_wf(self@),
        ensures
            r@ == value_rust_chars(self@),
    {
        match self {
            Value::Color(c) => {
                let mut v: Vec<char> = Vec::new();
                v.push('"');
                let hex = c.to_hex_chars();
                crate::strutil::push_chars(&mut v, &hex);
                v.push('"');
                proof {
                    reveal_strlit("\"");
                    assert(v@ =~= value_rust_chars(self@));
                }
                chars_to_string(&v)
            },
            Value::Number(d, t) => t.to_rust(d),
            Value::Any(s) => {
                let mut v: Vec<char> = Vec::new();
                v.push('"');
                push_str_chars(&mut v, s.as_str());
                v.push('"');
                proof {
                    reveal_strlit("\"");
                    assert(v@ =~= value_rust_chars(self@));
                }
                chars_to_string(&v)
            },
        }
    }

    /// The target-language type of this value's constant.
    pub fn to_rust_type(&self) -> (r: &'static str)
        ensures
            r@ == value_rust_type_chars(self@),
    {
        match self {
            Value::Number(_, _) => "f32",
            _ => "&'static str",
        }
    }

    /// The constant text of this value with numbers also quoted.
    pub fn to_rust_string(&self) -> (r: String)
        requires
            spec_value_wf(self@),
        ensures
            r@ == value_rust_string_chars(self@),
    {
        match self {
            Value::Number(_, _) => {
                let mut v: Vec<char> = Vec::new();
                v.push('"');
                let inner = self.to_rust();
                push_str_chars(&mut v, inner.as_str());
                v.push('"');
                proof {
                    reveal_strlit("\"");
                    assert(v@ =~= value_rust_string_chars(self@));
                }
                chars_to_string(&v)
            },
            _ => self.to_rust(),
        }
    }

    /// Multiplies two values under the engine's arithmetic policy.
    pub fn mul(&self, other: &Value) -> (r: Result<Value, Error>)
        requires
            spec_value_wf(self@),
            spec_value_wf(other@),
        ensures
            match r {
                Ok(v) => spec_value_mul(self@, other@) == Ok::<SpecValue, SpecError>(v@)
                    && spec_value_wf(v@),
                Err(e) => spec_value_mul(self@, other@) == Err::<SpecValue, SpecError>(e@),
            },
    {
        match (self, other) {
            (Value::Color(x), Value::Color(y)) => Ok(Value::Color(x.mul(y))),
            (Value::Number(d1, t1), Value::Number(d2, t2)) => match d1.mul(d2) {
                Some(p) => Ok(Value::Number(p, *t1)),
                None => Err(Error::Overflow),
            },
            _ => Err(Error::TypeMismatch),
        }
    }

    /// Divides two values under the engine's arithmetic policy.
    pub fn div(&self, other: &Value) -> (r: Result<Value, Error>)
        requires
            spec_value_wf(self@),
            spec_value_wf(other@),
        ensures
            match r {
                Ok(v) => spec_value_div(self@, other@) == Ok::<SpecValue, SpecError>(v@)
                    && spec_value_wf(v@),
                Err(e) => spec_value_div(self@, other@) == Err::<SpecValue, SpecError>(e@),
            },
    {
        match (self, other) {
            (Value::Color(x), Value::Color(y)) => Ok(Value::Color(x.div(y))),
            (Value::Number(d1, t1), Value::Number(d2, t2)) => if d2.mantissa == 0 {
                Err(Error::DivideByZero)
            } else {
                match d1.div(d2) {
                    Some(q) => Ok(Value::Number(q, *t1)),
                    None => Err(Error::Overflow),
                }
            },
            _ => Err(Error::TypeMismatch),
        }
    }
}

/// The arithmetic policy on numbers: a product of two numbers keeps the
/// left operand's unit, whatever the right operand's unit, and multiplies
/// the magnitudes exactly.
pub proof fn lemma_number_mul_keeps_left_unit(d1: Decimal, t1: NumberType, d2: Decimal, t2: NumberType)
    requires
        spec_dec_mul(d1, d2) is Some,
    ensures
        spec_value_mul(SpecValue::Number(d1, t1), SpecValue::Number(d2, t2)) == Ok::<
            SpecValue,
            SpecError,
        >(SpecValue::Number(spec_dec_mul(d1, d2)->0, t1)),
{
}


impl Clone for Value {
    /// A clone denotes the same value.
    fn clone(&self) -> (r: Value)
        ensures
            r@ == self@,
    {
        match self {
            Value::Color(c) => Value::Color(*c),
            Value::Number(d, t) => Value::Number(*d, *t),
            Value::Any(s) => Value::Any(s.clone()),
        }
    }
}

} // verus!
