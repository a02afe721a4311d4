//! Parameter defaults declared in a script manifest, read from the manifest's
//! JSON for each parameter value type.

use vstd::prelude::*;
use vstd::string::*;
use vstd::arithmetic::power2::{pow2, lemma2_to64, lemma_pow2_pos, lemma_pow2_strictly_increases};
use vstd::bits::{lemma_u64_shl_is_mul, lemma_u64_shr_is_div};
use super::{ScriptRuntimeError, ScriptValueType};
use super::manifest::{JsonNumber, JsonValue, refused_with};
use crate::text::push_char;

verus! {

/// The bits of the double `1.0`.
pub const ONE_DOUBLE_BITS: u64 = 0x3ff0_0000_0000_0000;

/// A parameter default as a manifest declares it. Numbers stay as the JSON
/// reader holds them (an integer, or the bits of a finite double); the host
/// turns them into doubles.
#[derive(Debug)]
pub enum DefaultValue {
    Trigger,
    Int(i32),
    Float(JsonNumber),
    Str(String),
    File(String),
    Enum(String),
    Bool(bool),
    /// A CSS value written as text, read by the host with `rem` as the unit
    /// when the text names none.
    CssText(String),
    /// A CSS value of this many `rem`.
    CssRem(JsonNumber),
    /// A CSS value written in its structured JSON form, which the host
    /// decodes from the default's JSON value.
    CssStructured,
    /// The CSS value's own default, for a parameter that declares none.
    CssInitial,
    Vec2(JsonNumber, JsonNumber),
    Vec3(JsonNumber, JsonNumber, JsonNumber),
    Color(JsonNumber, JsonNumber, JsonNumber, JsonNumber),
    /// An empty node reference.
    Reference,
}

/// The integer part of the double with bits `bits`, saturated to the range
/// of `i64`; zero for a NaN.
pub open spec fn truncated_double(bits: u64) -> int {
    let negative = bits >= 0x8000_0000_0000_0000;
    let exponent = (bits / 0x10_0000_0000_0000) % 0x800;
    let fraction = bits % 0x10_0000_0000_0000;
    let magnitude: int = if exponent == 0x7ff {
        if fraction != 0 {
            0
        } else {
            i64::MAX + 1
        }
    } else if exponent < 1023 {
        0
    } else if exponent >= 1075 {
        (fraction + 0x10_0000_0000_0000) * pow2((exponent - 1075) as nat)
    } else {
        (fraction + 0x10_0000_0000_0000) / (pow2((1075 - exponent) as nat) as int)
    };
    if negative {
        if -magnitude < i64::MIN {
            i64::MIN as int
        } else {
            -magnitude
        }
    } else {
        if magnitude > i64::MAX {
            i64::MAX as int
        } else {
            magnitude
        }
    }
}

/// Converts the double with bits `bits` to `i64` as Rust's `as` does:
/// towards zero, saturating, NaN to zero.
pub fn truncate_double(bits: u64) -> (value: i64)
    ensures
        value == truncated_double(bits),
{
    let negative = (bits >> 63u64) == 1;
    let exponent = (bits >> 52u64) & 0x7ff;
    let fraction = bits & 0xf_ffff_ffff_ffff;
    assert(negative == (bits >= 0x8000_0000_0000_0000)) by (bit_vector)
        requires
            negative == ((bits >> 63u64) == 1),
    ;
    assert(exponent == (bits / 0x10_0000_0000_0000) % 0x800) by (bit_vector)
        requires
            exponent == (bits >> 52u64) & 0x7ff,
    ;
    assert(fraction == bits % 0x10_0000_0000_0000) by (bit_vector)
        requires
            fraction == bits & 0xf_ffff_ffff_ffff,
    ;
    if exponent == 0x7ff && fraction != 0 {
        return 0;
    }
    if exponent < 1023 {
        return 0;
    }
    let mantissa: u64 = fraction + 0x10_0000_0000_0000;
    if exponent >= 1086 {
        proof {
            if exponent != 0x7ff {
                lemma2_to64();
                if exponent > 1086 {
                    lemma_pow2_strictly_increases(11, (exponent - 1075) as nat);
                }
                let p = pow2((exponent - 1075) as nat);
                assert(mantissa * p >= 0x10_0000_0000_0000 * 2048) by (nonlinear_arith)
                    requires
                        mantissa >= 0x10_0000_0000_0000,
                        p >= 2048,
                ;
            }
        }
        if negative {
            return i64::MIN;
        } else {
            return i64::MAX;
        }
    }
    let magnitude: u64 = if exponent >= 1075 {
        let shift: u64 = exponent - 1075;
        proof {
            lemma2_to64();
            if shift < 10 {
                lemma_pow2_strictly_increases(shift as nat, 10);
            }
            lemma_pow2_pos(shift as nat);
            assert(mantissa * pow2(shift as nat) < 0x20_0000_0000_0000 * 1024) by (nonlinear_arith)
                requires
                    mantissa < 0x20_0000_0000_0000,
                    0 < pow2(shift as nat) <= 1024,
            ;
            lemma_u64_shl_is_mul(mantissa, shift);
        }
        let shifted = mantissa << shift;
        assert(shifted < 0x8000_0000_0000_0000);
        shifted
    } else {
        let shift: u64 = 1075 - exponent;
        proof {
            lemma_u64_shr_is_div(mantissa, shift);
            lemma_pow2_pos(shift as nat);
            assert(mantissa as nat / pow2(shift as nat) <= mantissa) by (nonlinear_arith)
                requires
                    pow2(shift as nat) >= 1,
            ;
        }
        let shifted = mantissa >> shift;
        assert(shifted < 0x8000_0000_0000_0000);
        shifted
    };
    if negative {
        -(magnitude as i64)
    } else {
        magnitude as i64
    }
}

/// The decimal digits of `n`.
pub open spec fn decimal_digits(n: nat) -> Seq<char>
    decreases n,
{
    if n < 10 {
        seq![(48 + n) as char]
    } else {
        decimal_digits(n / 10).push((48 + n % 10) as char)
    }
}

/// `n` written in decimal, with a leading minus sign when negative.
pub open spec fn decimal(n: int) -> Seq<char> {
    if n < 0 {
        seq!['-'] + decimal_digits((-n) as nat)
    } else {
        decimal_digits(n as nat)
    }
}

fn push_digits(text: &mut String, n: u64)
    ensures
        final(text)@ == old(text)@ + decimal_digits(n as nat),
    decreases n,
{
    if n >= 10 {
        push_digits(text, n / 10);
    }
    let digit: u8 = (n % 10) as u8;
    push_char(text, (48u8 + digit) as char);
    proof {
        assert(((48u8 + digit) as char) == (48 + (n as nat) % 10) as char);
    }
}

/// Appends `n` in decimal.
pub fn push_decimal(text: &mut String, n: i64)
    ensures
        final(text)@ == old(text)@ + decimal(n as int),
{
    if n < 0 {
        push_char(text, '-');
        let magnitude: u64 = (0i128 - n as i128) as u64;
        push_digits(text, magnitude);
        assert(final(text)@ =~= old(text)@ + decimal(n as int));
    } else {
        push_digits(text, n as u64);
    }
}

/// The integer a numeric JSON default is read as: itself when it fits in
/// `i64`, else its double truncated and saturated.
pub open spec fn integer_reading(n: JsonNumber) -> int {
    match n {
        JsonNumber::PosInt(u) => if u <= i64::MAX {
            u as int
        } else {
            i64::MAX as int
        },
        JsonNumber::NegInt(i) => i as int,
        JsonNumber::Float(bits) => truncated_double(bits),
    }
}

/// The number of a JSON value, if it is one.
pub open spec fn number_of(value: JsonValue) -> Option<JsonNumber> {
    match value {
        JsonValue::Number(n) => Some(n),
        _ => None,
    }
}

/// The refusal of default `value` for a parameter of type `value_type`, if
/// it is refused.
pub open spec fn default_refusal(value_type: ScriptValueType, value: JsonValue) -> Option<Seq<char>> {
    match value_type {
        ScriptValueType::Int => match value {
            JsonValue::Number(n) => if i32::MIN <= integer_reading(n) <= i32::MAX {
                None
            } else {
                Some("int default "@ + decimal(integer_reading(n)) + " is outside i32 range"@)
            },
            _ => Some("expected numeric default for int parameter"@),
        },
        ScriptValueType::Float => if value is Number {
            None
        } else {
            Some("expected numeric default for float parameter"@)
        },
        ScriptValueType::Str => if value is String {
            None
        } else {
            Some("expected string default for str parameter"@)
        },
        ScriptValueType::File => if value is String {
            None
        } else {
            Some("expected string default for file parameter"@)
        },
        ScriptValueType::Enum => if value is String {
            None
        } else {
            Some("expected string default for enum parameter"@)
        },
        ScriptValueType::Bool => if value is Bool {
            None
        } else {
            Some("expected boolean default for bool parameter"@)
        },
        ScriptValueType::Vec2 => match value {
            JsonValue::Array(items) => if items@.len() != 2 {
                Some("vec2 default must have exactly 2 components"@)
            } else if number_of(items@[0]) is None {
                Some("vec2[0] must be numeric"@)
            } else if number_of(items@[1]) is None {
                Some("vec2[1] must be numeric"@)
            } else {
                None
            },
            _ => Some("expected [x,y] array default for vec2 parameter"@),
        },
        ScriptValueType::Vec3 => match value {
            JsonValue::Array(items) => if items@.len() != 3 {
                Some("vec3 default must have exactly 3 components"@)
            } else if number_of(items@[0]) is None {
                Some("vec3[0] must be numeric"@)
            } else if number_of(items@[1]) is None {
                Some("vec3[1] must be numeric"@)
            } else if number_of(items@[2]) is None {
                Some("vec3[2] must be numeric"@)
            } else {
                None
            },
            _ => Some("expected [x,y,z] array default for vec3 parameter"@),
        },
        ScriptValueType::Color => match value {
            JsonValue::Array(items) => if items@.len() < 3 || items@.len() > 4 {
                Some("color default must have 3 or 4 components"@)
            } else if number_of(items@[0]) is None {
                Some("color[0] must be numeric"@)
            } else if number_of(items@[1]) is None {
                Some("color[1] must be numeric"@)
            } else if number_of(items@[2]) is None {
                Some("color[2] must be numeric"@)
            } else {
                None
            },
            _ => Some("expected [r,g,b,a] array default for color parameter"@),
        },
        _ => None,
    }
}

/// `default` is what `value`, accepted, declares for a parameter of type
/// `value_type`.
pub open spec fn default_declared(value_type: ScriptValueType, value: JsonValue, default: DefaultValue) -> bool {
    match value_type {
        ScriptValueType::Trigger => default is Trigger,
        ScriptValueType::Int => default == DefaultValue::Int(integer_reading(number_of(value)->0) as i32),
        ScriptValueType::Float => default == DefaultValue::Float(number_of(value)->0),
        ScriptValueType::Str => default matches DefaultValue::Str(text) && value matches JsonValue::String(s)
            && text@ == s@,
        ScriptValueType::File => default matches DefaultValue::File(text) && value matches JsonValue::String(s)
            && text@ == s@,
        ScriptValueType::Enum => default matches DefaultValue::Enum(text) && value matches JsonValue::String(s)
            && text@ == s@,
        ScriptValueType::Bool => value matches JsonValue::Bool(b) && default == DefaultValue::Bool(b),
        ScriptValueType::CssValue => match value {
            JsonValue::String(s) => default matches DefaultValue::CssText(text) && text@ == s@,
            JsonValue::Number(n) => default == DefaultValue::CssRem(n),
            _ => default is CssStructured,
        },
        ScriptValueType::Vec2 => value matches JsonValue::Array(items) && default == DefaultValue::Vec2(
            number_of(items@[0])->0,
            number_of(items@[1])->0,
        ),
        ScriptValueType::Vec3 => value matches JsonValue::Array(items) && default == DefaultValue::Vec3(
            number_of(items@[0])->0,
            number_of(items@[1])->0,
            number_of(items@[2])->0,
        ),
        ScriptValueType::Color => value matches JsonValue::Array(items) && default == DefaultValue::Color(
            number_of(items@[0])->0,
            number_of(items@[1])->0,
            number_of(items@[2])->0,
            if items@.len() == 4 && number_of(items@[3]) is Some {
                number_of(items@[3])->0
            } else {
                JsonNumber::Float(ONE_DOUBLE_BITS)
            },
        ),
        ScriptValueType::Reference => default is Reference,
    }
}

/// The components of a vector or color default, in order; none for the
/// other defaults.
pub open spec fn components(default: DefaultValue) -> Seq<JsonNumber> {
    match default {
        DefaultValue::Vec2(x, y) => seq![x, y],
        DefaultValue::Vec3(x, y, z) => seq![x, y, z],
        DefaultValue::Color(r, g, b, a) => seq![r, g, b, a],
        _ => Seq::empty(),
    }
}

/// The number of components of a vector or color family.
pub open spec fn dimension(value_type: ScriptValueType) -> int {
    match value_type {
        ScriptValueType::Vec2 => 2,
        ScriptValueType::Vec3 => 3,
        ScriptValueType::Color => 4,
        _ => 0,
    }
}

/// A vector or color default read from a JSON array keeps the array's
/// numbers in order: component `i` is the number at index `i`, and a color
/// that gives no numeric fourth entry is opaque.
pub proof fn lemma_vector_defaults_keep_component_order(
    value_type: ScriptValueType,
    value: JsonValue,
    default: DefaultValue,
)
    requires
        dimension(value_type) > 0,
        default_refusal(value_type, value) is None,
        default_declared(value_type, value, default),
    ensures
        value is Array,
        components(default).len() == dimension(value_type),
        forall|i: int|
            0 <= i < value->Array_0@.len() && i < dimension(value_type) && number_of(
                #[trigger] value->Array_0@[i],
            ) is Some ==> components(default)[i] == number_of(value->Array_0@[i])->0,
        forall|i: int| 0 <= i < dimension(value_type) && i < 3 ==> i < value->Array_0@.len() && number_of(
            #[trigger] value->Array_0@[i],
        ) is Some,
        value_type is Color && (value->Array_0@.len() == 3 || number_of(value->Array_0@[3]) is None) ==> components(
            default,
        )[3] == JsonNumber::Float(ONE_DOUBLE_BITS),
{
}

/// The text a text default holds; none for the other defaults.
pub open spec fn text_of_default(default: DefaultValue) -> Option<Seq<char>> {
    match default {
        DefaultValue::Str(t) => Some(t@),
        DefaultValue::File(t) => Some(t@),
        DefaultValue::Enum(t) => Some(t@),
        DefaultValue::CssText(t) => Some(t@),
        _ => None,
    }
}

/// An accepted scalar default carries the JSON value unchanged: an integer
/// parameter the integer written (when it is an integer), a float parameter
/// the number written, a text parameter the text written, a flag the flag
/// written.
pub proof fn lemma_scalar_defaults_keep_their_value(
    value_type: ScriptValueType,
    value: JsonValue,
    default: DefaultValue,
)
    requires
        default_refusal(value_type, value) is None,
        default_declared(value_type, value, default),
    ensures
        value_type is Int ==> (value matches JsonValue::Number(JsonNumber::PosInt(u)) ==> (default matches DefaultValue::Int(
            v,
        ) && v == u)),
        value_type is Int ==> (value matches JsonValue::Number(JsonNumber::NegInt(i)) ==> (default matches DefaultValue::Int(
            v,
        ) && v == i)),
        value_type is Float ==> (value matches JsonValue::Number(n) && default == DefaultValue::Float(n)),
        value_type is Str || value_type is File || value_type is Enum ==> (value matches JsonValue::String(s)
            && text_of_default(default) == Some(s@)),
        value_type is Bool ==> (value matches JsonValue::Bool(b) && default == DefaultValue::Bool(b)),
{
}

fn refuse(message: &str) -> (result: Result<DefaultValue, ScriptRuntimeError>)
    ensures
        refused_with(result, message@),
{
    Err(ScriptRuntimeError::InvalidManifest(String::from_str(message)))
}

fn number(value: &JsonValue) -> (n: Option<JsonNumber>)
    ensures
        n == number_of(*value),
{
    match value {
        JsonValue::Number(n) => Some(*n),
        _ => None,
    }
}

fn integer_value(n: JsonNumber) -> (raw: i64)
    ensures
        raw == integer_reading(n),
{
    match n {
        JsonNumber::PosInt(u) => if u <= 0x7fff_ffff_ffff_ffff {
            u as i64
        } else {
            i64::MAX
        },
        JsonNumber::NegInt(i) => i,
        JsonNumber::Float(bits) => truncate_double(bits),
    }
}

fn copy_text(s: &String) -> (copy: String)
    ensures
        copy@ == s@,
{
    String::from_str(s.as_str())
}

/// The default that `value` declares for a parameter of type `value_type`.
pub fn parameter_default_from_json(value_type: ScriptValueType, value: &JsonValue) -> (result: Result<
    DefaultValue,
    ScriptRuntimeError,
>)
    ensures
        match default_refusal(value_type, *value) {
            Some(message) => refused_with(result, message),
            None => result matches Ok(default) && default_declared(value_type, *value, default),
        },
{
    match value_type {
        ScriptValueType::Trigger => Ok(DefaultValue::Trigger),
        ScriptValueType::Int => {
            let n = match number(value) {
                Some(n) => n,
                None => return refuse("expected numeric default for int parameter"),
            };
            let raw = integer_value(n);
            if raw < i32::MIN as i64 || raw > i32::MAX as i64 {
                let mut message = String::from_str("int default ");
                push_decimal(&mut message, raw);
                let message = message.concat(" is outside i32 range");
                return Err(ScriptRuntimeError::InvalidManifest(message));
            }
            Ok(DefaultValue::Int(raw as i32))
        },
        ScriptValueType::Float => match number(value) {
            Some(n) => Ok(DefaultValue::Float(n)),
            None => refuse("expected numeric default for float parameter"),
        },
        ScriptValueType::Str => match value {
            JsonValue::String(s) => Ok(DefaultValue::Str(copy_text(s))),
            _ => refuse("expected string default for str parameter"),
        },
        ScriptValueType::File => match value {
            JsonValue::String(s) => Ok(DefaultValue::File(copy_text(s))),
            _ => refuse("expected string default for file parameter"),
        },
        ScriptValueType::Enum => match value {
            JsonValue::String(s) => Ok(DefaultValue::Enum(copy_text(s))),
            _ => refuse("expected string default for enum parameter"),
        },
        ScriptValueType::Bool => match value {
            JsonValue::Bool(b) => Ok(DefaultValue::Bool(*b)),
            _ => refuse("expected boolean default for bool parameter"),
        },
        ScriptValueType::CssValue => match value {
            JsonValue::String(s) => Ok(DefaultValue::CssText(copy_text(s))),
            JsonValue::Number(n) => Ok(DefaultValue::CssRem(*n)),
            _ => Ok(DefaultValue::CssStructured),
        },
        ScriptValueType::Vec2 => {
            let items = match value {
                JsonValue::Array(items) => items,
                _ => return refuse("expected [x,y] array default for vec2 parameter"),
            };
            if items.len() != 2 {
                return refuse("vec2 default must have exactly 2 components");
            }
            let x = match number(&items[0]) {
                Some(x) => x,
                None => return refuse("vec2[0] must be numeric"),
            };
            let y = match number(&items[1]) {
                Some(y) => y,
                None => return refuse("vec2[1] must be numeric"),
            };
            Ok(DefaultValue::Vec2(x, y))
        },
        ScriptValueType::Vec3 => {
            let items = match value {
                JsonValue::Array(items) => items,
                _ => return refuse("expected [x,y,z] array default for vec3 parameter"),
            };
            if items.len() != 3 {
                return refuse("vec3 default must have exactly 3 components");
            }
            let x = match number(&items[0]) {
                Some(x) => x,
                None => return refuse("vec3[0] must be numeric"),
            };
            let y = match number(&items[1]) {
                Some(y) => y,
                None => return refuse("vec3[1] must be numeric"),
            };
            let z = match number(&items[2]) {
                Some(z) => z,
                None => return refuse("vec3[2] must be numeric"),
            };
            Ok(DefaultValue::Vec3(x, y, z))
        },
        ScriptValueType::Color => {
            let items = match value {
                JsonValue::Array(items) => items,
                _ => return refuse("expected [r,g,b,a] array default for color parameter"),
            };
            if items.len() < 3 || items.len() > 4 {
                return refuse("color default must have 3 or 4 components");
            }
            let r = match number(&items[0]) {
                Some(r) => r,
                None => return refuse("color[0] must be numeric"),
            };
            let g = match number(&items[1]) {
                Some(g) => g,
                None => return refuse("color[1] must be numeric"),
            };
            let b = match number(&items[2]) {
                Some(b) => b,
                None => return refuse("color[2] must be numeric"),
            };
            let a = if items.len() == 4 {
                match number(&items[3]) {
                    Some(a) => a,
                    None => JsonNumber::Float(ONE_DOUBLE_BITS),
                }
            } else {
                JsonNumber::Float(ONE_DOUBLE_BITS)
            };
            Ok(DefaultValue::Color(r, g, b, a))
        },
        ScriptValueType::Reference => Ok(DefaultValue::Reference),
    }
}

} // verus!
