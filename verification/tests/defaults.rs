use golden::script::defaults::{parameter_default_from_json, push_decimal, truncate_double, DefaultValue, ONE_DOUBLE_BITS};
use golden::script::manifest::{JsonNumber, JsonValue};
use golden::script::{ScriptRuntimeError, ScriptValueType};

fn float(value: f64) -> JsonValue {
    JsonValue::Number(JsonNumber::Float(value.to_bits()))
}

fn message(result: Result<DefaultValue, ScriptRuntimeError>) -> String {
    match result {
        Err(ScriptRuntimeError::InvalidManifest(text)) => text,
        other => panic!("expected a refusal, got {other:?}"),
    }
}

#[test]
fn doubles_truncate_towards_zero_and_saturate() {
    assert_eq!(truncate_double(2.5f64.to_bits()), 2);
    assert_eq!(truncate_double((-2.5f64).to_bits()), -2);
    assert_eq!(truncate_double(0.75f64.to_bits()), 0);
    assert_eq!(truncate_double(1e20f64.to_bits()), i64::MAX);
    assert_eq!(truncate_double((-1e20f64).to_bits()), i64::MIN);
    assert_eq!(truncate_double(f64::NAN.to_bits()), 0);
    assert_eq!(truncate_double(f64::NEG_INFINITY.to_bits()), i64::MIN);
    assert_eq!(truncate_double(4503599627370497.0f64.to_bits()), 4503599627370497);
    assert_eq!(truncate_double(4611686018427387904.0f64.to_bits()), 4611686018427387904);
    for value in [0.0f64, 1.0, -1.0, 123.999, -77.5, 3e15, -9.2e18, 1024.0] {
        assert_eq!(truncate_double(value.to_bits()), value as i64);
    }
}

#[test]
fn integers_are_written_in_decimal() {
    let mut text = String::from("n=");
    push_decimal(&mut text, -9223372036854775808);
    assert_eq!(text, "n=-9223372036854775808");
    let mut zero = String::new();
    push_decimal(&mut zero, 0);
    assert_eq!(zero, "0");
    let mut positive = String::new();
    push_decimal(&mut positive, 4096);
    assert_eq!(positive, "4096");
}

#[test]
fn int_defaults_are_read_from_any_number_within_i32() {
    let exact = parameter_default_from_json(ScriptValueType::Int, &JsonValue::Number(JsonNumber::NegInt(-12)));
    assert!(matches!(exact, Ok(DefaultValue::Int(-12))));
    let truncated = parameter_default_from_json(ScriptValueType::Int, &float(7.9));
    assert!(matches!(truncated, Ok(DefaultValue::Int(7))));
    assert_eq!(
        message(parameter_default_from_json(ScriptValueType::Int, &JsonValue::Number(JsonNumber::PosInt(3_000_000_000)))),
        "int default 3000000000 is outside i32 range"
    );
    assert_eq!(
        message(parameter_default_from_json(ScriptValueType::Int, &JsonValue::Number(JsonNumber::PosInt(u64::MAX)))),
        "int default 9223372036854775807 is outside i32 range"
    );
    assert_eq!(
        message(parameter_default_from_json(ScriptValueType::Int, &JsonValue::String("1".to_string()))),
        "expected numeric default for int parameter"
    );
}

#[test]
fn text_and_flag_defaults_keep_their_values() {
    let text = parameter_default_from_json(ScriptValueType::Str, &JsonValue::String("hello".to_string()));
    assert!(matches!(text, Ok(DefaultValue::Str(s)) if s == "hello"));
    let file = parameter_default_from_json(ScriptValueType::File, &JsonValue::String("a.png".to_string()));
    assert!(matches!(file, Ok(DefaultValue::File(s)) if s == "a.png"));
    let choice = parameter_default_from_json(ScriptValueType::Enum, &JsonValue::String("fast".to_string()));
    assert!(matches!(choice, Ok(DefaultValue::Enum(s)) if s == "fast"));
    assert!(matches!(parameter_default_from_json(ScriptValueType::Bool, &JsonValue::Bool(true)), Ok(DefaultValue::Bool(true))));
    assert_eq!(
        message(parameter_default_from_json(ScriptValueType::Str, &JsonValue::Null)),
        "expected string default for str parameter"
    );
    assert_eq!(
        message(parameter_default_from_json(ScriptValueType::File, &JsonValue::Bool(false))),
        "expected string default for file parameter"
    );
    assert_eq!(
        message(parameter_default_from_json(ScriptValueType::Enum, &float(1.0))),
        "expected string default for enum parameter"
    );
    assert_eq!(
        message(parameter_default_from_json(ScriptValueType::Bool, &JsonValue::Number(JsonNumber::PosInt(1)))),
        "expected boolean default for bool parameter"
    );
    assert_eq!(
        message(parameter_default_from_json(ScriptValueType::Float, &JsonValue::Null)),
        "expected numeric default for float parameter"
    );
    let number = parameter_default_from_json(ScriptValueType::Float, &JsonValue::Number(JsonNumber::PosInt(3)));
    assert!(matches!(number, Ok(DefaultValue::Float(JsonNumber::PosInt(3)))));
}

#[test]
fn vector_and_color_defaults_need_numeric_components() {
    let pair = parameter_default_from_json(ScriptValueType::Vec2, &JsonValue::Array(vec![float(1.5), float(-2.0)]));
    assert!(matches!(pair, Ok(DefaultValue::Vec2(JsonNumber::Float(x), JsonNumber::Float(y)))
        if x == 1.5f64.to_bits() && y == (-2.0f64).to_bits()));
    assert_eq!(
        message(parameter_default_from_json(ScriptValueType::Vec2, &JsonValue::Array(vec![float(1.0)]))),
        "vec2 default must have exactly 2 components"
    );
    assert_eq!(
        message(parameter_default_from_json(ScriptValueType::Vec2, &JsonValue::Array(vec![float(1.0), JsonValue::Null]))),
        "vec2[1] must be numeric"
    );
    assert_eq!(
        message(parameter_default_from_json(ScriptValueType::Vec3, &JsonValue::Null)),
        "expected [x,y,z] array default for vec3 parameter"
    );
    assert_eq!(
        message(parameter_default_from_json(
            ScriptValueType::Vec3,
            &JsonValue::Array(vec![JsonValue::Null, float(1.0), float(1.0)])
        )),
        "vec3[0] must be numeric"
    );
    let opaque = parameter_default_from_json(ScriptValueType::Color, &JsonValue::Array(vec![float(0.1), float(0.2), float(0.3)]));
    assert!(matches!(opaque, Ok(DefaultValue::Color(_, _, _, JsonNumber::Float(alpha))) if alpha == ONE_DOUBLE_BITS));
    assert_eq!(ONE_DOUBLE_BITS, 1.0f64.to_bits());
    let faded = parameter_default_from_json(
        ScriptValueType::Color,
        &JsonValue::Array(vec![float(0.1), float(0.2), float(0.3), float(0.5)]),
    );
    assert!(matches!(faded, Ok(DefaultValue::Color(_, _, _, JsonNumber::Float(alpha))) if alpha == 0.5f64.to_bits()));
    let unreadable_alpha = parameter_default_from_json(
        ScriptValueType::Color,
        &JsonValue::Array(vec![float(0.1), float(0.2), float(0.3), JsonValue::Null]),
    );
    assert!(matches!(unreadable_alpha, Ok(DefaultValue::Color(_, _, _, JsonNumber::Float(alpha))) if alpha == ONE_DOUBLE_BITS));
    assert_eq!(
        message(parameter_default_from_json(ScriptValueType::Color, &JsonValue::Array(vec![float(0.1), float(0.2)]))),
        "color default must have 3 or 4 components"
    );
    assert_eq!(
        message(parameter_default_from_json(ScriptValueType::Color, &JsonValue::Bool(true))),
        "expected [r,g,b,a] array default for color parameter"
    );
}

#[test]
fn css_trigger_and_reference_defaults() {
    let text = parameter_default_from_json(ScriptValueType::CssValue, &JsonValue::String("2px".to_string()));
    assert!(matches!(text, Ok(DefaultValue::CssText(s)) if s == "2px"));
    let rem = parameter_default_from_json(ScriptValueType::CssValue, &float(1.5));
    assert!(matches!(rem, Ok(DefaultValue::CssRem(JsonNumber::Float(bits))) if bits == 1.5f64.to_bits()));
    let structured = parameter_default_from_json(ScriptValueType::CssValue, &JsonValue::Object(Vec::new()));
    assert!(matches!(structured, Ok(DefaultValue::CssStructured)));
    assert!(matches!(parameter_default_from_json(ScriptValueType::Trigger, &JsonValue::Null), Ok(DefaultValue::Trigger)));
    assert!(matches!(parameter_default_from_json(ScriptValueType::Reference, &JsonValue::Null), Ok(DefaultValue::Reference)));
}
