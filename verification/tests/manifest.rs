use golden::script::manifest::{
    json_object_get, member_of, parse_manifest_from_json, parse_selector, parse_subscription_specs_json, JsonNumber,
    JsonValue,
};
use golden::script::declarations::{parse_parameter_specs_json, ConstraintPolicy, DeclaredRange};
use golden::script::defaults::DefaultValue;
use golden::script::{ScriptNodeSelector, ScriptRuntimeError, ScriptSubscriptionSpec, ScriptValueType};

fn text(value: &str) -> JsonValue {
    JsonValue::String(value.to_string())
}

fn unsigned(value: u64) -> JsonValue {
    JsonValue::Number(JsonNumber::PosInt(value))
}

fn object(members: Vec<(&str, JsonValue)>) -> JsonValue {
    JsonValue::Object(members.into_iter().map(|(key, value)| (key.to_string(), value)).collect())
}

fn invalid(message: &str) -> ScriptRuntimeError {
    ScriptRuntimeError::InvalidManifest(message.to_string())
}


#[test]
fn subscription_selectors_follow_their_anchors() {
    let value = JsonValue::Array(vec![
        object(vec![("node", text("@host"))]),
        object(vec![("node", text("@root/a/b")), ("maxDepth", unsigned(3))]),
        object(vec![("maxDepth", unsigned(2)), ("node", text("@host/x"))]),
        object(vec![("node", text("panel/knob")), ("maxDepth", JsonValue::Number(JsonNumber::NegInt(-1)))]),
    ]);
    assert_eq!(
        parse_subscription_specs_json(Some(&value)),
        Ok(vec![
            ScriptSubscriptionSpec { node: ScriptNodeSelector::HostPath(String::new()), max_depth: 0 },
            ScriptSubscriptionSpec { node: ScriptNodeSelector::RootPath("a/b".to_string()), max_depth: 3 },
            ScriptSubscriptionSpec { node: ScriptNodeSelector::HostPath("x".to_string()), max_depth: 2 },
            ScriptSubscriptionSpec { node: ScriptNodeSelector::Path("panel/knob".to_string()), max_depth: 0 },
        ])
    );
    assert_eq!(parse_subscription_specs_json(None), Ok(Vec::new()));
    assert_eq!(parse_selector("@root"), ScriptNodeSelector::RootPath(String::new()));
    assert_eq!(parse_selector("@hostess"), ScriptNodeSelector::Path("@hostess".to_string()));
}

#[test]
fn malformed_subscriptions_are_refused_at_the_first_bad_entry() {
    assert_eq!(parse_subscription_specs_json(Some(&text("@host"))), Err(invalid("subscriptions must be an array")));
    let not_object = JsonValue::Array(vec![object(vec![("node", text("a"))]), JsonValue::Null, object(vec![])]);
    assert_eq!(parse_subscription_specs_json(Some(&not_object)), Err(invalid("subscription entry must be an object")));
    let no_node = JsonValue::Array(vec![object(vec![("node", unsigned(4))]), JsonValue::Null]);
    assert_eq!(
        parse_subscription_specs_json(Some(&no_node)),
        Err(invalid("subscription entry must define string field 'node'"))
    );
}

#[test]
fn member_lookup_takes_the_first_key_present() {
    let members = vec![("b".to_string(), unsigned(2)), ("c".to_string(), unsigned(3))];
    assert!(matches!(json_object_get(&members, &["a", "c", "b"]), Some(JsonValue::Number(JsonNumber::PosInt(3)))));
    assert!(json_object_get(&members, &["a"]).is_none());
    assert!(matches!(member_of(&members, "b"), Some(JsonValue::Number(JsonNumber::PosInt(2)))));
}

#[test]
fn manifest_reads_version_rate_parameters_subscriptions_and_exports() {
    let payload = object(vec![
        ("apiVersion", unsigned(2)),
        ("updateRateHz", unsigned(24)),
        ("parameters", object(vec![("gain", object(vec![("type", text("float"))]))])),
        ("subscriptions", JsonValue::Array(vec![object(vec![("node", text("@host"))])])),
    ]);
    let manifest = parse_manifest_from_json(&payload, vec!["ping".to_string()]).unwrap();
    assert_eq!(manifest.api_version, 2);
    assert_eq!(manifest.update_rate_hz, Some(24));
    assert_eq!(manifest.parameters.len(), 1);
    assert_eq!(manifest.parameters[0].name, "gain");
    assert_eq!(
        manifest.subscriptions,
        vec![ScriptSubscriptionSpec { node: ScriptNodeSelector::HostPath(String::new()), max_depth: 0 }]
    );
    assert_eq!(manifest.exports.len(), 1);
    assert_eq!(manifest.exports[0].name, "ping");
    assert!(manifest.exports[0].signature.args.is_empty() && manifest.exports[0].signature.returns.is_none());
}

#[test]
fn empty_manifest_declares_version_one_and_nothing_else() {
    let manifest = parse_manifest_from_json(&object(vec![]), Vec::new()).unwrap();
    assert_eq!(manifest.api_version, 1);
    assert_eq!(manifest.update_rate_hz, None);
    assert!(manifest.parameters.is_empty());
    assert!(manifest.subscriptions.is_empty());
    assert!(manifest.exports.is_empty());
}

#[test]
fn manifest_refusals_come_in_order() {
    let refused = |payload: JsonValue| parse_manifest_from_json(&payload, Vec::new()).err();
    assert_eq!(refused(JsonValue::Array(Vec::new())), Some(invalid("manifest JSON root must be an object")));
    assert_eq!(refused(object(vec![("apiVersion", unsigned(0))])), Some(invalid("apiVersion must be >= 1")));
    assert_eq!(
        refused(object(vec![("parameters", unsigned(1)), ("subscriptions", unsigned(1))])),
        Some(invalid("parameters must be an object map"))
    );
    assert_eq!(refused(object(vec![("subscriptions", unsigned(1))])), Some(invalid("subscriptions must be an array")));
    let fractional = object(vec![("apiVersion", JsonValue::Number(JsonNumber::Float(2.5f64.to_bits())))]);
    assert_eq!(parse_manifest_from_json(&fractional, Vec::new()).unwrap().api_version, 1);
}

#[test]
fn parameter_declarations_are_read_and_sorted_by_name() {
    let parameters = object(vec![
        (
            "speed",
            object(vec![
                ("type", text(" Int ")),
                ("default", unsigned(3)),
                ("step", unsigned(1)),
                ("policy", text("Clamp-Adapt")),
                ("min", unsigned(0)),
                ("max", unsigned(10)),
                ("label", text("Speed")),
                ("readOnly", JsonValue::Bool(true)),
                ("widget", text("slider")),
            ]),
        ),
        (
            "mode",
            object(vec![
                ("type", text("enum")),
                ("default", text("fast")),
                ("enumOptions", JsonValue::Array(vec![text("fast"), text("slow")])),
                ("declId", text("mode_v2")),
            ]),
        ),
        ("tint", object(vec![("type", text("color")), ("min", JsonValue::Array(vec![unsigned(0), unsigned(0), unsigned(0)]))])),
        ("gain", object(vec![])),
    ]);
    let specs = parse_parameter_specs_json(Some(&parameters)).unwrap();
    let names: Vec<&str> = specs.iter().map(|spec| spec.name.as_str()).collect();
    assert_eq!(names, ["gain", "mode", "speed", "tint"]);

    let gain = &specs[0];
    assert_eq!(gain.value_type, ScriptValueType::Float);
    assert!(matches!(gain.default_value, DefaultValue::Float(JsonNumber::Float(0))));
    assert_eq!(gain.decl_id, "gain");
    assert!(!gain.read_only);

    let mode = &specs[1];
    assert_eq!(mode.value_type, ScriptValueType::Enum);
    assert!(matches!(&mode.default_value, DefaultValue::Enum(s) if s == "fast"));
    assert_eq!(mode.decl_id, "mode_v2");
    assert_eq!(mode.constraints.enum_options, Some(vec!["fast".to_string(), "slow".to_string()]));

    let speed = &specs[2];
    assert_eq!(speed.value_type, ScriptValueType::Int);
    assert!(matches!(speed.default_value, DefaultValue::Int(3)));
    assert_eq!(speed.constraints.policy, Some(ConstraintPolicy::ClampAdapt));
    assert_eq!(speed.constraints.step, Some(JsonNumber::PosInt(1)));
    assert!(matches!(
        speed.constraints.range,
        DeclaredRange::Uniform { min: Some(JsonNumber::PosInt(0)), max: Some(JsonNumber::PosInt(10)) }
    ));
    assert_eq!(speed.label.as_deref(), Some("Speed"));
    assert!(speed.read_only);
    assert_eq!(speed.ui_hints.widget.as_deref(), Some("slider"));
    assert_eq!(speed.ui_hints.unit, None);

    let tint = &specs[3];
    assert!(matches!(tint.default_value, DefaultValue::Color(_, _, _, JsonNumber::Float(alpha)) if alpha == 1.0f64.to_bits()));
    assert!(matches!(&tint.constraints.range, DeclaredRange::Components { min: Some(min), max: None } if min.len() == 3));
}

#[test]
fn parameter_declarations_are_refused_at_the_first_bad_member() {
    let refused = |parameters: JsonValue| parse_parameter_specs_json(Some(&parameters)).err();
    assert_eq!(refused(unsigned(1)), Some(invalid("parameters must be an object map")));
    assert_eq!(refused(object(vec![("a", unsigned(1))])), Some(invalid("parameter 'a' must be an object")));
    assert_eq!(
        refused(object(vec![("a", object(vec![("type", text("matrix"))]))])),
        Some(invalid("parameter 'a' has unsupported type 'matrix'"))
    );
    assert_eq!(
        refused(object(vec![("a", object(vec![("type", text("bool")), ("default", unsigned(1))]))])),
        Some(invalid("expected boolean default for bool parameter"))
    );
    assert_eq!(
        refused(object(vec![("a", object(vec![("policy", text("wrap"))]))])),
        Some(invalid("parameter 'a' has unsupported policy 'wrap'"))
    );
    assert_eq!(
        refused(object(vec![("a", object(vec![("enumOptions", text("x"))]))])),
        Some(invalid("parameter 'a' enum_options must be an array"))
    );
    assert_eq!(
        refused(object(vec![("a", object(vec![("allowedTypes", JsonValue::Array(vec![unsigned(1)]))]))])),
        Some(invalid("parameter 'a' allowed_types entries must be strings"))
    );
    assert_eq!(
        refused(object(vec![("a", object(vec![("allowedExtensions", JsonValue::Null)]))])),
        Some(invalid("parameter 'a' allowed_extensions must be an array"))
    );
    assert_eq!(
        refused(object(vec![("b", object(vec![])), ("a", unsigned(1)), ("c", unsigned(2))])),
        Some(invalid("parameter 'a' must be an object"))
    );
    assert!(parse_parameter_specs_json(None).unwrap().is_empty());
}
