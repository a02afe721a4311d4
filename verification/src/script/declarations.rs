//! Parameter declarations read from the `parameters` member of a script
//! manifest: one declaration per member, sorted by name.

use vstd::prelude::*;
use vstd::string::*;
use super::{label_key, value_type_for_key, ScriptParameterSpec, ScriptRuntimeError, ScriptValueType};
use super::defaults::{default_declared, default_refusal, parameter_default_from_json, DefaultValue};
use super::manifest::{member, member_of, JsonNumber, JsonValue, refused_with};
use crate::text::{lemma_text_before_irreflexive, lemma_text_before_transitive, lowercase_ascii, strings_equal, text_before, text_precedes, trim};

verus! {

/// How a parameter's constraints treat a value outside them.
#[derive(Clone, Copy, Debug, PartialEq, Eq, Structural)]
pub enum ConstraintPolicy {
    ClampAdapt,
    Reject,
}

/// Declared bounds: one number per bound for a scalar parameter, a list of
/// numbers per bound for the components of a vector or color.
#[derive(Debug)]
pub enum DeclaredRange {
    Uniform { min: Option<JsonNumber>, max: Option<JsonNumber> },
    Components { min: Option<Vec<JsonNumber>>, max: Option<Vec<JsonNumber>> },
}

/// The constraints a manifest declares for a parameter. File groups and
/// extensions are kept as the labels written, for the host to match.
#[derive(Debug)]
pub struct DeclaredConstraints {
    pub step: Option<JsonNumber>,
    pub step_base: Option<JsonNumber>,
    /// `None` when no policy is declared.
    pub policy: Option<ConstraintPolicy>,
    pub range: DeclaredRange,
    /// The enum option identities, when declared.
    pub enum_options: Option<Vec<String>>,
    pub allowed_types: Option<Vec<String>>,
    pub allowed_extensions: Option<Vec<String>>,
}

/// The presentation hints a manifest declares for a parameter.
#[derive(Debug)]
pub struct DeclaredHints {
    pub widget: Option<String>,
    pub unit: Option<String>,
}

/// A parameter declared by a manifest.
pub type DeclaredParameter = ScriptParameterSpec<DefaultValue, DeclaredConstraints, DeclaredHints>;

/// The text `value` holds, if it holds one.
pub open spec fn text_in(value: Option<JsonValue>) -> Option<Seq<char>> {
    match value {
        Some(JsonValue::String(s)) => Some(s@),
        _ => None,
    }
}

/// The number `value` holds, if it holds one.
pub open spec fn number_in(value: Option<JsonValue>) -> Option<JsonNumber> {
    match value {
        Some(JsonValue::Number(n)) => Some(n),
        _ => None,
    }
}

/// The numbers of `items`, when every item is a number.
pub open spec fn numbers_of(items: Seq<JsonValue>) -> Option<Seq<JsonNumber>> {
    if forall|i: int| 0 <= i < items.len() ==> #[trigger] items[i] is Number {
        Some(Seq::new(items.len(), |i: int| items[i]->Number_0))
    } else {
        None
    }
}

/// The numbers of the array `value`, when it is one of numbers only.
pub open spec fn numbers_in(value: Option<JsonValue>) -> Option<Seq<JsonNumber>> {
    match value {
        Some(JsonValue::Array(items)) => numbers_of(items@),
        _ => None,
    }
}

/// The texts of `items`, when every item is a string.
pub open spec fn texts_of(items: Seq<JsonValue>) -> Option<Seq<Seq<char>>> {
    if forall|i: int| 0 <= i < items.len() ==> #[trigger] items[i] is String {
        Some(Seq::new(items.len(), |i: int| items[i]->String_0@))
    } else {
        None
    }
}

/// The texts of the array `value` of strings, when it is declared.
pub open spec fn texts_in(value: Option<JsonValue>) -> Option<Seq<Seq<char>>> {
    match value {
        Some(JsonValue::Array(items)) => texts_of(items@),
        _ => None,
    }
}

/// The refusal of a declared list of strings: not an array, or an item that
/// is not a string.
pub open spec fn list_refusal(value: Option<JsonValue>, not_array: Seq<char>, not_text: Seq<char>) -> Option<
    Seq<char>,
> {
    match value {
        None => None,
        Some(JsonValue::Array(items)) => if texts_of(items@) is Some {
            None
        } else {
            Some(not_text)
        },
        Some(_) => Some(not_array),
    }
}

/// The policy named by a lowercased label.
pub open spec fn policy_for_key(key: Seq<char>) -> Option<ConstraintPolicy> {
    if key == "clampadapt"@ || key == "clamp_adapt"@ || key == "clamp-adapt"@ {
        Some(ConstraintPolicy::ClampAdapt)
    } else if key == "reject"@ {
        Some(ConstraintPolicy::Reject)
    } else {
        None
    }
}

/// The type label of a declaration: its `type` string, or `float`.
pub open spec fn type_label(fields: Seq<(String, JsonValue)>) -> Seq<char> {
    match text_in(member(fields, "type"@)) {
        Some(label) => label,
        None => "float"@,
    }
}

/// A refusal that names parameter `name`.
pub open spec fn about(name: Seq<char>, rest: Seq<char>) -> Seq<char> {
    "parameter '"@ + name + rest
}

/// The refusal of the declaration `raw` of parameter `name`, if refused.
pub open spec fn declaration_refusal(name: Seq<char>, raw: JsonValue) -> Option<Seq<char>> {
    match raw {
        JsonValue::Object(fields) => {
            let label = type_label(fields@);
            match value_type_for_key(label_key(label)) {
                None => Some(about(name, "' has unsupported type '"@ + label + "'"@)),
                Some(value_type) => {
                    let default_refused = match member(fields@, "default"@) {
                        Some(value) => default_refusal(value_type, value),
                        None => None,
                    };
                    let policy_refused = match text_in(member(fields@, "policy"@)) {
                        Some(policy) => if policy_for_key(label_key(policy)) is None {
                            Some(about(name, "' has unsupported policy '"@ + policy + "'"@))
                        } else {
                            None
                        },
                        None => None,
                    };
                    let options_refused = list_refusal(
                        member(fields@, "enumOptions"@),
                        about(name, "' enum_options must be an array"@),
                        about(name, "' enum_options entries must be strings"@),
                    );
                    let types_refused = list_refusal(
                        member(fields@, "allowedTypes"@),
                        about(name, "' allowed_types must be an array"@),
                        about(name, "' allowed_types entries must be strings"@),
                    );
                    let extensions_refused = list_refusal(
                        member(fields@, "allowedExtensions"@),
                        about(name, "' allowed_extensions must be an array"@),
                        about(name, "' allowed_extensions entries must be strings"@),
                    );
                    if default_refused is Some {
                        default_refused
                    } else if policy_refused is Some {
                        policy_refused
                    } else if options_refused is Some {
                        options_refused
                    } else if types_refused is Some {
                        types_refused
                    } else {
                        extensions_refused
                    }
                },
            }
        },
        _ => Some(about(name, "' must be an object"@)),
    }
}

/// The default of a parameter of type `value_type` that declares none.
pub open spec fn initial_default(value_type: ScriptValueType, default: DefaultValue) -> bool {
    let zero = JsonNumber::Float(0);
    match value_type {
        ScriptValueType::Trigger => default is Trigger,
        ScriptValueType::Int => default == DefaultValue::Int(0),
        ScriptValueType::Float => default == DefaultValue::Float(zero),
        ScriptValueType::Str => default matches DefaultValue::Str(text) && text@.len() == 0,
        ScriptValueType::File => default matches DefaultValue::File(text) && text@.len() == 0,
        ScriptValueType::Enum => default matches DefaultValue::Enum(text) && text@.len() == 0,
        ScriptValueType::Bool => default == DefaultValue::Bool(false),
        ScriptValueType::CssValue => default is CssInitial,
        ScriptValueType::Vec2 => default == DefaultValue::Vec2(zero, zero),
        ScriptValueType::Vec3 => default == DefaultValue::Vec3(zero, zero, zero),
        ScriptValueType::Color => default == DefaultValue::Color(
            zero,
            zero,
            zero,
            JsonNumber::Float(super::defaults::ONE_DOUBLE_BITS),
        ),
        ScriptValueType::Reference => default is Reference,
    }
}

pub open spec fn text_view(text: Option<String>) -> Option<Seq<char>> {
    match text {
        Some(t) => Some(t@),
        None => None,
    }
}

pub open spec fn texts_view(texts: Option<Vec<String>>) -> Option<Seq<Seq<char>>> {
    match texts {
        Some(list) => Some(list@.map_values(|t: String| t@)),
        None => None,
    }
}

pub open spec fn numbers_view(numbers: Option<Vec<JsonNumber>>) -> Option<Seq<JsonNumber>> {
    match numbers {
        Some(list) => Some(list@),
        None => None,
    }
}

/// Whether parameters of `value_type` have one bound per component.
pub open spec fn bounded_by_components(value_type: ScriptValueType) -> bool {
    value_type is Vec2 || value_type is Vec3 || value_type is Color
}

/// `constraints` are those that `fields` declare for a parameter of type
/// `value_type`.
pub open spec fn constraints_declared(
    value_type: ScriptValueType,
    fields: Seq<(String, JsonValue)>,
    constraints: DeclaredConstraints,
) -> bool {
    &&& constraints.step == number_in(member(fields, "step"@))
    &&& constraints.step_base == number_in(member(fields, "stepBase"@))
    &&& constraints.policy == match text_in(member(fields, "policy"@)) {
        Some(policy) => policy_for_key(label_key(policy)),
        None => None,
    }
    &&& if bounded_by_components(value_type) {
        constraints.range matches DeclaredRange::Components { min, max } && numbers_view(min) == numbers_in(
            member(fields, "min"@),
        ) && numbers_view(max) == numbers_in(member(fields, "max"@))
    } else {
        constraints.range == (DeclaredRange::Uniform {
            min: number_in(member(fields, "min"@)),
            max: number_in(member(fields, "max"@)),
        })
    }
    &&& texts_view(constraints.enum_options) == texts_in(member(fields, "enumOptions"@))
    &&& texts_view(constraints.allowed_types) == texts_in(member(fields, "allowedTypes"@))
    &&& texts_view(constraints.allowed_extensions) == texts_in(member(fields, "allowedExtensions"@))
}

/// `parameter` is what the accepted declaration `raw` of parameter `name`
/// declares.
pub open spec fn parameter_declared(name: Seq<char>, raw: JsonValue, parameter: DeclaredParameter) -> bool {
    match raw {
        JsonValue::Object(fields) => {
            let value_type = value_type_for_key(label_key(type_label(fields@)))->0;
            &&& parameter.name@ == name
            &&& parameter.decl_id@ == match text_in(member(fields@, "declId"@)) {
                Some(id) => id,
                None => name,
            }
            &&& text_view(parameter.label) == text_in(member(fields@, "label"@))
            &&& parameter.value_type == value_type
            &&& match member(fields@, "default"@) {
                Some(value) => default_declared(value_type, value, parameter.default_value),
                None => initial_default(value_type, parameter.default_value),
            }
            &&& parameter.read_only == (member(fields@, "readOnly"@) == Some(JsonValue::Bool(true)))
            &&& constraints_declared(value_type, fields@, parameter.constraints)
            &&& text_view(parameter.ui_hints.widget) == text_in(member(fields@, "widget"@))
            &&& text_view(parameter.ui_hints.unit) == text_in(member(fields@, "unit"@))
        },
        _ => false,
    }
}

fn about_text(name: &String, rest: &str) -> (message: String)
    ensures
        message@ == about(name@, rest@),
{
    String::from_str("parameter '").concat(name.as_str()).concat(rest)
}

fn refusal_about(name: &String, rest: &str) -> (error: ScriptRuntimeError)
    ensures
        error matches ScriptRuntimeError::InvalidManifest(text) && text@ == about(name@, rest@),
{
    ScriptRuntimeError::InvalidManifest(about_text(name, rest))
}

fn copy_text(s: &String) -> (copy: String)
    ensures
        copy@ == s@,
{
    String::from_str(s.as_str())
}

fn text_member(fields: &Vec<(String, JsonValue)>, key: &str) -> (text: Option<String>)
    ensures
        text_view(text) == text_in(member(fields@, key@)),
{
    match member_of(fields, key) {
        Some(JsonValue::String(s)) => Some(copy_text(s)),
        _ => None,
    }
}

fn number_member(fields: &Vec<(String, JsonValue)>, key: &str) -> (number: Option<JsonNumber>)
    ensures
        number == number_in(member(fields@, key@)),
{
    match member_of(fields, key) {
        Some(JsonValue::Number(n)) => Some(*n),
        _ => None,
    }
}

fn numbers_member(fields: &Vec<(String, JsonValue)>, key: &str) -> (numbers: Option<Vec<JsonNumber>>)
    ensures
        numbers_view(numbers) == numbers_in(member(fields@, key@)),
{
    let items = match member_of(fields, key) {
        Some(JsonValue::Array(items)) => items,
        _ => return None,
    };
    let mut numbers: Vec<JsonNumber> = Vec::new();
    let mut i: usize = 0;
    while i < items.len()
        invariant
            i <= items@.len(),
            numbers@.len() == i,
            member(fields@, key@) == Some(JsonValue::Array(*items)),
            forall|j: int| 0 <= j < i ==> #[trigger] items@[j] is Number && numbers@[j] == items@[j]->Number_0,
        decreases items@.len() - i,
    {
        match &items[i] {
            JsonValue::Number(n) => numbers.push(*n),
            _ => {
                assert(!(items@[i as int] is Number));
                assert(numbers_of(items@) is None);
                return None;
            },
        }
        i = i + 1;
    }
    assert(numbers@ =~= Seq::new(items@.len(), |j: int| items@[j]->Number_0));
    Some(numbers)
}

/// Reads a declared list of strings: `Ok(None)` when it is not declared.
fn texts_member(fields: &Vec<(String, JsonValue)>, key: &str, not_array: &str, not_text: &str, name: &String) -> (result:
    Result<Option<Vec<String>>, ScriptRuntimeError>)
    ensures
        match list_refusal(member(fields@, key@), about(name@, not_array@), about(name@, not_text@)) {
            Some(message) => refused_with(result, message),
            None => result matches Ok(texts) && texts_view(texts) == texts_in(member(fields@, key@)),
        },
{
    let items = match member_of(fields, key) {
        None => return Ok(None),
        Some(JsonValue::Array(items)) => items,
        Some(_) => return Err(refusal_about(name, not_array)),
    };
    let mut texts: Vec<String> = Vec::new();
    let mut i: usize = 0;
    while i < items.len()
        invariant
            i <= items@.len(),
            texts@.len() == i,
            member(fields@, key@) == Some(JsonValue::Array(*items)),
            forall|j: int| 0 <= j < i ==> #[trigger] items@[j] is String && texts@[j]@ == items@[j]->String_0@,
        decreases items@.len() - i,
    {
        match &items[i] {
            JsonValue::String(s) => texts.push(copy_text(s)),
            _ => {
                assert(!(items@[i as int] is String));
                assert(texts_of(items@) is None);
                return Err(refusal_about(name, not_text));
            },
        }
        i = i + 1;
    }
    assert(texts@.map_values(|t: String| t@) =~= Seq::new(items@.len(), |j: int| items@[j]->String_0@));
    Ok(Some(texts))
}

fn policy_of(label: &str) -> (policy: Option<ConstraintPolicy>)
    ensures
        policy == policy_for_key(label_key(label@)),
{
    let trimmed = trim(label);
    let key = lowercase_ascii(trimmed.as_str());
    let k = key.as_str();
    if strings_equal(k, "clampadapt") || strings_equal(k, "clamp_adapt") || strings_equal(k, "clamp-adapt") {
        Some(ConstraintPolicy::ClampAdapt)
    } else if strings_equal(k, "reject") {
        Some(ConstraintPolicy::Reject)
    } else {
        None
    }
}

fn initial_default_of(value_type: ScriptValueType) -> (default: DefaultValue)
    ensures
        initial_default(value_type, default),
{
    let zero = JsonNumber::Float(0);
    match value_type {
        ScriptValueType::Trigger => DefaultValue::Trigger,
        ScriptValueType::Int => DefaultValue::Int(0),
        ScriptValueType::Float => DefaultValue::Float(zero),
        ScriptValueType::Str => DefaultValue::Str(String::new()),
        ScriptValueType::File => DefaultValue::File(String::new()),
        ScriptValueType::Enum => DefaultValue::Enum(String::new()),
        ScriptValueType::Bool => DefaultValue::Bool(false),
        ScriptValueType::CssValue => DefaultValue::CssInitial,
        ScriptValueType::Vec2 => DefaultValue::Vec2(zero, zero),
        ScriptValueType::Vec3 => DefaultValue::Vec3(zero, zero, zero),
        ScriptValueType::Color => DefaultValue::Color(
            zero,
            zero,
            zero,
            JsonNumber::Float(super::defaults::ONE_DOUBLE_BITS),
        ),
        ScriptValueType::Reference => DefaultValue::Reference,
    }
}

/// Reads the declaration `raw` of parameter `name`.
pub fn parse_parameter_declaration(name: &String, raw: &JsonValue) -> (result: Result<
    DeclaredParameter,
    ScriptRuntimeError,
>)
    ensures
        match declaration_refusal(name@, *raw) {
            Some(message) => refused_with(result, message),
            None => result matches Ok(parameter) && parameter_declared(name@, *raw, parameter),
        },
{
    let fields = match raw {
        JsonValue::Object(fields) => fields,
        _ => return Err(refusal_about(name, "' must be an object")),
    };
    let label = match member_of(fields, "type") {
        Some(JsonValue::String(s)) => copy_text(s),
        _ => String::from_str("float"),
    };
    let value_type = match ScriptValueType::from_manifest_label(label.as_str()) {
        Some(value_type) => value_type,
        None => {
            let message = about_text(name, "' has unsupported type '").concat(label.as_str()).concat("'");
            assert(message@ =~= about(name@, "' has unsupported type '"@ + label@ + "'"@));
            return Err(ScriptRuntimeError::InvalidManifest(message));
        },
    };
    let default_value = match member_of(fields, "default") {
        Some(value) => match parameter_default_from_json(value_type, value) {
            Ok(default) => default,
            Err(error) => return Err(error),
        },
        None => initial_default_of(value_type),
    };
    let step = number_member(fields, "step");
    let step_base = number_member(fields, "stepBase");
    let policy = match member_of(fields, "policy") {
        Some(JsonValue::String(label)) => match policy_of(label.as_str()) {
            Some(policy) => Some(policy),
            None => {
                let message = about_text(name, "' has unsupported policy '").concat(label.as_str()).concat("'");
                assert(message@ =~= about(name@, "' has unsupported policy '"@ + label@ + "'"@));
                return Err(ScriptRuntimeError::InvalidManifest(message));
            },
        },
        _ => None,
    };
    let range = if matches!(value_type, ScriptValueType::Vec2 | ScriptValueType::Vec3 | ScriptValueType::Color) {
        DeclaredRange::Components { min: numbers_member(fields, "min"), max: numbers_member(fields, "max") }
    } else {
        DeclaredRange::Uniform { min: number_member(fields, "min"), max: number_member(fields, "max") }
    };
    let enum_options = match texts_member(
        fields,
        "enumOptions",
        "' enum_options must be an array",
        "' enum_options entries must be strings",
        name,
    ) {
        Ok(options) => options,
        Err(error) => return Err(error),
    };
    let allowed_types = match texts_member(
        fields,
        "allowedTypes",
        "' allowed_types must be an array",
        "' allowed_types entries must be strings",
        name,
    ) {
        Ok(types) => types,
        Err(error) => return Err(error),
    };
    let allowed_extensions = match texts_member(
        fields,
        "allowedExtensions",
        "' allowed_extensions must be an array",
        "' allowed_extensions entries must be strings",
        name,
    ) {
        Ok(extensions) => extensions,
        Err(error) => return Err(error),
    };
    let widget = text_member(fields, "widget");
    let unit = text_member(fields, "unit");
    let decl_id = match member_of(fields, "declId") {
        Some(JsonValue::String(id)) => copy_text(id),
        _ => copy_text(name),
    };
    let label = text_member(fields, "label");
    let read_only = match member_of(fields, "readOnly") {
        Some(JsonValue::Bool(flag)) => *flag,
        _ => false,
    };
    Ok(ScriptParameterSpec {
        name: copy_text(name),
        decl_id,
        label,
        value_type,
        default_value,
        read_only,
        constraints: DeclaredConstraints {
            step,
            step_base,
            policy,
            range,
            enum_options,
            allowed_types,
            allowed_extensions,
        },
        ui_hints: DeclaredHints { widget, unit },
    })
}

/// The refusal of the first member of `members` whose declaration is refused.
pub open spec fn first_declaration_refusal(members: Seq<(String, JsonValue)>) -> Option<Seq<char>>
    decreases members.len(),
{
    if members.len() == 0 {
        None
    } else {
        match declaration_refusal(members[0].0@, members[0].1) {
            Some(message) => Some(message),
            None => first_declaration_refusal(members.drop_first()),
        }
    }
}

/// The names of `list` never decrease.
pub open spec fn names_sorted(list: Seq<DeclaredParameter>) -> bool {
    forall|a: int, b: int| 0 <= a < b < list.len() ==> !text_before(#[trigger] list[b].name@, #[trigger] list[a].name@)
}

/// `list` holds the declarations of the first `count` members of `members`,
/// each once, `list[i]` declared by member `order[i]`, sorted by name and,
/// among equal names, in member order.
pub open spec fn declares(
    members: Seq<(String, JsonValue)>,
    count: int,
    list: Seq<DeclaredParameter>,
    order: Seq<int>,
) -> bool {
    &&& list.len() == count
    &&& order.len() == count
    &&& forall|i: int|
        0 <= i < count ==> 0 <= #[trigger] order[i] < count && parameter_declared(
            members[order[i]].0@,
            members[order[i]].1,
            list[i],
        )
    &&& forall|a: int, b: int| 0 <= a < b < count ==> #[trigger] order[a] != #[trigger] order[b]
    &&& names_sorted(list)
    &&& forall|a: int, b: int|
        0 <= a < b < count && (#[trigger] list[a]).name@ == (#[trigger] list[b]).name@ ==> order[a] < order[b]
}

/// `result` is what the `parameters` member `value` of a manifest declares:
/// nothing when it is absent; else, when it is an object whose members are
/// all accepted, their declarations sorted by name; else the first refusal.
pub open spec fn parameters_read(
    value: Option<&JsonValue>,
    result: Result<Vec<DeclaredParameter>, ScriptRuntimeError>,
) -> bool {
    match value {
        None => result matches Ok(list) && list@.len() == 0,
        Some(JsonValue::Object(members)) => match first_declaration_refusal(members@) {
            Some(message) => refused_with(result, message),
            None => result matches Ok(list) && exists|order: Seq<int>|
                declares(members@, members@.len() as int, list@, order),
        },
        Some(_) => refused_with(result, "parameters must be an object map"@),
    }
}

/// The parameters that the `parameters` member `value` of a manifest
/// declares, sorted by name; none when it is absent.
pub fn parse_parameter_specs_json(value: Option<&JsonValue>) -> (result: Result<
    Vec<DeclaredParameter>,
    ScriptRuntimeError,
>)
    ensures
        parameters_read(value, result),
{
    let members = match value {
        None => return Ok(Vec::new()),
        Some(JsonValue::Object(members)) => members,
        Some(_) => return Err(ScriptRuntimeError::InvalidManifest(String::from_str("parameters must be an object map"))),
    };
    let mut list: Vec<DeclaredParameter> = Vec::new();
    let ghost mut order: Seq<int> = Seq::empty();
    let mut i: usize = 0;
    assert(members@.skip(0) =~= members@);
    while i < members.len()
        invariant
            i <= members@.len(),
            first_declaration_refusal(members@.skip(i as int)) == first_declaration_refusal(members@),
            declares(members@, i as int, list@, order),
            match value {
                Some(whole) => *whole == JsonValue::Object(*members),
                None => false,
            },
        decreases members@.len() - i,
    {
        let ghost rest = members@.skip(i as int);
        assert(rest[0] == members@[i as int]);
        assert(rest.drop_first() =~= members@.skip(i as int + 1));
        let parameter = match parse_parameter_declaration(&members[i].0, &members[i].1) {
            Ok(parameter) => parameter,
            Err(error) => return Err(error),
        };
        let mut p: usize = 0;
        while p < list.len() && !text_precedes(parameter.name.as_str(), list[p].name.as_str())
            invariant
                p <= list@.len(),
                forall|k: int| 0 <= k < p ==> !text_before(parameter.name@, #[trigger] list@[k].name@),
            decreases list@.len() - p,
        {
            p = p + 1;
        }
        let ghost before = list@;
        let ghost previous = order;
        let ghost entry = parameter;
        list.insert(p, parameter);
        proof {
            let n = i as int;
            before.insert_ensures(p as int, entry);
            previous.insert_ensures(p as int, n);
            order = previous.insert(p as int, n);
            assert(list@ == before.insert(p as int, entry));
            assert forall|k: int| 0 <= k < n + 1 implies 0 <= #[trigger] order[k] < n + 1 && parameter_declared(
                members@[order[k]].0@,
                members@[order[k]].1,
                list@[k],
            ) by {
                if k < p {
                    assert(order[k] == previous[k] && list@[k] == before[k]);
                } else if k > p {
                    assert(order[k] == previous[k - 1] && list@[k] == before[k - 1]);
                }
            }
            assert forall|a: int, b: int| 0 <= a < b < n + 1 implies #[trigger] order[a] != #[trigger] order[b] by {
                if b < p {
                } else if b == p {
                    assert(order[a] == previous[a]);
                } else if a < p {
                    assert(order[b] == previous[b - 1]);
                } else if a == p {
                    assert(order[b] == previous[b - 1]);
                } else {
                    assert(order[a] == previous[a - 1] && order[b] == previous[b - 1]);
                }
            }
            assert forall|a: int, b: int| 0 <= a < b < list@.len() implies !text_before(
                #[trigger] list@[b].name@,
                #[trigger] list@[a].name@,
            ) by {
                if b < p {
                    assert(list@[a] == before[a] && list@[b] == before[b]);
                    assert(!text_before(before[b].name@, before[a].name@));
                } else if b == p {
                    assert(list@[a] == before[a]);
                    assert(!text_before(entry.name@, before[a].name@));
                } else if a < p {
                    assert(list@[a] == before[a] && list@[b] == before[b - 1]);
                    assert(!text_before(before[b - 1].name@, before[a].name@));
                } else if a == p {
                    assert(list@[b] == before[b - 1]);
                    assert(p < before.len());
                    assert(text_before(entry.name@, before[p as int].name@));
                    assert(list@[a] == entry);
                    lemma_text_before_irreflexive(before[p as int].name@);
                    if text_before(before[b - 1].name@, entry.name@) {
                        if b - 1 > p {
                            assert(!text_before(before[b - 1].name@, before[p as int].name@));
                        }
                        lemma_text_before_transitive(before[b - 1].name@, entry.name@, before[p as int].name@);
                    }
                } else {
                    assert(list@[a] == before[a - 1] && list@[b] == before[b - 1]);
                    assert(!text_before(before[b - 1].name@, before[a - 1].name@));
                }
            }
            assert forall|a: int, b: int|
                0 <= a < b < n + 1 && (#[trigger] list@[a]).name@ == (#[trigger] list@[b]).name@ implies order[a]
                < order[b] by {
                if b < p {
                    assert(list@[a] == before[a] && list@[b] == before[b]);
                    assert(order[a] == previous[a] && order[b] == previous[b]);
                } else if b == p {
                    assert(order[a] == previous[a]);
                } else if a < p {
                    assert(list@[a] == before[a] && list@[b] == before[b - 1]);
                    assert(order[a] == previous[a] && order[b] == previous[b - 1]);
                } else if a == p {
                    assert(list@[a] == entry);
                    assert(list@[b] == before[b - 1]);
                    assert(text_before(entry.name@, before[p as int].name@));
                    lemma_text_before_irreflexive(before[p as int].name@);
                    if b - 1 > p {
                        assert(!text_before(before[b - 1].name@, before[p as int].name@));
                    }
                } else {
                    assert(list@[a] == before[a - 1] && list@[b] == before[b - 1]);
                    assert(order[a] == previous[a - 1] && order[b] == previous[b - 1]);
                }
            }
        }
        i = i + 1;
    }
    assert(members@.skip(i as int) =~= Seq::<(String, JsonValue)>::empty());
    let result: Result<Vec<DeclaredParameter>, ScriptRuntimeError> = Ok(list);
    assert(result->Ok_0@ == list@);
    assert(declares(members@, members@.len() as int, result->Ok_0@, order));
    result
}

} // verus!
