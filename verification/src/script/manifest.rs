//! Script manifests, read from the JSON value that the script runtime reports
//! once a source has loaded: the manifest's version and update rate, its
//! parameters, its subscriptions and its exports.

use vstd::prelude::*;
use vstd::string::*;
use super::{
    ScriptExportSpec, ScriptFnSignature, ScriptManifest, ScriptNodeSelector, ScriptRuntimeError,
    ScriptSubscriptionSpec,
};
use super::declarations::{parameters_read, parse_parameter_specs_json, DeclaredConstraints, DeclaredHints, DeclaredParameter};
use super::defaults::DefaultValue;
use crate::text::{has_prefix, strings_equal, strip_prefix};

verus! {

/// A JSON number, as the JSON reader holds it: a non-negative integer, a
/// negative integer, or the bits of a finite double.
#[derive(Clone, Copy, Debug, PartialEq, Eq)]
pub enum JsonNumber {
    PosInt(u64),
    NegInt(i64),
    Float(u64),
}

/// A JSON value. An object lists its members in order, each key once.
#[derive(Debug)]
pub enum JsonValue {
    Null,
    Bool(bool),
    Number(JsonNumber),
    String(String),
    Array(Vec<JsonValue>),
    Object(Vec<(String, JsonValue)>),
}

/// The value of the first member of `members` named `key`.
pub open spec fn member(members: Seq<(String, JsonValue)>, key: Seq<char>) -> Option<JsonValue>
    decreases members.len(),
{
    if members.len() == 0 {
        None
    } else if members[0].0@ == key {
        Some(members[0].1)
    } else {
        member(members.drop_first(), key)
    }
}

/// The value of the member named by the first of `keys` that `members` has.
pub open spec fn first_member(members: Seq<(String, JsonValue)>, keys: Seq<Seq<char>>) -> Option<JsonValue>
    decreases keys.len(),
{
    if keys.len() == 0 {
        None
    } else {
        match member(members, keys[0]) {
            Some(value) => Some(value),
            None => first_member(members, keys.drop_first()),
        }
    }
}

pub open spec fn key_views(keys: Seq<&str>) -> Seq<Seq<char>> {
    keys.map_values(|key: &str| key@)
}

/// The number that `value` holds as an unsigned integer, if it holds one.
pub open spec fn unsigned_of(value: Option<JsonValue>) -> Option<u64> {
    match value {
        Some(JsonValue::Number(JsonNumber::PosInt(n))) => Some(n),
        _ => None,
    }
}

/// The member of `members` named `key`.
pub fn member_of<'a>(members: &'a Vec<(String, JsonValue)>, key: &str) -> (found: Option<&'a JsonValue>)
    ensures
        match found {
            Some(value) => member(members@, key@) == Some(*value),
            None => member(members@, key@) is None,
        },
{
    let mut i: usize = 0;
    assert(members@.skip(0) =~= members@);
    while i < members.len()
        invariant
            i <= members@.len(),
            member(members@.skip(i as int), key@) == member(members@, key@),
        decreases members@.len() - i,
    {
        let entry = &members[i];
        assert(members@.skip(i as int)[0] == members@[i as int]);
        if strings_equal(entry.0.as_str(), key) {
            return Some(&entry.1);
        }
        assert(members@.skip(i as int).drop_first() =~= members@.skip(i as int + 1));
        i = i + 1;
    }
    None
}

/// The member named by the first of `keys` that `object` has.
pub fn json_object_get<'a>(object: &'a Vec<(String, JsonValue)>, keys: &[&str]) -> (found: Option<&'a JsonValue>)
    ensures
        match found {
            Some(value) => first_member(object@, key_views(keys@)) == Some(*value),
            None => first_member(object@, key_views(keys@)) is None,
        },
{
    let mut i: usize = 0;
    assert(key_views(keys@).skip(0) =~= key_views(keys@));
    while i < keys.len()
        invariant
            i <= keys@.len(),
            first_member(object@, key_views(keys@).skip(i as int)) == first_member(object@, key_views(keys@)),
        decreases keys@.len() - i,
    {
        let ghost rest = key_views(keys@).skip(i as int);
        assert(rest[0] == keys@[i as int]@);
        if let Some(value) = member_of(object, keys[i]) {
            return Some(value);
        }
        assert(rest.drop_first() =~= key_views(keys@).skip(i as int + 1));
        i = i + 1;
    }
    None
}

/// The content of a node selector.
pub enum SelectorView {
    NodeId(u64),
    Path(Seq<char>),
    HostPath(Seq<char>),
    RootPath(Seq<char>),
}

pub open spec fn selector_view(selector: ScriptNodeSelector) -> SelectorView {
    match selector {
        ScriptNodeSelector::NodeId(id) => SelectorView::NodeId(id),
        ScriptNodeSelector::Path(path) => SelectorView::Path(path@),
        ScriptNodeSelector::HostPath(path) => SelectorView::HostPath(path@),
        ScriptNodeSelector::RootPath(path) => SelectorView::RootPath(path@),
    }
}

/// The selector that a subscription's `node` text names: `@host` and `@root`
/// are the anchors themselves, `@host/` and `@root/` begin a path under an
/// anchor, and any other text is a path under the script's root.
pub open spec fn selector_for(raw: Seq<char>) -> SelectorView {
    if raw == "@host"@ {
        SelectorView::HostPath(Seq::empty())
    } else if raw == "@root"@ {
        SelectorView::RootPath(Seq::empty())
    } else if has_prefix(raw, "@host/"@) {
        SelectorView::HostPath(raw.skip("@host/"@.len() as int))
    } else if has_prefix(raw, "@root/"@) {
        SelectorView::RootPath(raw.skip("@root/"@.len() as int))
    } else {
        SelectorView::Path(raw)
    }
}

/// A subscription entry read from JSON: its selector and its maximum depth,
/// or the message that says why the entry is refused.
pub open spec fn subscription_entry(item: JsonValue) -> Result<(SelectorView, u32), Seq<char>> {
    match item {
        JsonValue::Object(members) => match member(members@, "node"@) {
            Some(JsonValue::String(node)) => Ok(
                (
                    selector_for(node@),
                    match unsigned_of(member(members@, "maxDepth"@)) {
                        Some(depth) => depth as u32,
                        None => 0u32,
                    },
                ),
            ),
            _ => Err("subscription entry must define string field 'node'"@),
        },
        _ => Err("subscription entry must be an object"@),
    }
}

/// The entries of `items`, in order, or the message for the first one refused.
pub open spec fn subscription_entries(items: Seq<JsonValue>) -> Result<Seq<(SelectorView, u32)>, Seq<char>>
    decreases items.len(),
{
    if items.len() == 0 {
        Ok(Seq::empty())
    } else {
        match subscription_entries(items.drop_last()) {
            Err(message) => Err(message),
            Ok(entries) => match subscription_entry(items.last()) {
                Err(message) => Err(message),
                Ok(entry) => Ok(entries.push(entry)),
            },
        }
    }
}

/// The subscriptions that a manifest's `subscriptions` member declares: none
/// where it is absent; the entries of an array; otherwise refused.
pub open spec fn subscriptions_declared(value: Option<JsonValue>) -> Result<Seq<(SelectorView, u32)>, Seq<char>> {
    match value {
        None => Ok(Seq::empty()),
        Some(JsonValue::Array(items)) => subscription_entries(items@),
        Some(_) => Err("subscriptions must be an array"@),
    }
}

pub open spec fn subscription_views(specs: Seq<ScriptSubscriptionSpec>) -> Seq<(SelectorView, u32)> {
    specs.map_values(|spec: ScriptSubscriptionSpec| (selector_view(spec.node), spec.max_depth))
}

/// Whether `result` is the outcome `outcome` describes, a refusal being an
/// invalid manifest with the outcome's message.
pub open spec fn subscriptions_match(
    result: Result<Vec<ScriptSubscriptionSpec>, ScriptRuntimeError>,
    outcome: Result<Seq<(SelectorView, u32)>, Seq<char>>,
) -> bool {
    match (result, outcome) {
        (Ok(specs), Ok(entries)) => subscription_views(specs@) == entries,
        (Err(ScriptRuntimeError::InvalidManifest(message)), Err(expected)) => message@ == expected,
        _ => false,
    }
}

/// The node selector that `raw` names.
pub fn parse_selector(raw: &str) -> (selector: ScriptNodeSelector)
    ensures
        selector_view(selector) == selector_for(raw@),
{
    if strings_equal(raw, "@host") {
        ScriptNodeSelector::HostPath(String::new())
    } else if strings_equal(raw, "@root") {
        ScriptNodeSelector::RootPath(String::new())
    } else if let Some(path) = strip_prefix(raw, "@host/") {
        ScriptNodeSelector::HostPath(path)
    } else if let Some(path) = strip_prefix(raw, "@root/") {
        ScriptNodeSelector::RootPath(path)
    } else {
        ScriptNodeSelector::Path(String::from_str(raw))
    }
}

fn invalid_manifest(message: &str) -> (error: ScriptRuntimeError)
    ensures
        match error {
            ScriptRuntimeError::InvalidManifest(text) => text@ == message@,
            _ => false,
        },
{
    ScriptRuntimeError::InvalidManifest(String::from_str(message))
}

/// The subscriptions that a manifest's `subscriptions` member declares.
pub fn parse_subscription_specs_json(value: Option<&JsonValue>) -> (result: Result<
    Vec<ScriptSubscriptionSpec>,
    ScriptRuntimeError,
>)
    ensures
        subscriptions_match(
            result,
            subscriptions_declared(
                match value {
                    Some(v) => Some(*v),
                    None => None,
                },
            ),
        ),
{
    let items = match value {
        None => {
            let specs: Vec<ScriptSubscriptionSpec> = Vec::new();
            assert(subscription_views(specs@) =~= Seq::<(SelectorView, u32)>::empty());
            return Ok(specs);
        },
        Some(JsonValue::Array(items)) => items,
        Some(_) => {
            return Err(invalid_manifest("subscriptions must be an array"));
        },
    };
    let mut specs: Vec<ScriptSubscriptionSpec> = Vec::new();
    let mut i: usize = 0;
    assert(items@.take(0) =~= Seq::<JsonValue>::empty());
    assert(subscription_views(specs@) =~= Seq::<(SelectorView, u32)>::empty());
    let ghost declared = subscriptions_declared(
        match value {
            Some(v) => Some(*v),
            None => None,
        },
    );
    assert(declared == subscription_entries(items@));
    while i < items.len()
        invariant
            i <= items@.len(),
            declared == subscription_entries(items@),
            declared == subscriptions_declared(
                match value {
                    Some(v) => Some(*v),
                    None => None,
                },
            ),
            subscription_entries(items@.take(i as int)) == Ok::<Seq<(SelectorView, u32)>, Seq<char>>(
                subscription_views(specs@),
            ),
        decreases items@.len() - i,
    {
        let ghost prefix = items@.take(i as int + 1);
        assert(prefix.drop_last() =~= items@.take(i as int));
        assert(prefix.last() == items@[i as int]);
        let entry = match &items[i] {
            JsonValue::Object(members) => members,
            _ => {
                proof {
                    assert(subscription_entries(prefix) == Err::<Seq<(SelectorView, u32)>, Seq<char>>(
                        "subscription entry must be an object"@,
                    ));
                    lemma_refusal_persists(items@, i as int + 1);
                }
                return Err(invalid_manifest("subscription entry must be an object"));
            },
        };
        let raw = match member_of(entry, "node") {
            Some(JsonValue::String(raw)) => raw,
            _ => {
                proof {
                    assert(subscription_entries(prefix) == Err::<Seq<(SelectorView, u32)>, Seq<char>>(
                        "subscription entry must define string field 'node'"@,
                    ));
                    lemma_refusal_persists(items@, i as int + 1);
                }
                return Err(invalid_manifest("subscription entry must define string field 'node'"));
            },
        };
        let max_depth: u32 = match member_of(entry, "maxDepth") {
            Some(JsonValue::Number(JsonNumber::PosInt(depth))) => #[verifier::truncate] (*depth as u32),
            _ => 0,
        };
        let selector = parse_selector(raw.as_str());
        let ghost before = specs@;
        specs.push(ScriptSubscriptionSpec { node: selector, max_depth });
        assert(subscription_views(specs@) =~= subscription_views(before).push((selector_for(raw@), max_depth)));
        i = i + 1;
    }
    assert(items@.take(items@.len() as int) =~= items@);
    Ok(specs)
}

/// A refusal among the first `k` items is the outcome for all of them.
proof fn lemma_refusal_persists(items: Seq<JsonValue>, k: int)
    requires
        0 <= k <= items.len(),
        subscription_entries(items.take(k)) is Err,
    ensures
        subscription_entries(items) == subscription_entries(items.take(k)),
    decreases items.len() - k,
{
    if k < items.len() {
        assert(items.take(k + 1).drop_last() =~= items.take(k));
        lemma_refusal_persists(items, k + 1);
    } else {
        assert(items.take(k) =~= items);
    }
}

/// The member of `object` named `key`, looked up as a list of one name.
fn lookup<'a>(object: &'a Vec<(String, JsonValue)>, key: &str) -> (found: Option<&'a JsonValue>)
    ensures
        found == entry_ref(object, key@),
{
    let keys = [key];
    let found = json_object_get(object, keys.as_slice());
    proof {
        assert(key_views(keys@) =~= seq![key@]);
        let views = key_views(keys@);
        assert(views.drop_first() =~= Seq::<Seq<char>>::empty());
        assert(first_member(object@, views.drop_first()) is None);
        assert(views[0] == key@);
        assert(first_member(object@, views) == member(object@, key@));
        match found {
            Some(value) => assert(member(object@, key@) == Some(*value)),
            None => assert(member(object@, key@) is None),
        }
    }
    found
}

/// The entry that `members` holds under `key`, as a lookup hands it out.
pub open spec fn entry_ref<'a>(members: &'a Vec<(String, JsonValue)>, key: Seq<char>) -> Option<&'a JsonValue> {
    match member(members@, key) {
        Some(value) => Some(&value),
        None => None,
    }
}

/// The manifest version that `members` declare: `apiVersion`, or one.
pub open spec fn declared_api_version(members: Seq<(String, JsonValue)>) -> u32 {
    match unsigned_of(member(members, "apiVersion"@)) {
        Some(version) => version as u32,
        None => 1u32,
    }
}

/// The update rate that `members` declare in `updateRateHz`, if any.
pub open spec fn declared_update_rate(members: Seq<(String, JsonValue)>) -> Option<u32> {
    match unsigned_of(member(members, "updateRateHz"@)) {
        Some(rate) => Some(rate as u32),
        None => None,
    }
}

/// Whether `exports` are the functions `names`, in order, with empty
/// signatures.
pub open spec fn exports_named(exports: Seq<ScriptExportSpec>, names: Seq<String>) -> bool {
    &&& exports.len() == names.len()
    &&& forall|i: int|
        0 <= i < names.len() ==> {
            &&& (#[trigger] exports[i]).name@ == names[i]@
            &&& exports[i].signature.args@.len() == 0
            &&& exports[i].signature.returns is None
        }
}

/// Whether `result` refuses the manifest with `message`.
pub open spec fn refused_with<T>(result: Result<T, ScriptRuntimeError>, message: Seq<char>) -> bool {
    match result {
        Err(ScriptRuntimeError::InvalidManifest(text)) => text@ == message,
        _ => false,
    }
}

/// The manifest that `payload` declares for a source exporting
/// `export_names`. The root must be an object and its version at least one;
/// a refusal of the parameters, then of the subscriptions, is the outcome.
pub fn parse_manifest_from_json(payload: &JsonValue, export_names: Vec<String>) -> (result: Result<
    ScriptManifest<DefaultValue, DeclaredConstraints, DeclaredHints>,
    ScriptRuntimeError,
>)
    ensures
        match payload {
            JsonValue::Object(members) => if declared_api_version(members@) == 0 {
                refused_with(result, "apiVersion must be >= 1"@)
            } else {
                let entry = entry_ref(members, "parameters"@);
                let subscriptions = subscriptions_declared(member(members@, "subscriptions"@));
                match result {
                    Ok(manifest) => {
                        &&& manifest.api_version == declared_api_version(members@)
                        &&& manifest.update_rate_hz == declared_update_rate(members@)
                        &&& parameters_read(entry, Ok(manifest.parameters))
                        &&& subscriptions == Ok::<Seq<(SelectorView, u32)>, Seq<char>>(
                            subscription_views(manifest.subscriptions@),
                        )
                        &&& exports_named(manifest.exports@, export_names@)
                    },
                    Err(error) => parameters_read(entry, Err(error)) || {
                        &&& exists|parameters: Vec<DeclaredParameter>| parameters_read(entry, Ok(parameters))
                        &&& subscriptions is Err
                        &&& refused_with(result, subscriptions->Err_0)
                    },
                }
            },
            _ => refused_with(result, "manifest JSON root must be an object"@),
        },
{
    let root = match payload {
        JsonValue::Object(members) => members,
        _ => {
            return Err(invalid_manifest("manifest JSON root must be an object"));
        },
    };
    let api_version: u32 = match lookup(root, "apiVersion") {
        Some(JsonValue::Number(JsonNumber::PosInt(version))) => #[verifier::truncate] (*version as u32),
        _ => 1,
    };
    if api_version == 0 {
        return Err(invalid_manifest("apiVersion must be >= 1"));
    }
    let update_rate_hz: Option<u32> = match lookup(root, "updateRateHz") {
        Some(JsonValue::Number(JsonNumber::PosInt(rate))) => Some(#[verifier::truncate] (*rate as u32)),
        _ => None,
    };
    let parameters = match parse_parameter_specs_json(lookup(root, "parameters")) {
        Ok(parameters) => parameters,
        Err(error) => {
            return Err(error);
        },
    };
    let subscriptions = match parse_subscription_specs_json(lookup(root, "subscriptions")) {
        Ok(subscriptions) => subscriptions,
        Err(error) => {
            return Err(error);
        },
    };
    let mut exports: Vec<ScriptExportSpec> = Vec::new();
    let mut i: usize = 0;
    while i < export_names.len()
        invariant
            i <= export_names@.len(),
            exports_named(exports@, export_names@.take(i as int)),
        decreases export_names@.len() - i,
    {
        let name = export_names[i].clone();
        exports.push(ScriptExportSpec { name, signature: ScriptFnSignature { args: Vec::new(), returns: None } });
        i = i + 1;
    }
    assert(export_names@.take(export_names@.len() as int) =~= export_names@);
    Ok(ScriptManifest { api_version, update_rate_hz, parameters, subscriptions, exports })
}

} // verus!
