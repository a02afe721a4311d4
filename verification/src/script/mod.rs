//! Script hosting: per-node policy and budgets, script sources and their UI
//! payloads, manifest descriptors, label parsing and template resolution.
//!
//! Loading files and running scripts happens at the application's edge; this
//! module holds the data model and the decisions made on it.

pub mod declarations;
pub mod defaults;
pub mod exports;
pub mod library;
pub mod manifest;
pub mod template;

use vstd::prelude::*;
use vstd::string::*;
use self::template::{library_entries, resolve_template_for_host, resolved_template, TemplateLibrary};
use crate::text::{
    ascii_lowercase, lowercase_ascii, strings_equal, trim, trimmed,
};

verus! {

/// Script-host policy for one node type.
#[derive(Clone, Copy, Debug, PartialEq, Eq, Structural)]
pub struct ScriptHostPolicy {
    /// Whether script hosting is enabled for this node.
    pub enabled: bool,
}

impl Default for ScriptHostPolicy {
    /// Scripting is off unless a node type asks for it.
    fn default() -> (policy: Self)
        ensures
            !policy.enabled,
    {
        ScriptHostPolicy { enabled: false }
    }
}

impl ScriptHostPolicy {
    /// The policy of node types declared scriptable.
    pub fn default_scriptable() -> (policy: Self)
        ensures
            policy.enabled,
    {
        ScriptHostPolicy { enabled: true }
    }
}

/// Hard safety guardrails applied per script instance.
#[derive(Clone, Copy, Debug, PartialEq, Eq, Structural)]
pub struct ScriptBudgets {
    /// Maximum VM instruction target for one callback.
    pub max_instructions_per_callback: u64,
    /// Maximum callback wall time in microseconds.
    pub max_wall_time_us_per_callback: u64,
    /// Maximum runtime memory target in bytes.
    pub max_memory_bytes: usize,
    /// Maximum host API calls per callback.
    pub max_host_calls_per_callback: u32,
    /// Maximum edits that may be emitted in one tick.
    pub max_emitted_edits_per_tick: u32,
    /// Maximum custom events that may be emitted in one tick.
    pub max_emitted_events_per_tick: u32,
}

impl Default for ScriptBudgets {
    fn default() -> (budgets: Self)
        ensures
            budgets.max_instructions_per_callback == 200_000,
            budgets.max_wall_time_us_per_callback == 50_000,
            budgets.max_memory_bytes == 16 * 1024 * 1024,
            budgets.max_host_calls_per_callback == 1_024,
            budgets.max_emitted_edits_per_tick == 512,
            budgets.max_emitted_events_per_tick == 512,
    {
        ScriptBudgets {
            max_instructions_per_callback: 200_000,
            max_wall_time_us_per_callback: 50_000,
            max_memory_bytes: 16_777_216,
            max_host_calls_per_callback: 1_024,
            max_emitted_edits_per_tick: 512,
            max_emitted_events_per_tick: 512,
        }
    }
}

/// Script source selection.
#[derive(Clone, Debug, PartialEq, Eq)]
pub enum ScriptSource {
    /// Inline source text stored in node state.
    Inline(String),
    /// Project-relative file path.
    ProjectFile(String),
}

/// The name under which a source is reported by the runtime.
pub open spec fn source_name(source: ScriptSource) -> Seq<char> {
    match source {
        ScriptSource::Inline(_) => "inline_script.js"@,
        ScriptSource::ProjectFile(path) => if trimmed(path@).len() > 0 {
            path@
        } else {
            "script_file.js"@
        },
    }
}

impl ScriptSource {
    /// The path of a file-backed source; `None` for inline text.
    pub fn resolve_path(&self) -> (path: Option<String>)
        ensures
            match self {
                ScriptSource::Inline(_) => path is None,
                ScriptSource::ProjectFile(p) => path is Some && path.unwrap()@ == p@,
            },
    {
        match self {
            ScriptSource::Inline(_) => None,
            ScriptSource::ProjectFile(path) => Some(path.clone()),
        }
    }

    /// Whether the source lives in a project file.
    pub fn is_file_backed(&self) -> (file_backed: bool)
        ensures
            file_backed == (self is ProjectFile),
    {
        match self {
            ScriptSource::Inline(_) => false,
            ScriptSource::ProjectFile(_) => true,
        }
    }

    /// The name under which the runtime reports this source: the path of a
    /// file-backed source, or a fixed name for inline text and blank paths.
    pub fn runtime_source_name(&self) -> (name: String)
        ensures
            name@ == source_name(*self),
    {
        match self {
            ScriptSource::Inline(_) => String::from_str("inline_script.js"),
            ScriptSource::ProjectFile(path) => {
                let trimmed_path = trim(path.as_str());
                if trimmed_path.as_str().unicode_len() > 0 {
                    path.clone()
                } else {
                    String::from_str("script_file.js")
                }
            },
        }
    }
}

/// Error type returned by scripting operations.
#[derive(Clone, Debug, PartialEq, Eq)]
pub enum ScriptRuntimeError {
    /// Source loading failure.
    Io(String),
    /// Script engine error.
    QuickJs(String),
    /// Invalid script manifest.
    InvalidManifest(String),
    /// Missing export function.
    MissingExport(String),
    /// Runtime callback budget violation.
    BudgetViolation(String),
    /// Host bridge call failure.
    Host(String),
}

/// The human-readable text of a scripting error.
pub open spec fn runtime_error_text(error: ScriptRuntimeError) -> Seq<char> {
    match error {
        ScriptRuntimeError::Io(m) => m@,
        ScriptRuntimeError::QuickJs(m) => "quickjs runtime error: "@ + m@,
        ScriptRuntimeError::InvalidManifest(m) => "invalid script manifest: "@ + m@,
        ScriptRuntimeError::MissingExport(name) => "missing script export '"@ + name@ + "'"@,
        ScriptRuntimeError::BudgetViolation(m) => "script budget violation: "@ + m@,
        ScriptRuntimeError::Host(m) => "script host error: "@ + m@,
    }
}

impl ScriptRuntimeError {
    /// Human-readable description of the error.
    pub fn message(&self) -> (text: String)
        ensures
            text@ == runtime_error_text(*self),
    {
        match self {
            ScriptRuntimeError::Io(m) => m.clone(),
            ScriptRuntimeError::QuickJs(m) => String::from_str("quickjs runtime error: ").concat(m.as_str()),
            ScriptRuntimeError::InvalidManifest(m) => String::from_str("invalid script manifest: ").concat(
                m.as_str(),
            ),
            ScriptRuntimeError::MissingExport(name) => String::from_str("missing script export '").concat(
                name.as_str(),
            ).concat("'"),
            ScriptRuntimeError::BudgetViolation(m) => String::from_str("script budget violation: ").concat(
                m.as_str(),
            ),
            ScriptRuntimeError::Host(m) => String::from_str("script host error: ").concat(m.as_str()),
        }
    }
}

/// Whether `extension` (already lowercased) names a script file.
pub open spec fn script_extension(extension: Seq<char>) -> bool {
    extension == "js"@ || extension == "mjs"@ || extension == "cjs"@
}

/// The characters after the last `/` of `path` (all of it when it has none).
pub open spec fn last_segment(path: Seq<char>) -> Seq<char>
    decreases path.len(),
{
    if path.len() == 0 {
        path
    } else if path.last() == '/' {
        Seq::empty()
    } else {
        last_segment(path.drop_last()).push(path.last())
    }
}

/// The final name of a `/`-separated path: trailing separators and `.`
/// segments are skipped, and a final `..` has no name.
pub open spec fn file_name(path: Seq<char>) -> Option<Seq<char>>
    decreases path.len(),
{
    if path.len() == 0 {
        None
    } else if path.last() == '/' {
        file_name(path.drop_last())
    } else {
        let segment = last_segment(path);
        let rest = path.subrange(0, path.len() - segment.len());
        if segment == seq!['.'] {
            proof {
                lemma_last_segment_bounds(path);
            }
            file_name(rest)
        } else if segment == seq!['.', '.'] {
            None
        } else {
            Some(segment)
        }
    }
}

/// The index of the last `.` of `name`.
pub open spec fn last_dot(name: Seq<char>) -> Option<int>
    decreases name.len(),
{
    if name.len() == 0 {
        None
    } else if name.last() == '.' {
        Some(name.len() - 1)
    } else {
        last_dot(name.drop_last())
    }
}

/// The extension of a file name: what follows its last dot, unless that dot
/// starts the name or the name has none.
pub open spec fn name_extension(name: Seq<char>) -> Option<Seq<char>> {
    match last_dot(name) {
        Some(dot) => if dot > 0 {
            Some(name.subrange(dot + 1, name.len() as int))
        } else {
            None
        },
        None => None,
    }
}

/// The extension of the final name of `path`.
pub open spec fn path_extension(path: Seq<char>) -> Option<Seq<char>> {
    match file_name(path) {
        Some(name) => name_extension(name),
        None => None,
    }
}

pub proof fn lemma_last_segment_bounds(path: Seq<char>)
    ensures
        last_segment(path).len() <= path.len(),
        last_segment(path) == path.subrange(path.len() - last_segment(path).len(), path.len() as int),
        path.len() > 0 && path.last() != '/' ==> last_segment(path).len() > 0,
        forall|i: int| 0 <= i < last_segment(path).len() ==> #[trigger] last_segment(path)[i] != '/',
        last_segment(path).len() < path.len() ==> path[path.len() - last_segment(path).len() - 1] == '/',
    decreases path.len(),
{
    if path.len() > 0 && path.last() != '/' {
        lemma_last_segment_bounds(path.drop_last());
        assert(last_segment(path) =~= path.subrange(
            path.len() - last_segment(path).len(),
            path.len() as int,
        ));
    }
}

/// The file name of `path`: its characters `chars[start..end]`, found
/// within `chars[0..end]`.
fn file_name_range(chars: &Vec<char>, end: usize) -> (range: Option<(usize, usize)>)
    requires
        end <= chars@.len(),
    ensures
        match file_name(chars@.subrange(0, end as int)) {
            None => range is None,
            Some(name) => range is Some && range.unwrap().0 <= range.unwrap().1 <= end
                && chars@.subrange(range.unwrap().0 as int, range.unwrap().1 as int) == name,
        },
    decreases end,
{
    let ghost prefix = chars@.subrange(0, end as int);
    if end == 0 {
        return None;
    }
    if chars[end - 1] == '/' {
        assert(prefix.drop_last() =~= chars@.subrange(0, end - 1));
        return file_name_range(chars, end - 1);
    }
    let mut start = end;
    while start > 0 && chars[start - 1] != '/'
        invariant
            start <= end <= chars@.len(),
            forall|k: int| start <= k < end ==> chars@[k] != '/',
        decreases start,
    {
        start = start - 1;
    }
    proof {
        lemma_last_segment_bounds(prefix);
        let k = prefix.len() - last_segment(prefix).len();
        if start > k {
            assert(prefix[start - 1] == last_segment(prefix)[start - 1 - k]);
            assert(last_segment(prefix)[start - 1 - k] != '/');
        }
        if start < k {
            assert(prefix[k - 1] == '/');
        }
        assert(start == k);
        assert(last_segment(prefix) =~= chars@.subrange(start as int, end as int));
        assert(prefix.subrange(0, start as int) =~= chars@.subrange(0, start as int));
    }
    let length = end - start;
    if length == 1 && chars[start] == '.' {
        assert(last_segment(prefix) =~= seq!['.']);
        return file_name_range(chars, start);
    }
    if length == 2 && chars[start] == '.' && chars[start + 1] == '.' {
        assert(last_segment(prefix) =~= seq!['.', '.']);
        return None;
    }
    proof {
        if last_segment(prefix) == seq!['.'] {
            assert(last_segment(prefix)[0] == chars@[start as int]);
        }
        if last_segment(prefix) == seq!['.', '.'] {
            assert(last_segment(prefix)[0] == chars@[start as int]);
            assert(last_segment(prefix)[1] == chars@[start + 1]);
        }
    }
    Some((start, end))
}

/// The extension of `chars[start..end]`: the range after its last dot.
fn extension_range(chars: &Vec<char>, start: usize, end: usize) -> (range: Option<usize>)
    requires
        start <= end <= chars@.len(),
    ensures
        match name_extension(chars@.subrange(start as int, end as int)) {
            None => range is None,
            Some(extension) => range is Some && start < range.unwrap() <= end
                && chars@.subrange(range.unwrap() as int, end as int) == extension,
        },
{
    let ghost name = chars@.subrange(start as int, end as int);
    let mut i = end;
    assert(name.subrange(0, i - start) =~= name);
    while i > start && chars[i - 1] != '.'
        invariant
            start <= i <= end <= chars@.len(),
            name == chars@.subrange(start as int, end as int),
            last_dot(name) == last_dot(name.subrange(0, i - start)),
        decreases i,
    {
        assert(name.subrange(0, i - start).drop_last() =~= name.subrange(0, i - start - 1));
        i = i - 1;
    }
    if i == start {
        assert(name.subrange(0, 0) =~= Seq::<char>::empty());
        return None;
    }
    assert(last_dot(name.subrange(0, i - start)) == Some(i - start - 1));
    if i - 1 == start {
        return None;
    }
    assert(name.subrange(i - start, name.len() as int) =~= chars@.subrange(i as int, end as int));
    Some(i)
}

/// The message of a file-backed source whose extension is not a script one.
pub open spec fn unsupported_file_text(path: Seq<char>) -> Seq<char> {
    "unsupported script file '"@ + path + "', expected one of: .js, .mjs, .cjs"@
}

/// Whether `source` is inline, or a file whose extension, trimmed and
/// lowercased, is `js`, `mjs` or `cjs`.
pub open spec fn source_kind_supported(source: ScriptSource) -> bool {
    match source {
        ScriptSource::Inline(_) => true,
        ScriptSource::ProjectFile(path) => match path_extension(path@) {
            Some(extension) => script_extension(ascii_lowercase(trimmed(extension))),
            None => false,
        },
    }
}

/// Runtime script node configuration.
#[derive(Clone, Debug, PartialEq, Eq)]
pub struct ScriptNodeConfig {
    /// Script source.
    pub source: ScriptSource,
}

impl ScriptNodeConfig {
    /// The default configuration of a host node type: the inline text of
    /// its template, resolved from the template library.
    pub fn for_host_node_type(host_node_type: &str, library: &TemplateLibrary) -> (config: Self)
        ensures
            config.source matches ScriptSource::Inline(text) && text@ == resolved_template(
                host_node_type@,
                library.embedded_default@,
                library_entries(library.files@),
            ),
    {
        ScriptNodeConfig { source: ScriptSource::Inline(resolve_template_for_host(host_node_type, library)) }
    }

    /// Accepts inline sources and `.js`, `.mjs` and `.cjs` files.
    pub fn validate_source_kind(&self) -> (result: Result<(), ScriptRuntimeError>)
        ensures
            source_kind_supported(self.source) ==> result is Ok,
            !source_kind_supported(self.source) ==> match result {
                Err(ScriptRuntimeError::InvalidManifest(message)) => match self.source {
                    ScriptSource::ProjectFile(path) => message@ == unsupported_file_text(path@),
                    ScriptSource::Inline(_) => false,
                },
                _ => false,
            },
    {
        let raw_path = match &self.source {
            ScriptSource::Inline(_) => {
                return Ok(());
            },
            ScriptSource::ProjectFile(path) => path,
        };
        let chars = crate::text::chars_of(raw_path.as_str());
        assert(chars@.subrange(0, chars@.len() as int) =~= raw_path@);
        let supported = match file_name_range(&chars, chars.len()) {
            None => false,
            Some((start, end)) => match extension_range(&chars, start, end) {
                None => false,
                Some(dot) => {
                    let extension = crate::text::string_from_chars(&chars, dot, end);
                    assert(chars@.subrange(dot as int, end as int) =~= chars@.subrange(
                        start as int,
                        end as int,
                    ).subrange(dot - start, end - start));
                    let trimmed_extension = trim(extension.as_str());
                    let key = lowercase_ascii(trimmed_extension.as_str());
                    strings_equal(key.as_str(), "js") || strings_equal(key.as_str(), "mjs")
                        || strings_equal(key.as_str(), "cjs")
                },
            },
        };
        if supported {
            Ok(())
        } else {
            let message = String::from_str("unsupported script file '").concat(raw_path.as_str()).concat(
                "', expected one of: .js, .mjs, .cjs",
            );
            Err(ScriptRuntimeError::InvalidManifest(message))
        }
    }
}

/// UI payload for script source configuration.
#[derive(Clone, Debug, PartialEq, Eq)]
pub enum ScriptUiSource {
    /// Inline source text stored in node state.
    Inline {
        /// Inline script text.
        text: String,
    },
    /// Project-relative file path.
    ProjectFile {
        /// Project-relative script path.
        path: String,
    },
}

/// Whether `ui` carries the same kind and text as `source`.
pub open spec fn ui_source_matches(ui: ScriptUiSource, source: ScriptSource) -> bool {
    match source {
        ScriptSource::Inline(text) => ui matches ScriptUiSource::Inline { text: t } && t@ == text@,
        ScriptSource::ProjectFile(path) => ui matches ScriptUiSource::ProjectFile { path: p } && p@ == path@,
    }
}

impl ScriptUiSource {
    /// The UI payload of `source`.
    pub fn of_source(source: &ScriptSource) -> (ui: Self)
        ensures
            ui_source_matches(ui, *source),
    {
        match source {
            ScriptSource::Inline(text) => ScriptUiSource::Inline { text: text.clone() },
            ScriptSource::ProjectFile(path) => ScriptUiSource::ProjectFile { path: path.clone() },
        }
    }
}

impl From<ScriptUiSource> for ScriptSource {
    fn from(value: ScriptUiSource) -> (source: Self) {
        match value {
            ScriptUiSource::Inline { text } => ScriptSource::Inline(text),
            ScriptUiSource::ProjectFile { path } => ScriptSource::ProjectFile(path),
        }
    }
}

impl vstd::std_specs::convert::FromSpecImpl<ScriptUiSource> for ScriptSource {
    open spec fn obeys_from_spec() -> bool {
        true
    }

    open spec fn from_spec(v: ScriptUiSource) -> ScriptSource {
        match v {
            ScriptUiSource::Inline { text } => ScriptSource::Inline(text),
            ScriptUiSource::ProjectFile { path } => ScriptSource::ProjectFile(path),
        }
    }
}

/// UI payload for script source configuration.
#[derive(Clone, Debug, PartialEq, Eq)]
pub struct ScriptUiConfig {
    /// Script source selector.
    pub source: ScriptUiSource,
}

impl ScriptUiConfig {
    /// The UI payload of `config`.
    pub fn of_config(config: &ScriptNodeConfig) -> (ui: Self)
        ensures
            ui_source_matches(ui.source, config.source),
    {
        ScriptUiConfig { source: ScriptUiSource::of_source(&config.source) }
    }
}

impl From<ScriptUiConfig> for ScriptNodeConfig {
    fn from(value: ScriptUiConfig) -> (config: Self) {
        ScriptNodeConfig { source: ScriptSource::from(value.source) }
    }
}

impl vstd::std_specs::convert::FromSpecImpl<ScriptUiConfig> for ScriptNodeConfig {
    open spec fn obeys_from_spec() -> bool {
        true
    }

    open spec fn from_spec(v: ScriptUiConfig) -> ScriptNodeConfig {
        ScriptNodeConfig {
            source: match v.source {
                ScriptUiSource::Inline { text } => ScriptSource::Inline(text),
                ScriptUiSource::ProjectFile { path } => ScriptSource::ProjectFile(path),
            },
        }
    }
}

/// Supported script parameter value families.
#[derive(Clone, Copy, Debug, PartialEq, Eq, Structural)]
pub enum ScriptValueType {
    /// Trigger pulse.
    Trigger,
    /// Signed integer.
    Int,
    /// Floating-point scalar.
    Float,
    /// UTF-8 string.
    Str,
    /// Project/user file path.
    File,
    /// Enum variant id string.
    Enum,
    /// Boolean.
    Bool,
    /// CSS scalar value.
    CssValue,
    /// 2D vector.
    Vec2,
    /// 3D vector.
    Vec3,
    /// RGBA color.
    Color,
    /// Node reference.
    Reference,
}

/// The value family named by a lowercased manifest label.
pub open spec fn value_type_for_key(key: Seq<char>) -> Option<ScriptValueType> {
    if key == "trigger"@ {
        Some(ScriptValueType::Trigger)
    } else if key == "int"@ {
        Some(ScriptValueType::Int)
    } else if key == "float"@ {
        Some(ScriptValueType::Float)
    } else if key == "str"@ || key == "string"@ {
        Some(ScriptValueType::Str)
    } else if key == "file"@ || key == "path"@ {
        Some(ScriptValueType::File)
    } else if key == "enum"@ {
        Some(ScriptValueType::Enum)
    } else if key == "bool"@ || key == "boolean"@ {
        Some(ScriptValueType::Bool)
    } else if key == "css_value"@ || key == "css-value"@ || key == "cssvalue"@ {
        Some(ScriptValueType::CssValue)
    } else if key == "vec2"@ {
        Some(ScriptValueType::Vec2)
    } else if key == "vec3"@ {
        Some(ScriptValueType::Vec3)
    } else if key == "color"@ {
        Some(ScriptValueType::Color)
    } else if key == "reference"@ {
        Some(ScriptValueType::Reference)
    } else {
        None
    }
}

/// A manifest label is matched trimmed and ASCII-lowercased.
pub open spec fn label_key(label: Seq<char>) -> Seq<char> {
    ascii_lowercase(trimmed(label))
}

/// The name under which a value family is written out: its variant name in
/// camel case, `css_value` for CSS values.
pub open spec fn family_name(value_type: ScriptValueType) -> Seq<char> {
    match value_type {
        ScriptValueType::Trigger => "trigger"@,
        ScriptValueType::Int => "int"@,
        ScriptValueType::Float => "float"@,
        ScriptValueType::Str => "str"@,
        ScriptValueType::File => "file"@,
        ScriptValueType::Enum => "enum"@,
        ScriptValueType::Bool => "bool"@,
        ScriptValueType::CssValue => "css_value"@,
        ScriptValueType::Vec2 => "vec2"@,
        ScriptValueType::Vec3 => "vec3"@,
        ScriptValueType::Color => "color"@,
        ScriptValueType::Reference => "reference"@,
    }
}

/// Every value family's own name, as a manifest label, names that family,
/// so distinct families are told apart by their names; the accepted
/// alternative spellings name the family they spell.
pub proof fn lemma_family_names_name_their_family(value_type: ScriptValueType)
    ensures
        value_type_for_key(family_name(value_type)) == Some(value_type),
        value_type_for_key("string"@) == Some(ScriptValueType::Str),
        value_type_for_key("path"@) == Some(ScriptValueType::File),
        value_type_for_key("boolean"@) == Some(ScriptValueType::Bool),
        value_type_for_key("css-value"@) == Some(ScriptValueType::CssValue),
        value_type_for_key("cssvalue"@) == Some(ScriptValueType::CssValue),
{
    reveal_strlit("trigger");
    reveal_strlit("int");
    reveal_strlit("float");
    reveal_strlit("str");
    reveal_strlit("string");
    reveal_strlit("file");
    reveal_strlit("path");
    reveal_strlit("enum");
    reveal_strlit("bool");
    reveal_strlit("boolean");
    reveal_strlit("css_value");
    reveal_strlit("css-value");
    reveal_strlit("cssvalue");
    reveal_strlit("vec2");
    reveal_strlit("vec3");
    reveal_strlit("color");
    reveal_strlit("reference");
    assert(("trigger"@)[0] == 't');
    assert(("trigger"@)[3] == 'g');
    assert(("int"@)[0] == 'i');
    assert(("float"@)[0] == 'f');
    assert(("float"@)[3] == 'a');
    assert(("str"@)[0] == 's');
    assert(("string"@)[0] == 's');
    assert(("string"@)[3] == 'i');
    assert(("file"@)[0] == 'f');
    assert(("file"@)[3] == 'e');
    assert(("path"@)[0] == 'p');
    assert(("path"@)[3] == 'h');
    assert(("enum"@)[0] == 'e');
    assert(("enum"@)[3] == 'm');
    assert(("bool"@)[0] == 'b');
    assert(("bool"@)[3] == 'l');
    assert(("boolean"@)[0] == 'b');
    assert(("boolean"@)[3] == 'l');
    assert(("css_value"@)[0] == 'c');
    assert(("css_value"@)[3] == '_');
    assert(("css-value"@)[0] == 'c');
    assert(("css-value"@)[3] == '-');
    assert(("cssvalue"@)[0] == 'c');
    assert(("cssvalue"@)[3] == 'v');
    assert(("vec2"@)[0] == 'v');
    assert(("vec2"@)[3] == '2');
    assert(("vec3"@)[0] == 'v');
    assert(("vec3"@)[3] == '3');
    assert(("color"@)[0] == 'c');
    assert(("color"@)[3] == 'o');
    assert(("reference"@)[0] == 'r');
    assert(("reference"@)[3] == 'e');
}

impl ScriptValueType {
    /// The value family a manifest label names, ignoring surrounding
    /// whitespace and ASCII case.
    pub fn from_manifest_label(value: &str) -> (value_type: Option<Self>)
        ensures
            value_type == value_type_for_key(label_key(value@)),
    {
        let trimmed_value = trim(value);
        let key = lowercase_ascii(trimmed_value.as_str());
        let k = key.as_str();
        if strings_equal(k, "trigger") {
            Some(ScriptValueType::Trigger)
        } else if strings_equal(k, "int") {
            Some(ScriptValueType::Int)
        } else if strings_equal(k, "float") {
            Some(ScriptValueType::Float)
        } else if strings_equal(k, "str") || strings_equal(k, "string") {
            Some(ScriptValueType::Str)
        } else if strings_equal(k, "file") || strings_equal(k, "path") {
            Some(ScriptValueType::File)
        } else if strings_equal(k, "enum") {
            Some(ScriptValueType::Enum)
        } else if strings_equal(k, "bool") || strings_equal(k, "boolean") {
            Some(ScriptValueType::Bool)
        } else if strings_equal(k, "css_value") || strings_equal(k, "css-value") || strings_equal(
            k,
            "cssvalue",
        ) {
            Some(ScriptValueType::CssValue)
        } else if strings_equal(k, "vec2") {
            Some(ScriptValueType::Vec2)
        } else if strings_equal(k, "vec3") {
            Some(ScriptValueType::Vec3)
        } else if strings_equal(k, "color") {
            Some(ScriptValueType::Color)
        } else if strings_equal(k, "reference") {
            Some(ScriptValueType::Reference)
        } else {
            None
        }
    }
}

/// Script log levels accepted from script callbacks.
#[derive(Clone, Copy, Debug, PartialEq, Eq, Structural)]
pub enum ScriptLogLevel {
    /// Informational log.
    Info,
    /// Success log.
    Success,
    /// Warning log.
    Warning,
    /// Error log.
    Error,
}

/// The log level named by a lowercased label.
pub open spec fn log_level_for_key(key: Seq<char>) -> Option<ScriptLogLevel> {
    if key == "info"@ {
        Some(ScriptLogLevel::Info)
    } else if key == "success"@ {
        Some(ScriptLogLevel::Success)
    } else if key == "warning"@ || key == "warn"@ {
        Some(ScriptLogLevel::Warning)
    } else if key == "error"@ {
        Some(ScriptLogLevel::Error)
    } else {
        None
    }
}

impl ScriptLogLevel {
    /// The log level a label names, ignoring surrounding whitespace and
    /// ASCII case.
    pub fn from_manifest_label(value: &str) -> (level: Option<Self>)
        ensures
            level == log_level_for_key(label_key(value@)),
    {
        let trimmed_value = trim(value);
        let key = lowercase_ascii(trimmed_value.as_str());
        let k = key.as_str();
        if strings_equal(k, "info") {
            Some(ScriptLogLevel::Info)
        } else if strings_equal(k, "success") {
            Some(ScriptLogLevel::Success)
        } else if strings_equal(k, "warning") || strings_equal(k, "warn") {
            Some(ScriptLogLevel::Warning)
        } else if strings_equal(k, "error") {
            Some(ScriptLogLevel::Error)
        } else {
            None
        }
    }
}

/// Script selector for target nodes.
#[derive(Clone, Debug, PartialEq, Eq)]
pub enum ScriptNodeSelector {
    /// Select by runtime node id.
    NodeId(u64),
    /// Select by path under script root.
    Path(String),
    /// Select from host anchor.
    HostPath(String),
    /// Select from root anchor.
    RootPath(String),
}

/// One subscription entry declared by a script.
#[derive(Clone, Debug, PartialEq, Eq)]
pub struct ScriptSubscriptionSpec {
    /// Target selector.
    pub node: ScriptNodeSelector,
    /// Maximum depth under target.
    pub max_depth: u32,
}

/// One exported function signature descriptor.
#[derive(Clone, Debug, Default, PartialEq, Eq)]
pub struct ScriptFnSignature {
    /// Named argument labels for tooling.
    pub args: Vec<String>,
    /// Optional return label.
    pub returns: Option<String>,
}

/// One exported Rust-callable script function.
#[derive(Clone, Debug, PartialEq, Eq)]
pub struct ScriptExportSpec {
    /// Exported function name.
    pub name: String,
    /// Tooling signature metadata.
    pub signature: ScriptFnSignature,
}

/// Script-defined parameter descriptor, over the host's parameter value,
/// constraint and UI-hint types.
#[derive(Clone, Debug, PartialEq)]
pub struct ScriptParameterSpec<Value, Constraints, Hints> {
    /// Script-local stable name.
    pub name: String,
    /// Declaration id used when materialized as node.
    pub decl_id: String,
    /// Optional user-facing label.
    pub label: Option<String>,
    /// Declared parameter value family.
    pub value_type: ScriptValueType,
    /// Default value.
    pub default_value: Value,
    /// Read-only flag.
    pub read_only: bool,
    /// Parameter constraints.
    pub constraints: Constraints,
    /// UI hints.
    pub ui_hints: Hints,
}

/// Parsed script manifest.
#[derive(Clone, Debug, PartialEq)]
pub struct ScriptManifest<Value, Constraints, Hints> {
    /// Manifest schema version.
    pub api_version: u32,
    /// Optional runtime update rate.
    pub update_rate_hz: Option<u32>,
    /// Script-defined parameters.
    pub parameters: Vec<ScriptParameterSpec<Value, Constraints, Hints>>,
    /// Event subscriptions.
    pub subscriptions: Vec<ScriptSubscriptionSpec>,
    /// Exported functions.
    pub exports: Vec<ScriptExportSpec>,
}

impl<Value, Constraints, Hints> Default for ScriptManifest<Value, Constraints, Hints> {
    /// Version one of the manifest schema, declaring nothing.
    fn default() -> (manifest: Self)
        ensures
            manifest.api_version == 1,
            manifest.update_rate_hz is None,
            manifest.parameters@.len() == 0,
            manifest.subscriptions@.len() == 0,
            manifest.exports@.len() == 0,
    {
        ScriptManifest {
            api_version: 1,
            update_rate_hz: None,
            parameters: Vec::new(),
            subscriptions: Vec::new(),
            exports: Vec::new(),
        }
    }
}

/// UI-facing script node runtime state payload.
#[derive(Clone, Debug, PartialEq)]
pub struct ScriptUiState<Value, Constraints, Hints> {
    /// Current script configuration.
    pub config: ScriptUiConfig,
    /// Effective update-rate used by scheduler.
    pub effective_update_rate_hz: Option<u32>,
    /// Export names currently available.
    pub export_names: Vec<String>,
    /// Last successfully parsed manifest.
    pub manifest: Option<ScriptManifest<Value, Constraints, Hints>>,
}

/// The refusal of a host that keeps no runtime event listeners.
pub open spec fn listeners_unavailable_text() -> Seq<char> {
    "runtime event listeners are unavailable for this script host"@
}

/// What a script host offers to a running script. Hosts implement it; the
/// provided methods describe a host that has no such service.
pub trait ScriptHostBridge {
    /// Owning node id when available.
    fn owner_node(&self) -> (node: Option<u64>)
        default_ensures
            node is None,
    {
        None
    }

    /// Script node id when available; by default the owning node.
    fn script_node(&self) -> (node: Option<u64>)
        default_ensures
            call_ensures(Self::owner_node, (self,), node),
    {
        self.owner_node()
    }

    /// Emit one log record.
    fn log(&mut self, level: ScriptLogLevel, message: &str);

    /// Emit one custom engine event whose payload is JSON text.
    fn emit_custom(&mut self, topic: &str, payload: &str) -> Result<(), String>;

    /// Sets or updates one runtime listener configuration for this script.
    fn set_event_listener(&mut self, target: u64, level: u32) -> (result: Result<(), String>)
        default_ensures
            result matches Err(message) && message@ == listeners_unavailable_text(),
    {
        Err(String::from_str("runtime event listeners are unavailable for this script host"))
    }

    /// Removes one runtime listener configuration for this script.
    fn remove_event_listener(&mut self, target: u64) -> (result: Result<(), String>)
        default_ensures
            result matches Err(message) && message@ == listeners_unavailable_text(),
    {
        Err(String::from_str("runtime event listeners are unavailable for this script host"))
    }

    /// Removes all runtime listener configurations for this script.
    fn clear_event_listeners(&mut self) -> (result: Result<(), String>)
        default_ensures
            result matches Err(message) && message@ == listeners_unavailable_text(),
    {
        Err(String::from_str("runtime event listeners are unavailable for this script host"))
    }
}

/// Host bridge used when no engine context is available: every request
/// succeeds and has no effect.
pub struct NoopScriptHostBridge;

impl ScriptHostBridge for NoopScriptHostBridge {
    fn log(&mut self, level: ScriptLogLevel, message: &str) {
    }

    fn emit_custom(&mut self, topic: &str, payload: &str) -> (result: Result<(), String>)
        ensures
            result is Ok,
        {
        Ok(())
    }

    fn set_event_listener(&mut self, target: u64, level: u32) -> (result: Result<(), String>)
        ensures
            result is Ok,
        {
        Ok(())
    }

    fn remove_event_listener(&mut self, target: u64) -> (result: Result<(), String>)
        ensures
            result is Ok,
        {
        Ok(())
    }

    fn clear_event_listeners(&mut self) -> (result: Result<(), String>)
        ensures
            result is Ok,
        {
        Ok(())
    }
}

} // verus!
