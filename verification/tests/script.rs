use golden::script::template::{
    expand_template_source, include_stack_contains, normalize_include_path, normalized_template_key, read_template,
    resolve_template_for_host, template_candidate_basenames, TemplateError, TemplateLibrary,
};
use golden::script::{
    NoopScriptHostBridge, ScriptBudgets, ScriptHostBridge, ScriptHostPolicy, ScriptLogLevel, ScriptManifest,
    ScriptNodeConfig, ScriptNodeSelector, ScriptRuntimeError, ScriptSource, ScriptUiConfig, ScriptUiSource,
    ScriptValueType,
};

fn library(files: &[(&str, &str)]) -> TemplateLibrary {
    TemplateLibrary {
        embedded_default: "script.setApiVersion(1);\n{{include:snippets/parameters.js}}\n{{include:snippets/update.js}}\n"
            .to_string(),
        files: files.iter().map(|(path, text)| (path.to_string(), text.to_string())).collect(),
    }
}

fn core_templates() -> TemplateLibrary {
    library(&[
        (
            "default.js",
            "// Default script template for Golden Core script nodes.\nscript.setApiVersion(1);\n{{include:snippets/parameters.js}}\nfunction init() {}\n{{include:snippets/update.js}}\n",
        ),
        ("snippets/parameters.js", "script.addParameter(\"gain\", { type: \"float\", default: 0.5 });\n"),
        ("snippets/update.js", "function update(delta) {\n  void delta;\n}\n"),
        ("module.js", "{{include:default.js}}\nlog(\"module-scoped script initialized\");\n"),
    ])
}

fn inline_text(config: ScriptNodeConfig) -> String {
    match config.source {
        ScriptSource::Inline(source) => source,
        ScriptSource::ProjectFile(path) => panic!("expected inline source, got project file: {path}"),
    }
}

#[test]
fn default_template_includes_snippets() {
    let config = ScriptNodeConfig::for_host_node_type("default", &core_templates());
    let source = inline_text(config);
    assert!(source.contains("script.setApiVersion(1);"), "template source:\n{source}");
    assert!(source.contains("script.addParameter(\"gain\""), "template source:\n{source}");
    assert!(source.contains("function update(delta)"), "template source:\n{source}");
}

#[test]
fn host_specific_template_is_selected() {
    let config = ScriptNodeConfig::for_host_node_type("module", &core_templates());
    let source = inline_text(config);
    assert!(source.contains("module-scoped script initialized"));
}

#[test]
fn missing_templates_fall_back_to_the_embedded_default() {
    let templates = library(&[
        ("snippets/parameters.js", "script.addParameter(\"gain\");\n"),
        ("snippets/update.js", "function update(delta) {}\n"),
    ]);
    let source = resolve_template_for_host("unknown", &templates);
    assert_eq!(source, "script.setApiVersion(1);\nscript.addParameter(\"gain\");\n\nfunction update(delta) {}\n\n");
}

#[test]
fn embedded_default_is_kept_as_written_when_its_includes_fail() {
    let templates = library(&[]);
    let source = resolve_template_for_host("unknown", &templates);
    assert_eq!(source, templates.embedded_default);
}

#[test]
fn template_keys_collapse_separators_and_lowercase() {
    assert_eq!(normalized_template_key("  My Host--Node  ").as_deref(), Some("my_host_node"));
    assert_eq!(normalized_template_key("__A__").as_deref(), Some("a"));
    assert_eq!(normalized_template_key("---"), None);
    assert_eq!(normalized_template_key(""), None);
}

#[test]
fn candidate_basenames_try_raw_then_key_then_default() {
    assert_eq!(template_candidate_basenames(" Module "), ["module", "default"]);
    assert_eq!(template_candidate_basenames("My Host"), ["my host", "my_host", "default"]);
    assert_eq!(template_candidate_basenames("   "), ["default"]);
}

#[test]
fn include_paths_are_normalized_and_confined() {
    assert_eq!(normalize_include_path(" ./snippets//header.js ").unwrap(), "snippets/header.js");
    assert_eq!(normalize_include_path("  "), Err(TemplateError::EmptyIncludePath));
    assert_eq!(normalize_include_path("/etc/passwd"), Err(TemplateError::AbsoluteIncludePath("/etc/passwd".to_string())));
    assert_eq!(normalize_include_path("a/../b.js"), Err(TemplateError::EscapingIncludePath("a/../b.js".to_string())));
    assert_eq!(normalize_include_path("./."), Err(TemplateError::EmptyResolvedPath("./.".to_string())));
}

#[test]
fn include_cycles_are_reported_with_their_chain() {
    let templates = library(&[("a.js", "{{include:b.js}}"), ("b.js", "{{include:A.js}}")]);
    let error = read_template(&templates, "a.js").unwrap_err();
    assert_eq!(error, TemplateError::IncludeCycle(vec!["a.js".to_string(), "b.js".to_string(), "a.js".to_string()]));
}

#[test]
fn unterminated_and_unknown_includes_are_errors() {
    let templates = library(&[]);
    let mut stack = Vec::new();
    assert_eq!(expand_template_source("x {{include:a.js", &templates, &mut stack), Err(TemplateError::MissingClose));
    assert_eq!(
        expand_template_source("{{include:snippets/header.js}}", &templates, &mut stack),
        Err(TemplateError::UnreadableInclude("snippets/header.js".to_string()))
    );
    assert!(stack.is_empty());
    assert_eq!(
        read_template(&templates, "custom.js"),
        Err(TemplateError::UnreadableTemplate("custom.js".to_string()))
    );
}

#[test]
fn text_without_directives_expands_to_itself() {
    let templates = library(&[]);
    let mut stack = vec!["outer.js".to_string()];
    assert_eq!(expand_template_source("plain {{ text }}", &templates, &mut stack).unwrap(), "plain {{ text }}");
    assert_eq!(stack, ["outer.js"]);
    assert!(include_stack_contains(&stack, "outer.js"));
    assert!(!include_stack_contains(&stack, "OUTER.js"));
}

#[test]
fn labels_are_matched_trimmed_and_case_insensitively() {
    assert_eq!(ScriptValueType::from_manifest_label(" String "), Some(ScriptValueType::Str));
    assert_eq!(ScriptValueType::from_manifest_label("CSS-Value"), Some(ScriptValueType::CssValue));
    assert_eq!(ScriptValueType::from_manifest_label("path"), Some(ScriptValueType::File));
    assert_eq!(ScriptValueType::from_manifest_label("matrix"), None);
    assert_eq!(ScriptLogLevel::from_manifest_label("WARN"), Some(ScriptLogLevel::Warning));
    assert_eq!(ScriptLogLevel::from_manifest_label("debug"), None);
}

#[test]
fn file_sources_must_name_script_files() {
    let accepted = ScriptNodeConfig { source: ScriptSource::ProjectFile("scripts/example.MJS ".to_string()) };
    assert!(accepted.validate_source_kind().is_ok());
    let inline = ScriptNodeConfig { source: ScriptSource::Inline("function update() {}".to_string()) };
    assert!(inline.validate_source_kind().is_ok());
    let refused = ScriptNodeConfig { source: ScriptSource::ProjectFile("scripts/example.ts".to_string()) };
    let error = refused.validate_source_kind().unwrap_err();
    assert_eq!(
        error.message(),
        "invalid script manifest: unsupported script file 'scripts/example.ts', expected one of: .js, .mjs, .cjs"
    );
    let dotfile = ScriptNodeConfig { source: ScriptSource::ProjectFile("scripts/.js".to_string()) };
    assert!(dotfile.validate_source_kind().is_err());
}

#[test]
fn sources_report_their_runtime_names() {
    assert_eq!(ScriptSource::Inline("x".to_string()).runtime_source_name(), "inline_script.js");
    assert_eq!(ScriptSource::ProjectFile("a/b.js".to_string()).runtime_source_name(), "a/b.js");
    assert_eq!(ScriptSource::ProjectFile("  ".to_string()).runtime_source_name(), "script_file.js");
    assert!(ScriptSource::ProjectFile("a.js".to_string()).is_file_backed());
    assert_eq!(ScriptSource::ProjectFile("a.js".to_string()).resolve_path().as_deref(), Some("a.js"));
    assert_eq!(ScriptSource::Inline("a".to_string()).resolve_path(), None);
}

#[test]
fn ui_payloads_convert_both_ways() {
    let config = ScriptNodeConfig { source: ScriptSource::ProjectFile("a.js".to_string()) };
    let ui = ScriptUiConfig::of_config(&config);
    assert_eq!(ui.source, ScriptUiSource::ProjectFile { path: "a.js".to_string() });
    assert_eq!(ScriptNodeConfig::from(ui), config);
}

#[test]
fn policies_budgets_and_manifests_have_documented_defaults() {
    assert!(!ScriptHostPolicy::default().enabled);
    assert!(ScriptHostPolicy::default_scriptable().enabled);
    let budgets = ScriptBudgets::default();
    assert_eq!(budgets.max_memory_bytes, 16 * 1024 * 1024);
    assert_eq!(budgets.max_instructions_per_callback, 200_000);
    let manifest: ScriptManifest<f64, (), ()> = ScriptManifest::default();
    assert_eq!(manifest.api_version, 1);
    assert!(manifest.parameters.is_empty());
    let selector = ScriptNodeSelector::HostPath("child/path".to_string());
    assert_eq!(selector, ScriptNodeSelector::HostPath("child/path".to_string()));
}

#[test]
fn runtime_errors_describe_themselves() {
    assert_eq!(ScriptRuntimeError::MissingExport("ping".to_string()).message(), "missing script export 'ping'");
    assert_eq!(ScriptRuntimeError::Io("disk".to_string()).message(), "disk");
    let mut host = NoopScriptHostBridge;
    assert_eq!(host.owner_node(), None);
    assert_eq!(host.script_node(), None);
    assert!(host.set_event_listener(1, 2).is_ok());
    assert!(host.emit_custom("topic", "{}").is_ok());
}

#[test]
fn custom_template_can_include_core_default_template_by_namespace() {
    let templates = library(&[
        ("custom.js", "{{include:core/default.js}}\n"),
        (
            "core/default.js",
            "// Default script template for Golden Core script nodes.\n{{include:snippets/update.js}}\nfunction init() {}\n",
        ),
        ("core/snippets/update.js", "function update(delta) {}\n"),
    ]);
    let source = read_template(&templates, "custom.js").unwrap();
    assert!(source.contains("// Default script template for Golden Core script nodes."));
    assert!(source.contains("function init()"));
    assert!(source.contains("function update(delta)"));
}

#[test]
fn custom_template_does_not_fall_back_to_core_without_namespace() {
    let templates = library(&[
        ("custom.js", "{{include:snippets/header.js}}\n"),
        ("core/snippets/header.js", "// header\n"),
    ]);
    let error = read_template(&templates, "custom.js").unwrap_err();
    assert_eq!(error, TemplateError::UnreadableInclude("snippets/header.js".to_string()));
}

#[test]
fn assembled_libraries_file_core_templates_under_their_namespace() {
    let core = vec![
        ("default.js".to_string(), "{{include:snippets/update.js}}\n".to_string()),
        ("snippets/update.js".to_string(), "function update(delta) {}\n".to_string()),
    ];
    let own = vec![
        ("custom.js".to_string(), "{{include:core/default.js}}\n".to_string()),
        ("core/default.js".to_string(), "// shadow\n".to_string()),
    ];
    let templates = TemplateLibrary::assemble("// built in\n".to_string(), core, own);
    let paths: Vec<&str> = templates.files.iter().map(|(path, _)| path.as_str()).collect();
    assert_eq!(paths, ["core/default.js", "core/snippets/update.js", "custom.js"]);
    assert_eq!(templates.embedded_default, "// built in\n");
    let source = read_template(&templates, "custom.js").unwrap();
    assert!(source.contains("function update(delta)"));
    assert!(!source.contains("// shadow"));
}
