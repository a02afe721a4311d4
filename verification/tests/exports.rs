use golden::script::exports::{
    is_js_identifier_continue, is_js_identifier_start, parse_exported_function_name,
    preprocess_source_for_exported_functions,
};

#[test]
fn exported_function_lines_become_declarations_and_are_registered() {
    let source = "script.setApiVersion(1);\nscript.setUpdateRateHz(30);\nexport function ping(value) {\n  log(\"ping called\");\n  return value;\n}\n";
    let expected = "script.setApiVersion(1);\nscript.setUpdateRateHz(30);\nfunction ping(value) {\n  log(\"ping called\");\n  return value;\n}\n\n// Auto-registered exported functions.\nglobalThis.__gc_script_exports[\"ping\"] = ping;\n";
    assert_eq!(preprocess_source_for_exported_functions(source), expected);
}

#[test]
fn async_exports_keep_indentation_and_register_each_name_once() {
    let source = "  export async function load(x) {}\n\texport function ping() {}\nexport function ping() {}";
    let expected = "  async function load(x) {}\n\tfunction ping() {}\nfunction ping() {}\n// Auto-registered exported functions.\nglobalThis.__gc_script_exports[\"load\"] = load;\nglobalThis.__gc_script_exports[\"ping\"] = ping;\n";
    assert_eq!(preprocess_source_for_exported_functions(source), expected);
}

#[test]
fn sources_without_exports_are_unchanged() {
    assert_eq!(preprocess_source_for_exported_functions(""), "");
    let source = "function helper() {}\nexport const x = 1;\nexport function 9bad() {}\n";
    assert_eq!(preprocess_source_for_exported_functions(source), source);
}

#[test]
fn exported_names_are_leading_identifiers() {
    assert_eq!(parse_exported_function_name("  ping(value) {"), Some("ping".to_string()));
    assert_eq!(parse_exported_function_name("$a_1b(x)"), Some("$a_1b".to_string()));
    assert_eq!(parse_exported_function_name("_"), Some("_".to_string()));
    assert_eq!(parse_exported_function_name("1abc()"), None);
    assert_eq!(parse_exported_function_name("   "), None);
    assert!(is_js_identifier_start('$') && !is_js_identifier_start('7'));
    assert!(is_js_identifier_continue('7') && !is_js_identifier_continue('-'));
}
