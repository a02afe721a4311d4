use golden::codegen::{check_drift, normalize_newlines, validate_relative_path, CodegenError, CodegenMode, GeneratedArtifact};

#[test]
fn write_and_check_share_one_normalized_artifact_contract() {
    let artifact = GeneratedArtifact {
        relative_path: "generated/types.ts".into(),
        contents: "export type Id = string;\r\n".to_owned(),
    };
    let written = artifact.expected_contents().unwrap();
    assert_eq!(written, "export type Id = string;\n");
    assert_eq!(check_drift("generated/types.ts", &written, &written), Ok(()));
    assert_ne!(CodegenMode::Write, CodegenMode::Check);
}

#[test]
fn paths_cannot_escape_the_declared_output_root() {
    let error = GeneratedArtifact { relative_path: "../outside".into(), contents: String::new() }
        .expected_contents()
        .unwrap_err();
    assert!(matches!(error, CodegenError::UnsafePath(_)));
}

#[test]
fn unsafe_paths_are_refused() {
    assert!(validate_relative_path("").is_err());
    assert!(validate_relative_path("/etc/passwd").is_err());
    assert!(validate_relative_path("a/../b").is_err());
    assert!(validate_relative_path("a/..").is_err());
    assert!(validate_relative_path("a/..b/c").is_ok());
    assert!(validate_relative_path("./a/b.ts").is_ok());
}

#[test]
fn newlines_and_drift() {
    assert_eq!(normalize_newlines("a\r\nb\rc\n"), "a\nb\rc\n");
    assert_eq!(normalize_newlines("\r\r\n"), "\r\n");
    assert_eq!(check_drift("out.ts", "a\r\n", "a\n"), Ok(()));
    assert_eq!(check_drift("out.ts", "b\n", "a\n"), Err(CodegenError::Drift("out.ts".to_string())));
}

#[test]
fn checking_a_written_artifact_finds_no_drift() {
    let artifact = GeneratedArtifact { relative_path: "out/a.txt".into(), contents: "a\r\nb\nc\r".to_owned() };
    let written = artifact.expected_contents().unwrap();
    assert_eq!(written, "a\nb\nc\r");
    assert_eq!(normalize_newlines(&written), written);
    assert_eq!(check_drift("out/a.txt", &written, &written), Ok(()));
    assert_eq!(normalize_newlines("x\r\r\ny"), "x\r\ny");
}
