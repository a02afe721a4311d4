use golden::model::Revision;
use golden::persistence::{
    validate_json_shape, JsonShape, MigrationRegistry, PersistenceError, PersistenceLimits, PersistenceStore,
    ProjectCodec, ProjectHeader, RecoveryJournal, SaveSnapshot,
};

fn codec(limits: PersistenceLimits) -> ProjectCodec {
    ProjectCodec::new("test".to_owned(), "1.0.0".to_owned(), 2, limits).unwrap()
}

fn header(application_id: &str, schema_version: u32) -> ProjectHeader {
    ProjectHeader {
        schema_version,
        application_id: application_id.to_owned(),
        application_version: "1.0.0".to_owned(),
        revision: Revision::new(9),
    }
}

#[test]
fn default_limits_match_the_documented_budget() {
    let limits = PersistenceLimits::default();
    assert_eq!(limits.maximum_file_bytes, 256 * 1_048_576);
    assert_eq!(limits.maximum_json_values, 2_000_000);
    assert_eq!(limits.maximum_json_depth, 128);
}

#[test]
fn codec_configuration_needs_metadata_and_a_schema() {
    let limits = PersistenceLimits::default();
    assert!(matches!(
        ProjectCodec::new(String::new(), "1".to_owned(), 1, limits),
        Err(PersistenceError::InvalidCodecConfiguration)
    ));
    assert!(matches!(
        ProjectCodec::new("app".to_owned(), String::new(), 1, limits),
        Err(PersistenceError::InvalidCodecConfiguration)
    ));
    assert!(matches!(
        ProjectCodec::new("app".to_owned(), "1".to_owned(), 0, limits),
        Err(PersistenceError::InvalidCodecConfiguration)
    ));
    let codec = ProjectCodec::new("app".to_owned(), "1".to_owned(), 3, limits).unwrap();
    assert_eq!(codec.current_schema(), 3);
    assert_eq!(codec.limits(), limits);
}

#[test]
fn oversized_files_are_refused_with_their_size() {
    let strict = codec(PersistenceLimits { maximum_file_bytes: 64, maximum_json_values: 8, maximum_json_depth: 4 });
    assert!(strict.validate_size(64).is_ok());
    match strict.validate_size(65) {
        Err(PersistenceError::FileTooLarge { bytes, maximum }) => {
            assert_eq!(bytes, 65);
            assert_eq!(maximum, 64);
        }
        _ => panic!("expected a size refusal"),
    }
}

#[test]
fn headers_of_other_applications_and_schemas_are_refused() {
    let codec = codec(PersistenceLimits::default());
    assert!(codec.check_header(&header("test", 1)).is_ok());
    assert!(codec.check_header(&header("test", 2)).is_ok());
    match codec.check_header(&header("other", 1)) {
        Err(PersistenceError::WrongApplication { expected, actual }) => {
            assert_eq!(expected, "test");
            assert_eq!(actual, "other");
        }
        _ => panic!("expected a wrong application"),
    }
    assert!(matches!(codec.check_header(&header("test", 0)), Err(PersistenceError::UnsupportedSchema(0))));
    assert!(matches!(codec.check_header(&header("test", 3)), Err(PersistenceError::UnsupportedSchema(3))));
    let written = codec.header_for(Revision::new(42));
    assert_eq!(written.schema_version, 2);
    assert_eq!(written.application_id, "test");
    assert_eq!(written.revision, Revision::new(42));
    assert!(codec.check_header(&written).is_ok());
}

#[test]
fn json_shapes_are_bounded_in_count_and_depth() {
    let limits = PersistenceLimits { maximum_file_bytes: 64, maximum_json_values: 4, maximum_json_depth: 3 };
    let flat = JsonShape::Object(vec![JsonShape::Scalar, JsonShape::Scalar, JsonShape::Scalar]);
    assert!(validate_json_shape(&flat, limits).is_ok());
    let wide = JsonShape::Array(vec![JsonShape::Scalar, JsonShape::Scalar, JsonShape::Scalar, JsonShape::Scalar]);
    assert!(matches!(validate_json_shape(&wide, limits), Err(PersistenceError::JsonValueLimit)));
    let deep = JsonShape::Array(vec![JsonShape::Array(vec![JsonShape::Array(vec![JsonShape::Scalar])])]);
    assert!(matches!(validate_json_shape(&deep, limits), Err(PersistenceError::JsonDepthLimit)));
    let three_deep = JsonShape::Array(vec![JsonShape::Array(vec![JsonShape::Scalar])]);
    assert!(validate_json_shape(&three_deep, limits).is_ok());
}

#[test]
fn migrations_start_at_one_and_run_in_order() {
    let mut registry: MigrationRegistry<&str> = MigrationRegistry::new();
    assert!(matches!(registry.register(0, "zero"), Err(PersistenceError::InvalidMigrationRegistry)));
    assert!(registry.register(1, "one").is_ok());
    assert!(registry.register(2, "two").is_ok());
    assert!(matches!(registry.register(2, "again"), Err(PersistenceError::InvalidMigrationRegistry)));
    assert_eq!(registry.next_migration(1, 3).unwrap(), Some(&"one"));
    assert_eq!(registry.next_migration(2, 3).unwrap(), Some(&"again"));
    assert_eq!(registry.next_migration(3, 3).unwrap(), None);
    assert!(matches!(registry.next_migration(4, 6), Err(PersistenceError::MissingMigration { from: 4 })));
}

#[test]
fn journal_keeps_the_newest_backups_and_recovers_newest_first() {
    let mut journal = RecoveryJournal::new();
    assert!(journal.check_schema().is_ok());
    assert_eq!(journal.record_backup(), 1);
    assert_eq!(journal.record_backup(), 2);
    assert_eq!(journal.record_backup(), 3);
    assert_eq!(journal.next_sequence, 4);
    assert_eq!(journal.prune(2), vec![1]);
    assert_eq!(journal.backups, vec![2, 3]);
    assert_eq!(journal.prune(2), Vec::<u64>::new());
    assert_eq!(journal.recovery_candidates(), vec![3, 2]);
    journal.next_sequence = u64::MAX;
    assert_eq!(journal.record_backup(), u64::MAX);
    assert_eq!(journal.next_sequence, u64::MAX);
    journal.schema_version = 2;
    assert!(matches!(journal.check_schema(), Err(PersistenceError::UnsupportedSchema(2))));
}

#[test]
fn stores_keep_at_least_one_backup_and_snapshots_share_documents() {
    assert!(matches!(PersistenceStore::new(0), Err(PersistenceError::InvalidCodecConfiguration)));
    assert_eq!(PersistenceStore::new(3).unwrap().maximum_backups(), 3);
    let snapshot = SaveSnapshot::new(Revision::new(42), vec![1u64, 2, 3]);
    assert_eq!(snapshot.revision, Revision::new(42));
    assert_eq!(snapshot.document(), &vec![1u64, 2, 3]);
}
