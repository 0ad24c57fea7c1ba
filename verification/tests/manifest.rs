use fcache::cache::key::{ActionKey, ActionKeyBuilder, KeyError};
use fcache::cache::manifest::{
    artifact_kind_matches_role, check_json_size, validate_logical_name, Artifact, ArtifactKind,
    BlobRef, DestinationRole, Manifest, ManifestError, MAX_BLOB_SIZE, MAX_JSON_SIZE,
};

fn manifest() -> Manifest {
    Manifest::new(
        ActionKeyBuilder::new().bytes("x", b"y").finish().unwrap(),
        "a".repeat(64),
        vec![],
        BlobRef::new("b".repeat(64), 0, 0o644),
        BlobRef::new("c".repeat(64), 0, 0o644),
    )
}

#[test]
fn framing_prevents_delimiter_collisions() {
    let a = ActionKeyBuilder::new().bytes("a", b"bc").bytes("ab", b"c").finish().unwrap();
    let b = ActionKeyBuilder::new().bytes("a", b"b").bytes("cab", b"").finish().unwrap();
    assert_ne!(a, b);
    assert_ne!(
        ActionKeyBuilder::new().bytes("x", b"1").bytes("y", b"2").finish().unwrap(),
        ActionKeyBuilder::new().bytes("y", b"2").bytes("x", b"1").finish().unwrap()
    );
}

#[test]
fn action_keys_are_digests_of_the_framed_fields() {
    let key = ActionKeyBuilder::new().bytes("x", b"y").finish().unwrap();
    assert_eq!(ActionKey::parse(&key.to_hex()).unwrap(), key);
    assert_eq!(key, ActionKeyBuilder::new().os_str("x", b"y").build().unwrap());
    assert_eq!(key, ActionKeyBuilder::new().path("x", b"y").build().unwrap());
    assert_ne!(key.as_bytes().as_slice(), b"y");
    assert_eq!(key.to_hex().len(), 64);
}

#[test]
fn malformed_keys_are_rejected() {
    assert!(matches!(
        ActionKeyBuilder::new().bytes("", b"y").finish(),
        Err(KeyError::EmptyName)
    ));
    assert!(ActionKey::parse("abc").is_err());
    assert!(ActionKey::parse(&"g".repeat(64)).is_err());
    assert_eq!(ActionKey::parse(&"A".repeat(64)), ActionKey::parse(&"a".repeat(64)));
    assert!(ActionKey::parse(&"a".repeat(64)).is_ok());
}

#[test]
fn rejects_traversal() {
    assert!(validate_logical_name("../x").is_err());
    assert!(validate_logical_name("/tmp/x").is_err());
}

#[test]
fn rejects_inconsistent_artifact_roles() {
    let mut value = manifest();
    value.artifacts.push(Artifact::new(
        ArtifactKind::Object,
        "object",
        DestinationRole::Module,
        BlobRef::new("d".repeat(64), 1, 0o644),
    ));
    assert!(matches!(value.validate(), Err(ManifestError::InconsistentArtifact(_))));
}

#[test]
fn permits_artifact_bundles_without_an_object() {
    let mut value = manifest();
    value.artifacts.push(Artifact::new(
        ArtifactKind::Module,
        "module:x.mod",
        DestinationRole::Module,
        BlobRef::new("d".repeat(64), 1, 0o644),
    ));
    assert!(value.validate().is_ok());
}

#[test]
fn rejects_duplicate_singleton_roles() {
    let mut value = manifest();
    value.artifacts.extend([
        Artifact::new(
            ArtifactKind::Object,
            "object:first",
            DestinationRole::Object,
            BlobRef::new("d".repeat(64), 1, 0o644),
        ),
        Artifact::new(
            ArtifactKind::Object,
            "object:second",
            DestinationRole::Object,
            BlobRef::new("e".repeat(64), 1, 0o644),
        ),
    ]);
    assert!(matches!(value.validate(), Err(ManifestError::MultipleObjectArtifacts)));
}

#[test]
fn rejects_repeated_names_and_large_or_malformed_blobs() {
    let module = |name: &str, digest: &str, size: u64| {
        Artifact::new(
            ArtifactKind::Module,
            name,
            DestinationRole::Module,
            BlobRef::new(digest.repeat(64), size, 0o644),
        )
    };
    let mut value = manifest();
    value.artifacts.push(module("module:x.mod", "d", 1));
    value.artifacts.push(module("module:x.mod", "e", 1));
    assert!(value.validate().is_err());

    let mut value = manifest();
    value.artifacts.push(module("module:x.mod", "z", 1));
    assert!(value.validate().is_err());

    let mut value = manifest();
    value.artifacts.push(module("module:x.mod", "d", MAX_BLOB_SIZE + 1));
    assert!(value.validate().is_err());

    let mut value = manifest();
    value.artifacts.push(module("module:x.mod", "d", MAX_BLOB_SIZE));
    value.artifacts.push(module("module:y.mod", "e", MAX_BLOB_SIZE));
    assert!(value.validate().is_ok());
    value.artifacts.push(module("module:z.mod", "f", 1));
    assert!(value.validate().is_err());

    let mut value = manifest();
    value.schema_version = 2;
    assert!(value.validate().is_err());
}

#[test]
fn the_payload_is_the_sum_of_all_blobs() {
    let mut value = manifest();
    value.stdout.size = 3;
    value.stderr.size = 4;
    value.artifacts.push(Artifact::new(
        ArtifactKind::Module,
        "module:x.mod",
        DestinationRole::Module,
        BlobRef::new("d".repeat(64), 5, 0o644),
    ));
    assert_eq!(value.payload(), Some(12));
}

#[test]
fn kinds_go_with_roles_and_documents_are_bounded() {
    assert!(artifact_kind_matches_role(ArtifactKind::Object, DestinationRole::Object));
    assert!(!artifact_kind_matches_role(ArtifactKind::Object, DestinationRole::Module));
    assert!(check_json_size(MAX_JSON_SIZE).is_ok());
    assert!(check_json_size(MAX_JSON_SIZE + 1).is_err());
}

fn blob_document(blob: &BlobRef) -> serde_json::Value {
    let mut fields = serde_json::Map::new();
    fields.insert("digest".to_string(), serde_json::Value::from(blob.digest.clone()));
    fields.insert("size".to_string(), serde_json::Value::from(blob.size));
    fields.insert("mode".to_string(), serde_json::Value::from(blob.mode));
    serde_json::Value::Object(fields)
}

fn document(manifest: &Manifest) -> Vec<u8> {
    let mut fields = serde_json::Map::new();
    fields.insert("schema_version".to_string(), manifest.schema_version.into());
    fields.insert("action_key".to_string(), manifest.action_key.to_hex().into());
    fields.insert("compiler_digest".to_string(), manifest.compiler_digest.clone().into());
    fields.insert("artifacts".to_string(), serde_json::Value::Array(Vec::new()));
    fields.insert("stdout".to_string(), blob_document(&manifest.stdout));
    fields.insert("stderr".to_string(), blob_document(&manifest.stderr));
    fields.insert("exit_code".to_string(), manifest.exit_code.into());
    serde_json::to_vec(&serde_json::Value::Object(fields)).unwrap()
}

fn read_blob(value: &serde_json::Value) -> BlobRef {
    BlobRef::new(
        value["digest"].as_str().unwrap().to_string(),
        value["size"].as_u64().unwrap(),
        u32::try_from(value["mode"].as_u64().unwrap()).unwrap(),
    )
}

fn read_document(bytes: &[u8]) -> Result<Manifest, String> {
    let value: serde_json::Value =
        serde_json::from_slice(bytes).map_err(|error| error.to_string())?;
    let mut manifest = Manifest::new(
        ActionKey::parse(value["action_key"].as_str().unwrap()).unwrap(),
        value["compiler_digest"].as_str().unwrap().to_string(),
        Vec::new(),
        read_blob(&value["stdout"]),
        read_blob(&value["stderr"]),
    );
    manifest.schema_version = u32::try_from(value["schema_version"].as_u64().unwrap()).unwrap();
    Ok(manifest)
}

#[test]
fn round_trips_versioned_json() {
    let value = manifest();
    let text = value.to_json(Ok(document(&value))).unwrap();
    assert_eq!(Manifest::from_json(text.len(), read_document(&text)).unwrap(), value);
}

#[test]
fn only_valid_manifests_are_written_and_read() {
    let text = document(&manifest());
    let parsed = || read_document(&text);
    assert_eq!(
        Manifest::from_json(MAX_JSON_SIZE + 1, parsed()),
        Err(ManifestError::TooLarge)
    );
    assert!(matches!(
        Manifest::from_json(1, read_document(b"{")),
        Err(ManifestError::Json(_))
    ));
    let mut old = manifest();
    old.schema_version = 0;
    assert_eq!(old.to_json(Ok(Vec::new())), Err(ManifestError::UnsupportedSchema(0)));
    assert_eq!(
        Manifest::from_json(text.len(), read_document(&document(&old))),
        Err(ManifestError::UnsupportedSchema(0))
    );
    assert_eq!(
        manifest().to_json(Err("io".to_string())),
        Err(ManifestError::Json("io".to_string()))
    );
}

#[test]
fn manifest_errors_say_what_is_wrong() {
    let texts = [
        (ManifestError::UnsupportedSchema(0), "unsupported manifest schema version 0"),
        (ManifestError::TooLarge, "manifest JSON is too large"),
        (ManifestError::NonZeroExit, "manifest must describe a successful compilation"),
        (
            ManifestError::InconsistentArtifact("object".to_string()),
            "artifact kind and destination role do not agree for object",
        ),
        (ManifestError::Json("x".to_string()), "invalid manifest JSON: x"),
    ];
    for (error, text) in texts {
        assert_eq!(error.message(), text);
    }
}
