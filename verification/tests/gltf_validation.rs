use xrds_runtime::gltf_source::{
    check_gltf_document, check_gltf_indices, is_gltf_extension_str, validate_gltf_source,
    XrdsGltfDocumentFacts, XrdsGltfFile, XrdsGltfIndexFacts, XrdsGltfSourceError,
};

const ONE_SCENE: &str = r#"{"asset":{"version":"2.0"},"scene":0,"scenes":[{"nodes":[0]}],"nodes":[{"name":"root"}]}"#;
const NO_SCENE: &str = r#"{"asset":{"version":"2.0"}}"#;

fn file(path: &str, text: &str) -> Option<XrdsGltfFile> {
    Some(XrdsGltfFile { path: path.to_string(), contents: Ok(text.as_bytes().to_vec()) })
}

fn facts(scene_count: usize, prims: &[(Option<&str>, usize)]) -> XrdsGltfDocumentFacts {
    XrdsGltfDocumentFacts {
        scene_count,
        primitive_morph_targets: prims.iter().map(|(n, c)| (n.map(|s| s.to_string()), *c)).collect(),
    }
}

#[test]
fn blank_paths_are_refused_first() {
    assert_eq!(validate_gltf_source("", 0, None), Err(XrdsGltfSourceError::EmptyPath));
    assert_eq!(validate_gltf_source(" \t", 0, file("a.glb", ONE_SCENE)), Err(XrdsGltfSourceError::EmptyPath));
}

#[test]
fn a_missing_file_is_reported() {
    assert_eq!(validate_gltf_source("models/a.glb", 0, None), Err(XrdsGltfSourceError::NotFound));
}

#[test]
fn the_extension_must_be_gltf_or_glb() {
    assert_eq!(
        validate_gltf_source("models/a", 0, file("models/a", ONE_SCENE)),
        Err(XrdsGltfSourceError::NoExtension)
    );
    assert_eq!(
        validate_gltf_source("models/a.png", 0, file("models/a.png", ONE_SCENE)),
        Err(XrdsGltfSourceError::UnsupportedExtension)
    );
    assert_eq!(validate_gltf_source("models/a.GLTF", 0, file("models/a.GLTF", ONE_SCENE)), Ok(()));
    assert!(is_gltf_extension_str("Glb"));
    assert!(is_gltf_extension_str("gltf"));
    assert!(!is_gltf_extension_str("gl"));
    assert!(!is_gltf_extension_str("gltf2"));
}

#[test]
fn unreadable_and_unparsable_files_are_parse_errors() {
    let unreadable = Some(XrdsGltfFile { path: "a.glb".to_string(), contents: Err("permission denied".to_string()) });
    assert_eq!(
        validate_gltf_source("a.glb", 0, unreadable),
        Err(XrdsGltfSourceError::Parse("permission denied".to_string()))
    );
    let r = validate_gltf_source("a.gltf", 0, file("a.gltf", "not json"));
    assert!(matches!(r, Err(XrdsGltfSourceError::Parse(_))));
}

#[test]
fn the_scene_asked_for_must_exist() {
    assert_eq!(validate_gltf_source("a.gltf", 0, file("a.gltf", ONE_SCENE)), Ok(()));
    assert_eq!(
        validate_gltf_source("a.gltf", 1, file("a.gltf", ONE_SCENE)),
        Err(XrdsGltfSourceError::MissingScene { scene_index: 1, scene_count: 1 })
    );
    assert_eq!(validate_gltf_source("a.gltf", 0, file("a.gltf", NO_SCENE)), Err(XrdsGltfSourceError::NoScenes));
}

#[test]
fn morph_targets_are_limited_per_primitive() {
    assert_eq!(check_gltf_document(0, Ok(facts(1, &[(Some("face"), 64), (None, 0)]))), Ok(()));
    assert_eq!(
        check_gltf_document(0, Ok(facts(2, &[(Some("face"), 3), (Some("hair"), 65), (None, 70)]))),
        Err(XrdsGltfSourceError::TooManyMorphTargets { mesh_name: Some("hair".to_string()), count: 65 })
    );
    assert_eq!(
        check_gltf_document(2, Ok(facts(2, &[(None, 65)]))),
        Err(XrdsGltfSourceError::MissingScene { scene_index: 2, scene_count: 2 })
    );
    assert_eq!(
        check_gltf_document(0, Err("bad".to_string())),
        Err(XrdsGltfSourceError::Parse("bad".to_string()))
    );
}

fn glb_header(version: u32, length: u32) -> Vec<u8> {
    let mut b = b"glTF".to_vec();
    b.extend_from_slice(&version.to_le_bytes());
    b.extend_from_slice(&length.to_le_bytes());
    b
}

#[test]
fn binary_headers_with_unusable_lengths_are_refused() {
    let short = Some(XrdsGltfFile { path: "a.glb".to_string(), contents: Ok(glb_header(2, 4)) });
    assert_eq!(validate_gltf_source("a.glb", 0, short), Err(XrdsGltfSourceError::BadGlbLength));
    let long = Some(XrdsGltfFile { path: "a.glb".to_string(), contents: Ok(glb_header(2, 4000)) });
    assert!(matches!(validate_gltf_source("a.glb", 0, long), Err(XrdsGltfSourceError::Parse(_))));
    let other_version = Some(XrdsGltfFile { path: "a.glb".to_string(), contents: Ok(glb_header(1, 4)) });
    assert!(matches!(validate_gltf_source("a.glb", 0, other_version), Err(XrdsGltfSourceError::Parse(_))));
}

#[test]
fn the_extension_is_read_from_the_file_found() {
    assert_eq!(
        validate_gltf_source("models/a.glb", 0, file("assets/models/a", ONE_SCENE)),
        Err(XrdsGltfSourceError::NoExtension)
    );
    assert_eq!(validate_gltf_source("models/a", 0, file("assets/models/a.gltf", ONE_SCENE)), Ok(()));
    assert_eq!(validate_gltf_source("a.gltf#Scene0", 0, file("a.gltf", ONE_SCENE)), Ok(()));
}

#[test]
fn a_position_accessor_that_is_not_there_is_refused() {
    let doc = r#"{"asset":{"version":"2.0"},"scenes":[{"nodes":[]}],"meshes":[{"primitives":[{"attributes":{"POSITION":0}}]}]}"#;
    assert_eq!(
        validate_gltf_source("a.gltf", 0, file("a.gltf", doc)),
        Err(XrdsGltfSourceError::BadPositionAccessor { accessor: 0, accessor_count: 0 })
    );
}

#[test]
fn accessor_indices_are_checked_before_validation() {
    let missing = Ok(XrdsGltfIndexFacts { accessor_count: 2, position_accessors: vec![Some(1), None, Some(2)] });
    assert_eq!(
        check_gltf_indices(missing),
        Err(XrdsGltfSourceError::BadPositionAccessor { accessor: 2, accessor_count: 2 })
    );
    let fine = Ok(XrdsGltfIndexFacts { accessor_count: 2, position_accessors: vec![Some(1), None, Some(0)] });
    assert_eq!(check_gltf_indices(fine), Ok(()));
    assert_eq!(check_gltf_indices(Err("bad json".to_string())), Err(XrdsGltfSourceError::Parse("bad json".to_string())));
}
