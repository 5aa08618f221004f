use xrds_runtime::paths::{
    duplicate_name, normalize_asset_root, normalize_separators, relativize_asset_path,
    strip_asset_root_prefix,
};

#[test]
fn relative_paths_pass_through_unchanged() {
    assert_eq!(relativize_asset_path("phoenix_bird.glb", None, false), "phoenix_bird.glb");
    assert_eq!(
        relativize_asset_path("models\\animated\\phoenix_bird.glb", None, false),
        "models/animated/phoenix_bird.glb"
    );
}

#[test]
fn strip_asset_root_prefix_strips_only_under_root() {
    // Under the root: stripped.
    assert_eq!(
        strip_asset_root_prefix("F:/ws/assets/models/a.glb", "F:/ws/assets", false),
        Some("models/a.glb".to_string())
    );
    // Case difference in drive and directories: stripped where the platform ignores ASCII case.
    assert_eq!(
        strip_asset_root_prefix("f:/WS/Assets/a.glb", "F:/ws/assets", true),
        Some("a.glb".to_string())
    );
    // A foreign absolute path containing "/assets/" is not under the root and stays intact.
    assert_eq!(
        strip_asset_root_prefix("C:/Users/u/example/assets/a.glb", "F:/ws/assets", false),
        None
    );
    // The root itself (no trailing file): None, not an empty string.
    assert_eq!(strip_asset_root_prefix("F:/ws/assets", "F:/ws/assets", false), None);
}

#[test]
fn relative_paths_ignore_the_configured_root() {
    assert_eq!(
        relativize_asset_path("models/a.glb", Some("/srv/assets"), false),
        "models/a.glb"
    );
}

#[test]
fn absolute_paths_under_the_root_lose_it() {
    assert_eq!(
        relativize_asset_path("/srv/assets/models/a.glb", Some("/srv/assets"), false),
        "models/a.glb"
    );
}

#[test]
fn absolute_paths_outside_the_root_stay() {
    assert_eq!(
        relativize_asset_path("/home/u/other/assets/a.glb", Some("/srv/assets"), false),
        "/home/u/other/assets/a.glb"
    );
    assert_eq!(relativize_asset_path("/srv/assets", Some("/srv/assets"), false), "/srv/assets");
}

#[test]
fn absolute_paths_without_a_root_stay() {
    assert_eq!(relativize_asset_path("/srv/assets/a.glb", None, false), "/srv/assets/a.glb");
}

#[test]
fn slashes_after_the_root_are_dropped() {
    assert_eq!(
        strip_asset_root_prefix("F:/ws/assets///a.glb", "F:/ws/assets", false),
        Some("a.glb".to_string())
    );
    assert_eq!(strip_asset_root_prefix("F:/ws/assets///", "F:/ws/assets", false), None);
}

#[test]
fn root_longer_than_path_is_not_a_prefix() {
    assert_eq!(strip_asset_root_prefix("F:/ws", "F:/ws/assets", false), None);
}

#[test]
fn separators_are_normalized() {
    assert_eq!(normalize_separators("a\\b\\c"), "a/b/c");
    assert_eq!(normalize_separators(""), "");
}

#[test]
fn asset_root_is_recorded_without_trailing_slashes() {
    assert_eq!(normalize_asset_root(Some("C:\\ws\\assets\\")), Some("C:/ws/assets".to_string()));
    assert_eq!(normalize_asset_root(Some("/srv/assets//")), Some("/srv/assets".to_string()));
    assert_eq!(normalize_asset_root(None), None);
}

#[test]
fn duplicates_are_named_copy() {
    assert_eq!(duplicate_name("Cube"), "Cube Copy");
    assert_eq!(duplicate_name(""), " Copy");
}

#[test]
fn case_counts_where_the_platform_says_so() {
    assert_eq!(strip_asset_root_prefix("f:/WS/Assets/a.glb", "F:/ws/assets", false), None);
    assert_eq!(
        relativize_asset_path("/SRV/Assets/a.glb", Some("/srv/assets"), true),
        "a.glb"
    );
}

#[test]
fn a_sibling_of_the_root_is_not_under_it() {
    assert_eq!(strip_asset_root_prefix("F:/ws/assets2/a.glb", "F:/ws/assets", false), None);
    assert_eq!(strip_asset_root_prefix("F:/ws/assets2/a.glb", "F:/ws/assets", true), None);
    assert_eq!(
        relativize_asset_path("/srv/assets2/a.glb", Some("/srv/assets"), false),
        "/srv/assets2/a.glb"
    );
}
