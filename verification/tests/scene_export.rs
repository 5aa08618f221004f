use xrds_runtime::api::XrdsAPI;
use xrds_runtime::catalog::{
    asset_catalog_id_seed, is_blank, merge_asset_catalogs, push_decimal, reconstruct_asset_catalog,
    unique_asset_id, XrdsGltfAssetRef, XrdsSceneAsset, XrdsSceneAssetKind,
};
use xrds_runtime::ids::{Entity, XrdsId};
use xrds_runtime::types::{XrdsDescriptor, XrdsDescriptorKind, XrdsNode};

type Api = XrdsAPI<u32, u32>;

fn asset(id: &str, uri: &str, kind: XrdsSceneAssetKind) -> XrdsSceneAsset {
    XrdsSceneAsset { id: id.to_string(), uri: uri.to_string(), kind }
}

fn gltf_ref(uri: &str, source_asset_id: Option<&str>) -> XrdsGltfAssetRef {
    XrdsGltfAssetRef { uri: uri.to_string(), source_asset_id: source_asset_id.map(|s| s.to_string()) }
}

fn ids_and_uris(assets: &[XrdsSceneAsset]) -> Vec<(String, String)> {
    assets.iter().map(|a| (a.id.clone(), a.uri.clone())).collect()
}

#[test]
fn id_seed_lowers_and_dashes_the_uri() {
    assert_eq!(asset_catalog_id_seed("models/Phoenix Bird.glb"), "gltf-models-phoenix-bird-glb");
    assert_eq!(asset_catalog_id_seed("--A__b--"), "gltf-a-b");
    assert_eq!(asset_catalog_id_seed("Drone2.GLTF"), "gltf-drone2-gltf");
}

#[test]
fn id_seed_without_letters_or_digits_is_the_generic_id() {
    assert_eq!(asset_catalog_id_seed(""), "gltf-asset");
    assert_eq!(asset_catalog_id_seed("/// .. //"), "gltf-asset");
    assert_eq!(asset_catalog_id_seed("é"), "gltf-asset");
}

#[test]
fn unique_ids_take_the_first_free_number() {
    let mut used: Vec<String> = Vec::new();
    assert_eq!(unique_asset_id("x".to_string(), &mut used), "x");
    assert_eq!(unique_asset_id("x".to_string(), &mut used), "x-2");
    assert_eq!(unique_asset_id("x".to_string(), &mut used), "x-3");
    assert_eq!(unique_asset_id("y".to_string(), &mut used), "y");
    assert_eq!(used, vec!["x", "x-2", "x-3", "y"]);
}

#[test]
fn unique_ids_skip_numbers_already_taken() {
    let mut used: Vec<String> = vec!["a".to_string(), "a-2".to_string(), "a-4".to_string()];
    assert_eq!(unique_asset_id("a".to_string(), &mut used), "a-3");
    assert_eq!(unique_asset_id("a".to_string(), &mut used), "a-5");
}

#[test]
fn decimal_digits_are_appended() {
    let mut s = String::from("n-");
    push_decimal(&mut s, 0);
    push_decimal(&mut s, 1207);
    assert_eq!(s, "n-01207");
}

#[test]
fn blank_means_white_space_only() {
    assert!(is_blank(""));
    assert!(is_blank(" \t\n\u{3000}"));
    assert!(!is_blank(" a "));
}

#[test]
fn reconstructed_catalog_has_one_entry_per_file() {
    let refs = vec![
        gltf_ref("models/Drone.glb", None),
        gltf_ref("models/Drone.glb", Some("other")),
        gltf_ref("models/Bird.glb", Some("bird")),
        gltf_ref("models/Tree.glb", Some("  ")),
        gltf_ref("models/drone.glb", None),
    ];
    let assets = reconstruct_asset_catalog(&refs);
    assert_eq!(
        ids_and_uris(&assets),
        vec![
            ("gltf-models-drone-glb".to_string(), "models/Drone.glb".to_string()),
            ("bird".to_string(), "models/Bird.glb".to_string()),
            ("gltf-models-tree-glb".to_string(), "models/Tree.glb".to_string()),
            ("gltf-models-drone-glb-2".to_string(), "models/drone.glb".to_string()),
        ]
    );
    assert!(assets.iter().all(|a| a.kind == XrdsSceneAssetKind::Gltf));
}

#[test]
fn merged_catalog_keeps_rebuilt_entries_and_appends_free_ids() {
    let preserved = vec![
        asset("bird", "old/Bird.glb", XrdsSceneAssetKind::Gltf),
        asset("sky", "textures/sky.ktx2", XrdsSceneAssetKind::EnvironmentMap),
        asset("sky", "textures/other.ktx2", XrdsSceneAssetKind::Texture),
        asset("wind", "audio/wind.ogg", XrdsSceneAssetKind::Audio),
    ];
    let rebuilt = vec![asset("bird", "models/Bird.glb", XrdsSceneAssetKind::Gltf)];
    let merged = merge_asset_catalogs(&preserved, rebuilt);
    assert_eq!(
        ids_and_uris(&merged),
        vec![
            ("bird".to_string(), "models/Bird.glb".to_string()),
            ("sky".to_string(), "textures/sky.ktx2".to_string()),
            ("wind".to_string(), "audio/wind.ogg".to_string()),
        ]
    );
    assert_eq!(merged[1].kind, XrdsSceneAssetKind::EnvironmentMap);
}

#[test]
fn export_catalog_puts_rebuilt_entries_before_imported_ones() {
    let mut api = Api::attach();
    api.merge_scene_assets(&[
        asset("music", "audio/theme.ogg", XrdsSceneAssetKind::Audio),
        asset("bird", "models/Old.glb", XrdsSceneAssetKind::Gltf),
    ]);
    let assets = api.export_asset_catalog(&[gltf_ref("models/Bird.glb", Some("bird"))]);
    assert_eq!(
        ids_and_uris(&assets),
        vec![
            ("bird".to_string(), "models/Bird.glb".to_string()),
            ("music".to_string(), "audio/theme.ogg".to_string()),
        ]
    );
}

#[test]
fn export_order_lists_live_nodes_by_id_with_parents() {
    let mut api = Api::attach();
    let d = |name: &str| XrdsDescriptor {
        kind: XrdsDescriptorKind::Node,
        name: name.to_string(),
        visible: true,
        gltf_source: None,
        payload: 0u32,
    };
    api.spawn_with_id::<XrdsNode>(XrdsId(7), d("late"), Entity(70)).unwrap();
    api.spawn_with_id::<XrdsNode>(XrdsId(3), d("child"), Entity(30)).unwrap();
    api.spawn_with_id::<XrdsNode>(XrdsId(5), d("root"), Entity(50)).unwrap();
    api.queue_set_parent(XrdsId(3), Some(XrdsId(5)));
    api.apply_queued_parent_changes();
    let order = api.export_order();
    let ids: Vec<u64> = order.iter().map(|e| e.id.0).collect();
    assert_eq!(ids, vec![3, 5, 7]);
    assert_eq!(order[0].entity, Entity(30));
    assert_eq!(order[0].parent_id, Some(XrdsId(5)));
    assert_eq!(order[1].parent_id, None);
    assert_eq!(order[2].entity, Entity(70));
}

#[test]
fn merging_the_same_assets_twice_is_merging_them_once() {
    let mut api = Api::attach();
    let incoming = vec![
        asset("music", "audio/theme.ogg", XrdsSceneAssetKind::Audio),
        asset("sky", "textures/sky.ktx2", XrdsSceneAssetKind::EnvironmentMap),
    ];
    api.merge_scene_assets(&[asset("sky", "textures/old.ktx2", XrdsSceneAssetKind::Texture)]);
    api.merge_scene_assets(&incoming);
    let once = ids_and_uris(&api.export_asset_catalog(&[]));
    api.merge_scene_assets(&incoming);
    let twice = ids_and_uris(&api.export_asset_catalog(&[]));
    assert_eq!(once, twice);
    assert_eq!(
        once,
        vec![
            ("sky".to_string(), "textures/old.ktx2".to_string()),
            ("music".to_string(), "audio/theme.ogg".to_string()),
        ]
    );
}

#[test]
fn asset_ids_resolve_to_the_file_of_their_kind() {
    let mut api = Api::attach();
    api.merge_scene_assets(&[
        asset("sky", "textures/sky.ktx2", XrdsSceneAssetKind::EnvironmentMap),
        asset("wood", "textures/wood.png", XrdsSceneAssetKind::Texture),
        asset("sky", "textures/sky_tex.png", XrdsSceneAssetKind::Texture),
    ]);
    assert_eq!(api.resolve_asset_uri(" sky\t", XrdsSceneAssetKind::EnvironmentMap), Some("textures/sky.ktx2".to_string()));
    assert_eq!(api.resolve_asset_uri("sky", XrdsSceneAssetKind::Texture), None);
    assert_eq!(api.resolve_asset_uri("wood", XrdsSceneAssetKind::Texture), Some("textures/wood.png".to_string()));
    assert_eq!(api.resolve_asset_uri("wood", XrdsSceneAssetKind::EnvironmentMap), None);
    assert_eq!(api.resolve_asset_uri("  ", XrdsSceneAssetKind::Texture), None);
    assert_eq!(xrds_runtime::catalog::trim_white_space("\u{3000} a b \n"), "a b");
}
