use master_program::mesh::scene_layers::{
    normalize_youtube_url, SceneLayer, SceneLayerPatch, SceneLayerPresentation, SceneLayerSource,
    SceneLayerType, SceneStateModel, SceneStatePatch,
};

fn layer(id: &str) -> SceneLayer {
    SceneLayer {
        layer_id: id.to_string(),
        layer_type: SceneLayerType::MediaEmbed,
        source: Some(SceneLayerSource {
            kind: "youtube".to_string(),
            url: "https://www.youtube.com/embed/abc123".to_string(),
        }),
        presentation: SceneLayerPresentation::default(),
        metadata: "null".to_string(),
    }
}

fn empty_layer_patch(id: Option<&str>) -> SceneLayerPatch {
    SceneLayerPatch {
        layer_id: id.map(|s| s.to_string()),
        visible: None,
        slot: None,
        motion: None,
        profile: None,
        z_index: None,
        source: None,
    }
}

#[test]
fn normalizes_short_youtube_url_to_embed_url() {
    assert_eq!(
        normalize_youtube_url("https://youtu.be/abc123?t=8").unwrap(),
        "https://www.youtube.com/embed/abc123"
    );
}

#[test]
fn keeps_non_youtube_url_for_local_media() {
    assert_eq!(
        normalize_youtube_url("http://127.0.0.1:8600/live/index.m3u8").unwrap(),
        "http://127.0.0.1:8600/live/index.m3u8"
    );
}

#[test]
fn normalizes_watch_url() {
    assert_eq!(
        normalize_youtube_url("https://www.youtube.com/watch?v=xyz789&list=abc").unwrap(),
        "https://www.youtube.com/embed/xyz789"
    );
}

#[test]
fn default_scene_and_presentation() {
    let scene = SceneStateModel::default();
    assert_eq!(scene.ambience.preset, "night");
    assert!(scene.ambience.rain);
    assert!(!scene.ambience.day_haze);
    assert!(scene.layers.is_empty());
    let p = SceneLayerPresentation::default();
    assert!(p.visible);
    assert_eq!(p.slot, "center-wall");
    assert_eq!(p.motion, "drop_from_top");
    assert_eq!(p.profile, "pirate_broadcast");
    assert_eq!(p.z_index, 40);
}

#[test]
fn upsert_then_find_and_replace() {
    let mut scene = SceneStateModel::default();
    scene.upsert_layer(layer("center-tv")).unwrap();
    scene.upsert_layer(layer("side")).unwrap();
    let mut replacement = layer("center-tv");
    replacement.presentation.z_index = 7;
    scene.upsert_layer(replacement).unwrap();
    assert_eq!(scene.layers.len(), 2);
    let k = scene.find_layer("center-tv").unwrap();
    assert_eq!(k, 0);
    assert_eq!(scene.layers[k].presentation.z_index, 7);
    assert_eq!(scene.upsert_layer(layer("  ")).unwrap_err(), "layer_id_required");
}

#[test]
fn remove_layer_leaves_others_in_order() {
    let mut scene = SceneStateModel::default();
    scene.upsert_layer(layer("a")).unwrap();
    scene.upsert_layer(layer("b")).unwrap();
    scene.upsert_layer(layer("c")).unwrap();
    scene.remove_layer("b");
    assert_eq!(scene.find_layer("b"), None);
    let ids: Vec<&str> = scene.layers.iter().map(|l| l.layer_id.as_str()).collect();
    assert_eq!(ids, vec!["a", "c"]);
}

#[test]
fn layer_patch_changes_only_given_fields() {
    let mut scene = SceneStateModel::default();
    scene.upsert_layer(layer("a")).unwrap();
    let mut patch = empty_layer_patch(Some("a"));
    patch.visible = Some(false);
    patch.z_index = Some(3);
    scene.apply_layer_patch(patch);
    assert!(!scene.layers[0].presentation.visible);
    assert_eq!(scene.layers[0].presentation.z_index, 3);
    assert_eq!(scene.layers[0].presentation.slot, "center-wall");
    scene.apply_layer_patch(empty_layer_patch(Some("missing")));
    scene.apply_layer_patch(empty_layer_patch(None));
    assert_eq!(scene.layers.len(), 1);
}

#[test]
fn scene_patch_trims_preset_and_ignores_blank() {
    let mut scene = SceneStateModel::default();
    let mut patch = SceneStatePatch::default();
    patch.ambience.preset = Some("  dawn ".to_string());
    patch.ambience.rain = Some(false);
    patch.objects.top_marquee = Some(false);
    scene.apply_patch(patch);
    assert_eq!(scene.ambience.preset, "dawn");
    assert!(!scene.ambience.rain);
    assert!(!scene.objects.top_marquee);
    let mut patch = SceneStatePatch::default();
    patch.ambience.preset = Some("   ".to_string());
    scene.apply_patch(patch);
    assert_eq!(scene.ambience.preset, "dawn");
}

#[test]
fn empty_scene_patch_changes_nothing() {
    let mut scene = SceneStateModel::default();
    scene.upsert_layer(layer("a")).unwrap();
    scene.apply_patch(SceneStatePatch::default());
    assert_eq!(scene.ambience.preset, "night");
    assert_eq!(scene.layers.len(), 1);
    assert!(scene.objects.left_chinese_sign);
}

fn sample_patch() -> SceneStatePatch {
    let mut patch = SceneStatePatch::default();
    patch.ambience.preset = Some(" storm ".to_string());
    patch.ambience.day_haze = Some(true);
    patch.objects.shelf_robot_signal = Some(false);
    let mut layer_patch = empty_layer_patch(Some("a"));
    layer_patch.slot = Some("left-wall".to_string());
    layer_patch.z_index = Some(9);
    patch.layers = Some(vec![layer("a"), layer("b")]);
    patch.layer = Some(layer_patch);
    patch
}

#[test]
fn same_patch_twice_equals_once() {
    let mut once = SceneStateModel::default();
    once.upsert_layer(layer("a")).unwrap();
    once.apply_patch(sample_patch());
    let mut twice = SceneStateModel::default();
    twice.upsert_layer(layer("a")).unwrap();
    twice.apply_patch(sample_patch());
    twice.apply_patch(sample_patch());
    assert_eq!(format!("{:?}", once), format!("{:?}", twice));
    assert_eq!(twice.ambience.preset, "storm");
    assert_eq!(twice.layers[0].presentation.slot, "left-wall");
    assert_eq!(twice.layers[0].presentation.z_index, 9);
}

#[test]
fn normalized_url_normalizes_to_itself() {
    for raw in [
        "  https://youtu.be/abc123?t=8 ",
        "https://www.youtube.com/watch?v=xyz789&list=abc",
        " http://127.0.0.1:8600/live/index.m3u8",
        "https://www.youtube.com/embed/keep?autoplay=1",
    ] {
        let once = normalize_youtube_url(raw).unwrap();
        assert_eq!(once, once.trim());
        assert!(!once.is_empty());
        assert_eq!(normalize_youtube_url(&once).unwrap(), once);
    }
    assert_eq!(
        normalize_youtube_url("https://www.youtube.com/embed/keep?autoplay=1").unwrap(),
        "https://www.youtube.com/embed/keep?autoplay=1"
    );
    assert_eq!(normalize_youtube_url("   ").unwrap_err(), "media_url_required");
}
