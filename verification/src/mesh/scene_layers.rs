//! Dynamic scene layers (media embeds, effects, artwork, data panels), the
//! scene state that holds them, and the patches that change it.
use crate::mesh::identity::{opt_view, owned};
use crate::text::{
    chars_of, exec_find_from, exec_matches_at, find_from, is_blank, is_ws, law_trim_idempotent,
    lemma_find_from, lemma_trim_ends, lemma_trim_fixed, matches_at, str_eq, string_of, trim,
    trim_bounds, trim_str,
};
use vstd::prelude::*;

verus! {

broadcast use vstd::string::group_string_axioms;

#[derive(Clone, Copy, Debug, PartialEq, Eq, Structural)]
pub enum SceneLayerType {
    MediaEmbed,
    Effect,
    Artwork,
    DataPanel,
}

/// Where a layer's media comes from.
#[derive(Debug)]
pub struct SceneLayerSource {
    pub kind: String,
    pub url: String,
}

pub struct SceneLayerSourceView {
    pub kind: Seq<char>,
    pub url: Seq<char>,
}

impl View for SceneLayerSource {
    type V = SceneLayerSourceView;

    open spec fn view(&self) -> SceneLayerSourceView {
        SceneLayerSourceView { kind: self.kind@, url: self.url@ }
    }
}

impl Clone for SceneLayerSource {
    fn clone(&self) -> (r: Self)
        ensures
            r@ == self@,
    {
        SceneLayerSource { kind: self.kind.clone(), url: self.url.clone() }
    }
}

pub open spec fn opt_source_view(s: Option<SceneLayerSource>) -> Option<SceneLayerSourceView> {
    match s {
        Some(x) => Some(x@),
        None => None,
    }
}

/// How and where a layer is shown. `style` holds JSON text.
#[derive(Debug)]
pub struct SceneLayerPresentation {
    pub visible: bool,
    pub slot: String,
    pub motion: String,
    pub profile: String,
    pub z_index: i32,
    pub style: String,
}

pub struct SceneLayerPresentationView {
    pub visible: bool,
    pub slot: Seq<char>,
    pub motion: Seq<char>,
    pub profile: Seq<char>,
    pub z_index: i32,
    pub style: Seq<char>,
}

impl View for SceneLayerPresentation {
    type V = SceneLayerPresentationView;

    open spec fn view(&self) -> SceneLayerPresentationView {
        SceneLayerPresentationView {
            visible: self.visible,
            slot: self.slot@,
            motion: self.motion@,
            profile: self.profile@,
            z_index: self.z_index,
            style: self.style@,
        }
    }
}

impl Clone for SceneLayerPresentation {
    fn clone(&self) -> (r: Self)
        ensures
            r@ == self@,
    {
        SceneLayerPresentation {
            visible: self.visible,
            slot: self.slot.clone(),
            motion: self.motion.clone(),
            profile: self.profile.clone(),
            z_index: self.z_index,
            style: self.style.clone(),
        }
    }
}

/// A visible layer on the center wall that drops from the top, in the
/// pirate broadcast look, at depth 40.
pub open spec fn default_presentation() -> SceneLayerPresentationView {
    SceneLayerPresentationView {
        visible: true,
        slot: "center-wall"@,
        motion: "drop_from_top"@,
        profile: "pirate_broadcast"@,
        z_index: 40,
        style: "null"@,
    }
}

impl Default for SceneLayerPresentation {
    fn default() -> (r: Self)
        ensures
            r@ == default_presentation(),
    {
        SceneLayerPresentation {
            visible: true,
            slot: owned("center-wall"),
            motion: owned("drop_from_top"),
            profile: owned("pirate_broadcast"),
            z_index: 40,
            style: owned("null"),
        }
    }
}

/// One layer of the scene. `metadata` holds JSON text.
#[derive(Debug)]
pub struct SceneLayer {
    pub layer_id: String,
    pub layer_type: SceneLayerType,
    pub source: Option<SceneLayerSource>,
    pub presentation: SceneLayerPresentation,
    pub metadata: String,
}

pub struct SceneLayerView {
    pub layer_id: Seq<char>,
    pub layer_type: SceneLayerType,
    pub source: Option<SceneLayerSourceView>,
    pub presentation: SceneLayerPresentationView,
    pub metadata: Seq<char>,
}

impl View for SceneLayer {
    type V = SceneLayerView;

    open spec fn view(&self) -> SceneLayerView {
        SceneLayerView {
            layer_id: self.layer_id@,
            layer_type: self.layer_type,
            source: opt_source_view(self.source),
            presentation: self.presentation@,
            metadata: self.metadata@,
        }
    }
}

pub fn clone_opt_source(s: &Option<SceneLayerSource>) -> (r: Option<SceneLayerSource>)
    ensures
        opt_source_view(r) == opt_source_view(*s),
{
    match s {
        Some(x) => Some(x.clone()),
        None => None,
    }
}

impl Clone for SceneLayer {
    fn clone(&self) -> (r: Self)
        ensures
            r@ == self@,
    {
        SceneLayer {
            layer_id: self.layer_id.clone(),
            layer_type: self.layer_type,
            source: clone_opt_source(&self.source),
            presentation: self.presentation.clone(),
            metadata: self.metadata.clone(),
        }
    }
}

/// A change to one layer, named by `layer_id`; absent fields stay as they
/// are.
#[derive(Debug)]
pub struct SceneLayerPatch {
    pub layer_id: Option<String>,
    pub visible: Option<bool>,
    pub slot: Option<String>,
    pub motion: Option<String>,
    pub profile: Option<String>,
    pub z_index: Option<i32>,
    pub source: Option<SceneLayerSource>,
}

pub struct SceneLayerPatchView {
    pub layer_id: Option<Seq<char>>,
    pub visible: Option<bool>,
    pub slot: Option<Seq<char>>,
    pub motion: Option<Seq<char>>,
    pub profile: Option<Seq<char>>,
    pub z_index: Option<i32>,
    pub source: Option<SceneLayerSourceView>,
}

impl View for SceneLayerPatch {
    type V = SceneLayerPatchView;

    open spec fn view(&self) -> SceneLayerPatchView {
        SceneLayerPatchView {
            layer_id: opt_view(self.layer_id),
            visible: self.visible,
            slot: opt_view(self.slot),
            motion: opt_view(self.motion),
            profile: opt_view(self.profile),
            z_index: self.z_index,
            source: opt_source_view(self.source),
        }
    }
}

impl Default for SceneLayerPatch {
    fn default() -> (r: Self)
        ensures
            r@.layer_id is None,
    {
        SceneLayerPatch {
            layer_id: None,
            visible: None,
            slot: None,
            motion: None,
            profile: None,
            z_index: None,
            source: None,
        }
    }
}

pub open spec fn or_keep<T>(patch: Option<T>, current: T) -> T {
    match patch {
        Some(v) => v,
        None => current,
    }
}

/// A layer with the fields that `p` sets replaced.
pub open spec fn patched_layer(l: SceneLayerView, p: SceneLayerPatchView) -> SceneLayerView {
    SceneLayerView {
        presentation: SceneLayerPresentationView {
            visible: or_keep(p.visible, l.presentation.visible),
            slot: or_keep(p.slot, l.presentation.slot),
            motion: or_keep(p.motion, l.presentation.motion),
            profile: or_keep(p.profile, l.presentation.profile),
            z_index: or_keep(p.z_index, l.presentation.z_index),
            ..l.presentation
        },
        source: match p.source {
            Some(s) => Some(s),
            None => l.source,
        },
        ..l
    }
}

pub open spec fn layers_view(v: Seq<SceneLayer>) -> Seq<SceneLayerView> {
    v.map_values(|l: SceneLayer| l@)
}

/// Index of the first layer whose id is `id`, if any.
pub open spec fn first_layer_with_id(ls: Seq<SceneLayerView>, id: Seq<char>, i: int) -> Option<
    int,
>
    decreases ls.len() - i,
{
    if i < 0 || i >= ls.len() {
        None
    } else if ls[i].layer_id == id {
        Some(i)
    } else {
        first_layer_with_id(ls, id, i + 1)
    }
}

pub proof fn lemma_first_layer_with_id(ls: Seq<SceneLayerView>, id: Seq<char>, i: int)
    requires
        0 <= i,
    ensures
        match first_layer_with_id(ls, id, i) {
            Some(k) => i <= k < ls.len() && ls[k].layer_id == id && forall|m: int|
                i <= m < k ==> ls[m].layer_id != id,
            None => forall|m: int| i <= m < ls.len() ==> ls[m].layer_id != id,
        },
    decreases ls.len() - i,
{
    if i < ls.len() && ls[i].layer_id != id {
        lemma_first_layer_with_id(ls, id, i + 1);
    }
}

/// The layers after applying a layer patch: the first layer with the
/// patch's id is changed; without an id, or with no such layer, nothing is.
pub open spec fn apply_layer_patch_spec(ls: Seq<SceneLayerView>, p: SceneLayerPatchView) -> Seq<
    SceneLayerView,
> {
    match p.layer_id {
        None => ls,
        Some(id) => match first_layer_with_id(ls, id, 0) {
            None => ls,
            Some(k) => ls.update(k, patched_layer(ls[k], p)),
        },
    }
}

/// A layer patch touches only the first layer with its id, and sets there
/// every field it gives (visibility, slot, motion, profile, z-index and
/// source) while keeping every field it leaves out; the layer keeps its id,
/// type, style and metadata, and every other layer stays as it was.
pub proof fn law_layer_patch_sets_given_fields(
    ls: Seq<SceneLayerView>,
    p: SceneLayerPatchView,
    id: Seq<char>,
    k: int,
)
    requires
        p.layer_id == Some(id),
        0 <= k < ls.len(),
        ls[k].layer_id == id,
        forall|m: int| 0 <= m < k ==> ls[m].layer_id != id,
    ensures
        ({
            let out = apply_layer_patch_spec(ls, p);
            let (before, after) = (ls[k], out[k]);
            &&& out.len() == ls.len()
            &&& forall|j: int| 0 <= j < ls.len() && j != k ==> out[j] == ls[j]
            &&& after.layer_id == id && after.layer_type == before.layer_type
            &&& after.metadata == before.metadata
            &&& after.presentation.style == before.presentation.style
            &&& after.presentation.visible == (if let Some(v) = p.visible { v } else { before.presentation.visible })
            &&& after.presentation.slot == (if let Some(v) = p.slot { v } else { before.presentation.slot })
            &&& after.presentation.motion == (if let Some(v) = p.motion { v } else { before.presentation.motion })
            &&& after.presentation.profile == (if let Some(v) = p.profile { v } else { before.presentation.profile })
            &&& after.presentation.z_index == (if let Some(v) = p.z_index { v } else { before.presentation.z_index })
            &&& after.source == (if p.source is Some { p.source } else { before.source })
        }),
{
    lemma_first_layer_with_id(ls, id, 0);
}

/// A layer patch without an id, or whose id no layer has, changes nothing.
pub proof fn law_layer_patch_without_target_changes_nothing(ls: Seq<SceneLayerView>, p: SceneLayerPatchView)
    requires
        p.layer_id matches Some(id) ==> forall|j: int| 0 <= j < ls.len() ==> ls[j].layer_id != id,
    ensures
        apply_layer_patch_spec(ls, p) == ls,
{
    if let Some(id) = p.layer_id {
        lemma_first_layer_with_id(ls, id, 0);
    }
}

/// The layers after an upsert: the first layer with the same id is
/// replaced, or the layer is added at the end.
pub open spec fn upsert_layer_spec(ls: Seq<SceneLayerView>, l: SceneLayerView) -> Seq<
    SceneLayerView,
> {
    match first_layer_with_id(ls, l.layer_id, 0) {
        Some(k) => ls.update(k, l),
        None => ls.push(l),
    }
}

/// The layers without any whose id is `id`, in their order.
pub open spec fn remove_layer_spec(ls: Seq<SceneLayerView>, id: Seq<char>) -> Seq<SceneLayerView> {
    ls.filter(|l: SceneLayerView| l.layer_id != id)
}

/// Ambience switches of the scene.
#[derive(Debug)]
pub struct SceneAmbience {
    pub preset: String,
    pub day_haze: bool,
    pub rain: bool,
    pub city_blink: bool,
    pub window_lightning: bool,
}

/// Object switches of the scene.
#[derive(Clone, Copy, Debug, PartialEq, Eq, Structural)]
pub struct SceneObjects {
    pub left_chinese_sign: bool,
    pub top_marquee: bool,
    pub shelf_robot_signal: bool,
    pub blue_robot_pulse: bool,
}

/// The whole scene: ambience, objects and layers.
#[derive(Debug)]
pub struct SceneStateModel {
    pub ambience: SceneAmbience,
    pub objects: SceneObjects,
    pub layers: Vec<SceneLayer>,
}

pub struct SceneStateView {
    pub preset: Seq<char>,
    pub day_haze: bool,
    pub rain: bool,
    pub city_blink: bool,
    pub window_lightning: bool,
    pub objects: SceneObjects,
    pub layers: Seq<SceneLayerView>,
}

impl View for SceneStateModel {
    type V = SceneStateView;

    open spec fn view(&self) -> SceneStateView {
        SceneStateView {
            preset: self.ambience.preset@,
            day_haze: self.ambience.day_haze,
            rain: self.ambience.rain,
            city_blink: self.ambience.city_blink,
            window_lightning: self.ambience.window_lightning,
            objects: self.objects,
            layers: layers_view(self.layers@),
        }
    }
}

pub fn clone_layers(v: &Vec<SceneLayer>) -> (r: Vec<SceneLayer>)
    ensures
        layers_view(r@) == layers_view(v@),
{
    let mut r: Vec<SceneLayer> = Vec::new();
    let mut i: usize = 0;
    while i < v.len()
        invariant
            i <= v@.len(),
            layers_view(r@) =~= layers_view(v@.subrange(0, i as int)),
        decreases v@.len() - i,
    {
        let e = v[i].clone();
        let ghost before = r@;
        r.push(e);
        proof {
            assert(v@.subrange(0, i + 1) =~= v@.subrange(0, i as int).push(v@[i as int]));
            assert(r@ =~= before.push(e));
            assert(layers_view(r@) =~= layers_view(before).push(e@));
            assert(layers_view(v@.subrange(0, i + 1)) =~= layers_view(
                v@.subrange(0, i as int),
            ).push(v@[i as int]@));
        }
        i = i + 1;
    }
    assert(v@.subrange(0, v@.len() as int) =~= v@);
    r
}

impl Clone for SceneStateModel {
    fn clone(&self) -> (r: Self)
        ensures
            r@ == self@,
    {
        SceneStateModel {
            ambience: SceneAmbience {
                preset: self.ambience.preset.clone(),
                day_haze: self.ambience.day_haze,
                rain: self.ambience.rain,
                city_blink: self.ambience.city_blink,
                window_lightning: self.ambience.window_lightning,
            },
            objects: self.objects,
            layers: clone_layers(&self.layers),
        }
    }
}

/// The scene a node starts with: a rainy night with blinking city lights
/// and window lightning, every object switched on, no layers.
pub open spec fn initial_scene() -> SceneStateView {
    SceneStateView {
        preset: "night"@,
        day_haze: false,
        rain: true,
        city_blink: true,
        window_lightning: true,
        objects: SceneObjects {
            left_chinese_sign: true,
            top_marquee: true,
            shelf_robot_signal: true,
            blue_robot_pulse: true,
        },
        layers: seq![],
    }
}

impl Default for SceneStateModel {
    fn default() -> (r: Self)
        ensures
            r@ == initial_scene(),
    {
        let r = SceneStateModel {
            ambience: SceneAmbience {
                preset: owned("night"),
                day_haze: false,
                rain: true,
                city_blink: true,
                window_lightning: true,
            },
            objects: SceneObjects {
                left_chinese_sign: true,
                top_marquee: true,
                shelf_robot_signal: true,
                blue_robot_pulse: true,
            },
            layers: Vec::new(),
        };
        assert(r@.layers =~= initial_scene().layers);
        r
    }
}

/// A change to the ambience; absent fields stay as they are.
#[derive(Debug)]
pub struct SceneAmbiencePatch {
    pub preset: Option<String>,
    pub day_haze: Option<bool>,
    pub rain: Option<bool>,
    pub city_blink: Option<bool>,
    pub window_lightning: Option<bool>,
}

/// A change to the objects; absent fields stay as they are.
#[derive(Clone, Copy, Debug, PartialEq, Eq, Structural)]
pub struct SceneObjectsPatch {
    pub left_chinese_sign: Option<bool>,
    pub top_marquee: Option<bool>,
    pub shelf_robot_signal: Option<bool>,
    pub blue_robot_pulse: Option<bool>,
}

/// A change to the scene.
#[derive(Debug)]
pub struct SceneStatePatch {
    pub ambience: SceneAmbiencePatch,
    pub objects: SceneObjectsPatch,
    pub layers: Option<Vec<SceneLayer>>,
    pub layer: Option<SceneLayerPatch>,
}

impl Default for SceneStatePatch {
    fn default() -> (r: Self)
        ensures
            r.ambience.preset is None,
            r.ambience.day_haze is None,
            r.ambience.rain is None,
            r.ambience.city_blink is None,
            r.ambience.window_lightning is None,
            r.objects == (SceneObjectsPatch {
                left_chinese_sign: None,
                top_marquee: None,
                shelf_robot_signal: None,
                blue_robot_pulse: None,
            }),
            r.layers is None,
            r.layer is None,
    {
        SceneStatePatch {
            ambience: SceneAmbiencePatch {
                preset: None,
                day_haze: None,
                rain: None,
                city_blink: None,
                window_lightning: None,
            },
            objects: SceneObjectsPatch {
                left_chinese_sign: None,
                top_marquee: None,
                shelf_robot_signal: None,
                blue_robot_pulse: None,
            },
            layers: None,
            layer: None,
        }
    }
}

/// The scene after a patch: the preset changes when the patch names a
/// preset that is not blank (trimmed), each switch the patch sets takes the
/// patch's value, a layer list replaces the layers, and then the layer patch
/// applies.
pub open spec fn apply_patch_spec(s: SceneStateView, p: SceneStatePatch) -> SceneStateView {
    let preset = match p.ambience.preset {
        Some(v) => if trim(v@).len() > 0 {
            trim(v@)
        } else {
            s.preset
        },
        None => s.preset,
    };
    let layers = match p.layers {
        Some(ls) => layers_view(ls@),
        None => s.layers,
    };
    SceneStateView {
        preset: preset,
        day_haze: or_keep(p.ambience.day_haze, s.day_haze),
        rain: or_keep(p.ambience.rain, s.rain),
        city_blink: or_keep(p.ambience.city_blink, s.city_blink),
        window_lightning: or_keep(p.ambience.window_lightning, s.window_lightning),
        objects: SceneObjects {
            left_chinese_sign: or_keep(p.objects.left_chinese_sign, s.objects.left_chinese_sign),
            top_marquee: or_keep(p.objects.top_marquee, s.objects.top_marquee),
            shelf_robot_signal: or_keep(
                p.objects.shelf_robot_signal,
                s.objects.shelf_robot_signal,
            ),
            blue_robot_pulse: or_keep(p.objects.blue_robot_pulse, s.objects.blue_robot_pulse),
        },
        layers: match p.layer {
            Some(lp) => apply_layer_patch_spec(layers, lp@),
            None => layers,
        },
    }
}

impl SceneStateModel {
    pub fn apply_patch(&mut self, patch: SceneStatePatch)
        ensures
            final(self)@ == apply_patch_spec(old(self)@, patch),
    {
        let SceneStatePatch { ambience, objects, layers, layer } = patch;
        self.apply_ambience_patch(ambience);
        self.apply_objects_patch(objects);
        if let Some(ls) = layers {
            self.layers = ls;
        }
        if let Some(layer_patch) = layer {
            self.apply_layer_patch(layer_patch);
        }
    }

    fn apply_ambience_patch(&mut self, p: SceneAmbiencePatch)
        ensures
            final(self).layers == old(self).layers,
            final(self).objects == old(self).objects,
            final(self).ambience.preset@ == (match p.preset {
                Some(v) => if trim(v@).len() > 0 {
                    trim(v@)
                } else {
                    old(self).ambience.preset@
                },
                None => old(self).ambience.preset@,
            }),
            final(self).ambience.day_haze == or_keep(p.day_haze, old(self).ambience.day_haze),
            final(self).ambience.rain == or_keep(p.rain, old(self).ambience.rain),
            final(self).ambience.city_blink == or_keep(p.city_blink, old(self).ambience.city_blink),
            final(self).ambience.window_lightning == or_keep(
                p.window_lightning,
                old(self).ambience.window_lightning,
            ),
    {
        if let Some(preset) = p.preset {
            let trimmed = trim_str(preset.as_str());
            if !trimmed.as_str().is_empty() {
                self.ambience.preset = trimmed;
            }
        }
        if let Some(day_haze) = p.day_haze {
            self.ambience.day_haze = day_haze;
        }
        if let Some(rain) = p.rain {
            self.ambience.rain = rain;
        }
        if let Some(city_blink) = p.city_blink {
            self.ambience.city_blink = city_blink;
        }
        if let Some(window_lightning) = p.window_lightning {
            self.ambience.window_lightning = window_lightning;
        }
    }

    fn apply_objects_patch(&mut self, p: SceneObjectsPatch)
        ensures
            final(self).layers == old(self).layers,
            final(self).ambience == old(self).ambience,
            final(self).objects == (SceneObjects {
                left_chinese_sign: or_keep(p.left_chinese_sign, old(self).objects.left_chinese_sign),
                top_marquee: or_keep(p.top_marquee, old(self).objects.top_marquee),
                shelf_robot_signal: or_keep(
                    p.shelf_robot_signal,
                    old(self).objects.shelf_robot_signal,
                ),
                blue_robot_pulse: or_keep(p.blue_robot_pulse, old(self).objects.blue_robot_pulse),
            }),
    {
        if let Some(v) = p.left_chinese_sign {
            self.objects.left_chinese_sign = v;
        }
        if let Some(v) = p.top_marquee {
            self.objects.top_marquee = v;
        }
        if let Some(v) = p.shelf_robot_signal {
            self.objects.shelf_robot_signal = v;
        }
        if let Some(v) = p.blue_robot_pulse {
            self.objects.blue_robot_pulse = v;
        }
    }

    pub fn apply_layer_patch(&mut self, patch: SceneLayerPatch)
        ensures
            final(self)@ == (SceneStateView {
                layers: apply_layer_patch_spec(old(self)@.layers, patch@),
                ..old(self)@
            }),
    {
        let ghost pv = patch@;
        let layer_id = match patch.layer_id {
            Some(id) => id,
            None => {
                return;
            },
        };
        let k = match self.find_layer(layer_id.as_str()) {
            Some(k) => k,
            None => {
                return;
            },
        };
        let ghost before = self.layers@;
        proof {
            lemma_first_layer_with_id(self@.layers, layer_id@, 0);
        }
        let mut layer = self.layers.remove(k);
        if let Some(visible) = patch.visible {
            layer.presentation.visible = visible;
        }
        if let Some(slot) = patch.slot {
            layer.presentation.slot = slot;
        }
        if let Some(motion) = patch.motion {
            layer.presentation.motion = motion;
        }
        if let Some(profile) = patch.profile {
            layer.presentation.profile = profile;
        }
        if let Some(z_index) = patch.z_index {
            layer.presentation.z_index = z_index;
        }
        if let Some(source) = patch.source {
            layer.source = Some(source);
        }
        let ghost lv = layer@;
        self.layers.insert(k, layer);
        proof {
            assert(lv == patched_layer(layers_view(before)[k as int], pv));
            assert(self.layers@ =~= before.update(k as int, self.layers@[k as int]));
            assert(layers_view(self.layers@) =~= layers_view(before).update(k as int, lv));
        }
    }

    /// Index of the first layer whose id is `id`.
    pub fn find_layer(&self, id: &str) -> (r: Option<usize>)
        ensures
            match r {
                Some(k) => first_layer_with_id(self@.layers, id@, 0) == Some(k as int),
                None => first_layer_with_id(self@.layers, id@, 0) is None,
            },
    {
        let mut i: usize = 0;
        while i < self.layers.len()
            invariant
                i <= self.layers@.len(),
                first_layer_with_id(self@.layers, id@, 0) == first_layer_with_id(
                    self@.layers,
                    id@,
                    i as int,
                ),
            decreases self.layers@.len() - i,
        {
            if str_eq(self.layers[i].layer_id.as_str(), id) {
                return Some(i);
            }
            i = i + 1;
        }
        None
    }

    /// Adds a layer, or replaces the first layer with the same id. A layer
    /// whose id is blank is refused with `layer_id_required`.
    pub fn upsert_layer(&mut self, layer: SceneLayer) -> (r: Result<(), String>)
        ensures
            match r {
                Ok(()) => !crate::text::is_blank(layer@.layer_id) && final(self)@ == (
                SceneStateView { layers: upsert_layer_spec(old(self)@.layers, layer@), ..old(self)@ }),
                Err(e) => crate::text::is_blank(layer@.layer_id) && e@ == "layer_id_required"@
                    && final(self)@ == old(self)@,
            },
    {
        if crate::text::blank(layer.layer_id.as_str()) {
            return Err(owned("layer_id_required"));
        }
        let ghost lv = layer@;
        let ghost before = self.layers@;
        proof {
            lemma_first_layer_with_id(self@.layers, layer@.layer_id, 0);
        }
        match self.find_layer(layer.layer_id.as_str()) {
            Some(k) => {
                self.layers.set(k, layer);
                assert(layers_view(self.layers@) =~= layers_view(before).update(k as int, lv));
            },
            None => {
                self.layers.push(layer);
                assert(layers_view(self.layers@) =~= layers_view(before).push(lv));
            },
        }
        Ok(())
    }

    /// Removes every layer whose id is `layer_id`.
    pub fn remove_layer(&mut self, layer_id: &str)
        ensures
            final(self)@ == (SceneStateView {
                layers: remove_layer_spec(old(self)@.layers, layer_id@),
                ..old(self)@
            }),
    {
        let ghost orig = self.layers@;
        let ghost pred = |l: SceneLayerView| l.layer_id != layer_id@;
        let mut kept: Vec<SceneLayer> = Vec::new();
        let n = self.layers.len();
        let mut i: usize = 0;
        while i < n
            invariant
                n == orig.len(),
                i <= n,
                self.layers@ == orig,
                pred == (|l: SceneLayerView| l.layer_id != layer_id@),
                layers_view(kept@) =~= layers_view(orig.subrange(0, i as int)).filter(pred),
            decreases n - i,
        {
            let ghost lv = self.layers@[i as int]@;
            let ghost prefix = layers_view(orig.subrange(0, i as int));
            let ghost before = kept@;
            proof {
                assert(orig.subrange(0, i + 1) =~= orig.subrange(0, i as int).push(orig[i as int]));
                assert(layers_view(orig.subrange(0, i + 1)) =~= prefix.push(lv));
                reveal(Seq::filter);
                assert(prefix.push(lv).drop_last() =~= prefix);
                assert(prefix.push(lv).filter(pred) == (if pred(lv) {
                    prefix.filter(pred).push(lv)
                } else {
                    prefix.filter(pred)
                }));
            }
            let same = str_eq(self.layers[i].layer_id.as_str(), layer_id);
            assert(same == (lv.layer_id == layer_id@));
            if !same {
                let l = self.layers[i].clone();
                kept.push(l);
                assert(pred(lv));
                assert(layers_view(kept@) =~= layers_view(before).push(lv));
            } else {
                assert(!pred(lv));
            }
            i = i + 1;
        }
        assert(orig.subrange(0, n as int) =~= orig);
        self.layers = kept;
    }
}

/// The characters that end a video id in a short link.
pub open spec fn is_id_end(c: char) -> bool {
    c == '?' || c == '&' || c == '/'
}

/// Index of the first id-ending character at or after `i`, or the end.
pub open spec fn id_end(s: Seq<char>, i: int) -> int
    decreases s.len() - i,
{
    if i < 0 || i >= s.len() {
        s.len() as int
    } else if is_id_end(s[i]) {
        i
    } else {
        id_end(s, i + 1)
    }
}

/// `s.split(pat).nth(1)`: the text between the first and the second
/// occurrence of `pat`, or up to the end when there is no second one;
/// `None` when `pat` does not occur.
pub open spec fn split_second(s: Seq<char>, pat: Seq<char>) -> Option<(int, int)> {
    match find_from(s, pat, 0) {
        None => None,
        Some(k) => {
            let st = k + pat.len();
            match find_from(s, pat, st) {
                Some(k2) => Some((st, k2)),
                None => Some((st, s.len() as int)),
            }
        },
    }
}

/// Index of the next `&` at or after `i`, or the end.
pub open spec fn amp_end(s: Seq<char>, i: int) -> int
    decreases s.len() - i,
{
    if i < 0 || i >= s.len() {
        s.len() as int
    } else if s[i] == '&' {
        i
    } else {
        amp_end(s, i + 1)
    }
}

/// The video id of a `watch?` query between `i` and `hi`: the first
/// `&`-separated pair that starts with `v=` and whose value is not blank
/// once trimmed.
pub open spec fn watch_id(s: Seq<char>, i: int, hi: int) -> Option<Seq<char>>
    decreases hi - i,
{
    if i < 0 || i > hi || hi > s.len() {
        None
    } else {
        let e = amp_end(s.subrange(0, hi), i);
        let pair = s.subrange(i, e);
        if matches_at(pair, 0, "v="@) && trim(pair.subrange(2, pair.len() as int)).len() > 0 {
            Some(trim(pair.subrange(2, pair.len() as int)))
        } else if i <= e < hi {
            watch_id(s, e + 1, hi)
        } else {
            None
        }
    }
}

/// The embed address of a video id.
pub open spec fn embed_url(id: Seq<char>) -> Seq<char> {
    "https://www.youtube.com/embed/"@ + id
}

/// A media address as a scene layer can play it: embed addresses stay as
/// they are, short `youtu.be/ID` links and `watch?v=ID` links become embed
/// addresses, anything else is kept (trimmed). A blank address is refused
/// with `media_url_required`.
pub open spec fn normalized_media_url(raw: Seq<char>) -> Result<Seq<char>, Seq<char>> {
    let t = trim(raw);
    if t.len() == 0 {
        Err("media_url_required"@)
    } else if find_from(t, "youtube.com/embed/"@, 0) is Some {
        Ok(t)
    } else {
        let short_id = match split_second(t, "youtu.be/"@) {
            Some((a, b)) => trim(t.subrange(a, id_end(t.subrange(0, b), a))),
            None => Seq::empty(),
        };
        if short_id.len() > 0 {
            Ok(embed_url(short_id))
        } else {
            match split_second(t, "watch?"@) {
                Some((a, b)) => match watch_id(t, a, b) {
                    Some(id) => Ok(embed_url(id)),
                    None => Ok(t),
                },
                None => Ok(t),
            }
        }
    }
}

fn exec_split_second(v: &[char], pat: &[char]) -> (r: Option<(usize, usize)>)
    requires
        pat@.len() > 0,
    ensures
        match r {
            Some((a, b)) => split_second(v@, pat@) == Some((a as int, b as int)) && a <= b
                <= v@.len(),
            None => split_second(v@, pat@) is None,
        },
{
    match exec_find_from(v, pat, 0) {
        None => None,
        Some(k) => {
            proof {
                lemma_find_from(v@, pat@, 0);
            }
            let n = v.len();
            assert(k + pat@.len() <= n);
            let st = k + pat.len();
            match exec_find_from(v, pat, st) {
                Some(k2) => {
                    proof {
                        lemma_find_from(v@, pat@, st as int);
                    }
                    Some((st, k2))
                },
                None => Some((st, v.len())),
            }
        },
    }
}

fn exec_id_end(v: &[char], i: usize, hi: usize) -> (r: usize)
    requires
        i <= hi <= v@.len(),
    ensures
        r == id_end(v@.subrange(0, hi as int), i as int),
        i <= r <= hi,
{
    let ghost s = v@.subrange(0, hi as int);
    let mut k = i;
    while k < hi && !(v[k] == '?' || v[k] == '&' || v[k] == '/')
        invariant
            i <= k <= hi <= v@.len(),
            s == v@.subrange(0, hi as int),
            id_end(s, i as int) == id_end(s, k as int),
        decreases hi - k,
    {
        k = k + 1;
    }
    k
}

fn exec_amp_end(v: &[char], i: usize, hi: usize) -> (r: usize)
    requires
        i <= hi <= v@.len(),
    ensures
        r == amp_end(v@.subrange(0, hi as int), i as int),
        i <= r <= hi,
{
    let ghost s = v@.subrange(0, hi as int);
    let mut k = i;
    while k < hi && v[k] != '&'
        invariant
            i <= k <= hi <= v@.len(),
            s == v@.subrange(0, hi as int),
            amp_end(s, i as int) == amp_end(s, k as int),
        decreases hi - k,
    {
        k = k + 1;
    }
    k
}

/// Bounds of the trimmed text `v[lo..hi]`.
fn trim_range(v: &[char], lo: usize, hi: usize) -> (r: (usize, usize))
    requires
        lo <= hi <= v@.len(),
    ensures
        lo <= r.0 <= r.1 <= hi,
        v@.subrange(r.0 as int, r.1 as int) == trim(v@.subrange(lo as int, hi as int)),
{
    let piece = string_of(v, lo, hi);
    let w = chars_of(piece.as_str());
    let (a, b) = trim_bounds(w.as_slice());
    assert(w@ == v@.subrange(lo as int, hi as int));
    assert(v@.subrange(lo + a, lo + b) =~= w@.subrange(a as int, b as int));
    (lo + a, lo + b)
}

fn exec_watch_id(v: &[char], lo: usize, hi: usize) -> (r: Option<(usize, usize)>)
    requires
        lo <= hi <= v@.len(),
    ensures
        match r {
            Some((a, b)) => a <= b <= v@.len() && watch_id(v@, lo as int, hi as int) == Some(
                v@.subrange(a as int, b as int),
            ),
            None => watch_id(v@, lo as int, hi as int) is None,
        },
{
    let vp = chars_of("v=");
    proof {
        reveal_strlit("v=");
    }
    let mut i = lo;
    while i <= hi
        invariant
            lo <= i,
            hi <= v@.len(),
            vp@ == "v="@,
            watch_id(v@, lo as int, hi as int) == watch_id(v@, i as int, hi as int),
        decreases hi + 1 - i,
    {
        let e = exec_amp_end(v, i, hi);
        let ghost pair = v@.subrange(i as int, e as int);
        let ghost pick = if matches_at(pair, 0, "v="@) && trim(pair.subrange(2, pair.len() as int)).len()
            > 0 {
            Some(trim(pair.subrange(2, pair.len() as int)))
        } else {
            None::<Seq<char>>
        };
        let starts = e >= 2 && i <= e - 2 && exec_matches_at(v, i, vp.as_slice());
        proof {
            reveal_strlit("v=");
            if matches_at(pair, 0, "v="@) {
                assert(pair.subrange(0, 2) =~= v@.subrange(i as int, i + 2));
            }
            if starts {
                assert(pair.subrange(0, 2) =~= v@.subrange(i as int, i + 2));
            }
        }
        if starts {
            let (a, b) = trim_range(v, i + 2, e);
            assert(pair.subrange(2, pair.len() as int) =~= v@.subrange(i + 2, e as int));
            if a < b {
                return Some((a, b));
            }
        }
        assert(pick is None);
        if e < hi {
            i = e + 1;
        } else {
            return None;
        }
    }
    None
}

pub fn normalize_youtube_url(raw: &str) -> (r: Result<String, String>)
    ensures
        match r {
            Ok(u) => normalized_media_url(raw@) == Ok::<Seq<char>, Seq<char>>(u@),
            Err(e) => normalized_media_url(raw@) == Err::<Seq<char>, Seq<char>>(e@),
        },
{
    let trimmed = trim_str(raw);
    let v = chars_of(trimmed.as_str());
    let ghost t = v@;
    if v.len() == 0 {
        return Err(owned("media_url_required"));
    }
    let embed = chars_of("youtube.com/embed/");
    if exec_find_from(v.as_slice(), embed.as_slice(), 0).is_some() {
        return Ok(trimmed);
    }
    let short = chars_of("youtu.be/");
    proof {
        reveal_strlit("youtu.be/");
        reveal_strlit("watch?");
    }
    let ghost short_id = match split_second(t, "youtu.be/"@) {
        Some((a, b)) => trim(t.subrange(a, id_end(t.subrange(0, b), a))),
        None => Seq::<char>::empty(),
    };
    match exec_split_second(v.as_slice(), short.as_slice()) {
        Some((a, b)) => {
            let e = exec_id_end(v.as_slice(), a, b);
            let (x, y) = trim_range(v.as_slice(), a, e);
            if x < y {
                let id = string_of(v.as_slice(), x, y);
                let mut out = owned("https://www.youtube.com/embed/");
                out.append(id.as_str());
                return Ok(out);
            }
        },
        None => {},
    }
    assert(short_id.len() == 0);
    let watch = chars_of("watch?");
    match exec_split_second(v.as_slice(), watch.as_slice()) {
        Some((a, b)) => match exec_watch_id(v.as_slice(), a, b) {
            Some((x, y)) => {
                let id = string_of(v.as_slice(), x, y);
                let mut out = owned("https://www.youtube.com/embed/");
                out.append(id.as_str());
                Ok(out)
            },
            None => Ok(trimmed),
        },
        None => Ok(trimmed),
    }
}

/// A layer upserted is found again by its id, as it was given.
pub proof fn law_upserted_layer_is_found(ls: Seq<SceneLayerView>, l: SceneLayerView)
    ensures
        first_layer_with_id(upsert_layer_spec(ls, l), l.layer_id, 0) matches Some(k)
            && upsert_layer_spec(ls, l)[k] == l,
{
    lemma_first_layer_with_id(ls, l.layer_id, 0);
    let u = upsert_layer_spec(ls, l);
    match first_layer_with_id(ls, l.layer_id, 0) {
        Some(k) => {
            lemma_first_layer_skip(u, l.layer_id, 0, k);
        },
        None => {
            lemma_first_layer_skip(u, l.layer_id, 0, ls.len() as int);
        },
    }
}

/// Upserting a layer leaves the layer found under any other id as it was.
pub proof fn law_upsert_keeps_other_layers(ls: Seq<SceneLayerView>, l: SceneLayerView, id: Seq<char>)
    requires
        id != l.layer_id,
    ensures
        match first_layer_with_id(ls, id, 0) {
            Some(k) => first_layer_with_id(upsert_layer_spec(ls, l), id, 0) == Some(k)
                && upsert_layer_spec(ls, l)[k] == ls[k],
            None => first_layer_with_id(upsert_layer_spec(ls, l), id, 0) is None,
        },
{
    let u = upsert_layer_spec(ls, l);
    lemma_first_layer_with_id(ls, id, 0);
    lemma_first_layer_with_id(ls, l.layer_id, 0);
    lemma_first_layer_with_id(u, id, 0);
    match first_layer_with_id(ls, id, 0) {
        Some(k) => {
            lemma_first_layer_skip(u, id, 0, k);
        },
        None => {
            match first_layer_with_id(u, id, 0) {
                Some(j) => {
                    if j < ls.len() {
                        assert(u[j].layer_id == ls[j].layer_id || u[j] == l);
                    }
                },
                None => {},
            }
        },
    }
}

proof fn lemma_first_layer_skip(ls: Seq<SceneLayerView>, id: Seq<char>, i: int, k: int)
    requires
        0 <= i <= k < ls.len(),
        ls[k].layer_id == id,
        forall|m: int| i <= m < k ==> ls[m].layer_id != id,
    ensures
        first_layer_with_id(ls, id, i) == Some(k),
    decreases k - i,
{
    if i < k {
        lemma_first_layer_skip(ls, id, i + 1, k);
    }
}

/// After a layer is removed no layer has its id, and the other layers keep
/// their order.
pub proof fn law_removed_layer_is_gone(ls: Seq<SceneLayerView>, id: Seq<char>)
    ensures
        first_layer_with_id(remove_layer_spec(ls, id), id, 0) is None,
        remove_layer_spec(ls, id) == ls.filter(|l: SceneLayerView| l.layer_id != id),
{
    let r = remove_layer_spec(ls, id);
    lemma_first_layer_with_id(r, id, 0);
    match first_layer_with_id(r, id, 0) {
        Some(k) => {
            ls.lemma_filter_pred(|l: SceneLayerView| l.layer_id != id, k);
        },
        None => {},
    }
}

/// A patch that sets nothing leaves the scene as it was.
pub proof fn law_empty_patch_changes_nothing(s: SceneStateView, p: SceneStatePatch)
    requires
        p.ambience.preset is None,
        p.ambience.day_haze is None,
        p.ambience.rain is None,
        p.ambience.city_blink is None,
        p.ambience.window_lightning is None,
        p.objects == (SceneObjectsPatch {
            left_chinese_sign: None,
            top_marquee: None,
            shelf_robot_signal: None,
            blue_robot_pulse: None,
        }),
        p.layers is None,
        p.layer is None,
    ensures
        apply_patch_spec(s, p) == s,
{
}

/// A layer patch applied twice changes the layers as applying it once.
pub proof fn law_layer_patch_twice_is_once(ls: Seq<SceneLayerView>, p: SceneLayerPatchView)
    ensures
        apply_layer_patch_spec(apply_layer_patch_spec(ls, p), p) == apply_layer_patch_spec(ls, p),
{
    match p.layer_id {
        None => {},
        Some(id) => {
            lemma_first_layer_with_id(ls, id, 0);
            match first_layer_with_id(ls, id, 0) {
                None => {},
                Some(k) => {
                    let once = ls.update(k, patched_layer(ls[k], p));
                    assert forall|m: int| 0 <= m < k implies once[m].layer_id != id by {
                        assert(once[m] == ls[m]);
                    }
                    lemma_first_layer_skip(once, id, 0, k);
                    assert(patched_layer(once[k], p) == once[k]);
                    assert(once.update(k, patched_layer(once[k], p)) =~= once);
                },
            }
        },
    }
}

/// A scene patch applied twice leaves the scene as applying it once.
pub proof fn law_patch_twice_is_once(s: SceneStateView, p: SceneStatePatch)
    ensures
        apply_patch_spec(apply_patch_spec(s, p), p) == apply_patch_spec(s, p),
{
    let once = apply_patch_spec(s, p);
    let layers = match p.layers {
        Some(ls) => layers_view(ls@),
        None => s.layers,
    };
    match p.layer {
        Some(lp) => {
            law_layer_patch_twice_is_once(layers, lp@);
        },
        None => {},
    }
}

proof fn lemma_watch_id_trimmed(s: Seq<char>, i: int, hi: int)
    ensures
        watch_id(s, i, hi) matches Some(id) ==> id.len() > 0 && !is_ws(id[0]) && !is_ws(
            id[id.len() - 1],
        ),
    decreases hi - i,
{
    if !(i < 0 || i > hi || hi > s.len()) {
        let e = amp_end(s.subrange(0, hi), i);
        let pair = s.subrange(i, e);
        lemma_trim_ends(pair.subrange(2, pair.len() as int));
        if i <= e < hi {
            lemma_watch_id_trimmed(s, e + 1, hi);
        }
    }
}

/// An embed address of a trimmed, non-empty id has no whitespace at its
/// ends, starts with the embed prefix and contains `youtube.com/embed/`.
proof fn lemma_embed_url(id: Seq<char>)
    requires
        id.len() > 0,
        !is_ws(id[0]),
        !is_ws(id[id.len() - 1]),
    ensures
        trim(embed_url(id)) == embed_url(id),
        matches_at(embed_url(id), 0, "https://www.youtube.com/embed/"@),
        find_from(embed_url(id), "youtube.com/embed/"@, 0) is Some,
{
    let u = embed_url(id);
    reveal_strlit("https://www.youtube.com/embed/");
    reveal_strlit("youtube.com/embed/");
    assert(u[0] == 'h');
    assert(u[u.len() - 1] == id[id.len() - 1]);
    lemma_trim_fixed(u);
    assert(u.subrange(0, 30) =~= "https://www.youtube.com/embed/"@);
    assert(u.subrange(12, 30) =~= "youtube.com/embed/"@);
    assert(matches_at(u, 12, "youtube.com/embed/"@));
    lemma_find_from(u, "youtube.com/embed/"@, 0);
}

/// A media address is refused exactly when it is blank. An accepted one
/// is not empty, has no whitespace at its ends, is the trimmed address or
/// an embed address, and normalizes to itself; an address that is
/// already an embed address is kept, trimmed.
pub proof fn law_normalized_media_url(raw: Seq<char>)
    ensures
        normalized_media_url(raw) is Err <==> is_blank(raw),
        normalized_media_url(raw) is Err ==> normalized_media_url(raw) == Err::<
            Seq<char>,
            Seq<char>,
        >("media_url_required"@),
        normalized_media_url(raw) matches Ok(u) ==> u.len() > 0 && trim(u) == u && (u == trim(raw)
            || matches_at(u, 0, "https://www.youtube.com/embed/"@)) && normalized_media_url(u)
            == Ok::<Seq<char>, Seq<char>>(u),
        find_from(trim(raw), "youtube.com/embed/"@, 0) is Some && !is_blank(raw)
            ==> normalized_media_url(raw) == Ok::<Seq<char>, Seq<char>>(trim(raw)),
{
    let t = trim(raw);
    law_trim_idempotent(raw);
    lemma_trim_ends(raw);
    if t.len() > 0 && find_from(t, "youtube.com/embed/"@, 0) is None {
        match split_second(t, "youtu.be/"@) {
            Some((a, b)) => {
                let x = t.subrange(a, id_end(t.subrange(0, b), a));
                lemma_trim_ends(x);
                if trim(x).len() > 0 {
                    lemma_embed_url(trim(x));
                }
            },
            None => {},
        }
        match split_second(t, "watch?"@) {
            Some((a, b)) => {
                lemma_watch_id_trimmed(t, a, b);
                match watch_id(t, a, b) {
                    Some(id) => {
                        lemma_embed_url(id);
                    },
                    None => {},
                }
            },
            None => {},
        }
    }
}


/// A query pair that names a video: `v=` followed by a value that is not
/// blank once trimmed.
pub open spec fn is_video_pair(pair: Seq<char>) -> bool {
    pair.len() >= 2 && pair[0] == 'v' && pair[1] == '=' && !is_blank(pair.subrange(2, pair.len() as int))
}

/// Query pairs, each followed by `&`.
pub open spec fn pairs_lead(pairs: Seq<Seq<char>>) -> Seq<char>
    decreases pairs.len(),
{
    if pairs.len() == 0 {
        Seq::empty()
    } else {
        pairs[0] + seq!['&'] + pairs_lead(pairs.drop_first())
    }
}

proof fn lemma_amp_end_at(t: Seq<char>, i: int, j: int)
    requires
        0 <= i <= j <= t.len(),
        forall|m: int| i <= m < j ==> t[m] != '&',
        j == t.len() || t[j] == '&',
    ensures
        amp_end(t, i) == j,
    decreases j - i,
{
    if i < j {
        lemma_amp_end_at(t, i + 1, j);
    }
}

/// The id of a `watch?` query is that of its first pair naming a video,
/// whatever pairs come before it: when the query is some pairs that name
/// no video, then `v=ID` with `ID` not blank, then the end or `&` and
/// more, the id is `ID` trimmed.
pub proof fn law_watch_id_is_first_video_pair(
    s: Seq<char>,
    i: int,
    hi: int,
    before: Seq<Seq<char>>,
    id: Seq<char>,
    rest: Seq<char>,
)
    requires
        0 <= i <= hi <= s.len(),
        s.subrange(i, hi) == pairs_lead(before) + seq!['v', '='] + id + rest,
        forall|k: int|
            0 <= k < before.len() ==> !is_video_pair(#[trigger] before[k]) && forall|m: int|
                0 <= m < before[k].len() ==> before[k][m] != '&',
        forall|m: int| 0 <= m < id.len() ==> id[m] != '&',
        !is_blank(id),
        rest.len() == 0 || rest[0] == '&',
    ensures
        watch_id(s, i, hi) == Some(trim(id)),
    decreases before.len(),
{
    let t = s.subrange(0, hi);
    reveal_strlit("v=");
    if before.len() == 0 {
        let j = i + 2 + id.len();
        assert(pairs_lead(before) =~= Seq::<char>::empty());
        let q = seq!['v', '='] + id + rest;
        assert(pairs_lead(before) + seq!['v', '='] + id + rest =~= q);
        assert(s.subrange(i, hi) == q);
        assert(hi - i == q.len());
        assert forall|m: int| i <= m < j implies t[m] != '&' by {
            assert(t[m] == s[m]);
            assert(s[m] == s.subrange(i, hi)[m - i]);
            if m >= i + 2 {
                assert(q[m - i] == id[m - i - 2]);
            }
        }
        if j < hi {
            assert(t[j] == s.subrange(i, hi)[j - i]);
            assert(q[j - i] == rest[0]);
        }
        lemma_amp_end_at(t, i, j);
        let pair = s.subrange(i, j);
        assert forall|m: int| 0 <= m < j - i implies pair[m] == (seq!['v', '='] + id)[m] by {
            assert(pair[m] == s.subrange(i, hi)[m]);
        }
        assert(pair =~= seq!['v', '='] + id);
        assert(pair.subrange(0, 2) =~= "v="@);
        assert(pair.subrange(2, pair.len() as int) =~= id);
    } else {
        let p0 = before[0];
        let j = i + p0.len();
        let q = pairs_lead(before) + seq!['v', '='] + id + rest;
        let q2 = pairs_lead(before.drop_first()) + seq!['v', '='] + id + rest;
        let q1 = p0 + seq!['&'] + q2;
        assert(q =~= q1);
        assert(s.subrange(i, hi) == q1);
        assert(hi - i == q1.len());
        assert forall|m: int| i <= m < j implies t[m] != '&' by {
            assert(t[m] == s[m]);
            assert(s[m] == s.subrange(i, hi)[m - i]);
            assert(q1[m - i] == p0[m - i]);
        }
        assert(t[j] == s.subrange(i, hi)[j - i]);
        assert(q1[j - i] == '&');
        lemma_amp_end_at(t, i, j);
        let pair = s.subrange(i, j);
        assert(pair =~= p0);
        assert(!is_video_pair(p0));
        if matches_at(pair, 0, "v="@) {
            assert(pair[0] == "v="@[0] && pair[1] == "v="@[1]);
        }
        assert forall|m: int| 0 <= m < q2.len() implies s.subrange(j + 1, hi)[m] == q2[m] by {
            assert(s.subrange(j + 1, hi)[m] == s.subrange(i, hi)[m + j + 1 - i]);
            assert(q1[m + j + 1 - i] == q2[m]);
        }
        assert(s.subrange(j + 1, hi) =~= q2);
        assert forall|k: int|
            0 <= k < before.drop_first().len() implies !is_video_pair(#[trigger] before.drop_first()[k])
                && forall|m: int|
                0 <= m < before.drop_first()[k].len() ==> before.drop_first()[k][m] != '&' by {
            assert(before.drop_first()[k] == before[k + 1]);
        }
        law_watch_id_is_first_video_pair(s, j + 1, hi, before.drop_first(), id, rest);
    }
}

/// A `watch?` link (no embed address, no `youtu.be/` link) whose query is
/// some pairs naming no video, then `v=ID` with `ID` not blank, then the
/// end or `&` and more, normalizes to the embed address of `ID` trimmed.
pub proof fn law_watch_link_takes_first_video_pair(
    raw: Seq<char>,
    a: int,
    b: int,
    before: Seq<Seq<char>>,
    id: Seq<char>,
    rest: Seq<char>,
)
    requires
        find_from(trim(raw), "youtube.com/embed/"@, 0) is None,
        split_second(trim(raw), "youtu.be/"@) is None,
        split_second(trim(raw), "watch?"@) == Some((a, b)),
        trim(raw).subrange(a, b) == pairs_lead(before) + seq!['v', '='] + id + rest,
        forall|k: int|
            0 <= k < before.len() ==> !is_video_pair(#[trigger] before[k]) && forall|m: int|
                0 <= m < before[k].len() ==> before[k][m] != '&',
        forall|m: int| 0 <= m < id.len() ==> id[m] != '&',
        !is_blank(id),
        rest.len() == 0 || rest[0] == '&',
    ensures
        normalized_media_url(raw) == Ok::<Seq<char>, Seq<char>>(embed_url(trim(id))),
{
    let t = trim(raw);
    reveal_strlit("watch?");
    crate::text::lemma_find_from(t, "watch?"@, 0);
    let k = find_from(t, "watch?"@, 0)->0;
    crate::text::lemma_find_from(t, "watch?"@, k + 6);
    law_watch_id_is_first_video_pair(t, a, b, before, id, rest);
}

} // verus!
