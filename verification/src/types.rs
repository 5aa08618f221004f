//! Descriptor and patch kinds, the patches XRDS itself builds, queued work items and the
//! import error.
use vstd::prelude::*;
use crate::ids::{Entity, XrdsId};

verus! {

/// Which descriptor type a spawned entity or a queued item belongs to.
#[derive(Clone, Copy, Debug, PartialEq, Eq, Structural)]
pub enum XrdsDescriptorKind {
    Node,
    Camera,
    GltfAsset,
    Cube,
    Cylinder,
    Capsule,
    Effect,
    Sphere,
    Plane3D,
    Tetrahedron,
    PointLight,
    DirectionalLight,
    SpotLight,
    AmbientLight,
    AudioClip,
    Text,
    ExtrudedText,
    WorldPanel,
    /// A head-up display text, realized by its own spawner.
    HudText,
    /// An interaction zone, realized by its own spawner.
    InteractionZone,
    /// An application-defined descriptor type, by the key the application gave it.
    Custom(u64),
}

/// Which patch type a queued update carries.
#[derive(Clone, Copy, Debug, PartialEq, Eq, Structural)]
pub enum XrdsPatchKind {
    Transform,
    Parent,
    Name,
    Visibility,
    Color,
    MaterialParams,
    CubeGeometry,
    CylinderGeometry,
    CapsuleGeometry,
    SphereGeometry,
    Plane3DGeometry,
    TetrahedronGeometry,
    EffectParams,
    PointLightParams,
    DirectionalLightParams,
    SpotLightParams,
    AmbientLightParams,
    TextParams,
    CameraProjection,
    CameraLookAt,
    GltfAssetSource,
    /// An application-defined patch type, by the key the application gave it.
    Custom(u64),
}

/// A descriptor type that handles can be typed by.
pub trait XrdsComponentType {
    spec fn spec_kind() -> XrdsDescriptorKind;

    fn kind() -> (k: XrdsDescriptorKind)
        ensures
            k == Self::spec_kind(),
    ;
}

/// Type-level tag of the node descriptor.
pub struct XrdsNode;

/// Type-level tag of the camera descriptor.
pub struct XrdsCamera;

/// Type-level tag of the glTF asset descriptor.
pub struct XrdsGltfAsset;

/// Type-level tag of the cube descriptor.
pub struct XrdsCube;

/// Type-level tag of the cylinder descriptor.
pub struct XrdsCylinder;

/// Type-level tag of the capsule descriptor.
pub struct XrdsCapsule;

/// Type-level tag of the particle effect descriptor.
pub struct XrdsEffect;

/// Type-level tag of the sphere descriptor.
pub struct XrdsSphere;

/// Type-level tag of the plane descriptor.
pub struct XrdsPlane3D;

/// Type-level tag of the tetrahedron descriptor.
pub struct XrdsTetrahedron;

/// Type-level tag of the point light descriptor.
pub struct XrdsPointLight;

/// Type-level tag of the directional light descriptor.
pub struct XrdsDirectionalLight;

/// Type-level tag of the spot light descriptor.
pub struct XrdsSpotLight;

/// Type-level tag of the ambient light descriptor.
pub struct XrdsAmbientLight;

/// Type-level tag of the 3D text descriptor.
pub struct XrdsText;

/// Type-level tag of the world panel descriptor.
pub struct XrdsWorldPanel;

/// Type-level tag of a text label on a world panel.
pub struct XrdsWorldLabel;

/// Type-level tag of a button on a world panel.
pub struct XrdsWorldButton;

/// Type-level tag of an image on a world panel.
pub struct XrdsWorldImage;

/// Type-level tag of a slider on a world panel.
pub struct XrdsWorldSlider;

/// Type-level tag of a toggle on a world panel.
pub struct XrdsWorldToggle;

impl XrdsComponentType for XrdsNode {
    open spec fn spec_kind() -> XrdsDescriptorKind {
        XrdsDescriptorKind::Node
    }

    fn kind() -> (k: XrdsDescriptorKind) {
        XrdsDescriptorKind::Node
    }
}

impl XrdsComponentType for XrdsCamera {
    open spec fn spec_kind() -> XrdsDescriptorKind {
        XrdsDescriptorKind::Camera
    }

    fn kind() -> (k: XrdsDescriptorKind) {
        XrdsDescriptorKind::Camera
    }
}

impl XrdsComponentType for XrdsGltfAsset {
    open spec fn spec_kind() -> XrdsDescriptorKind {
        XrdsDescriptorKind::GltfAsset
    }

    fn kind() -> (k: XrdsDescriptorKind) {
        XrdsDescriptorKind::GltfAsset
    }
}

impl XrdsComponentType for XrdsCube {
    open spec fn spec_kind() -> XrdsDescriptorKind {
        XrdsDescriptorKind::Cube
    }

    fn kind() -> (k: XrdsDescriptorKind) {
        XrdsDescriptorKind::Cube
    }
}

impl XrdsComponentType for XrdsCylinder {
    open spec fn spec_kind() -> XrdsDescriptorKind {
        XrdsDescriptorKind::Cylinder
    }

    fn kind() -> (k: XrdsDescriptorKind) {
        XrdsDescriptorKind::Cylinder
    }
}

impl XrdsComponentType for XrdsCapsule {
    open spec fn spec_kind() -> XrdsDescriptorKind {
        XrdsDescriptorKind::Capsule
    }

    fn kind() -> (k: XrdsDescriptorKind) {
        XrdsDescriptorKind::Capsule
    }
}

impl XrdsComponentType for XrdsEffect {
    open spec fn spec_kind() -> XrdsDescriptorKind {
        XrdsDescriptorKind::Effect
    }

    fn kind() -> (k: XrdsDescriptorKind) {
        XrdsDescriptorKind::Effect
    }
}

impl XrdsComponentType for XrdsSphere {
    open spec fn spec_kind() -> XrdsDescriptorKind {
        XrdsDescriptorKind::Sphere
    }

    fn kind() -> (k: XrdsDescriptorKind) {
        XrdsDescriptorKind::Sphere
    }
}

impl XrdsComponentType for XrdsPlane3D {
    open spec fn spec_kind() -> XrdsDescriptorKind {
        XrdsDescriptorKind::Plane3D
    }

    fn kind() -> (k: XrdsDescriptorKind) {
        XrdsDescriptorKind::Plane3D
    }
}

impl XrdsComponentType for XrdsTetrahedron {
    open spec fn spec_kind() -> XrdsDescriptorKind {
        XrdsDescriptorKind::Tetrahedron
    }

    fn kind() -> (k: XrdsDescriptorKind) {
        XrdsDescriptorKind::Tetrahedron
    }
}

impl XrdsComponentType for XrdsPointLight {
    open spec fn spec_kind() -> XrdsDescriptorKind {
        XrdsDescriptorKind::PointLight
    }

    fn kind() -> (k: XrdsDescriptorKind) {
        XrdsDescriptorKind::PointLight
    }
}

impl XrdsComponentType for XrdsDirectionalLight {
    open spec fn spec_kind() -> XrdsDescriptorKind {
        XrdsDescriptorKind::DirectionalLight
    }

    fn kind() -> (k: XrdsDescriptorKind) {
        XrdsDescriptorKind::DirectionalLight
    }
}

impl XrdsComponentType for XrdsSpotLight {
    open spec fn spec_kind() -> XrdsDescriptorKind {
        XrdsDescriptorKind::SpotLight
    }

    fn kind() -> (k: XrdsDescriptorKind) {
        XrdsDescriptorKind::SpotLight
    }
}

impl XrdsComponentType for XrdsAmbientLight {
    open spec fn spec_kind() -> XrdsDescriptorKind {
        XrdsDescriptorKind::AmbientLight
    }

    fn kind() -> (k: XrdsDescriptorKind) {
        XrdsDescriptorKind::AmbientLight
    }
}

impl XrdsComponentType for XrdsText {
    open spec fn spec_kind() -> XrdsDescriptorKind {
        XrdsDescriptorKind::Text
    }

    fn kind() -> (k: XrdsDescriptorKind) {
        XrdsDescriptorKind::Text
    }
}

impl XrdsComponentType for XrdsWorldPanel {
    open spec fn spec_kind() -> XrdsDescriptorKind {
        XrdsDescriptorKind::WorldPanel
    }

    fn kind() -> (k: XrdsDescriptorKind) {
        XrdsDescriptorKind::WorldPanel
    }
}

/// Rename patch.
#[derive(Clone, Debug, PartialEq, Eq)]
pub struct NamePatch {
    pub name: String,
}

/// Visibility patch.
#[derive(Clone, Copy, Debug, PartialEq, Eq, Structural)]
pub struct VisibilityPatch {
    pub visible: bool,
}

/// Re-parenting patch (`None`: detach to the root).
#[derive(Clone, Copy, Debug, PartialEq, Eq, Structural)]
pub struct ParentPatch {
    pub parent_id: Option<XrdsId>,
}

/// glTF source patch: document path and scene index.
#[derive(Clone, Debug, PartialEq, Eq)]
pub struct GltfAssetSourcePatch {
    pub gltf_asset_path: String,
    pub scene_index: usize,
}

/// A camera projection, perspective or orthographic, with its parameters.
#[derive(Clone, Debug, PartialEq, Eq)]
pub enum XrdsCameraProjection<P> {
    Perspective(P),
    Orthographic(P),
}

/// A queued patch. The patches XRDS builds itself are spelled out; every other patch type
/// carries its kind and the application's payload.
#[derive(Clone, Debug, PartialEq, Eq)]
pub enum XrdsPatch<P> {
    Name(NamePatch),
    Visibility(VisibilityPatch),
    Parent(ParentPatch),
    GltfAssetSource(GltfAssetSourcePatch),
    CameraProjection(XrdsCameraProjection<P>),
    Other(XrdsPatchKind, P),
}

/// The kind of a patch.
pub open spec fn patch_kind<P>(patch: XrdsPatch<P>) -> XrdsPatchKind {
    match patch {
        XrdsPatch::Name(_) => XrdsPatchKind::Name,
        XrdsPatch::Visibility(_) => XrdsPatchKind::Visibility,
        XrdsPatch::Parent(_) => XrdsPatchKind::Parent,
        XrdsPatch::GltfAssetSource(_) => XrdsPatchKind::GltfAssetSource,
        XrdsPatch::CameraProjection(_) => XrdsPatchKind::CameraProjection,
        XrdsPatch::Other(k, _) => k,
    }
}

impl<P> XrdsPatch<P> {
    /// The kind of this patch.
    pub fn kind(&self) -> (k: XrdsPatchKind)
        ensures
            k == patch_kind(*self),
    {
        match self {
            XrdsPatch::Name(_) => XrdsPatchKind::Name,
            XrdsPatch::Visibility(_) => XrdsPatchKind::Visibility,
            XrdsPatch::Parent(_) => XrdsPatchKind::Parent,
            XrdsPatch::GltfAssetSource(_) => XrdsPatchKind::GltfAssetSource,
            XrdsPatch::CameraProjection(_) => XrdsPatchKind::CameraProjection,
            XrdsPatch::Other(k, _) => *k,
        }
    }
}

/// A descriptor to realize: its kind, the name and visibility every XRDS object carries,
/// the source of a glTF asset descriptor, and the application's remaining payload.
#[derive(Debug)]
pub struct XrdsDescriptor<D> {
    pub kind: XrdsDescriptorKind,
    pub name: String,
    pub visible: bool,
    pub gltf_source: Option<GltfAssetSourcePatch>,
    pub payload: D,
}

impl GltfAssetSourcePatch {
    /// A copy of this source.
    pub fn copy(&self) -> (r: GltfAssetSourcePatch)
        ensures
            r.gltf_asset_path@ == self.gltf_asset_path@,
            r.scene_index == self.scene_index,
    {
        GltfAssetSourcePatch { gltf_asset_path: self.gltf_asset_path.clone(), scene_index: self.scene_index }
    }
}

/// A copy of an optional glTF source.
pub fn copy_gltf_source(s: &Option<GltfAssetSourcePatch>) -> (r: Option<GltfAssetSourcePatch>)
    ensures
        source_view(r) == source_view(*s),
{
    match s {
        Some(src) => Some(src.copy()),
        None => None,
    }
}

/// A glTF source by value: (document path, scene index).
pub open spec fn source_view(s: Option<GltfAssetSourcePatch>) -> Option<(Seq<char>, usize)> {
    match s {
        Some(src) => Some((src.gltf_asset_path@, src.scene_index)),
        None => None,
    }
}

/// A descriptor by value.
pub struct DescriptorView<D> {
    pub kind: XrdsDescriptorKind,
    pub name: Seq<char>,
    pub visible: bool,
    pub gltf_source: Option<(Seq<char>, usize)>,
    pub payload: D,
}

pub open spec fn descriptor_view<D>(d: XrdsDescriptor<D>) -> DescriptorView<D> {
    DescriptorView { kind: d.kind, name: d.name@, visible: d.visible, gltf_source: source_view(d.gltf_source), payload: d.payload }
}

impl<D: Clone> XrdsDescriptor<D> {
    /// A copy of this descriptor, renamed to `name` when one is given.
    pub fn clone_named(&self, name: Option<&str>) -> (r: XrdsDescriptor<D>)
        ensures
            r.kind == self.kind,
            r.name@ == (match name {
                Some(n) => n@,
                None => self.name@,
            }),
            r.visible == self.visible,
            source_view(r.gltf_source) == source_view(self.gltf_source),
            cloned(self.payload, r.payload),
    {
        let new_name = match name {
            Some(n) => n.to_owned(),
            None => self.name.clone(),
        };
        XrdsDescriptor {
            kind: self.kind,
            name: new_name,
            visible: self.visible,
            gltf_source: copy_gltf_source(&self.gltf_source),
            payload: self.payload.clone(),
        }
    }
}

/// A descriptor waiting to be spawned under a reserved id.
pub struct QueuedSurfaceComponent<D> {
    pub id: XrdsId,
    pub component: XrdsDescriptor<D>,
    pub parent_id: Option<XrdsId>,
}

/// A patch waiting to be applied to a live entity.
pub struct QueuedSurfaceUpdate<P> {
    pub entity: Entity,
    pub component_type: XrdsDescriptorKind,
    pub patch: XrdsPatch<P>,
}

/// Why an import was refused.
#[derive(Clone, Debug, PartialEq, Eq)]
pub enum XrdsSceneImportError {
    /// The id is already live in the runtime.
    DuplicateRuntimeId(XrdsId),
    /// The document could not be read or converted.
    InvalidDocument(String),
}

/// The message of the refusal of a document node the engine realized no entity for.
pub open spec fn not_realized_text(id: XrdsId) -> Seq<char> {
    "spawn returned None for XrdsId("@ + crate::catalog::decimal(id.0 as nat) + seq![')']
}

/// The refusal of a document node the engine realized no entity for: the document is
/// invalid, with the message `not_realized_text(id)`.
pub fn not_realized(id: XrdsId) -> (e: XrdsSceneImportError)
    ensures
        e matches XrdsSceneImportError::InvalidDocument(m) && m@ == not_realized_text(id),
{
    let mut m = String::new();
    crate::catalog::push_text(&mut m, "spawn returned None for XrdsId(");
    crate::catalog::push_decimal(&mut m, id.0 as u128);
    crate::paths::push_char(&mut m, ')');
    XrdsSceneImportError::InvalidDocument(m)
}

} // verus!
