//! Which descriptor types can be realized, rebuilt from a recipe, cloned, and patched.
//! The callbacks themselves belong to the engine side; these registries decide dispatch.
use vstd::prelude::*;
use crate::types::{XrdsDescriptorKind, XrdsPatchKind};

verus! {

broadcast use vstd::seq::Seq::lemma_push_to_set_commute;

fn vec_contains_kind(v: &Vec<XrdsDescriptorKind>, k: XrdsDescriptorKind) -> (r: bool)
    ensures
        r == v@.contains(k),
{
    let mut i: usize = 0;
    while i < v.len()
        invariant
            i <= v.len(),
            forall|j: int| 0 <= j < i ==> v@[j] != k,
        decreases v.len() - i,
    {
        if v[i] == k {
            return true;
        }
        i = i + 1;
    }
    false
}

fn vec_contains_pair(v: &Vec<(XrdsDescriptorKind, XrdsPatchKind)>, k: (XrdsDescriptorKind, XrdsPatchKind)) -> (r: bool)
    ensures
        r == v@.contains(k),
{
    let mut i: usize = 0;
    while i < v.len()
        invariant
            i <= v.len(),
            forall|j: int| 0 <= j < i ==> v@[j] != k,
        decreases v.len() - i,
    {
        if v[i].0 == k.0 && v[i].1 == k.1 {
            return true;
        }
        i = i + 1;
    }
    false
}

/// Descriptor types with an entity interpreter, and those that also have a geometry recipe.
pub struct SurfaceInterpreterRegistry {
    interpreters: Vec<XrdsDescriptorKind>,
    recipes: Vec<XrdsDescriptorKind>,
}

impl SurfaceInterpreterRegistry {
    pub closed spec fn interpreters(&self) -> Set<XrdsDescriptorKind> {
        self.interpreters@.to_set()
    }

    pub closed spec fn recipes(&self) -> Set<XrdsDescriptorKind> {
        self.recipes@.to_set()
    }

    pub fn new() -> (r: SurfaceInterpreterRegistry)
        ensures
            r.interpreters() == Set::<XrdsDescriptorKind>::empty(),
            r.recipes() == Set::<XrdsDescriptorKind>::empty(),
    {
        let r = SurfaceInterpreterRegistry { interpreters: Vec::new(), recipes: Vec::new() };
        assert(r.interpreters@.to_set() =~= Set::<XrdsDescriptorKind>::empty());
        assert(r.recipes@.to_set() =~= Set::<XrdsDescriptorKind>::empty());
        r
    }

    /// Record an entity interpreter for `kind` (replacing any earlier one).
    pub fn register_entity(&mut self, kind: XrdsDescriptorKind)
        ensures
            final(self).interpreters() == old(self).interpreters().insert(kind),
            final(self).recipes() == old(self).recipes(),
    {
        if !vec_contains_kind(&self.interpreters, kind) {
            self.interpreters.push(kind);
        }
        assert(self.interpreters@.to_set() =~= old(self).interpreters@.to_set().insert(kind));
    }

    /// Record a geometry recipe for `kind` without an entity interpreter.
    pub fn register_recipe_only(&mut self, kind: XrdsDescriptorKind)
        ensures
            final(self).recipes() == old(self).recipes().insert(kind),
            final(self).interpreters() == old(self).interpreters(),
    {
        if !vec_contains_kind(&self.recipes, kind) {
            self.recipes.push(kind);
        }
        assert(self.recipes@.to_set() =~= old(self).recipes@.to_set().insert(kind));
    }

    /// Record a recipe together with the entity interpreter that realizes it.
    pub fn register_recipe(&mut self, kind: XrdsDescriptorKind)
        ensures
            final(self).recipes() == old(self).recipes().insert(kind),
            final(self).interpreters() == old(self).interpreters().insert(kind),
    {
        self.register_recipe_only(kind);
        self.register_entity(kind);
    }

    /// Whether `kind` has an entity interpreter.
    pub fn has_interpreter(&self, kind: XrdsDescriptorKind) -> (r: bool)
        ensures
            r == self.interpreters().contains(kind),
    {
        let r = vec_contains_kind(&self.interpreters, kind);
        proof {
            if self.interpreters@.contains(kind) {
                assert(self.interpreters@.to_set().contains(kind));
            }
        }
        r
    }

    /// Whether `kind` has a geometry recipe.
    pub fn has_recipe(&self, kind: XrdsDescriptorKind) -> (r: bool)
        ensures
            r == self.recipes().contains(kind),
    {
        vec_contains_kind(&self.recipes, kind)
    }
}

/// The descriptor types realized out of the box.
pub open spec fn default_interpreter_kinds() -> Set<XrdsDescriptorKind> {
    set![
        XrdsDescriptorKind::Node,
        XrdsDescriptorKind::Camera,
        XrdsDescriptorKind::PointLight,
        XrdsDescriptorKind::DirectionalLight,
        XrdsDescriptorKind::SpotLight,
        XrdsDescriptorKind::AmbientLight,
        XrdsDescriptorKind::GltfAsset,
        XrdsDescriptorKind::Cube,
        XrdsDescriptorKind::Cylinder,
        XrdsDescriptorKind::Capsule,
        XrdsDescriptorKind::Effect,
        XrdsDescriptorKind::Sphere,
        XrdsDescriptorKind::Plane3D,
        XrdsDescriptorKind::WorldPanel,
        XrdsDescriptorKind::AudioClip,
        XrdsDescriptorKind::Text,
        XrdsDescriptorKind::ExtrudedText,
        XrdsDescriptorKind::Tetrahedron
    ]
}

/// The descriptor types with a geometry recipe out of the box.
pub open spec fn default_recipe_kinds() -> Set<XrdsDescriptorKind> {
    set![
        XrdsDescriptorKind::Cube,
        XrdsDescriptorKind::Cylinder,
        XrdsDescriptorKind::Capsule,
        XrdsDescriptorKind::Sphere,
        XrdsDescriptorKind::Plane3D,
        XrdsDescriptorKind::Tetrahedron
    ]
}

/// Register the built-in interpreters and recipes.
pub fn register_default_interpreters(registry: &mut SurfaceInterpreterRegistry)
    ensures
        final(registry).interpreters() == old(registry).interpreters().union(default_interpreter_kinds()),
        final(registry).recipes() == old(registry).recipes().union(default_recipe_kinds()),
{
    registry.register_entity(XrdsDescriptorKind::Node);
    registry.register_entity(XrdsDescriptorKind::Camera);
    registry.register_entity(XrdsDescriptorKind::PointLight);
    registry.register_entity(XrdsDescriptorKind::DirectionalLight);
    registry.register_entity(XrdsDescriptorKind::SpotLight);
    registry.register_entity(XrdsDescriptorKind::AmbientLight);
    registry.register_entity(XrdsDescriptorKind::GltfAsset);
    registry.register_recipe_only(XrdsDescriptorKind::Cube);
    registry.register_entity(XrdsDescriptorKind::Cube);
    registry.register_recipe_only(XrdsDescriptorKind::Cylinder);
    registry.register_entity(XrdsDescriptorKind::Cylinder);
    registry.register_recipe_only(XrdsDescriptorKind::Capsule);
    registry.register_entity(XrdsDescriptorKind::Capsule);
    registry.register_entity(XrdsDescriptorKind::Effect);
    registry.register_recipe_only(XrdsDescriptorKind::Sphere);
    registry.register_entity(XrdsDescriptorKind::Sphere);
    registry.register_recipe_only(XrdsDescriptorKind::Plane3D);
    registry.register_entity(XrdsDescriptorKind::Plane3D);
    registry.register_recipe_only(XrdsDescriptorKind::Tetrahedron);
    registry.register_entity(XrdsDescriptorKind::WorldPanel);
    registry.register_entity(XrdsDescriptorKind::AudioClip);
    registry.register_entity(XrdsDescriptorKind::Text);
    registry.register_entity(XrdsDescriptorKind::ExtrudedText);
    registry.register_entity(XrdsDescriptorKind::Tetrahedron);
    assert(registry.interpreters() =~= old(registry).interpreters().union(default_interpreter_kinds()));
    assert(registry.recipes() =~= old(registry).recipes().union(default_recipe_kinds()));
}

/// Descriptor types whose stored descriptor can be cloned for duplication.
pub struct SurfaceDescriptorRegistry {
    cloners: Vec<XrdsDescriptorKind>,
}

impl SurfaceDescriptorRegistry {
    pub closed spec fn cloners(&self) -> Set<XrdsDescriptorKind> {
        self.cloners@.to_set()
    }

    pub fn new() -> (r: SurfaceDescriptorRegistry)
        ensures
            r.cloners() == Set::<XrdsDescriptorKind>::empty(),
    {
        let r = SurfaceDescriptorRegistry { cloners: Vec::new() };
        assert(r.cloners@.to_set() =~= Set::<XrdsDescriptorKind>::empty());
        r
    }

    /// Record that `kind` can be cloned.
    pub fn register_clone(&mut self, kind: XrdsDescriptorKind)
        ensures
            final(self).cloners() == old(self).cloners().insert(kind),
    {
        if !vec_contains_kind(&self.cloners, kind) {
            self.cloners.push(kind);
        }
        assert(self.cloners@.to_set() =~= old(self).cloners@.to_set().insert(kind));
    }

    /// Whether `kind` can be cloned.
    pub fn can_clone(&self, kind: XrdsDescriptorKind) -> (r: bool)
        ensures
            r == self.cloners().contains(kind),
    {
        vec_contains_kind(&self.cloners, kind)
    }
}

/// The descriptor types cloneable out of the box.
pub open spec fn default_cloner_kinds() -> Set<XrdsDescriptorKind> {
    set![
        XrdsDescriptorKind::Node,
        XrdsDescriptorKind::Camera,
        XrdsDescriptorKind::GltfAsset,
        XrdsDescriptorKind::Cube,
        XrdsDescriptorKind::Cylinder,
        XrdsDescriptorKind::Capsule,
        XrdsDescriptorKind::Effect,
        XrdsDescriptorKind::Sphere,
        XrdsDescriptorKind::Plane3D,
        XrdsDescriptorKind::Tetrahedron,
        XrdsDescriptorKind::PointLight,
        XrdsDescriptorKind::DirectionalLight,
        XrdsDescriptorKind::SpotLight,
        XrdsDescriptorKind::AmbientLight,
        XrdsDescriptorKind::AudioClip,
        XrdsDescriptorKind::Text,
        XrdsDescriptorKind::ExtrudedText
    ]
}

/// Register cloning for the built-in descriptors.
pub fn register_default_descriptor_cloners(registry: &mut SurfaceDescriptorRegistry)
    ensures
        final(registry).cloners() == old(registry).cloners().union(default_cloner_kinds()),
{
    registry.register_clone(XrdsDescriptorKind::Node);
    registry.register_clone(XrdsDescriptorKind::Camera);
    registry.register_clone(XrdsDescriptorKind::GltfAsset);
    registry.register_clone(XrdsDescriptorKind::Cube);
    registry.register_clone(XrdsDescriptorKind::Cylinder);
    registry.register_clone(XrdsDescriptorKind::Capsule);
    registry.register_clone(XrdsDescriptorKind::Effect);
    registry.register_clone(XrdsDescriptorKind::Sphere);
    registry.register_clone(XrdsDescriptorKind::Plane3D);
    registry.register_clone(XrdsDescriptorKind::Tetrahedron);
    registry.register_clone(XrdsDescriptorKind::PointLight);
    registry.register_clone(XrdsDescriptorKind::DirectionalLight);
    registry.register_clone(XrdsDescriptorKind::SpotLight);
    registry.register_clone(XrdsDescriptorKind::AmbientLight);
    registry.register_clone(XrdsDescriptorKind::AudioClip);
    registry.register_clone(XrdsDescriptorKind::Text);
    registry.register_clone(XrdsDescriptorKind::ExtrudedText);
    assert(registry.cloners() =~= old(registry).cloners().union(default_cloner_kinds()));
}

/// (descriptor type, patch type) pairs that have an updater.
pub struct SurfaceUpdateRegistry {
    updaters: Vec<(XrdsDescriptorKind, XrdsPatchKind)>,
}

/// The transform, parent, name and visibility patches of one descriptor type.
pub open spec fn common_updater_pairs(k: XrdsDescriptorKind) -> Set<(XrdsDescriptorKind, XrdsPatchKind)> {
    set![
        (k, XrdsPatchKind::Transform),
        (k, XrdsPatchKind::Parent),
        (k, XrdsPatchKind::Name),
        (k, XrdsPatchKind::Visibility)
    ]
}

/// The common patches plus color, material and one geometry patch of a mesh descriptor.
pub open spec fn mesh_updater_pairs(k: XrdsDescriptorKind, geometry: XrdsPatchKind) -> Set<(XrdsDescriptorKind, XrdsPatchKind)> {
    common_updater_pairs(k).union(set![
        (k, XrdsPatchKind::Color),
        (k, XrdsPatchKind::MaterialParams),
        (k, geometry)
    ])
}

/// The updaters available out of the box.
pub open spec fn default_updater_pairs() -> Set<(XrdsDescriptorKind, XrdsPatchKind)> {
    common_updater_pairs(XrdsDescriptorKind::Node)
        .union(common_updater_pairs(XrdsDescriptorKind::Camera))
        .union(common_updater_pairs(XrdsDescriptorKind::GltfAsset))
        .union(mesh_updater_pairs(XrdsDescriptorKind::Cube, XrdsPatchKind::CubeGeometry))
        .union(mesh_updater_pairs(XrdsDescriptorKind::Cylinder, XrdsPatchKind::CylinderGeometry))
        .union(mesh_updater_pairs(XrdsDescriptorKind::Sphere, XrdsPatchKind::SphereGeometry))
        .union(mesh_updater_pairs(XrdsDescriptorKind::Plane3D, XrdsPatchKind::Plane3DGeometry))
        .union(mesh_updater_pairs(XrdsDescriptorKind::Tetrahedron, XrdsPatchKind::TetrahedronGeometry))
        .union(common_updater_pairs(XrdsDescriptorKind::PointLight).insert((XrdsDescriptorKind::PointLight, XrdsPatchKind::PointLightParams)))
        .union(common_updater_pairs(XrdsDescriptorKind::DirectionalLight).insert((XrdsDescriptorKind::DirectionalLight, XrdsPatchKind::DirectionalLightParams)))
        .union(common_updater_pairs(XrdsDescriptorKind::SpotLight).insert((XrdsDescriptorKind::SpotLight, XrdsPatchKind::SpotLightParams)))
        .union(common_updater_pairs(XrdsDescriptorKind::AmbientLight).insert((XrdsDescriptorKind::AmbientLight, XrdsPatchKind::AmbientLightParams)))
        .insert((XrdsDescriptorKind::Camera, XrdsPatchKind::CameraProjection))
        .insert((XrdsDescriptorKind::Camera, XrdsPatchKind::CameraLookAt))
        .insert((XrdsDescriptorKind::GltfAsset, XrdsPatchKind::GltfAssetSource))
}

impl SurfaceUpdateRegistry {
    pub closed spec fn updaters(&self) -> Set<(XrdsDescriptorKind, XrdsPatchKind)> {
        self.updaters@.to_set()
    }

    pub fn new() -> (r: SurfaceUpdateRegistry)
        ensures
            r.updaters() == Set::<(XrdsDescriptorKind, XrdsPatchKind)>::empty(),
    {
        let r = SurfaceUpdateRegistry { updaters: Vec::new() };
        assert(r.updaters@.to_set() =~= Set::<(XrdsDescriptorKind, XrdsPatchKind)>::empty());
        r
    }

    /// Record an updater for patches of type `patch` on descriptors of type `component`.
    pub fn register(&mut self, component: XrdsDescriptorKind, patch: XrdsPatchKind)
        ensures
            final(self).updaters() == old(self).updaters().insert((component, patch)),
    {
        if !vec_contains_pair(&self.updaters, (component, patch)) {
            self.updaters.push((component, patch));
        }
        assert(self.updaters@.to_set() =~= old(self).updaters@.to_set().insert((component, patch)));
    }

    /// Whether an updater exists for the pair.
    pub fn updater_for(&self, component: XrdsDescriptorKind, patch: XrdsPatchKind) -> (r: bool)
        ensures
            r == self.updaters().contains((component, patch)),
    {
        vec_contains_pair(&self.updaters, (component, patch))
    }

    /// Register the transform, parent, name and visibility updaters of a stored descriptor.
    pub fn register_common_stored_updaters(&mut self, component: XrdsDescriptorKind)
        ensures
            final(self).updaters() == old(self).updaters().union(common_updater_pairs(component)),
    {
        self.register(component, XrdsPatchKind::Transform);
        self.register(component, XrdsPatchKind::Parent);
        self.register(component, XrdsPatchKind::Name);
        self.register(component, XrdsPatchKind::Visibility);
        assert(self.updaters() =~= old(self).updaters().union(common_updater_pairs(component)));
    }

    fn register_stored_mesh_updaters(&mut self, component: XrdsDescriptorKind, geometry: XrdsPatchKind)
        ensures
            final(self).updaters() == old(self).updaters().union(mesh_updater_pairs(component, geometry)),
    {
        self.register_common_stored_updaters(component);
        self.register(component, XrdsPatchKind::Color);
        self.register(component, XrdsPatchKind::MaterialParams);
        self.register(component, geometry);
        assert(self.updaters() =~= old(self).updaters().union(mesh_updater_pairs(component, geometry)));
    }

    fn register_stored_light_updaters(&mut self, component: XrdsDescriptorKind, params: XrdsPatchKind)
        ensures
            final(self).updaters() == old(self).updaters().union(common_updater_pairs(component).insert((component, params))),
    {
        self.register_common_stored_updaters(component);
        self.register(component, params);
        assert(self.updaters() =~= old(self).updaters().union(common_updater_pairs(component).insert((component, params))));
    }
}

/// Register the built-in updaters.
pub fn register_default_updaters(registry: &mut SurfaceUpdateRegistry)
    ensures
        final(registry).updaters() == old(registry).updaters().union(default_updater_pairs()),
{
    registry.register_common_stored_updaters(XrdsDescriptorKind::Node);
    registry.register_common_stored_updaters(XrdsDescriptorKind::Camera);
    registry.register_common_stored_updaters(XrdsDescriptorKind::GltfAsset);
    registry.register_stored_mesh_updaters(XrdsDescriptorKind::Cube, XrdsPatchKind::CubeGeometry);
    registry.register_stored_mesh_updaters(XrdsDescriptorKind::Cylinder, XrdsPatchKind::CylinderGeometry);
    registry.register_stored_mesh_updaters(XrdsDescriptorKind::Sphere, XrdsPatchKind::SphereGeometry);
    registry.register_stored_mesh_updaters(XrdsDescriptorKind::Plane3D, XrdsPatchKind::Plane3DGeometry);
    registry.register_stored_mesh_updaters(XrdsDescriptorKind::Tetrahedron, XrdsPatchKind::TetrahedronGeometry);
    registry.register_stored_light_updaters(XrdsDescriptorKind::PointLight, XrdsPatchKind::PointLightParams);
    registry.register_stored_light_updaters(XrdsDescriptorKind::DirectionalLight, XrdsPatchKind::DirectionalLightParams);
    registry.register_stored_light_updaters(XrdsDescriptorKind::SpotLight, XrdsPatchKind::SpotLightParams);
    registry.register_stored_light_updaters(XrdsDescriptorKind::AmbientLight, XrdsPatchKind::AmbientLightParams);
    registry.register(XrdsDescriptorKind::Camera, XrdsPatchKind::CameraProjection);
    registry.register(XrdsDescriptorKind::Camera, XrdsPatchKind::CameraLookAt);
    registry.register(XrdsDescriptorKind::GltfAsset, XrdsPatchKind::GltfAssetSource);
    assert(registry.updaters() =~= old(registry).updaters().union(default_updater_pairs()));
}

} // verus!
