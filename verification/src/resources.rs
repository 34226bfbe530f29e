use vstd::prelude::*;

use crate::error::{result_view, LoadError, LoadErrorView, ResourceKind};
use crate::instance::{Instance, InstanceView};
use crate::material::{Material, MaterialView};
use crate::medium::{Medium, MediumView};
use crate::params::{key_index, keys_distinct, lemma_key_index_found, lemma_key_index_range};

verus! {

/// A handle to a texture registered in [`SceneResources`]; materials share
/// textures through these handles.
#[derive(Debug, Clone, Copy, PartialEq, Eq, Structural)]
pub struct TextureId {
    pub index: usize,
}

/// A handle to a primitive registered in [`SceneResources`]; instances place
/// primitives through these handles.
#[derive(Debug, Clone, Copy, PartialEq, Eq, Structural)]
pub struct PrimitiveId {
    pub index: usize,
}

/// A handle to a surface registered in [`SceneResources`].
#[derive(Debug, Clone, Copy, PartialEq, Eq, Structural)]
pub struct SurfaceId {
    pub index: usize,
}

/// A handle to a material registered in [`SceneResources`].
#[derive(Debug, Clone, Copy, PartialEq, Eq, Structural)]
pub struct MaterialId {
    pub index: usize,
}

/// Abstract state of the resource tables: the names of textures, primitives and
/// surfaces in registration order (a handle is a position), and the named
/// materials, media and instances.
pub struct ResourcesView {
    pub textures: Seq<Seq<char>>,
    pub primitives: Seq<Seq<char>>,
    pub surfaces: Seq<Seq<char>>,
    pub material_names: Seq<Seq<char>>,
    pub materials: Seq<MaterialView>,
    pub medium_names: Seq<Seq<char>>,
    pub media: Seq<MediumView>,
    pub instance_names: Seq<Seq<char>>,
    pub instances: Seq<InstanceView>,
}

/// Looking `name` up among `names`: its position, or the error for a missing
/// resource of `kind`.
pub open spec fn position_of(names: Seq<Seq<char>>, name: Seq<char>, kind: ResourceKind) -> Result<int, LoadErrorView> {
    let i = key_index(names, name);
    if i >= 0 {
        Ok(i)
    } else {
        Err(LoadErrorView::MissingResource { kind, name })
    }
}

impl ResourcesView {
    pub open spec fn wf(self) -> bool {
        &&& keys_distinct(self.textures)
        &&& keys_distinct(self.primitives)
        &&& keys_distinct(self.surfaces)
        &&& keys_distinct(self.material_names)
        &&& self.materials.len() == self.material_names.len()
        &&& keys_distinct(self.medium_names)
        &&& self.media.len() == self.medium_names.len()
        &&& keys_distinct(self.instance_names)
        &&& self.instances.len() == self.instance_names.len()
    }

    /// Looking up a texture by name.
    pub open spec fn texture(self, name: Seq<char>) -> Result<TextureId, LoadErrorView> {
        match position_of(self.textures, name, ResourceKind::Texture) {
            Ok(i) => Ok(TextureId { index: i as usize }),
            Err(e) => Err(e),
        }
    }

    /// Looking up a primitive by name.
    pub open spec fn primitive(self, name: Seq<char>) -> Result<PrimitiveId, LoadErrorView> {
        match position_of(self.primitives, name, ResourceKind::Primitive) {
            Ok(i) => Ok(PrimitiveId { index: i as usize }),
            Err(e) => Err(e),
        }
    }

    /// Looking up a surface by name.
    pub open spec fn surface(self, name: Seq<char>) -> Result<SurfaceId, LoadErrorView> {
        match position_of(self.surfaces, name, ResourceKind::Surface) {
            Ok(i) => Ok(SurfaceId { index: i as usize }),
            Err(e) => Err(e),
        }
    }

    /// The handle of the material called `name`.
    pub open spec fn material_id(self, name: Seq<char>) -> Result<MaterialId, LoadErrorView> {
        match position_of(self.material_names, name, ResourceKind::Material) {
            Ok(i) => Ok(MaterialId { index: i as usize }),
            Err(e) => Err(e),
        }
    }

    /// Looking up a material by name.
    pub open spec fn material(self, name: Seq<char>) -> Result<MaterialView, LoadErrorView> {
        match position_of(self.material_names, name, ResourceKind::Material) {
            Ok(i) => Ok(self.materials[i]),
            Err(e) => Err(e),
        }
    }

    /// Looking up a medium by name.
    pub open spec fn medium(self, name: Seq<char>) -> Result<MediumView, LoadErrorView> {
        match position_of(self.medium_names, name, ResourceKind::Medium) {
            Ok(i) => Ok(self.media[i]),
            Err(e) => Err(e),
        }
    }

    /// Looking up an instance by name.
    pub open spec fn instance(self, name: Seq<char>) -> Result<InstanceView, LoadErrorView> {
        match position_of(self.instance_names, name, ResourceKind::Instance) {
            Ok(i) => Ok(self.instances[i]),
            Err(e) => Err(e),
        }
    }

    /// Registering a texture: its handle, or an error when the name is taken.
    pub open spec fn add_texture(self, name: Seq<char>) -> (ResourcesView, Result<TextureId, LoadErrorView>) {
        if key_index(self.textures, name) >= 0 {
            (self, Err(LoadErrorView::DuplicateName { kind: ResourceKind::Texture, name }))
        } else {
            (
                ResourcesView { textures: self.textures.push(name), ..self },
                Ok(TextureId { index: self.textures.len() as usize }),
            )
        }
    }

    /// Registering a primitive: its handle, or an error when the name is taken.
    pub open spec fn add_primitive(self, name: Seq<char>) -> (ResourcesView, Result<PrimitiveId, LoadErrorView>) {
        if key_index(self.primitives, name) >= 0 {
            (self, Err(LoadErrorView::DuplicateName { kind: ResourceKind::Primitive, name }))
        } else {
            (
                ResourcesView { primitives: self.primitives.push(name), ..self },
                Ok(PrimitiveId { index: self.primitives.len() as usize }),
            )
        }
    }

    /// Registering a surface: its handle, or an error when the name is taken.
    pub open spec fn add_surface(self, name: Seq<char>) -> (ResourcesView, Result<SurfaceId, LoadErrorView>) {
        if key_index(self.surfaces, name) >= 0 {
            (self, Err(LoadErrorView::DuplicateName { kind: ResourceKind::Surface, name }))
        } else {
            (
                ResourcesView { surfaces: self.surfaces.push(name), ..self },
                Ok(SurfaceId { index: self.surfaces.len() as usize }),
            )
        }
    }

    /// Registering a material under a name that must not be taken yet.
    pub open spec fn add_material(self, name: Seq<char>, m: MaterialView) -> (ResourcesView, Result<(), LoadErrorView>) {
        if key_index(self.material_names, name) >= 0 {
            (self, Err(LoadErrorView::DuplicateName { kind: ResourceKind::Material, name }))
        } else {
            (
                ResourcesView {
                    material_names: self.material_names.push(name),
                    materials: self.materials.push(m),
                    ..self
                },
                Ok(()),
            )
        }
    }

    /// Registering a medium under a name that must not be taken yet.
    pub open spec fn add_medium(self, name: Seq<char>, m: MediumView) -> (ResourcesView, Result<(), LoadErrorView>) {
        if key_index(self.medium_names, name) >= 0 {
            (self, Err(LoadErrorView::DuplicateName { kind: ResourceKind::Medium, name }))
        } else {
            (
                ResourcesView {
                    medium_names: self.medium_names.push(name),
                    media: self.media.push(m),
                    ..self
                },
                Ok(()),
            )
        }
    }

    /// Registering an instance under a name that must not be taken yet.
    pub open spec fn add_instance(self, name: Seq<char>, m: InstanceView) -> (ResourcesView, Result<(), LoadErrorView>) {
        if key_index(self.instance_names, name) >= 0 {
            (self, Err(LoadErrorView::DuplicateName { kind: ResourceKind::Instance, name }))
        } else {
            (
                ResourcesView {
                    instance_names: self.instance_names.push(name),
                    instances: self.instances.push(m),
                    ..self
                },
                Ok(()),
            )
        }
    }
}

/// The named textures, primitives, surfaces, materials, media and instances of a
/// scene being loaded. Textures, primitives and surfaces are built by the renderer;
/// the tables hand out their handles.
pub struct SceneResources {
    texture_names: Vec<String>,
    primitive_names: Vec<String>,
    surface_names: Vec<String>,
    material_names: Vec<String>,
    materials: Vec<Material>,
    medium_names: Vec<String>,
    media: Vec<Medium>,
    instance_names: Vec<String>,
    instances: Vec<Instance>,
}

/// Names taken as character sequences.
pub open spec fn names_view(names: Seq<String>) -> Seq<Seq<char>> {
    names.map_values(|k: String| k@)
}

impl View for SceneResources {
    type V = ResourcesView;

    closed spec fn view(&self) -> ResourcesView {
        ResourcesView {
            textures: names_view(self.texture_names@),
            primitives: names_view(self.primitive_names@),
            surfaces: names_view(self.surface_names@),
            material_names: names_view(self.material_names@),
            materials: self.materials@.map_values(|m: Material| m@),
            medium_names: names_view(self.medium_names@),
            media: self.media@.map_values(|m: Medium| m@),
            instance_names: names_view(self.instance_names@),
            instances: self.instances@.map_values(|m: Instance| m@),
        }
    }
}

/// Position of `name` among `names`, if present.
fn find_name(names: &Vec<String>, name: &String) -> (r: Option<usize>)
    requires
        keys_distinct(names_view(names@)),
    ensures
        match r {
            Some(i) => i < names.len() && key_index(names_view(names@), name@) == i,
            None => key_index(names_view(names@), name@) == -1,
        },
{
    let ghost keys = names_view(names@);
    let mut i: usize = 0;
    while i < names.len()
        invariant
            keys == names_view(names@),
            keys_distinct(keys),
            i <= names.len(),
            forall|j: int| 0 <= j < i ==> keys[j] != name@,
        decreases names.len() - i,
    {
        if names[i] == *name {
            assert(keys[i as int] == name@);
            return Some(i);
        }
        assert(keys[i as int] != name@);
        i = i + 1;
    }
    None
}

/// The position of `name` among `names`, or the error for a missing resource of
/// `kind`.
fn lookup(names: &Vec<String>, name: String, kind: ResourceKind) -> (res: Result<usize, LoadError>)
    requires
        keys_distinct(names_view(names@)),
    ensures
        match res {
            Ok(i) => i < names.len() && position_of(names_view(names@), name@, kind) == Ok::<int, LoadErrorView>(i as int),
            Err(e) => position_of(names_view(names@), name@, kind) == Err::<int, LoadErrorView>(e@),
        },
{
    match find_name(names, &name) {
        Some(i) => Ok(i),
        None => Err(LoadError::MissingResource { kind, name }),
    }
}

/// Appends `name` when it is not among `names` yet and returns its position;
/// `None`, with `names` unchanged, when it is.
fn push_fresh(names: &mut Vec<String>, name: &String) -> (res: Option<usize>)
    requires
        keys_distinct(names_view(old(names)@)),
    ensures
        keys_distinct(names_view(final(names)@)),
        key_index(names_view(old(names)@), name@) >= 0 ==> res is None && final(names)@ == old(names)@,
        key_index(names_view(old(names)@), name@) < 0 ==> res == Some(old(names)@.len() as usize)
            && names_view(final(names)@) == names_view(old(names)@).push(name@)
            && final(names)@ == old(names)@.push(*name),
{
    match find_name(names, name) {
        Some(_) => None,
        None => {
            let ghost before = names_view(names@);
            let index = names.len();
            names.push(name.clone());
            proof {
                assert(names_view(names@) =~= before.push(name@));
                lemma_push_fresh(before, name@);
            }
            Some(index)
        },
    }
}

impl SceneResources {
    pub closed spec fn wf(&self) -> bool {
        self@.wf()
    }

    /// Well-formed tables have a well-formed view, so the laws stated over views
    /// apply to them.
    pub proof fn lemma_view_wf(&self)
        requires
            self.wf(),
        ensures
            self@.wf(),
    {
    }

    /// Empty tables.
    pub fn new() -> (res: Self)
        ensures
            res.wf(),
            res@.textures.len() == 0,
            res@.primitives.len() == 0,
            res@.surfaces.len() == 0,
            res@.material_names.len() == 0,
            res@.medium_names.len() == 0,
            res@.instance_names.len() == 0,
    {
        let res = SceneResources {
            texture_names: Vec::new(),
            primitive_names: Vec::new(),
            surface_names: Vec::new(),
            material_names: Vec::new(),
            materials: Vec::new(),
            medium_names: Vec::new(),
            media: Vec::new(),
            instance_names: Vec::new(),
            instances: Vec::new(),
        };
        proof {
            assert(res@.textures =~= Seq::<Seq<char>>::empty());
            assert(res@.primitives =~= Seq::<Seq<char>>::empty());
            assert(res@.surfaces =~= Seq::<Seq<char>>::empty());
            assert(res@.material_names =~= Seq::<Seq<char>>::empty());
            assert(res@.medium_names =~= Seq::<Seq<char>>::empty());
            assert(res@.instance_names =~= Seq::<Seq<char>>::empty());
        }
        res
    }

    /// Registers a texture under a fresh name and returns its handle.
    pub fn add_texture(&mut self, name: String) -> (res: Result<TextureId, LoadError>)
        requires
            old(self).wf(),
        ensures
            final(self).wf(),
            (final(self)@, result_view(res)) == old(self)@.add_texture(name@),
    {
        match push_fresh(&mut self.texture_names, &name) {
            Some(index) => Ok(TextureId { index }),
            None => Err(LoadError::DuplicateName { kind: ResourceKind::Texture, name }),
        }
    }

    /// The handle of the texture called `name`.
    pub fn clone_texture(&self, name: String) -> (res: Result<TextureId, LoadError>)
        requires
            self.wf(),
        ensures
            result_view(res) == self@.texture(name@),
    {
        let index = lookup(&self.texture_names, name, ResourceKind::Texture)?;
        Ok(TextureId { index })
    }

    /// Registers a primitive, built by the renderer, under a fresh name and
    /// returns its handle.
    pub fn add_primitive(&mut self, name: String) -> (res: Result<PrimitiveId, LoadError>)
        requires
            old(self).wf(),
        ensures
            final(self).wf(),
            (final(self)@, result_view(res)) == old(self)@.add_primitive(name@),
    {
        match push_fresh(&mut self.primitive_names, &name) {
            Some(index) => Ok(PrimitiveId { index }),
            None => Err(LoadError::DuplicateName { kind: ResourceKind::Primitive, name }),
        }
    }

    /// The handle of the primitive called `name`.
    pub fn clone_primitive(&self, name: String) -> (res: Result<PrimitiveId, LoadError>)
        requires
            self.wf(),
        ensures
            result_view(res) == self@.primitive(name@),
    {
        let index = lookup(&self.primitive_names, name, ResourceKind::Primitive)?;
        Ok(PrimitiveId { index })
    }

    /// Registers a surface, built by the renderer, under a fresh name and returns
    /// its handle.
    pub fn add_surface(&mut self, name: String) -> (res: Result<SurfaceId, LoadError>)
        requires
            old(self).wf(),
        ensures
            final(self).wf(),
            (final(self)@, result_view(res)) == old(self)@.add_surface(name@),
    {
        match push_fresh(&mut self.surface_names, &name) {
            Some(index) => Ok(SurfaceId { index }),
            None => Err(LoadError::DuplicateName { kind: ResourceKind::Surface, name }),
        }
    }

    /// The handle of the surface called `name`.
    pub fn clone_surface(&self, name: String) -> (res: Result<SurfaceId, LoadError>)
        requires
            self.wf(),
        ensures
            result_view(res) == self@.surface(name@),
    {
        let index = lookup(&self.surface_names, name, ResourceKind::Surface)?;
        Ok(SurfaceId { index })
    }

    /// Registers a material under a fresh name.
    pub fn add_material(&mut self, name: String, material: Material) -> (res: Result<(), LoadError>)
        requires
            old(self).wf(),
        ensures
            final(self).wf(),
            (final(self)@, result_view(res)) == old(self)@.add_material(name@, material@),
    {
        match push_fresh(&mut self.material_names, &name) {
            Some(_) => {
                let ghost before = self.materials@;
                self.materials.push(material);
                proof {
                    assert(self.materials@.map_values(|m: Material| m@) =~= before.map_values(|m: Material| m@).push(material@));
                }
                Ok(())
            },
            None => Err(LoadError::DuplicateName { kind: ResourceKind::Material, name }),
        }
    }

    /// The material called `name`, shared with the tables.
    pub fn clone_material(&self, name: String) -> (res: Result<&Material, LoadError>)
        requires
            self.wf(),
        ensures
            match res {
                Ok(m) => self@.material(name@) == Ok::<MaterialView, LoadErrorView>(m@),
                Err(e) => self@.material(name@) == Err::<MaterialView, LoadErrorView>(e@),
            },
    {
        let index = lookup(&self.material_names, name, ResourceKind::Material)?;
        Ok(&self.materials[index])
    }

    /// The handle of the material called `name`.
    pub fn material_id(&self, name: String) -> (res: Result<MaterialId, LoadError>)
        requires
            self.wf(),
        ensures
            result_view(res) == self@.material_id(name@),
    {
        let index = lookup(&self.material_names, name, ResourceKind::Material)?;
        Ok(MaterialId { index })
    }

    /// Registers a medium under a fresh name.
    pub fn add_medium(&mut self, name: String, medium: Medium) -> (res: Result<(), LoadError>)
        requires
            old(self).wf(),
        ensures
            final(self).wf(),
            (final(self)@, result_view(res)) == old(self)@.add_medium(name@, medium@),
    {
        match push_fresh(&mut self.medium_names, &name) {
            Some(_) => {
                let ghost before = self.media@;
                self.media.push(medium);
                proof {
                    assert(self.media@.map_values(|m: Medium| m@) =~= before.map_values(|m: Medium| m@).push(medium@));
                }
                Ok(())
            },
            None => Err(LoadError::DuplicateName { kind: ResourceKind::Medium, name }),
        }
    }

    /// The medium called `name`, shared with the tables.
    pub fn clone_medium(&self, name: String) -> (res: Result<&Medium, LoadError>)
        requires
            self.wf(),
        ensures
            match res {
                Ok(m) => self@.medium(name@) == Ok::<MediumView, LoadErrorView>(m@),
                Err(e) => self@.medium(name@) == Err::<MediumView, LoadErrorView>(e@),
            },
    {
        let index = lookup(&self.medium_names, name, ResourceKind::Medium)?;
        Ok(&self.media[index])
    }

    /// Registers an instance under a fresh name.
    pub fn add_instance(&mut self, name: String, instance: Instance) -> (res: Result<(), LoadError>)
        requires
            old(self).wf(),
        ensures
            final(self).wf(),
            (final(self)@, result_view(res)) == old(self)@.add_instance(name@, instance@),
    {
        match push_fresh(&mut self.instance_names, &name) {
            Some(_) => {
                let ghost before = self.instances@;
                self.instances.push(instance);
                proof {
                    assert(self.instances@.map_values(|m: Instance| m@) =~= before.map_values(|m: Instance| m@).push(instance@));
                }
                Ok(())
            },
            None => Err(LoadError::DuplicateName { kind: ResourceKind::Instance, name }),
        }
    }

    /// The instance called `name`, shared with the tables.
    pub fn clone_instance(&self, name: String) -> (res: Result<&Instance, LoadError>)
        requires
            self.wf(),
        ensures
            match res {
                Ok(m) => self@.instance(name@) == Ok::<InstanceView, LoadErrorView>(m@),
                Err(e) => self@.instance(name@) == Err::<InstanceView, LoadErrorView>(e@),
            },
    {
        let index = lookup(&self.instance_names, name, ResourceKind::Instance)?;
        Ok(&self.instances[index])
    }
}

/// Appending a name that is not there yet keeps the names distinct, the new name
/// is found at the end, and every other name is found where it was.
proof fn lemma_push_fresh(keys: Seq<Seq<char>>, name: Seq<char>)
    requires
        keys_distinct(keys),
        key_index(keys, name) < 0,
    ensures
        keys_distinct(keys.push(name)),
        key_index(keys.push(name), name) == keys.len(),
        forall|k: Seq<char>| k != name ==> #[trigger] key_index(keys.push(name), k) == key_index(keys, k),
{
    let ks = keys.push(name);
    assert(forall|i: int| 0 <= i < keys.len() ==> keys[i] != name);
    assert forall|i: int, j: int| 0 <= i < ks.len() && 0 <= j < ks.len() && i != j implies ks[i] != ks[j] by {
        if i < keys.len() && j < keys.len() {
        } else if i < keys.len() {
            assert(keys[i] != name);
        } else if j < keys.len() {
            assert(keys[j] != name);
        }
    }
    lemma_key_index_found(ks, name, keys.len() as int);
    assert forall|k: Seq<char>| k != name implies #[trigger] key_index(ks, k) == key_index(keys, k) by {
        lemma_key_index_range(keys, k);
        let i = key_index(keys, k);
        if i >= 0 {
            lemma_key_index_found(ks, k, i);
        } else {
            assert forall|m: int| 0 <= m < ks.len() implies ks[m] != k by {
                if m < keys.len() && keys[m] == k {
                    lemma_key_index_found(keys, k, m);
                }
            }
        }
    }
}

/// A material added under a fresh name is found again under that name, and the
/// materials already registered are unaffected; adding under a taken name fails
/// and changes nothing.
pub proof fn resources_material_read_after_add(r: ResourcesView, name: Seq<char>, m: MaterialView, other: Seq<char>)
    requires
        r.wf(),
    ensures
        r.add_material(name, m).1 is Ok ==> r.add_material(name, m).0.material(name) == Ok::<
            MaterialView,
            LoadErrorView,
        >(m),
        r.add_material(name, m).1 is Ok && other != name ==> r.add_material(name, m).0.material(other)
            == r.material(other),
        r.add_material(name, m).1 is Err ==> r.add_material(name, m).0 == r && r.material(name) is Ok,
        r.add_material(name, m).0.wf(),
{
    if key_index(r.material_names, name) < 0 {
        lemma_push_fresh(r.material_names, name);
        assert(key_index(r.material_names.push(name), other) == key_index(r.material_names, other) || other == name);
    }
}

/// A texture registered under a fresh name is found again under that name with
/// the handle that registration returned.
pub proof fn resources_texture_read_after_add(r: ResourcesView, name: Seq<char>)
    requires
        r.wf(),
    ensures
        r.add_texture(name).1 is Ok ==> r.add_texture(name).0.texture(name) == r.add_texture(name).1,
        r.add_texture(name).1 is Err ==> r.add_texture(name).0 == r && r.texture(name) is Ok,
        r.add_texture(name).0.wf(),
{
    if key_index(r.textures, name) < 0 {
        lemma_push_fresh(r.textures, name);
    }
}

/// A primitive registered under a fresh name is found again under that name with
/// the handle that registration returned.
pub proof fn resources_primitive_read_after_add(r: ResourcesView, name: Seq<char>)
    requires
        r.wf(),
    ensures
        r.add_primitive(name).1 is Ok ==> r.add_primitive(name).0.primitive(name) == r.add_primitive(name).1,
        r.add_primitive(name).1 is Err ==> r.add_primitive(name).0 == r && r.primitive(name) is Ok,
        r.add_primitive(name).0.wf(),
{
    if key_index(r.primitives, name) < 0 {
        lemma_push_fresh(r.primitives, name);
    }
}

/// A medium added under a fresh name is found again under that name, and the
/// media already registered are unaffected; adding under a taken name fails and
/// changes nothing.
pub proof fn resources_medium_read_after_add(r: ResourcesView, name: Seq<char>, m: MediumView)
    requires
        r.wf(),
    ensures
        r.add_medium(name, m).1 is Ok ==> r.add_medium(name, m).0.medium(name) == Ok::<
            MediumView,
            LoadErrorView,
        >(m),
        r.add_medium(name, m).1 is Ok ==> forall|other: Seq<char>|
            other != name ==> #[trigger] r.add_medium(name, m).0.medium(other) == r.medium(other),
        r.add_medium(name, m).1 is Err ==> r.add_medium(name, m).0 == r && r.medium(name) is Ok,
        r.add_medium(name, m).0.wf(),
{
    if key_index(r.medium_names, name) < 0 {
        lemma_push_fresh(r.medium_names, name);
    }
}

/// An instance added under a fresh name is found again under that name; adding
/// under a taken name fails and changes nothing.
pub proof fn resources_instance_read_after_add(r: ResourcesView, name: Seq<char>, m: InstanceView)
    requires
        r.wf(),
    ensures
        r.add_instance(name, m).1 is Ok ==> r.add_instance(name, m).0.instance(name) == Ok::<
            InstanceView,
            LoadErrorView,
        >(m),
        r.add_instance(name, m).1 is Err ==> r.add_instance(name, m).0 == r && r.instance(name) is Ok,
        r.add_instance(name, m).0.wf(),
{
    if key_index(r.instance_names, name) < 0 {
        lemma_push_fresh(r.instance_names, name);
    }
}

} // verus!
