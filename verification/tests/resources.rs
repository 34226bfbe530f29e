use simple_path_tracer::error::{LoadError, ResourceKind};
use simple_path_tracer::material::{Lambert, Material, PseudoMaterial};
use simple_path_tracer::resources::{MaterialId, PrimitiveId, SceneResources, SurfaceId, TextureId};

#[test]
fn resources_texture_handles_follow_registration_order() {
    let mut r = SceneResources::new();
    assert_eq!(r.add_texture("a".to_string()), Ok(TextureId { index: 0 }));
    assert_eq!(r.add_texture("b".to_string()), Ok(TextureId { index: 1 }));
    assert_eq!(r.clone_texture("b".to_string()), Ok(TextureId { index: 1 }));
    assert_eq!(r.clone_texture("a".to_string()), Ok(TextureId { index: 0 }));
}

#[test]
fn resources_duplicate_texture_name_is_refused() {
    let mut r = SceneResources::new();
    r.add_texture("a".to_string()).unwrap();
    assert_eq!(
        r.add_texture("a".to_string()),
        Err(LoadError::DuplicateName { kind: ResourceKind::Texture, name: "a".to_string() })
    );
    assert_eq!(r.add_texture("c".to_string()), Ok(TextureId { index: 1 }));
}

#[test]
fn resources_missing_texture_is_an_error() {
    let r = SceneResources::new();
    assert_eq!(
        r.clone_texture("x".to_string()),
        Err(LoadError::MissingResource { kind: ResourceKind::Texture, name: "x".to_string() })
    );
}

#[test]
fn resources_material_read_after_add() {
    let mut r = SceneResources::new();
    let m = Material::Lambert(Lambert { albedo: TextureId { index: 3 } });
    assert_eq!(r.add_material("red".to_string(), m.clone()), Ok(()));
    assert_eq!(r.add_material("glass".to_string(), Material::PseudoMaterial(PseudoMaterial {})), Ok(()));
    assert_eq!(r.clone_material("red".to_string()), Ok(&m));
    assert_eq!(
        r.add_material("red".to_string(), Material::PseudoMaterial(PseudoMaterial {})),
        Err(LoadError::DuplicateName { kind: ResourceKind::Material, name: "red".to_string() })
    );
    assert_eq!(r.clone_material("red".to_string()), Ok(&m));
    assert_eq!(
        r.clone_material("blue".to_string()),
        Err(LoadError::MissingResource { kind: ResourceKind::Material, name: "blue".to_string() })
    );
}

#[test]
fn resources_primitive_and_surface_handles() {
    let mut r = SceneResources::new();
    assert_eq!(r.add_primitive("ball".to_string()), Ok(PrimitiveId { index: 0 }));
    assert_eq!(r.add_primitive("mesh".to_string()), Ok(PrimitiveId { index: 1 }));
    assert_eq!(
        r.add_primitive("ball".to_string()),
        Err(LoadError::DuplicateName { kind: ResourceKind::Primitive, name: "ball".to_string() })
    );
    assert_eq!(r.clone_primitive("mesh".to_string()), Ok(PrimitiveId { index: 1 }));
    assert_eq!(
        r.clone_primitive("cube".to_string()),
        Err(LoadError::MissingResource { kind: ResourceKind::Primitive, name: "cube".to_string() })
    );
    assert_eq!(r.add_surface("skin".to_string()), Ok(SurfaceId { index: 0 }));
    assert_eq!(r.clone_surface("skin".to_string()), Ok(SurfaceId { index: 0 }));
    assert_eq!(
        r.clone_surface("fur".to_string()),
        Err(LoadError::MissingResource { kind: ResourceKind::Surface, name: "fur".to_string() })
    );
}

#[test]
fn resources_material_handles_follow_registration_order() {
    let mut r = SceneResources::new();
    r.add_material("a".to_string(), Material::PseudoMaterial(PseudoMaterial {})).unwrap();
    r.add_material("b".to_string(), Material::PseudoMaterial(PseudoMaterial {})).unwrap();
    assert_eq!(r.material_id("b".to_string()), Ok(MaterialId { index: 1 }));
    assert_eq!(
        r.material_id("c".to_string()),
        Err(LoadError::MissingResource { kind: ResourceKind::Material, name: "c".to_string() })
    );
}
