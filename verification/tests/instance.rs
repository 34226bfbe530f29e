use simple_path_tracer::error::{LoadError, ResourceKind, ValueKind};
use simple_path_tracer::instance::{Instance, SurfaceChoice, TransformStep};
use simple_path_tracer::material::{Material, PseudoMaterial};
use simple_path_tracer::params::{InputParams, ParamValue};
use simple_path_tracer::resources::{MaterialId, PrimitiveId, SceneResources, SurfaceId};

fn scene() -> SceneResources {
    let mut r = SceneResources::new();
    r.add_primitive("ball".to_string()).unwrap();
    r.add_primitive("teapot".to_string()).unwrap();
    r.add_surface("skin".to_string()).unwrap();
    r.add_material("matte".to_string(), Material::PseudoMaterial(PseudoMaterial {})).unwrap();
    r
}

fn block(entries: &[(&str, &str)]) -> InputParams {
    let mut p = InputParams::new(String::new());
    for (k, v) in entries {
        p.insert(k, ParamValue::Str(v.to_string()));
    }
    p
}

#[test]
fn instance_steps_follow_fixed_order() {
    let mut r = scene();
    let mut p = block(&[("name", "t1"), ("primitive", "teapot"), ("material", "matte")]);
    p.insert("translate", ParamValue::Other("[0, 1, 0]".into()));
    p.insert("scale", ParamValue::Other("[2, 2, 2]".into()));
    p.insert("rotate", ParamValue::Other("[0, 90, 0]".into()));
    assert_eq!(Instance::load(&mut r, &mut p), Ok(()));
    assert_eq!(p.name(), "instance-t1");
    assert!(p.check_unused_keys().is_empty());
    assert_eq!(
        r.clone_instance("t1".to_string()),
        Ok(&Instance::new(
            PrimitiveId { index: 1 },
            vec![
                TransformStep::Scale("[2, 2, 2]".into()),
                TransformStep::Rotate("[0, 90, 0]".into()),
                TransformStep::Translate("[0, 1, 0]".into()),
            ],
            SurfaceChoice::Material(MaterialId { index: 0 }),
        ))
    );
}

#[test]
fn instance_surface_wins_over_material() {
    let mut r = scene();
    let mut p = block(&[("name", "b"), ("primitive", "ball"), ("surface", "skin"), ("material", "matte")]);
    p.insert("matrix", ParamValue::Other("[1,0,0,0, 0,1,0,0, 0,0,1,0, 0,0,0,1]".into()));
    assert_eq!(Instance::load(&mut r, &mut p), Ok(()));
    assert_eq!(p.check_unused_keys(), vec!["material".to_string()]);
    let inst = r.clone_instance("b".to_string()).unwrap();
    assert_eq!(inst.surface(), SurfaceChoice::Surface(SurfaceId { index: 0 }));
    assert_eq!(inst.transform, vec![TransformStep::Matrix("[1,0,0,0, 0,1,0,0, 0,0,1,0, 0,0,0,1]".into())]);
}

#[test]
fn instance_errors() {
    let mut r = scene();
    let mut p = block(&[("primitive", "ball")]);
    assert_eq!(
        Instance::load(&mut r, &mut p),
        Err(LoadError::MissingKey { env: "instance".into(), key: "name".into() })
    );
    let mut p = block(&[("name", "x"), ("primitive", "cube"), ("material", "matte")]);
    assert_eq!(
        Instance::load(&mut r, &mut p),
        Err(LoadError::MissingResource { kind: ResourceKind::Primitive, name: "cube".into() })
    );
    let mut p = block(&[("name", "x"), ("primitive", "ball"), ("material", "gold")]);
    assert_eq!(
        Instance::load(&mut r, &mut p),
        Err(LoadError::MissingResource { kind: ResourceKind::Material, name: "gold".into() })
    );
    let mut p = block(&[("name", "x"), ("primitive", "ball"), ("material", "matte"), ("scale", "big")]);
    assert_eq!(
        Instance::load(&mut r, &mut p),
        Err(LoadError::WrongType { env: "instance-x".into(), key: "scale".into(), expected: ValueKind::Other })
    );
    let mut p = block(&[("name", "x"), ("primitive", "ball"), ("material", "matte")]);
    assert_eq!(Instance::load(&mut r, &mut p), Ok(()));
    let mut p = block(&[("name", "x"), ("primitive", "teapot"), ("material", "matte")]);
    assert_eq!(
        Instance::load(&mut r, &mut p),
        Err(LoadError::DuplicateName { kind: ResourceKind::Instance, name: "x".into() })
    );
    assert_eq!(r.clone_instance("x".to_string()).unwrap().primitive, PrimitiveId { index: 0 });
}
