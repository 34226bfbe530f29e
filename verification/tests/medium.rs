use simple_path_tracer::error::{LoadError, ResourceKind, ValueKind};
use simple_path_tracer::medium::{create_medium_from_params, Homogeneous, Medium};
use simple_path_tracer::params::{InputParams, Number, ParamValue};
use simple_path_tracer::resources::SceneResources;

fn block(ty: &str, name: &str) -> InputParams {
    let mut p = InputParams::new(String::new());
    p.insert("type", ParamValue::Str(ty.into()));
    p.insert("name", ParamValue::Str(name.into()));
    p
}

fn fog(name: &str) -> InputParams {
    let mut p = block("homogeneous", name);
    p.insert("sigma_a", ParamValue::Other("[0.1, 0.2, 0.3]".into()));
    p.insert("sigma_s", ParamValue::Other("[0.5, 0.5, 0.5]".into()));
    p.insert("asymmetric", ParamValue::Other("0.25".into()));
    p
}

#[test]
fn homogeneous_reads_both_coefficients_from_sigma_a() {
    let mut p = fog("f");
    let h = Homogeneous::load(&mut p).unwrap();
    assert_eq!(
        h,
        Homogeneous::new("[0.1, 0.2, 0.3]".into(), "[0.1, 0.2, 0.3]".into(), Number::Text("0.25".into()))
    );
    let unused = p.check_unused_keys();
    assert!(unused.contains(&"sigma_s".to_string()));
}

#[test]
fn medium_registered_under_its_name() {
    let mut r = SceneResources::new();
    let mut p = fog("fog");
    assert_eq!(create_medium_from_params(&mut r, &mut p), Ok(()));
    assert_eq!(p.name(), "medium-homogeneous-fog");
    assert_eq!(p.check_unused_keys(), vec!["sigma_s".to_string()]);
    assert_eq!(
        r.clone_medium("fog".into()),
        Ok(&Medium::Homogeneous(Homogeneous::new(
            "[0.1, 0.2, 0.3]".into(),
            "[0.1, 0.2, 0.3]".into(),
            Number::Text("0.25".into())
        )))
    );
    let mut p = fog("fog");
    assert_eq!(
        create_medium_from_params(&mut r, &mut p),
        Err(LoadError::DuplicateName { kind: ResourceKind::Medium, name: "fog".into() })
    );
}

#[test]
fn medium_kinds() {
    let mut r = SceneResources::new();
    let mut p = block("heterogeneous", "fog");
    assert_eq!(
        create_medium_from_params(&mut r, &mut p),
        Err(LoadError::UnknownType { env: "medium-heterogeneous-fog".into(), ty: "heterogeneous".into() })
    );
    let mut p = InputParams::new(String::new());
    p.insert("type", ParamValue::Str("homogeneous".into()));
    assert_eq!(
        create_medium_from_params(&mut r, &mut p),
        Err(LoadError::MissingKey { env: "medium".into(), key: "name".into() })
    );
    let mut p = block("homogeneous", "thin");
    p.insert("sigma_a", ParamValue::Other("[1, 1, 1]".into()));
    p.insert("asymmetric", ParamValue::Str("forward".into()));
    assert_eq!(
        create_medium_from_params(&mut r, &mut p),
        Err(LoadError::WrongType {
            env: "medium-homogeneous-thin".into(),
            key: "asymmetric".into(),
            expected: ValueKind::Number
        })
    );
    assert_eq!(
        r.clone_medium("thin".into()),
        Err(LoadError::MissingResource { kind: ResourceKind::Medium, name: "thin".into() })
    );
}
