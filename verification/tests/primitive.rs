use simple_path_tracer::error::LoadError;
use simple_path_tracer::params::{CreateOutcome, InputParams, ParamValue};
use simple_path_tracer::primitive::{create_primitive_from_params, merge_model_indices, triangle_indices};

fn block(ty: &str, name: &str) -> InputParams {
    let mut p = InputParams::new(String::new());
    p.insert("type", ParamValue::Str(ty.into()));
    p.insert("name", ParamValue::Str(name.into()));
    p
}

#[test]
fn primitive_kinds_are_handed_back() {
    for kind in ["sphere", "trimesh", "cubic_bezier", "catmull_clark"] {
        let mut p = block(kind, "ball");
        assert_eq!(
            create_primitive_from_params(&mut p),
            Ok(CreateOutcome::CallerBuilds { ty: kind.into(), name: "ball".into() })
        );
        assert_eq!(p.name(), format!("primitive-{}-ball", kind));
    }
    let mut p = block("torus", "t");
    assert_eq!(
        create_primitive_from_params(&mut p),
        Err(LoadError::UnknownType { env: "primitive-torus-t".into(), ty: "torus".into() })
    );
}

#[test]
fn triangles_group_indices_by_three() {
    let idx = vec![0, 1, 2, 2, 3, 0, 7];
    assert_eq!(triangle_indices(&idx), vec![[0, 1, 2], [2, 3, 0]]);
    assert!(triangle_indices(&vec![1, 2]).is_empty());
}

#[test]
fn model_indices_are_offset_by_indices_before_them() {
    let models = vec![vec![0, 1, 2], vec![0, 2, 1, 1, 2, 3], vec![]];
    assert_eq!(merge_model_indices(&models), vec![0, 1, 2, 3, 5, 4, 4, 5, 6]);
    assert!(merge_model_indices(&vec![]).is_empty());
}
