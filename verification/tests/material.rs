use simple_path_tracer::error::{LoadError, ResourceKind};
use simple_path_tracer::error::ValueKind;
use simple_path_tracer::material::{
    create_material_from_params, Conductor, DebugMaterial, Dielectric, Lambert, Material,
    PbrMetallic, PbrSpecular, Plastic, PseudoMaterial, Subsurface, TextureChannel,
};
use simple_path_tracer::params::{CreateOutcome, InputParams, Number, ParamValue};
use simple_path_tracer::resources::{SceneResources, TextureId};

fn tex(i: usize) -> TextureId {
    TextureId { index: i }
}

fn resources() -> SceneResources {
    let mut r = SceneResources::new();
    for name in ["t0", "t1", "t2", "t3", "t4"] {
        r.add_texture(name.to_string()).unwrap();
    }
    r
}

fn params(entries: &[(&str, &str)]) -> InputParams {
    let mut p = InputParams::new("material".to_string());
    for (k, v) in entries {
        p.insert(k, ParamValue::Str(v.to_string()));
    }
    p
}

#[test]
fn conductor_load_shared_roughness() {
    let r = resources();
    let mut p = params(&[("ior", "t1"), ("ior_k", "t2"), ("roughness", "t3"), ("roughness_x", "t0")]);
    let c = Conductor::load(&r, &mut p).unwrap();
    assert_eq!(c, Conductor::new(tex(1), tex(2), tex(3), tex(3)));
    assert_eq!(p.check_unused_keys(), vec!["roughness_x".to_string()]);
}

#[test]
fn conductor_load_separate_roughness() {
    let r = resources();
    let mut p = params(&[("ior", "t1"), ("ior_k", "t2"), ("roughness_x", "t3"), ("roughness_y", "t4")]);
    let c = Conductor::load(&r, &mut p).unwrap();
    assert_eq!(c, Conductor { ior: tex(1), ior_k: tex(2), roughness_x: tex(3), roughness_y: tex(4) });
    assert!(p.check_unused_keys().is_empty());
}

#[test]
fn conductor_load_stops_at_first_missing_key() {
    let r = resources();
    let mut p = params(&[("ior", "t1"), ("roughness_x", "t3")]);
    assert_eq!(
        Conductor::load(&r, &mut p),
        Err(LoadError::MissingKey { env: "material".to_string(), key: "ior_k".to_string() })
    );
    assert_eq!(p.check_unused_keys(), vec!["roughness_x".to_string()]);
}

#[test]
fn conductor_load_missing_roughness_y() {
    let r = resources();
    let mut p = params(&[("ior", "t1"), ("ior_k", "t2"), ("roughness_x", "t3")]);
    assert_eq!(
        Conductor::load(&r, &mut p),
        Err(LoadError::MissingKey { env: "material".to_string(), key: "roughness_y".to_string() })
    );
}

#[test]
fn lambert_load_unknown_texture() {
    let r = resources();
    let mut p = params(&[("albedo", "wood")]);
    assert_eq!(
        Lambert::load(&r, &mut p),
        Err(LoadError::MissingResource { kind: ResourceKind::Texture, name: "wood".to_string() })
    );
    let mut p = params(&[("albedo", "t4")]);
    assert_eq!(Lambert::load(&r, &mut p), Ok(Lambert::new(tex(4))));
}

#[test]
fn pbr_metallic_load_reads_red_channels() {
    let r = resources();
    let mut p = params(&[("base_color", "t0"), ("roughness", "t1"), ("metallic", "t2")]);
    let m = PbrMetallic::load(&r, &mut p).unwrap();
    assert_eq!(
        m,
        PbrMetallic::new(tex(0), tex(1), tex(1), TextureChannel::R, tex(2), TextureChannel::R)
    );
}

#[test]
fn pbr_specular_load() {
    let r = resources();
    let mut p = params(&[("diffuse", "t0"), ("specular", "t1"), ("roughness_x", "t2"), ("roughness_y", "t3")]);
    let m = PbrSpecular::load(&r, &mut p).unwrap();
    assert_eq!(m, PbrSpecular::new(tex(0), tex(1), tex(2), tex(3), TextureChannel::R));
}

#[test]
fn pseudo_material_needs_no_parameters() {
    let r = resources();
    let mut p = params(&[("albedo", "t1")]);
    assert_eq!(PseudoMaterial::load(&r, &mut p), Ok(PseudoMaterial::new()));
    assert_eq!(p.check_unused_keys(), vec!["albedo".to_string()]);
}

#[test]
fn debug_material_keeps_normal_map() {
    let m = DebugMaterial::new(tex(2), tex(3));
    assert_eq!(m.debug_color, tex(2));
    assert_eq!(m.normal_map, Some(tex(3)));
    let c = DebugMaterial::color_only(tex(1));
    assert_eq!(c, DebugMaterial { debug_color: tex(1), normal_map: None });
}

#[test]
fn create_material_registers_under_name() {
    let mut r = resources();
    let mut p = params(&[("type", "lambert"), ("name", "red"), ("albedo", "t2"), ("extra", "x")]);
    assert_eq!(create_material_from_params(&mut r, &mut p), Ok(CreateOutcome::Added));
    assert_eq!(p.name(), "material-lambert-red");
    assert_eq!(p.check_unused_keys(), vec!["extra".to_string()]);
    assert_eq!(r.clone_material("red".to_string()), Ok(&Material::Lambert(Lambert::new(tex(2)))));
}

#[test]
fn create_material_precomputed_kinds_are_handed_back() {
    for kind in ["pndf_conductor", "pndf_plastic"] {
        let mut r = resources();
        let mut p = params(&[("type", kind), ("name", "g")]);
        assert_eq!(
            create_material_from_params(&mut r, &mut p),
            Ok(CreateOutcome::CallerBuilds { ty: kind.to_string(), name: "g".to_string() })
        );
        assert_eq!(p.name(), format!("material-{}-g", kind));
        assert_eq!(
            r.clone_material("g".to_string()),
            Err(LoadError::MissingResource { kind: ResourceKind::Material, name: "g".to_string() })
        );
    }
}

#[test]
fn dielectric_load_reads_numbers_and_textures() {
    let r = resources();
    let mut p = params(&[("reflectance", "t1"), ("transmittance", "t2"), ("roughness", "t3")]);
    p.insert("int_ior", ParamValue::Other("1.5".to_string()));
    p.insert("ext_ior", ParamValue::Int(1));
    let d = Dielectric::load(&r, &mut p).unwrap();
    assert_eq!(
        d,
        Dielectric::new(Number::Text("1.5".to_string()), Some(Number::Int(1)), tex(1), tex(2), tex(3), tex(3))
    );
    assert!(p.check_unused_keys().is_empty());
}

#[test]
fn dielectric_ext_ior_falls_back_to_default() {
    let r = resources();
    let mut p = params(&[("reflectance", "t1"), ("transmittance", "t2"), ("roughness_x", "t3"), ("roughness_y", "t4")]);
    p.insert("int_ior", ParamValue::Int(2));
    let d = Dielectric::load(&r, &mut p).unwrap();
    assert_eq!(d.ext_ior, None);
    assert_eq!(d.int_ior, Number::Int(2));
    assert_eq!((d.roughness_x, d.roughness_y), (tex(3), tex(4)));
    // A string where a number belongs also leaves the default, and counts as read.
    let mut p = params(&[("ext_ior", "air"), ("reflectance", "t1"), ("transmittance", "t2"), ("roughness", "t0")]);
    p.insert("int_ior", ParamValue::Int(2));
    assert_eq!(Dielectric::load(&r, &mut p).unwrap().ext_ior, None);
    assert!(p.check_unused_keys().is_empty());
}

#[test]
fn dielectric_missing_ior_is_reported_before_textures() {
    let r = resources();
    let mut p = params(&[("reflectance", "nope")]);
    assert_eq!(
        Dielectric::load(&r, &mut p),
        Err(LoadError::MissingKey { env: "material".to_string(), key: "int_ior".to_string() })
    );
    let mut p = params(&[("int_ior", "glass")]);
    assert_eq!(
        Dielectric::load(&r, &mut p),
        Err(LoadError::WrongType { env: "material".to_string(), key: "int_ior".to_string(), expected: ValueKind::Number })
    );
}

#[test]
fn plastic_and_subsurface_load() {
    let r = resources();
    let mut p = params(&[("albedo", "t0"), ("roughness", "t2")]);
    p.insert("int_ior", ParamValue::Other("1.45".to_string()));
    assert_eq!(
        Plastic::load(&r, &mut p),
        Ok(Plastic::new(Number::Text("1.45".to_string()), None, tex(0), tex(2), tex(2)))
    );
    let mut p = params(&[("albedo", "t0"), ("ld", "t1"), ("roughness_x", "t2"), ("roughness_y", "t3")]);
    p.insert("ior", ParamValue::Other("1.3".to_string()));
    assert_eq!(
        Subsurface::load(&r, &mut p),
        Ok(Subsurface::new(Number::Text("1.3".to_string()), tex(0), tex(1), tex(2), tex(3)))
    );
    let mut p = params(&[("albedo", "t0"), ("roughness", "t2")]);
    p.insert("ior", ParamValue::Int(1));
    assert_eq!(
        Subsurface::load(&r, &mut p),
        Err(LoadError::MissingKey { env: "material".to_string(), key: "ld".to_string() })
    );
}

#[test]
fn create_material_registers_dielectric() {
    let mut r = resources();
    let mut p = params(&[("type", "dielectric"), ("name", "glass"), ("reflectance", "t1"), ("transmittance", "t1"), ("roughness", "t0")]);
    p.insert("int_ior", ParamValue::Other("1.5".to_string()));
    assert_eq!(create_material_from_params(&mut r, &mut p), Ok(CreateOutcome::Added));
    assert_eq!(
        r.clone_material("glass".to_string()),
        Ok(&Material::Dielectric(Dielectric::new(
            Number::Text("1.5".to_string()),
            None,
            tex(1),
            tex(1),
            tex(0),
            tex(0)
        )))
    );
}

#[test]
fn create_material_unknown_type() {
    let mut r = resources();
    let mut p = params(&[("type", "velvet"), ("name", "v")]);
    assert_eq!(
        create_material_from_params(&mut r, &mut p),
        Err(LoadError::UnknownType { env: "material-velvet-v".to_string(), ty: "velvet".to_string() })
    );
}

#[test]
fn create_material_missing_type() {
    let mut r = resources();
    let mut p = params(&[("name", "v")]);
    assert_eq!(
        create_material_from_params(&mut r, &mut p),
        Err(LoadError::MissingKey { env: "material".to_string(), key: "type".to_string() })
    );
}

#[test]
fn create_material_duplicate_name() {
    let mut r = resources();
    let mut p = params(&[("type", "pseudo"), ("name", "m")]);
    assert_eq!(create_material_from_params(&mut r, &mut p), Ok(CreateOutcome::Added));
    let mut p = params(&[("type", "conductor"), ("name", "m"), ("ior", "t0"), ("ior_k", "t1"), ("roughness", "t2")]);
    assert_eq!(
        create_material_from_params(&mut r, &mut p),
        Err(LoadError::DuplicateName { kind: ResourceKind::Material, name: "m".to_string() })
    );
    assert_eq!(r.clone_material("m".to_string()), Ok(&Material::PseudoMaterial(PseudoMaterial {})));
}
