use simple_path_tracer::error::{LoadError, ValueKind};
use simple_path_tracer::params::{CreateOutcome, InputParams, Number, ParamValue};

fn block() -> InputParams {
    let mut p = InputParams::new("obj".to_string());
    p.insert("type", ParamValue::Str("lambert".to_string()));
    p.insert("spp", ParamValue::Int(16));
    p.insert("radius", ParamValue::Other("0.5".to_string()));
    p
}

#[test]
fn params_get_str_reads_value_and_marks_used() {
    let mut p = block();
    assert_eq!(p.get_str("type"), Ok("lambert".to_string()));
    assert_eq!(p.check_unused_keys(), vec!["spp".to_string(), "radius".to_string()]);
}

#[test]
fn params_get_int_reads_value() {
    let mut p = block();
    assert_eq!(p.get_int("spp"), Ok(16));
    assert_eq!(p.check_unused_keys(), vec!["type".to_string(), "radius".to_string()]);
}

#[test]
fn params_missing_key_error_names_block_and_key() {
    let mut p = block();
    assert_eq!(
        p.get_str("albedo"),
        Err(LoadError::MissingKey { env: "obj".to_string(), key: "albedo".to_string() })
    );
    assert_eq!(p.check_unused_keys().len(), 3);
}

#[test]
fn params_wrong_type_is_an_error_but_marks_used() {
    let mut p = block();
    assert_eq!(
        p.get_int("type"),
        Err(LoadError::WrongType { env: "obj".to_string(), key: "type".to_string(), expected: ValueKind::Int })
    );
    assert_eq!(
        p.get_str("radius"),
        Err(LoadError::WrongType { env: "obj".to_string(), key: "radius".to_string(), expected: ValueKind::Str })
    );
    assert_eq!(p.check_unused_keys(), vec!["spp".to_string()]);
}

#[test]
fn params_insert_replaces_existing_value() {
    let mut p = block();
    p.insert("spp", ParamValue::Int(4));
    assert_eq!(p.get_int("spp"), Ok(4));
    assert_eq!(p.check_unused_keys(), vec!["type".to_string(), "radius".to_string()]);
}

#[test]
fn params_contains_key_and_name() {
    let mut p = block();
    assert!(p.contains_key("radius"));
    assert!(!p.contains_key("center"));
    assert_eq!(p.name(), "obj");
    p.set_name("sphere-a".to_string());
    assert_eq!(p.name(), "sphere-a");
}

#[test]
fn params_empty_block_has_no_unused_keys() {
    let p = InputParams::new(String::new());
    assert!(p.check_unused_keys().is_empty());
}

#[test]
fn outcome_values_compare() {
    assert_eq!(CreateOutcome::Added, CreateOutcome::Added);
}

#[test]
fn params_get_number_accepts_integers_and_fractional_text() {
    let mut p = block();
    assert_eq!(p.get_number("spp"), Ok(Number::Int(16)));
    assert_eq!(p.get_number("radius"), Ok(Number::Text("0.5".to_string())));
    assert_eq!(
        p.get_number("type"),
        Err(LoadError::WrongType { env: "obj".to_string(), key: "type".to_string(), expected: ValueKind::Number })
    );
    assert_eq!(
        p.get_number("fov"),
        Err(LoadError::MissingKey { env: "obj".to_string(), key: "fov".to_string() })
    );
}

#[test]
fn params_get_number_or_gives_none_for_the_default() {
    let mut p = block();
    assert_eq!(p.get_number_or("fov"), None);
    assert_eq!(p.get_number_or("type"), None);
    assert_eq!(p.get_number_or("spp"), Some(Number::Int(16)));
    assert_eq!(p.check_unused_keys(), vec!["radius".to_string()]);
}
