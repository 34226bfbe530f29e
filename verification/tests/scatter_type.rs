use simple_path_tracer::scatter_type::{ScatterDirType, ScatterLobeType, ScatterType};

#[test]
fn scatter_type_constructors() {
    let cases = [
        (ScatterType::specular_reflect(), ScatterLobeType::Specular, ScatterDirType::Reflect),
        (ScatterType::glossy_reflect(), ScatterLobeType::Glossy, ScatterDirType::Reflect),
        (ScatterType::lambert_reflect(), ScatterLobeType::Lambert, ScatterDirType::Reflect),
        (ScatterType::specular_transmit(), ScatterLobeType::Specular, ScatterDirType::Transmit),
        (ScatterType::glossy_transmit(), ScatterLobeType::Glossy, ScatterDirType::Transmit),
        (ScatterType::lambert_transmit(), ScatterLobeType::Lambert, ScatterDirType::Transmit),
    ];
    for (ty, lobe, dir) in cases {
        assert_eq!(ty.lobe, lobe);
        assert_eq!(ty.dir, dir);
    }
}
