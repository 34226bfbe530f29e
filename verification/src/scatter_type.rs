use vstd::prelude::*;

verus! {

/// The kind of lobe a sampled direction was drawn from.
#[derive(Debug, Clone, Copy, PartialEq, Eq, Structural)]
pub enum ScatterLobeType {
    Lambert,
    Glossy,
    Specular,
}

/// Whether a sampled direction stays on the side it came from or crosses the surface.
#[derive(Debug, Clone, Copy, PartialEq, Eq, Structural)]
pub enum ScatterDirType {
    Reflect,
    Transmit,
}

/// The lobe and direction of a sampled scattering event.
#[derive(Debug, Clone, Copy, PartialEq, Eq, Structural)]
pub struct ScatterType {
    pub lobe: ScatterLobeType,
    pub dir: ScatterDirType,
}

impl ScatterType {
    pub fn specular_reflect() -> (res: Self)
        ensures
            res == (ScatterType { lobe: ScatterLobeType::Specular, dir: ScatterDirType::Reflect }),
    {
        Self { lobe: ScatterLobeType::Specular, dir: ScatterDirType::Reflect }
    }

    pub fn glossy_reflect() -> (res: Self)
        ensures
            res == (ScatterType { lobe: ScatterLobeType::Glossy, dir: ScatterDirType::Reflect }),
    {
        Self { lobe: ScatterLobeType::Glossy, dir: ScatterDirType::Reflect }
    }

    pub fn lambert_reflect() -> (res: Self)
        ensures
            res == (ScatterType { lobe: ScatterLobeType::Lambert, dir: ScatterDirType::Reflect }),
    {
        Self { lobe: ScatterLobeType::Lambert, dir: ScatterDirType::Reflect }
    }

    pub fn specular_transmit() -> (res: Self)
        ensures
            res == (ScatterType { lobe: ScatterLobeType::Specular, dir: ScatterDirType::Transmit }),
    {
        Self { lobe: ScatterLobeType::Specular, dir: ScatterDirType::Transmit }
    }

    pub fn glossy_transmit() -> (res: Self)
        ensures
            res == (ScatterType { lobe: ScatterLobeType::Glossy, dir: ScatterDirType::Transmit }),
    {
        Self { lobe: ScatterLobeType::Glossy, dir: ScatterDirType::Transmit }
    }

    pub fn lambert_transmit() -> (res: Self)
        ensures
            res == (ScatterType { lobe: ScatterLobeType::Lambert, dir: ScatterDirType::Transmit }),
    {
        Self { lobe: ScatterLobeType::Lambert, dir: ScatterDirType::Transmit }
    }
}

} // verus!
