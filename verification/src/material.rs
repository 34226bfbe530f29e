use vstd::prelude::*;

use crate::error::{result_view, viewed_result, LoadError, LoadErrorView};
use crate::params::{
    ParamValueView, Number, NumberView, opt_number_view,
    outcome_view, tagged, tagged_exec, text_is, CreateOutcome, CreateOutcomeView, InputParams, ParamsView,
};
use crate::resources::{ResourcesView, SceneResources, TextureId};

verus! {

/// Which channel of a texture a scalar material input is read from.
#[derive(Debug, Clone, Copy, PartialEq, Eq, Structural)]
pub enum TextureChannel {
    R,
    G,
    B,
    A,
}

/// A metal described by its complex index of refraction and (possibly anisotropic)
/// roughness.
#[derive(Debug, Clone, Copy, PartialEq, Eq, Structural)]
pub struct Conductor {
    pub ior: TextureId,
    pub ior_k: TextureId,
    pub roughness_x: TextureId,
    pub roughness_y: TextureId,
}

/// An ideal diffuse reflector.
#[derive(Debug, Clone, Copy, PartialEq, Eq, Structural)]
pub struct Lambert {
    pub albedo: TextureId,
}

/// The metallic/roughness workflow of real-time renderers.
#[derive(Debug, Clone, Copy, PartialEq, Eq, Structural)]
pub struct PbrMetallic {
    pub base_color: TextureId,
    pub roughness_x: TextureId,
    pub roughness_y: TextureId,
    pub roughness_chan: TextureChannel,
    pub metallic: TextureId,
    pub metallic_chan: TextureChannel,
}

/// The specular/glossiness workflow of real-time renderers.
#[derive(Debug, Clone, Copy, PartialEq, Eq, Structural)]
pub struct PbrSpecular {
    pub diffuse: TextureId,
    pub specular: TextureId,
    pub roughness_x: TextureId,
    pub roughness_y: TextureId,
    pub roughness_chan: TextureChannel,
}

/// A material that lets light pass through unchanged (used to bound media).
#[derive(Debug, Clone, Copy, PartialEq, Eq, Structural)]
pub struct PseudoMaterial {}

/// A material that shows a colour texture and an optional normal map, for debugging.
#[derive(Debug, Clone, Copy, PartialEq, Eq, Structural)]
pub struct DebugMaterial {
    pub debug_color: TextureId,
    pub normal_map: Option<TextureId>,
}

/// A dielectric such as glass. Its relative index of refraction is `int_ior`
/// over `ext_ior` (1 when not given); both are kept as written and turned into
/// numbers by the renderer. Reflection and transmission are tinted by textures.
#[derive(Debug, Clone, PartialEq, Eq)]
pub struct Dielectric {
    pub int_ior: Number,
    pub ext_ior: Option<Number>,
    pub reflectance: TextureId,
    pub transmittance: TextureId,
    pub roughness_x: TextureId,
    pub roughness_y: TextureId,
}

/// [`Dielectric`] with its numbers taken by their views.
pub struct DielectricView {
    pub int_ior: NumberView,
    pub ext_ior: Option<NumberView>,
    pub reflectance: TextureId,
    pub transmittance: TextureId,
    pub roughness_x: TextureId,
    pub roughness_y: TextureId,
}

impl View for Dielectric {
    type V = DielectricView;

    open spec fn view(&self) -> DielectricView {
        DielectricView {
            int_ior: self.int_ior@,
            ext_ior: opt_number_view(self.ext_ior),
            reflectance: self.reflectance,
            transmittance: self.transmittance,
            roughness_x: self.roughness_x,
            roughness_y: self.roughness_y,
        }
    }
}

/// A diffuse base under a dielectric coat; the coat's relative index of refraction
/// is `int_ior` over `ext_ior` (1 when not given).
#[derive(Debug, Clone, PartialEq, Eq)]
pub struct Plastic {
    pub int_ior: Number,
    pub ext_ior: Option<Number>,
    pub albedo: TextureId,
    pub roughness_x: TextureId,
    pub roughness_y: TextureId,
}

/// [`Plastic`] with its numbers taken by their views.
pub struct PlasticView {
    pub int_ior: NumberView,
    pub ext_ior: Option<NumberView>,
    pub albedo: TextureId,
    pub roughness_x: TextureId,
    pub roughness_y: TextureId,
}

impl View for Plastic {
    type V = PlasticView;

    open spec fn view(&self) -> PlasticView {
        PlasticView {
            int_ior: self.int_ior@,
            ext_ior: opt_number_view(self.ext_ior),
            albedo: self.albedo,
            roughness_x: self.roughness_x,
            roughness_y: self.roughness_y,
        }
    }
}

/// A translucent material with subsurface scattering: its index of refraction,
/// albedo and mean free path (`ld`) textures, and roughness.
#[derive(Debug, Clone, PartialEq, Eq)]
pub struct Subsurface {
    pub ior: Number,
    pub albedo: TextureId,
    pub ld: TextureId,
    pub roughness_x: TextureId,
    pub roughness_y: TextureId,
}

/// [`Subsurface`] with its number taken by its view.
pub struct SubsurfaceView {
    pub ior: NumberView,
    pub albedo: TextureId,
    pub ld: TextureId,
    pub roughness_x: TextureId,
    pub roughness_y: TextureId,
}

impl View for Subsurface {
    type V = SubsurfaceView;

    open spec fn view(&self) -> SubsurfaceView {
        SubsurfaceView {
            ior: self.ior@,
            albedo: self.albedo,
            ld: self.ld,
            roughness_x: self.roughness_x,
            roughness_y: self.roughness_y,
        }
    }
}

/// The materials a scene can register by name.
#[derive(Debug, Clone, PartialEq, Eq)]
pub enum Material {
    Conductor(Conductor),
    Dielectric(Dielectric),
    Plastic(Plastic),
    Lambert(Lambert),
    PbrMetallic(PbrMetallic),
    PbrSpecular(PbrSpecular),
    PseudoMaterial(PseudoMaterial),
    Subsurface(Subsurface),
}

/// [`Material`] taken by the views of its variants.
pub enum MaterialView {
    Conductor(Conductor),
    Dielectric(DielectricView),
    Plastic(PlasticView),
    Lambert(Lambert),
    PbrMetallic(PbrMetallic),
    PbrSpecular(PbrSpecular),
    PseudoMaterial(PseudoMaterial),
    Subsurface(SubsurfaceView),
}

impl View for Material {
    type V = MaterialView;

    open spec fn view(&self) -> MaterialView {
        match self {
            Material::Conductor(m) => MaterialView::Conductor(*m),
            Material::Dielectric(m) => MaterialView::Dielectric(m@),
            Material::Plastic(m) => MaterialView::Plastic(m@),
            Material::Lambert(m) => MaterialView::Lambert(*m),
            Material::PbrMetallic(m) => MaterialView::PbrMetallic(*m),
            Material::PbrSpecular(m) => MaterialView::PbrSpecular(*m),
            Material::PseudoMaterial(m) => MaterialView::PseudoMaterial(*m),
            Material::Subsurface(m) => MaterialView::Subsurface(m@),
        }
    }
}

/// Runs the next loading step when the previous one succeeded; otherwise keeps its error.
pub open spec fn and_then<A, B>(
    step: (ParamsView, Result<A, LoadErrorView>),
    next: spec_fn(ParamsView, A) -> (ParamsView, Result<B, LoadErrorView>),
) -> (ParamsView, Result<B, LoadErrorView>) {
    match step.1 {
        Ok(a) => next(step.0, a),
        Err(e) => (step.0, Err(e)),
    }
}

/// Reading the texture named by parameter `key`.
pub open spec fn texture_param(p: ParamsView, r: ResourcesView, key: Seq<char>) -> (
    ParamsView,
    Result<TextureId, LoadErrorView>,
) {
    let (p1, s) = p.get_str(key);
    match s {
        Ok(name) => (p1, r.texture(name)),
        Err(e) => (p1, Err(e)),
    }
}

/// Reading the roughness textures: `roughness` serves both directions when given,
/// otherwise `roughness_x` and then `roughness_y` are read.
pub open spec fn roughness_pair(p: ParamsView, r: ResourcesView) -> (
    ParamsView,
    Result<(TextureId, TextureId), LoadErrorView>,
) {
    if p.contains("roughness"@) {
        and_then(texture_param(p, r, "roughness"@), |p1: ParamsView, t: TextureId| (p1, Ok((t, t))))
    } else {
        and_then(
            texture_param(p, r, "roughness_x"@),
            |p1: ParamsView, tx: TextureId|
                and_then(
                    texture_param(p1, r, "roughness_y"@),
                    |p2: ParamsView, ty: TextureId| (p2, Ok((tx, ty))),
                ),
        )
    }
}

pub open spec fn load_conductor(p: ParamsView, r: ResourcesView) -> (ParamsView, Result<Conductor, LoadErrorView>) {
    and_then(
        texture_param(p, r, "ior"@),
        |p1: ParamsView, ior: TextureId|
            and_then(
                texture_param(p1, r, "ior_k"@),
                |p2: ParamsView, ior_k: TextureId|
                    and_then(
                        roughness_pair(p2, r),
                        |p3: ParamsView, rough: (TextureId, TextureId)|
                            (
                                p3,
                                Ok(
                                    Conductor {
                                        ior,
                                        ior_k,
                                        roughness_x: rough.0,
                                        roughness_y: rough.1,
                                    },
                                ),
                            ),
                    ),
            ),
    )
}

pub open spec fn load_lambert(p: ParamsView, r: ResourcesView) -> (ParamsView, Result<Lambert, LoadErrorView>) {
    and_then(texture_param(p, r, "albedo"@), |p1: ParamsView, albedo: TextureId| (p1, Ok(Lambert { albedo })))
}

pub open spec fn load_pbr_metallic(p: ParamsView, r: ResourcesView) -> (ParamsView, Result<PbrMetallic, LoadErrorView>) {
    and_then(
        texture_param(p, r, "base_color"@),
        |p1: ParamsView, base_color: TextureId|
            and_then(
                roughness_pair(p1, r),
                |p2: ParamsView, rough: (TextureId, TextureId)|
                    and_then(
                        texture_param(p2, r, "metallic"@),
                        |p3: ParamsView, metallic: TextureId|
                            (
                                p3,
                                Ok(
                                    PbrMetallic {
                                        base_color,
                                        roughness_x: rough.0,
                                        roughness_y: rough.1,
                                        roughness_chan: TextureChannel::R,
                                        metallic,
                                        metallic_chan: TextureChannel::R,
                                    },
                                ),
                            ),
                    ),
            ),
    )
}

pub open spec fn load_pbr_specular(p: ParamsView, r: ResourcesView) -> (ParamsView, Result<PbrSpecular, LoadErrorView>) {
    and_then(
        texture_param(p, r, "diffuse"@),
        |p1: ParamsView, diffuse: TextureId|
            and_then(
                texture_param(p1, r, "specular"@),
                |p2: ParamsView, specular: TextureId|
                    and_then(
                        roughness_pair(p2, r),
                        |p3: ParamsView, rough: (TextureId, TextureId)|
                            (
                                p3,
                                Ok(
                                    PbrSpecular {
                                        diffuse,
                                        specular,
                                        roughness_x: rough.0,
                                        roughness_y: rough.1,
                                        roughness_chan: TextureChannel::R,
                                    },
                                ),
                            ),
                    ),
            ),
    )
}

/// Reading a dielectric: `int_ior`, then `ext_ior` if it holds a number, then the
/// `reflectance` and `transmittance` textures and the roughness textures.
pub open spec fn load_dielectric(p: ParamsView, r: ResourcesView) -> (ParamsView, Result<DielectricView, LoadErrorView>) {
    and_then(
        p.get_number("int_ior"@),
        |p1: ParamsView, int_ior: NumberView|
            {
                let (p2, ext_ior) = p1.get_number_or("ext_ior"@);
                and_then(
                    texture_param(p2, r, "reflectance"@),
                    |p3: ParamsView, reflectance: TextureId|
                        and_then(
                            texture_param(p3, r, "transmittance"@),
                            |p4: ParamsView, transmittance: TextureId|
                                and_then(
                                    roughness_pair(p4, r),
                                    |p5: ParamsView, rough: (TextureId, TextureId)|
                                        (
                                            p5,
                                            Ok(
                                                DielectricView {
                                                    int_ior,
                                                    ext_ior,
                                                    reflectance,
                                                    transmittance,
                                                    roughness_x: rough.0,
                                                    roughness_y: rough.1,
                                                },
                                            ),
                                        ),
                                ),
                        ),
                )
            },
    )
}

/// Reading a plastic: `int_ior`, then `ext_ior` if it holds a number, then the
/// `albedo` texture and the roughness textures.
pub open spec fn load_plastic(p: ParamsView, r: ResourcesView) -> (ParamsView, Result<PlasticView, LoadErrorView>) {
    and_then(
        p.get_number("int_ior"@),
        |p1: ParamsView, int_ior: NumberView|
            {
                let (p2, ext_ior) = p1.get_number_or("ext_ior"@);
                and_then(
                    texture_param(p2, r, "albedo"@),
                    |p3: ParamsView, albedo: TextureId|
                        and_then(
                            roughness_pair(p3, r),
                            |p4: ParamsView, rough: (TextureId, TextureId)|
                                (
                                    p4,
                                    Ok(
                                        PlasticView {
                                            int_ior,
                                            ext_ior,
                                            albedo,
                                            roughness_x: rough.0,
                                            roughness_y: rough.1,
                                        },
                                    ),
                                ),
                        ),
                )
            },
    )
}

/// Reading a subsurface material: `ior`, then the `albedo` and `ld` textures and
/// the roughness textures.
pub open spec fn load_subsurface(p: ParamsView, r: ResourcesView) -> (ParamsView, Result<SubsurfaceView, LoadErrorView>) {
    and_then(
        p.get_number("ior"@),
        |p1: ParamsView, ior: NumberView|
            and_then(
                texture_param(p1, r, "albedo"@),
                |p2: ParamsView, albedo: TextureId|
                    and_then(
                        texture_param(p2, r, "ld"@),
                        |p3: ParamsView, ld: TextureId|
                            and_then(
                                roughness_pair(p3, r),
                                |p4: ParamsView, rough: (TextureId, TextureId)|
                                    (
                                        p4,
                                        Ok(
                                            SubsurfaceView {
                                                ior,
                                                albedo,
                                                ld,
                                                roughness_x: rough.0,
                                                roughness_y: rough.1,
                                            },
                                        ),
                                    ),
                            ),
                    ),
            ),
    )
}

/// Reads the texture named by parameter `key`.
fn texture_param_exec(rsc: &SceneResources, params: &mut InputParams, key: &str) -> (res: Result<
    TextureId,
    LoadError,
>)
    requires
        old(params).wf(),
        rsc.wf(),
    ensures
        final(params).wf(),
        (final(params)@, result_view(res)) == texture_param(old(params)@, rsc@, key@),
{
    let name = params.get_str(key)?;
    rsc.clone_texture(name)
}

/// Reads the pair of roughness textures.
fn roughness_pair_exec(rsc: &SceneResources, params: &mut InputParams) -> (res: Result<
    (TextureId, TextureId),
    LoadError,
>)
    requires
        old(params).wf(),
        rsc.wf(),
    ensures
        final(params).wf(),
        (final(params)@, result_view(res)) == roughness_pair(old(params)@, rsc@),
{
    if params.contains_key("roughness") {
        let roughness = texture_param_exec(rsc, params, "roughness")?;
        Ok((roughness, roughness))
    } else {
        let roughness_x = texture_param_exec(rsc, params, "roughness_x")?;
        let roughness_y = texture_param_exec(rsc, params, "roughness_y")?;
        Ok((roughness_x, roughness_y))
    }
}

impl Conductor {
    pub fn new(ior: TextureId, ior_k: TextureId, roughness_x: TextureId, roughness_y: TextureId) -> (res: Self)
        ensures
            res == (Conductor { ior, ior_k, roughness_x, roughness_y }),
    {
        Self { ior, ior_k, roughness_x, roughness_y }
    }

    /// Reads `ior`, `ior_k` and the roughness textures.
    pub fn load(rsc: &SceneResources, params: &mut InputParams) -> (res: Result<Self, LoadError>)
        requires
            old(params).wf(),
            rsc.wf(),
        ensures
            final(params).wf(),
            (final(params)@, result_view(res)) == load_conductor(old(params)@, rsc@),
    {
        let ior = texture_param_exec(rsc, params, "ior")?;
        let ior_k = texture_param_exec(rsc, params, "ior_k")?;
        let (roughness_x, roughness_y) = roughness_pair_exec(rsc, params)?;
        Ok(Self::new(ior, ior_k, roughness_x, roughness_y))
    }
}

impl Lambert {
    pub fn new(albedo: TextureId) -> (res: Self)
        ensures
            res == (Lambert { albedo }),
    {
        Self { albedo }
    }

    /// Reads the `albedo` texture.
    pub fn load(rsc: &SceneResources, params: &mut InputParams) -> (res: Result<Self, LoadError>)
        requires
            old(params).wf(),
            rsc.wf(),
        ensures
            final(params).wf(),
            (final(params)@, result_view(res)) == load_lambert(old(params)@, rsc@),
    {
        let albedo = texture_param_exec(rsc, params, "albedo")?;
        Ok(Self::new(albedo))
    }
}

impl PbrMetallic {
    pub fn new(
        base_color: TextureId,
        roughness_x: TextureId,
        roughness_y: TextureId,
        roughness_chan: TextureChannel,
        metallic: TextureId,
        metallic_chan: TextureChannel,
    ) -> (res: Self)
        ensures
            res == (PbrMetallic {
                base_color,
                roughness_x,
                roughness_y,
                roughness_chan,
                metallic,
                metallic_chan,
            }),
    {
        Self { base_color, roughness_x, roughness_y, roughness_chan, metallic, metallic_chan }
    }

    /// Reads `base_color`, the roughness textures and `metallic`; scalars come from
    /// the red channel.
    pub fn load(rsc: &SceneResources, params: &mut InputParams) -> (res: Result<Self, LoadError>)
        requires
            old(params).wf(),
            rsc.wf(),
        ensures
            final(params).wf(),
            (final(params)@, result_view(res)) == load_pbr_metallic(old(params)@, rsc@),
    {
        let base_color = texture_param_exec(rsc, params, "base_color")?;
        let (roughness_x, roughness_y) = roughness_pair_exec(rsc, params)?;
        let metallic = texture_param_exec(rsc, params, "metallic")?;
        Ok(
            Self::new(
                base_color,
                roughness_x,
                roughness_y,
                TextureChannel::R,
                metallic,
                TextureChannel::R,
            ),
        )
    }
}

impl PbrSpecular {
    pub fn new(
        diffuse: TextureId,
        specular: TextureId,
        roughness_x: TextureId,
        roughness_y: TextureId,
        roughness_chan: TextureChannel,
    ) -> (res: Self)
        ensures
            res == (PbrSpecular { diffuse, specular, roughness_x, roughness_y, roughness_chan }),
    {
        Self { diffuse, specular, roughness_x, roughness_y, roughness_chan }
    }

    /// Reads `diffuse`, `specular` and the roughness textures; roughness comes from
    /// the red channel.
    pub fn load(rsc: &SceneResources, params: &mut InputParams) -> (res: Result<Self, LoadError>)
        requires
            old(params).wf(),
            rsc.wf(),
        ensures
            final(params).wf(),
            (final(params)@, result_view(res)) == load_pbr_specular(old(params)@, rsc@),
    {
        let diffuse = texture_param_exec(rsc, params, "diffuse")?;
        let specular = texture_param_exec(rsc, params, "specular")?;
        let (roughness_x, roughness_y) = roughness_pair_exec(rsc, params)?;
        Ok(Self::new(diffuse, specular, roughness_x, roughness_y, TextureChannel::R))
    }
}

impl Dielectric {
    pub fn new(
        int_ior: Number,
        ext_ior: Option<Number>,
        reflectance: TextureId,
        transmittance: TextureId,
        roughness_x: TextureId,
        roughness_y: TextureId,
    ) -> (res: Self)
        ensures
            res == (Dielectric { int_ior, ext_ior, reflectance, transmittance, roughness_x, roughness_y }),
    {
        Self { int_ior, ext_ior, reflectance, transmittance, roughness_x, roughness_y }
    }

    /// Reads `int_ior`, `ext_ior` when it holds a number, the `reflectance` and
    /// `transmittance` textures and the roughness textures.
    pub fn load(rsc: &SceneResources, params: &mut InputParams) -> (res: Result<Self, LoadError>)
        requires
            old(params).wf(),
            rsc.wf(),
        ensures
            final(params).wf(),
            (final(params)@, viewed_result(res)) == load_dielectric(old(params)@, rsc@),
    {
        let int_ior = params.get_number("int_ior")?;
        let ext_ior = params.get_number_or("ext_ior");
        let reflectance = texture_param_exec(rsc, params, "reflectance")?;
        let transmittance = texture_param_exec(rsc, params, "transmittance")?;
        let (roughness_x, roughness_y) = roughness_pair_exec(rsc, params)?;
        Ok(Self::new(int_ior, ext_ior, reflectance, transmittance, roughness_x, roughness_y))
    }
}

impl Plastic {
    pub fn new(
        int_ior: Number,
        ext_ior: Option<Number>,
        albedo: TextureId,
        roughness_x: TextureId,
        roughness_y: TextureId,
    ) -> (res: Self)
        ensures
            res == (Plastic { int_ior, ext_ior, albedo, roughness_x, roughness_y }),
    {
        Self { int_ior, ext_ior, albedo, roughness_x, roughness_y }
    }

    /// Reads `int_ior`, `ext_ior` when it holds a number, the `albedo` texture and
    /// the roughness textures.
    pub fn load(rsc: &SceneResources, params: &mut InputParams) -> (res: Result<Self, LoadError>)
        requires
            old(params).wf(),
            rsc.wf(),
        ensures
            final(params).wf(),
            (final(params)@, viewed_result(res)) == load_plastic(old(params)@, rsc@),
    {
        let int_ior = params.get_number("int_ior")?;
        let ext_ior = params.get_number_or("ext_ior");
        let albedo = texture_param_exec(rsc, params, "albedo")?;
        let (roughness_x, roughness_y) = roughness_pair_exec(rsc, params)?;
        Ok(Self::new(int_ior, ext_ior, albedo, roughness_x, roughness_y))
    }
}

impl Subsurface {
    pub fn new(ior: Number, albedo: TextureId, ld: TextureId, roughness_x: TextureId, roughness_y: TextureId) -> (res: Self)
        ensures
            res == (Subsurface { ior, albedo, ld, roughness_x, roughness_y }),
    {
        Self { ior, albedo, ld, roughness_x, roughness_y }
    }

    /// Reads `ior`, the `albedo` and `ld` textures and the roughness textures.
    pub fn load(rsc: &SceneResources, params: &mut InputParams) -> (res: Result<Self, LoadError>)
        requires
            old(params).wf(),
            rsc.wf(),
        ensures
            final(params).wf(),
            (final(params)@, viewed_result(res)) == load_subsurface(old(params)@, rsc@),
    {
        let ior = params.get_number("ior")?;
        let albedo = texture_param_exec(rsc, params, "albedo")?;
        let ld = texture_param_exec(rsc, params, "ld")?;
        let (roughness_x, roughness_y) = roughness_pair_exec(rsc, params)?;
        Ok(Self::new(ior, albedo, ld, roughness_x, roughness_y))
    }
}

impl PseudoMaterial {
    pub fn new() -> (res: Self)
        ensures
            res == (PseudoMaterial {}),
    {
        Self {  }
    }

    /// Needs no parameters.
    pub fn load(_rsc: &SceneResources, params: &mut InputParams) -> (res: Result<Self, LoadError>)
        ensures
            *final(params) == *old(params),
            res == Ok::<PseudoMaterial, LoadError>(PseudoMaterial {}),
    {
        Ok(Self::new())
    }
}

impl DebugMaterial {
    pub fn new(debug_color: TextureId, normal_map: TextureId) -> (res: Self)
        ensures
            res == (DebugMaterial { debug_color, normal_map: Some(normal_map) }),
    {
        Self { debug_color, normal_map: Some(normal_map) }
    }

    /// Shows a single colour, given as the constant texture that holds it; no normal
    /// map.
    pub fn color_only(debug_color: TextureId) -> (res: Self)
        ensures
            res == (DebugMaterial { debug_color, normal_map: None }),
    {
        Self { debug_color, normal_map: None }
    }
}

/// Building the material of kind `ty` from the block: `Some` material, `None` for a
/// kind the caller builds, or an error (an unknown kind among them).
pub open spec fn load_material_of_kind(ty: Seq<char>, p: ParamsView, r: ResourcesView) -> (
    ParamsView,
    Result<Option<MaterialView>, LoadErrorView>,
) {
    if ty == "conductor"@ {
        and_then(load_conductor(p, r), |q: ParamsView, m: Conductor| (q, Ok(Some(MaterialView::Conductor(m)))))
    } else if ty == "dielectric"@ {
        and_then(load_dielectric(p, r), |q: ParamsView, m: DielectricView| (q, Ok(Some(MaterialView::Dielectric(m)))))
    } else if ty == "plastic"@ {
        and_then(load_plastic(p, r), |q: ParamsView, m: PlasticView| (q, Ok(Some(MaterialView::Plastic(m)))))
    } else if ty == "lambert"@ {
        and_then(load_lambert(p, r), |q: ParamsView, m: Lambert| (q, Ok(Some(MaterialView::Lambert(m)))))
    } else if ty == "pbr_metallic"@ {
        and_then(
            load_pbr_metallic(p, r),
            |q: ParamsView, m: PbrMetallic| (q, Ok(Some(MaterialView::PbrMetallic(m)))),
        )
    } else if ty == "pbr_specular"@ {
        and_then(
            load_pbr_specular(p, r),
            |q: ParamsView, m: PbrSpecular| (q, Ok(Some(MaterialView::PbrSpecular(m)))),
        )
    } else if ty == "pndf_conductor"@ || ty == "pndf_plastic"@ {
        (p, Ok(None))
    } else if ty == "pseudo"@ {
        (p, Ok(Some(MaterialView::PseudoMaterial(PseudoMaterial {  }))))
    } else if ty == "subsurface"@ {
        and_then(load_subsurface(p, r), |q: ParamsView, m: SubsurfaceView| (q, Ok(Some(MaterialView::Subsurface(m)))))
    } else {
        (p, Err(LoadErrorView::UnknownType { env: p.name, ty }))
    }
}

/// The whole of loading one material block into the resources: the new resources,
/// the new state of the block, and the outcome.
pub open spec fn create_material(r: ResourcesView, p: ParamsView) -> (
    ResourcesView,
    ParamsView,
    Result<CreateOutcomeView, LoadErrorView>,
) {
    let p0 = ParamsView { name: "material"@, ..p };
    let (p1, ty) = p0.get_str("type"@);
    match ty {
        Err(e) => (r, p1, Err(e)),
        Ok(ty) => {
            let (p2, name) = p1.get_str("name"@);
            match name {
                Err(e) => (r, p2, Err(e)),
                Ok(name) => {
                    let p3 = ParamsView { name: tagged("material"@, ty, name), ..p2 };
                    let (p4, loaded) = load_material_of_kind(ty, p3, r);
                    match loaded {
                        Err(e) => (r, p4, Err(e)),
                        Ok(None) => (r, p4, Ok(CreateOutcomeView::CallerBuilds { ty, name })),
                        Ok(Some(m)) => {
                            let (r2, added) = r.add_material(name, m);
                            match added {
                                Err(e) => (r, p4, Err(e)),
                                Ok(_) => (r2, p4, Ok(CreateOutcomeView::Added)),
                            }
                        },
                    }
                },
            }
        },
    }
}

/// An optional material taken by its view.
pub open spec fn opt_material_view(m: Option<Material>) -> Option<MaterialView> {
    match m {
        Some(v) => Some(v@),
        None => None,
    }
}

/// Builds the material of kind `ty` from the block.
fn load_material_of_kind_exec(ty: &String, rsc: &SceneResources, params: &mut InputParams) -> (res:
    Result<Option<Material>, LoadError>)
    requires
        old(params).wf(),
        rsc.wf(),
    ensures
        final(params).wf(),
        (final(params)@, match res {
            Ok(m) => Ok(opt_material_view(m)),
            Err(e) => Err(e@),
        }) == load_material_of_kind(ty@, old(params)@, rsc@),
{
    if text_is(ty, "conductor") {
        Ok(Some(Material::Conductor(Conductor::load(rsc, params)?)))
    } else if text_is(ty, "dielectric") {
        Ok(Some(Material::Dielectric(Dielectric::load(rsc, params)?)))
    } else if text_is(ty, "plastic") {
        Ok(Some(Material::Plastic(Plastic::load(rsc, params)?)))
    } else if text_is(ty, "lambert") {
        Ok(Some(Material::Lambert(Lambert::load(rsc, params)?)))
    } else if text_is(ty, "pbr_metallic") {
        Ok(Some(Material::PbrMetallic(PbrMetallic::load(rsc, params)?)))
    } else if text_is(ty, "pbr_specular") {
        Ok(Some(Material::PbrSpecular(PbrSpecular::load(rsc, params)?)))
    } else if text_is(ty, "pndf_conductor") || text_is(ty, "pndf_plastic") {
        Ok(None)
    } else if text_is(ty, "pseudo") {
        Ok(Some(Material::PseudoMaterial(PseudoMaterial::load(rsc, params)?)))
    } else if text_is(ty, "subsurface") {
        Ok(Some(Material::Subsurface(Subsurface::load(rsc, params)?)))
    } else {
        Err(LoadError::UnknownType { env: params.name().to_owned(), ty: ty.clone() })
    }
}

/// Loads one material block: reads its `type` and `name`, renames the block
/// `material-<type>-<name>`, builds the material and registers it under `name`.
/// The kinds built from precomputed normal distributions (`pndf_conductor`,
/// `pndf_plastic`) are named in the outcome for the caller to build.
/// Keys left unread are for the caller to report through
/// [`InputParams::check_unused_keys`].
pub fn create_material_from_params(rsc: &mut SceneResources, params: &mut InputParams) -> (res: Result<
    CreateOutcome,
    LoadError,
>)
    requires
        old(params).wf(),
        old(rsc).wf(),
    ensures
        final(params).wf(),
        final(rsc).wf(),
        (final(rsc)@, final(params)@, outcome_view(res)) == create_material(
            old(rsc)@,
            old(params)@,
        ),
{
    params.set_name("material".to_owned());
    let ty = params.get_str("type")?;
    let name = params.get_str("name")?;
    params.set_name(tagged_exec("material", &ty, &name));
    match load_material_of_kind_exec(&ty, rsc, params)? {
        None => Ok(CreateOutcome::CallerBuilds { ty, name }),
        Some(material) => {
            rsc.add_material(name, material)?;
            Ok(CreateOutcome::Added)
        },
    }
}

/// A material block that loads is found afterwards under the name it gave, and
/// a block that fails to load, or whose kind the caller builds, leaves the
/// registered materials as they were.
pub proof fn created_material_is_registered(r: ResourcesView, p: ParamsView)
    requires
        r.wf(),
        p.wf(),
    ensures
        create_material(r, p).2 == Ok::<CreateOutcomeView, LoadErrorView>(CreateOutcomeView::Added) ==> (
        p.lookup("name"@) matches Some(ParamValueView::Str(name)) && create_material(r, p).0.material(
            name,
        ) is Ok),
        !(create_material(r, p).2 == Ok::<CreateOutcomeView, LoadErrorView>(CreateOutcomeView::Added))
            ==> create_material(r, p).0 == r,
{
    let p0 = ParamsView { name: "material"@, ..p };
    let (p1, ty) = p0.get_str("type"@);
    if let Ok(ty) = ty {
        let (p2, name) = p1.get_str("name"@);
        assert(p1.keys == p.keys && p1.values == p.values);
        if let Ok(name) = name {
            assert(p.lookup("name"@) == p1.lookup("name"@));
            let p3 = ParamsView { name: tagged("material"@, ty, name), ..p2 };
            let (p4, loaded) = load_material_of_kind(ty, p3, r);
            if let Ok(Some(m)) = loaded {
                crate::resources::resources_material_read_after_add(r, name, m, name);
            }
        }
    }
}


/// Parameter `key` names a registered texture, and that texture is `t`.
pub open spec fn names_texture(p: ParamsView, r: ResourcesView, key: Seq<char>, t: TextureId) -> bool {
    p.lookup(key) matches Some(ParamValueView::Str(n)) && r.texture(n) == Ok::<TextureId, LoadErrorView>(t)
}

/// The number parameter `key` holds: an integer as itself, a fractional number as
/// its text; `None` when the key is absent or holds something else.
pub open spec fn number_in(p: ParamsView, key: Seq<char>) -> Option<NumberView> {
    match p.lookup(key) {
        Some(ParamValueView::Int(i)) => Some(NumberView::Int(i)),
        Some(ParamValueView::Other(s)) => Some(NumberView::Text(s)),
        _ => None,
    }
}

/// `tx` and `ty` are the roughness textures the block names: `roughness` for both
/// directions when the block has that key, otherwise `roughness_x` for `tx` and
/// `roughness_y` for `ty`.
pub open spec fn names_roughness(p: ParamsView, r: ResourcesView, tx: TextureId, ty: TextureId) -> bool {
    if p.contains("roughness"@) {
        names_texture(p, r, "roughness"@, tx) && names_texture(p, r, "roughness"@, ty)
    } else {
        names_texture(p, r, "roughness_x"@, tx) && names_texture(p, r, "roughness_y"@, ty)
    }
}

/// A conductor that loads has the textures its `ior`, `ior_k` and roughness keys
/// name.
pub proof fn loaded_conductor_reads_its_keys(p: ParamsView, r: ResourcesView)
    ensures
        load_conductor(p, r).1 matches Ok(m) ==> names_texture(p, r, "ior"@, m.ior) && names_texture(
            p,
            r,
            "ior_k"@,
            m.ior_k,
        ) && names_roughness(p, r, m.roughness_x, m.roughness_y),
{
}

/// A Lambertian material that loads has the texture its `albedo` key names.
pub proof fn loaded_lambert_reads_its_keys(p: ParamsView, r: ResourcesView)
    ensures
        load_lambert(p, r).1 matches Ok(m) ==> names_texture(p, r, "albedo"@, m.albedo),
{
}

/// A metallic PBR material that loads has the textures its `base_color`,
/// roughness and `metallic` keys name, each sampled from the red channel.
pub proof fn loaded_pbr_metallic_reads_its_keys(p: ParamsView, r: ResourcesView)
    ensures
        load_pbr_metallic(p, r).1 matches Ok(m) ==> names_texture(p, r, "base_color"@, m.base_color)
            && names_roughness(p, r, m.roughness_x, m.roughness_y) && names_texture(p, r, "metallic"@, m.metallic)
            && m.roughness_chan == TextureChannel::R && m.metallic_chan == TextureChannel::R,
{
}

/// A specular PBR material that loads has the textures its `diffuse`, `specular`
/// and roughness keys name, roughness sampled from the red channel.
pub proof fn loaded_pbr_specular_reads_its_keys(p: ParamsView, r: ResourcesView)
    ensures
        load_pbr_specular(p, r).1 matches Ok(m) ==> names_texture(p, r, "diffuse"@, m.diffuse) && names_texture(
            p,
            r,
            "specular"@,
            m.specular,
        ) && names_roughness(p, r, m.roughness_x, m.roughness_y) && m.roughness_chan == TextureChannel::R,
{
}

/// A dielectric that loads has the number its `int_ior` key holds, the number its
/// `ext_ior` key holds (none when it holds none), and the textures its
/// `reflectance`, `transmittance` and roughness keys name.
pub proof fn loaded_dielectric_reads_its_keys(p: ParamsView, r: ResourcesView)
    ensures
        load_dielectric(p, r).1 matches Ok(m) ==> number_in(p, "int_ior"@) == Some(m.int_ior) && m.ext_ior
            == number_in(p, "ext_ior"@) && names_texture(p, r, "reflectance"@, m.reflectance) && names_texture(
            p,
            r,
            "transmittance"@,
            m.transmittance,
        ) && names_roughness(p, r, m.roughness_x, m.roughness_y),
{
}

/// A plastic that loads has the number its `int_ior` key holds, the number its
/// `ext_ior` key holds (none when it holds none, so that the coat faces an index
/// of 1), and the textures its `albedo` and roughness keys name.
pub proof fn loaded_plastic_reads_its_keys(p: ParamsView, r: ResourcesView)
    ensures
        load_plastic(p, r).1 matches Ok(m) ==> number_in(p, "int_ior"@) == Some(m.int_ior) && m.ext_ior
            == number_in(p, "ext_ior"@) && names_texture(p, r, "albedo"@, m.albedo) && names_roughness(
            p,
            r,
            m.roughness_x,
            m.roughness_y,
        ),
{
}

/// A subsurface material that loads has the number its `ior` key holds and the
/// textures its `albedo`, `ld` and roughness keys name.
pub proof fn loaded_subsurface_reads_its_keys(p: ParamsView, r: ResourcesView)
    ensures
        load_subsurface(p, r).1 matches Ok(m) ==> number_in(p, "ior"@) == Some(m.ior) && names_texture(
            p,
            r,
            "albedo"@,
            m.albedo,
        ) && names_texture(p, r, "ld"@, m.ld) && names_roughness(p, r, m.roughness_x, m.roughness_y),
{
}


/// The `type` name of a material's kind.
pub open spec fn kind_name(m: MaterialView) -> Seq<char> {
    match m {
        MaterialView::Conductor(_) => "conductor"@,
        MaterialView::Dielectric(_) => "dielectric"@,
        MaterialView::Plastic(_) => "plastic"@,
        MaterialView::Lambert(_) => "lambert"@,
        MaterialView::PbrMetallic(_) => "pbr_metallic"@,
        MaterialView::PbrSpecular(_) => "pbr_specular"@,
        MaterialView::PseudoMaterial(_) => "pseudo"@,
        MaterialView::Subsurface(_) => "subsurface"@,
    }
}

/// A material block builds a material of the kind its `type` names; only the two
/// glinty kinds are handed back for the caller to build.
pub proof fn loaded_material_has_named_kind(ty: Seq<char>, p: ParamsView, r: ResourcesView)
    ensures
        load_material_of_kind(ty, p, r).1 matches Ok(Some(m)) ==> kind_name(m) == ty,
        load_material_of_kind(ty, p, r).1 matches Ok(None) ==> ty == "pndf_conductor"@ || ty == "pndf_plastic"@,
{
}

} // verus!
