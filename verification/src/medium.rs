use vstd::prelude::*;

use crate::error::{result_view, viewed_result, LoadError, LoadErrorView};
use crate::material::and_then;
use crate::params::{tagged, tagged_exec, text_is, InputParams, Number, NumberView, ParamValueView, ParamsView};
use crate::resources::{ResourcesView, SceneResources};

verus! {

/// A participating medium of constant density. The absorption and scattering
/// coefficients (three colour channels each) and the asymmetry of the phase
/// function are kept as written in the scene; the renderer turns them into
/// numbers, with the extinction coefficient the sum of the two.
#[derive(Debug, Clone, PartialEq, Eq)]
pub struct Homogeneous {
    pub sigma_a: String,
    pub sigma_s: String,
    pub asymmetric: Number,
}

/// [`Homogeneous`] with its texts taken as character sequences.
pub struct HomogeneousView {
    pub sigma_a: Seq<char>,
    pub sigma_s: Seq<char>,
    pub asymmetric: NumberView,
}

impl View for Homogeneous {
    type V = HomogeneousView;

    open spec fn view(&self) -> HomogeneousView {
        HomogeneousView { sigma_a: self.sigma_a@, sigma_s: self.sigma_s@, asymmetric: self.asymmetric@ }
    }
}

/// The media a scene can hold.
#[derive(Debug, Clone, PartialEq, Eq)]
pub enum Medium {
    Homogeneous(Homogeneous),
}

/// [`Medium`] taken by the views of its variants.
pub enum MediumView {
    Homogeneous(HomogeneousView),
}

impl View for Medium {
    type V = MediumView;

    open spec fn view(&self) -> MediumView {
        match self {
            Medium::Homogeneous(h) => MediumView::Homogeneous(h@),
        }
    }
}

/// Reading a homogeneous medium: both coefficient sets are read from the key
/// `sigma_a`, then `asymmetric`.
pub open spec fn load_homogeneous(p: ParamsView) -> (ParamsView, Result<HomogeneousView, LoadErrorView>) {
    and_then(
        p.get_other("sigma_a"@),
        |p1: ParamsView, sigma_a: Seq<char>|
            and_then(
                p1.get_other("sigma_a"@),
                |p2: ParamsView, sigma_s: Seq<char>|
                    and_then(
                        p2.get_number("asymmetric"@),
                        |p3: ParamsView, asymmetric: NumberView|
                            (p3, Ok(HomogeneousView { sigma_a, sigma_s, asymmetric })),
                    ),
            ),
    )
}

impl Homogeneous {
    pub fn new(sigma_a: String, sigma_s: String, asymmetric: Number) -> (res: Self)
        ensures
            res == (Homogeneous { sigma_a, sigma_s, asymmetric }),
    {
        Self { sigma_a, sigma_s, asymmetric }
    }

    /// Reads the coefficients and the asymmetry. The scattering coefficients are
    /// read from `sigma_a` as well, so a `sigma_s` key is left unread.
    pub fn load(params: &mut InputParams) -> (res: Result<Self, LoadError>)
        requires
            old(params).wf(),
        ensures
            final(params).wf(),
            (final(params)@, viewed_result(res)) == load_homogeneous(old(params)@),
    {
        let sigma_a = params.get_other("sigma_a")?;
        let sigma_s = params.get_other("sigma_a")?;
        let asymmetric = params.get_number("asymmetric")?;
        Ok(Self::new(sigma_a, sigma_s, asymmetric))
    }
}

/// Building the medium of kind `ty` from the block.
pub open spec fn load_medium_of_kind(ty: Seq<char>, p: ParamsView) -> (ParamsView, Result<MediumView, LoadErrorView>) {
    if ty == "homogeneous"@ {
        and_then(load_homogeneous(p), |q: ParamsView, h: HomogeneousView| (q, Ok(MediumView::Homogeneous(h))))
    } else {
        (p, Err(LoadErrorView::UnknownType { env: p.name, ty }))
    }
}

/// The whole of loading one medium block into the resources: the new resources,
/// the new state of the block, and the outcome.
pub open spec fn create_medium(r: ResourcesView, p: ParamsView) -> (ResourcesView, ParamsView, Result<(), LoadErrorView>) {
    let p0 = ParamsView { name: "medium"@, ..p };
    let (p1, ty) = p0.get_str("type"@);
    match ty {
        Err(e) => (r, p1, Err(e)),
        Ok(ty) => {
            let (p2, name) = p1.get_str("name"@);
            match name {
                Err(e) => (r, p2, Err(e)),
                Ok(name) => {
                    let p3 = ParamsView { name: tagged("medium"@, ty, name), ..p2 };
                    let (p4, loaded) = load_medium_of_kind(ty, p3);
                    match loaded {
                        Err(e) => (r, p4, Err(e)),
                        Ok(m) => {
                            let (r2, added) = r.add_medium(name, m);
                            (if added is Ok { r2 } else { r }, p4, added)
                        },
                    }
                },
            }
        },
    }
}

/// Loads one medium block: reads its `type` and `name`, renames the block
/// `medium-<type>-<name>`, builds the medium and registers it under `name`.
/// Keys left unread are for the caller to report through
/// [`InputParams::check_unused_keys`].
pub fn create_medium_from_params(rsc: &mut SceneResources, params: &mut InputParams) -> (res: Result<(), LoadError>)
    requires
        old(params).wf(),
        old(rsc).wf(),
    ensures
        final(params).wf(),
        final(rsc).wf(),
        (final(rsc)@, final(params)@, result_view(res)) == create_medium(old(rsc)@, old(params)@),
{
    params.set_name("medium".to_owned());
    let ty = params.get_str("type")?;
    let name = params.get_str("name")?;
    params.set_name(tagged_exec("medium", &ty, &name));
    let medium = if text_is(&ty, "homogeneous") {
        Medium::Homogeneous(Homogeneous::load(params)?)
    } else {
        return Err(LoadError::UnknownType { env: params.name().to_owned(), ty });
    };
    rsc.add_medium(name, medium)
}

/// A medium block that loads is found afterwards under the name it gave, and a
/// block that fails leaves the registered media as they were.
pub proof fn created_medium_is_registered(r: ResourcesView, p: ParamsView)
    requires
        r.wf(),
        p.wf(),
    ensures
        create_medium(r, p).2 is Ok ==> (p.lookup("name"@) matches Some(ParamValueView::Str(name))
            && create_medium(r, p).0.medium(name) is Ok),
        create_medium(r, p).2 is Err ==> create_medium(r, p).0 == r,
        create_medium(r, p).0.wf(),
{
    let p0 = ParamsView { name: "medium"@, ..p };
    let (p1, ty) = p0.get_str("type"@);
    if let Ok(ty) = ty {
        let (p2, name) = p1.get_str("name"@);
        assert(p1.keys == p.keys && p1.values == p.values);
        if let Ok(name) = name {
            assert(p.lookup("name"@) == p1.lookup("name"@));
            let p3 = ParamsView { name: tagged("medium"@, ty, name), ..p2 };
            let (p4, loaded) = load_medium_of_kind(ty, p3);
            if let Ok(m) = loaded {
                crate::resources::resources_medium_read_after_add(r, name, m);
            }
        }
    }
}


/// A homogeneous medium that loads has the number its `asymmetric` key holds and,
/// for both its absorption and its scattering coefficient, the text its
/// `sigma_a` key holds (the block's `sigma_s` key is not read).
pub proof fn loaded_homogeneous_reads_its_keys(p: ParamsView)
    ensures
        load_homogeneous(p).1 matches Ok(h) ==> p.lookup("sigma_a"@) == Some(ParamValueView::Other(h.sigma_a))
            && h.sigma_s == h.sigma_a && crate::material::number_in(p, "asymmetric"@) == Some(h.asymmetric),
{
}

} // verus!
