use vstd::prelude::*;

use crate::error::{result_view, LoadError, LoadErrorView};
use crate::material::and_then;
use crate::params::{InputParams, ParamValueView, ParamsView};
use crate::resources::{MaterialId, PrimitiveId, ResourcesView, SceneResources, SurfaceId};

verus! {

/// One step of an instance's placement, with its parameter kept as written (the
/// renderer turns it into a transform). The steps apply in order, each on top of
/// the ones before.
#[derive(Debug, Clone, PartialEq, Eq)]
pub enum TransformStep {
    /// Replace the placement by this matrix.
    Matrix(String),
    Scale(String),
    /// Angles in degrees about x, y and z; the turn about y comes first, then x,
    /// then z.
    Rotate(String),
    Translate(String),
}

/// [`TransformStep`] with its text taken as a character sequence.
pub enum TransformStepView {
    Matrix(Seq<char>),
    Scale(Seq<char>),
    Rotate(Seq<char>),
    Translate(Seq<char>),
}

impl View for TransformStep {
    type V = TransformStepView;

    open spec fn view(&self) -> TransformStepView {
        match self {
            TransformStep::Matrix(s) => TransformStepView::Matrix(s@),
            TransformStep::Scale(s) => TransformStepView::Scale(s@),
            TransformStep::Rotate(s) => TransformStepView::Rotate(s@),
            TransformStep::Translate(s) => TransformStepView::Translate(s@),
        }
    }
}

/// What an instance looks like: a surface of its own, or a plain surface made from
/// a material (no emission, no normal map, no medium).
#[derive(Debug, Clone, Copy, PartialEq, Eq, Structural)]
pub enum SurfaceChoice {
    Surface(SurfaceId),
    Material(MaterialId),
}

/// A primitive placed in the scene by a transform and given a surface.
#[derive(Debug, Clone, PartialEq, Eq)]
pub struct Instance {
    pub primitive: PrimitiveId,
    pub transform: Vec<TransformStep>,
    pub surface: SurfaceChoice,
}

/// [`Instance`] with its placement taken by its view.
pub struct InstanceView {
    pub primitive: PrimitiveId,
    pub transform: Seq<TransformStepView>,
    pub surface: SurfaceChoice,
}

impl View for Instance {
    type V = InstanceView;

    open spec fn view(&self) -> InstanceView {
        InstanceView {
            primitive: self.primitive,
            transform: self.transform@.map_values(|t: TransformStep| t@),
            surface: self.surface,
        }
    }
}

/// Reading the text of an optional key: `None`, with nothing read, when the block
/// does not have it.
pub open spec fn optional_text(p: ParamsView, key: Seq<char>) -> (ParamsView, Result<Option<Seq<char>>, LoadErrorView>) {
    if p.contains(key) {
        let (q, t) = p.get_other(key);
        match t {
            Ok(s) => (q, Ok(Some(s))),
            Err(e) => (q, Err(e)),
        }
    } else {
        (p, Ok(None))
    }
}

/// The step made from `text` when there is one, as a sequence of zero or one steps.
pub open spec fn step_if(text: Option<Seq<char>>, make: spec_fn(Seq<char>) -> TransformStepView) -> Seq<TransformStepView> {
    match text {
        Some(s) => seq![make(s)],
        None => Seq::empty(),
    }
}

/// The placement given by the optional matrix, scale, rotation and translation,
/// in that order.
pub open spec fn steps_of(
    matrix: Option<Seq<char>>,
    scale: Option<Seq<char>>,
    rotate: Option<Seq<char>>,
    translate: Option<Seq<char>>,
) -> Seq<TransformStepView> {
    step_if(matrix, |s: Seq<char>| TransformStepView::Matrix(s))
        + step_if(scale, |s: Seq<char>| TransformStepView::Scale(s))
        + step_if(rotate, |s: Seq<char>| TransformStepView::Rotate(s))
        + step_if(translate, |s: Seq<char>| TransformStepView::Translate(s))
}

/// Reading the placement: `matrix`, `scale`, `rotate` and `translate`, each when
/// present, in that order.
pub open spec fn transform_steps(p: ParamsView) -> (ParamsView, Result<Seq<TransformStepView>, LoadErrorView>) {
    and_then(
        optional_text(p, "matrix"@),
        |p1: ParamsView, matrix: Option<Seq<char>>|
            and_then(
                optional_text(p1, "scale"@),
                |p2: ParamsView, scale: Option<Seq<char>>|
                    and_then(
                        optional_text(p2, "rotate"@),
                        |p3: ParamsView, rotate: Option<Seq<char>>|
                            and_then(
                                optional_text(p3, "translate"@),
                                |p4: ParamsView, translate: Option<Seq<char>>|
                                    (p4, Ok(steps_of(matrix, scale, rotate, translate))),
                            ),
                    ),
            ),
    )
}

/// Reading the look: the surface named by `surface` when the block has that key,
/// otherwise the material named by `material`.
pub open spec fn surface_choice(p: ParamsView, r: ResourcesView) -> (ParamsView, Result<SurfaceChoice, LoadErrorView>) {
    if p.contains("surface"@) {
        and_then(
            p.get_str("surface"@),
            |q: ParamsView, name: Seq<char>|
                (
                    q,
                    match r.surface(name) {
                        Ok(id) => Ok(SurfaceChoice::Surface(id)),
                        Err(e) => Err(e),
                    },
                ),
        )
    } else {
        and_then(
            p.get_str("material"@),
            |q: ParamsView, name: Seq<char>|
                (
                    q,
                    match r.material_id(name) {
                        Ok(id) => Ok(SurfaceChoice::Material(id)),
                        Err(e) => Err(e),
                    },
                ),
        )
    }
}

/// The whole of loading one instance block into the resources: the new resources,
/// the new state of the block, and the outcome.
pub open spec fn load_instance(r: ResourcesView, p: ParamsView) -> (ResourcesView, ParamsView, Result<(), LoadErrorView>) {
    let p0 = ParamsView { name: "instance"@, ..p };
    let (p1, name) = p0.get_str("name"@);
    match name {
        Err(e) => (r, p1, Err(e)),
        Ok(name) => {
            let p2 = ParamsView { name: "instance-"@ + name, ..p1 };
            let (p3, steps) = transform_steps(p2);
            match steps {
                Err(e) => (r, p3, Err(e)),
                Ok(steps) => {
                    let (p4, surface) = surface_choice(p3, r);
                    match surface {
                        Err(e) => (r, p4, Err(e)),
                        Ok(surface) => {
                            let (p5, prim) = p4.get_str("primitive"@);
                            match prim {
                                Err(e) => (r, p5, Err(e)),
                                Ok(prim) => match r.primitive(prim) {
                                    Err(e) => (r, p5, Err(e)),
                                    Ok(primitive) => {
                                        let (r2, added) = r.add_instance(
                                            name,
                                            InstanceView { primitive, transform: steps, surface },
                                        );
                                        (r2, p5, added)
                                    },
                                },
                            }
                        },
                    }
                },
            }
        },
    }
}

/// An optional text taken by its view.
pub open spec fn opt_text_view(t: Option<String>) -> Option<Seq<char>> {
    match t {
        Some(s) => Some(s@),
        None => None,
    }
}

/// Reads the text of `key` when the block has it.
fn read_optional_text(params: &mut InputParams, key: &str) -> (res: Result<Option<String>, LoadError>)
    requires
        old(params).wf(),
    ensures
        final(params).wf(),
        (final(params)@, match res {
            Ok(t) => Ok(opt_text_view(t)),
            Err(e) => Err(e@),
        }) == optional_text(old(params)@, key@),
{
    if params.contains_key(key) {
        let text = params.get_other(key)?;
        Ok(Some(text))
    } else {
        Ok(None)
    }
}

/// Appends the step made from `text`, if any.
fn push_step(steps: &mut Vec<TransformStep>, text: Option<String>, kind: StepKind)
    ensures
        final(steps)@.map_values(|t: TransformStep| t@) == old(steps)@.map_values(|t: TransformStep| t@)
            + step_if(opt_text_view(text), kind.maker()),
{
    let ghost before = steps@;
    match text {
        Some(t) => {
            let step = match kind {
                StepKind::Matrix => TransformStep::Matrix(t),
                StepKind::Scale => TransformStep::Scale(t),
                StepKind::Rotate => TransformStep::Rotate(t),
                StepKind::Translate => TransformStep::Translate(t),
            };
            steps.push(step);
            proof {
                assert(steps@.map_values(|t: TransformStep| t@) =~= before.map_values(|t: TransformStep| t@)
                    + step_if(opt_text_view(text), kind.maker()));
            }
        },
        None => {
            proof {
                assert(steps@.map_values(|t: TransformStep| t@) =~= before.map_values(|t: TransformStep| t@)
                    + step_if(opt_text_view(text), kind.maker()));
            }
        },
    }
}

/// Which kind of placement step a text makes.
#[derive(Clone, Copy)]
enum StepKind {
    Matrix,
    Scale,
    Rotate,
    Translate,
}

impl StepKind {
    spec fn maker(self) -> spec_fn(Seq<char>) -> TransformStepView {
        match self {
            StepKind::Matrix => |s: Seq<char>| TransformStepView::Matrix(s),
            StepKind::Scale => |s: Seq<char>| TransformStepView::Scale(s),
            StepKind::Rotate => |s: Seq<char>| TransformStepView::Rotate(s),
            StepKind::Translate => |s: Seq<char>| TransformStepView::Translate(s),
        }
    }
}

impl Instance {
    pub fn new(primitive: PrimitiveId, transform: Vec<TransformStep>, surface: SurfaceChoice) -> (res: Self)
        ensures
            res == (Instance { primitive, transform, surface }),
    {
        Self { primitive, transform, surface }
    }

    pub fn surface(&self) -> (res: SurfaceChoice)
        ensures
            res == self.surface,
    {
        self.surface
    }

    /// Loads one instance block: reads its `name` and renames the block
    /// `instance-<name>`, reads the placement steps, the `surface` (or else the
    /// `material`) and the `primitive`, and registers the instance under `name`.
    /// Keys left unread are for the caller to report through
    /// [`InputParams::check_unused_keys`].
    pub fn load(rsc: &mut SceneResources, params: &mut InputParams) -> (res: Result<(), LoadError>)
        requires
            old(params).wf(),
            old(rsc).wf(),
        ensures
            final(params).wf(),
            final(rsc).wf(),
            (final(rsc)@, final(params)@, result_view(res)) == load_instance(old(rsc)@, old(params)@),
    {
        params.set_name("instance".to_owned());
        let name = params.get_str("name")?;
        let mut env = "instance-".to_owned();
        env.append(name.as_str());
        params.set_name(env);

        let matrix = read_optional_text(params, "matrix")?;
        let scale = read_optional_text(params, "scale")?;
        let rotate = read_optional_text(params, "rotate")?;
        let translate = read_optional_text(params, "translate")?;
        let ghost steps = steps_of(opt_text_view(matrix), opt_text_view(scale), opt_text_view(rotate), opt_text_view(translate));
        let mut transform: Vec<TransformStep> = Vec::new();
        proof {
            assert(transform@.map_values(|t: TransformStep| t@) =~= Seq::<TransformStepView>::empty());
        }
        push_step(&mut transform, matrix, StepKind::Matrix);
        push_step(&mut transform, scale, StepKind::Scale);
        push_step(&mut transform, rotate, StepKind::Rotate);
        push_step(&mut transform, translate, StepKind::Translate);
        proof {
            assert(transform@.map_values(|t: TransformStep| t@) =~= steps);
        }

        let surface = if params.contains_key("surface") {
            let surface_name = params.get_str("surface")?;
            SurfaceChoice::Surface(rsc.clone_surface(surface_name)?)
        } else {
            let material_name = params.get_str("material")?;
            SurfaceChoice::Material(rsc.material_id(material_name)?)
        };

        let primitive_name = params.get_str("primitive")?;
        let primitive = rsc.clone_primitive(primitive_name)?;

        rsc.add_instance(name, Self::new(primitive, transform, surface))
    }
}

/// An instance block that loads is found afterwards under the name it gave, and a
/// block that fails leaves the registered instances as they were.
pub proof fn loaded_instance_is_registered(r: ResourcesView, p: ParamsView)
    requires
        r.wf(),
        p.wf(),
    ensures
        load_instance(r, p).2 is Ok ==> (p.lookup("name"@) matches Some(ParamValueView::Str(name))
            && load_instance(r, p).0.instance(name) is Ok),
        load_instance(r, p).2 is Err ==> load_instance(r, p).0 == r,
        load_instance(r, p).0.wf(),
{
    let p0 = ParamsView { name: "instance"@, ..p };
    let (p1, name) = p0.get_str("name"@);
    assert(p1.keys == p.keys && p1.values == p.values);
    if let Ok(name) = name {
        assert(p.lookup("name"@) == p1.lookup("name"@));
        let p2 = ParamsView { name: "instance-"@ + name, ..p1 };
        let (p3, steps) = transform_steps(p2);
        if let Ok(steps) = steps {
            let (p4, surface) = surface_choice(p3, r);
            if let Ok(surface) = surface {
                let (p5, prim) = p4.get_str("primitive"@);
                if let Ok(prim) = prim {
                    if let Ok(primitive) = r.primitive(prim) {
                        crate::resources::resources_instance_read_after_add(
                            r,
                            name,
                            InstanceView { primitive, transform: steps, surface },
                        );
                    }
                }
            }
        }
    }
}


/// The parameter key a placement step comes from.
pub open spec fn step_key(s: TransformStepView) -> Seq<char> {
    match s {
        TransformStepView::Matrix(_) => "matrix"@,
        TransformStepView::Scale(_) => "scale"@,
        TransformStepView::Rotate(_) => "rotate"@,
        TransformStepView::Translate(_) => "translate"@,
    }
}

/// The text a placement step carries.
pub open spec fn step_text(s: TransformStepView) -> Seq<char> {
    match s {
        TransformStepView::Matrix(t) => t,
        TransformStepView::Scale(t) => t,
        TransformStepView::Rotate(t) => t,
        TransformStepView::Translate(t) => t,
    }
}

/// Where a step stands among the kinds of placement steps: the matrix, the
/// starting placement, comes first; scale, rotation and translation follow.
pub open spec fn step_rank(s: TransformStepView) -> int {
    match s {
        TransformStepView::Matrix(_) => 0,
        TransformStepView::Scale(_) => 1,
        TransformStepView::Rotate(_) => 2,
        TransformStepView::Translate(_) => 3,
    }
}

/// `steps` is the placement the block describes: a step for each of `matrix`,
/// `scale`, `rotate` and `translate` that the block has, carrying that key's text,
/// no step twice, and the steps in that order, so that the matrix (when given) is
/// the starting placement and the others apply on top of it.
pub open spec fn placement_of(p: ParamsView, steps: Seq<TransformStepView>) -> bool {
    &&& forall|i: int, j: int| 0 <= i < j < steps.len() ==> step_rank(#[trigger] steps[i]) < step_rank(#[trigger] steps[j])
    &&& forall|i: int| 0 <= i < steps.len() ==> p.lookup(step_key(#[trigger] steps[i])) == Some(ParamValueView::Other(step_text(steps[i])))
    &&& p.contains("matrix"@) ==> exists|i: int| 0 <= i < steps.len() && step_key(#[trigger] steps[i]) == "matrix"@
    &&& p.contains("scale"@) ==> exists|i: int| 0 <= i < steps.len() && step_key(#[trigger] steps[i]) == "scale"@
    &&& p.contains("rotate"@) ==> exists|i: int| 0 <= i < steps.len() && step_key(#[trigger] steps[i]) == "rotate"@
    &&& p.contains("translate"@) ==> exists|i: int| 0 <= i < steps.len() && step_key(#[trigger] steps[i]) == "translate"@
}

/// What reading the optional `key` gave agrees with the block: its text when the
/// block has it, nothing when it does not.
pub open spec fn text_read(p: ParamsView, key: Seq<char>, t: Option<Seq<char>>) -> bool {
    match t {
        Some(s) => p.lookup(key) == Some(ParamValueView::Other(s)),
        None => !p.contains(key),
    }
}

proof fn lemma_optional_text(p: ParamsView, key: Seq<char>)
    ensures
        optional_text(p, key).1 matches Ok(t) ==> text_read(p, key, t),
        optional_text(p, key).0.keys == p.keys,
        optional_text(p, key).0.values == p.values,
{
    crate::params::lemma_key_index_range(p.keys, key);
}

proof fn lemma_steps_of_placement(
    p: ParamsView,
    matrix: Option<Seq<char>>,
    scale: Option<Seq<char>>,
    rotate: Option<Seq<char>>,
    translate: Option<Seq<char>>,
)
    requires
        text_read(p, "matrix"@, matrix),
        text_read(p, "scale"@, scale),
        text_read(p, "rotate"@, rotate),
        text_read(p, "translate"@, translate),
    ensures
        placement_of(p, steps_of(matrix, scale, rotate, translate)),
{
    let a = step_if(matrix, |s: Seq<char>| TransformStepView::Matrix(s));
    let b = step_if(scale, |s: Seq<char>| TransformStepView::Scale(s));
    let c = step_if(rotate, |s: Seq<char>| TransformStepView::Rotate(s));
    let d = step_if(translate, |s: Seq<char>| TransformStepView::Translate(s));
    let steps = a + b + c + d;
    assert(steps == steps_of(matrix, scale, rotate, translate));
    assert forall|i: int| 0 <= i < steps.len() implies (i < a.len() ==> step_rank(#[trigger] steps[i]) == 0 && step_key(steps[i]) == "matrix"@ && matrix == Some(step_text(steps[i])))
        && (a.len() <= i < a.len() + b.len() ==> step_rank(steps[i]) == 1 && step_key(steps[i]) == "scale"@ && scale == Some(step_text(steps[i])))
        && (a.len() + b.len() <= i < a.len() + b.len() + c.len() ==> step_rank(steps[i]) == 2 && step_key(steps[i]) == "rotate"@ && rotate == Some(step_text(steps[i])))
        && (a.len() + b.len() + c.len() <= i ==> step_rank(steps[i]) == 3 && step_key(steps[i]) == "translate"@ && translate == Some(step_text(steps[i]))) by {
        if i < a.len() {
            assert(steps[i] == a[i]);
        } else if i < a.len() + b.len() {
            assert(steps[i] == b[i - a.len()]);
        } else if i < a.len() + b.len() + c.len() {
            assert(steps[i] == c[i - a.len() - b.len()]);
        } else {
            assert(steps[i] == d[i - a.len() - b.len() - c.len()]);
        }
    }
    assert forall|i: int, j: int| 0 <= i < j < steps.len() implies step_rank(#[trigger] steps[i]) < step_rank(#[trigger] steps[j]) by {
        assert(a.len() <= 1 && b.len() <= 1 && c.len() <= 1 && d.len() <= 1);
    }
    if matrix is Some {
        assert(step_key(steps[0]) == "matrix"@);
    }
    if scale is Some {
        assert(step_key(steps[a.len() as int]) == "scale"@);
    }
    if rotate is Some {
        assert(step_key(steps[(a.len() + b.len()) as int]) == "rotate"@);
    }
    if translate is Some {
        assert(step_key(steps[(a.len() + b.len() + c.len()) as int]) == "translate"@);
    }
}

/// The placement read from a block is the one [`placement_of`] describes.
pub proof fn read_placement_follows_block(p: ParamsView)
    ensures
        transform_steps(p).1 matches Ok(steps) ==> placement_of(p, steps),
{
    lemma_optional_text(p, "matrix"@);
    let (p1, m) = optional_text(p, "matrix"@);
    lemma_optional_text(p1, "scale"@);
    let (p2, s) = optional_text(p1, "scale"@);
    lemma_optional_text(p2, "rotate"@);
    let (p3, ro) = optional_text(p2, "rotate"@);
    lemma_optional_text(p3, "translate"@);
    let (p4, t) = optional_text(p3, "translate"@);
    if let (Ok(m), Ok(s), Ok(ro), Ok(t)) = (m, s, ro, t) {
        assert(p1.lookup("scale"@) == p.lookup("scale"@) && p1.contains("scale"@) == p.contains("scale"@));
        assert(p2.lookup("rotate"@) == p.lookup("rotate"@) && p2.contains("rotate"@) == p.contains("rotate"@));
        assert(p3.lookup("translate"@) == p.lookup("translate"@) && p3.contains("translate"@) == p.contains("translate"@));
        lemma_steps_of_placement(p, m, s, ro, t);
    }
}

/// An instance block that loads registers, under its name, an instance whose
/// placement is the one the block describes: the matrix first when given, then
/// scale, rotation and translation on top of it.
pub proof fn loaded_instance_placement(r: ResourcesView, p: ParamsView)
    requires
        r.wf(),
    ensures
        load_instance(r, p).2 is Ok ==> (p.lookup("name"@) matches Some(ParamValueView::Str(name))
            && load_instance(r, p).0.instance(name) matches Ok(inst) && placement_of(p, inst.transform)),
{
    let p0 = ParamsView { name: "instance"@, ..p };
    let (p1, name) = p0.get_str("name"@);
    if let Ok(name) = name {
        let p2 = ParamsView { name: "instance-"@ + name, ..p1 };
        assert(p2.keys == p.keys && p2.values == p.values);
        read_placement_follows_block(p2);
        let (p3, steps) = transform_steps(p2);
        if let Ok(steps) = steps {
            assert(placement_of(p2, steps));
            assert(forall|k: Seq<char>| #[trigger] p2.lookup(k) == p.lookup(k) && p2.contains(k) == p.contains(k));
            let (p4, surface) = surface_choice(p3, r);
            if let Ok(surface) = surface {
                let (p5, prim) = p4.get_str("primitive"@);
                if let Ok(prim) = prim {
                    if let Ok(primitive) = r.primitive(prim) {
                        crate::resources::resources_instance_read_after_add(r, name, InstanceView { primitive, transform: steps, surface });
                    }
                }
            }
        }
    }
}


/// An instance block that loads registers, under its name, an instance of the
/// primitive its `primitive` key names, with the surface its `surface` key names
/// when the block has that key, and otherwise the material its `material` key
/// names.
pub proof fn loaded_instance_reads_its_keys(r: ResourcesView, p: ParamsView)
    requires
        r.wf(),
    ensures
        load_instance(r, p).2 is Ok ==> (p.lookup("name"@) matches Some(ParamValueView::Str(name))
            && load_instance(r, p).0.instance(name) matches Ok(inst)
            && (p.lookup("primitive"@) matches Some(ParamValueView::Str(prim)) && r.primitive(prim)
                == Ok::<PrimitiveId, LoadErrorView>(inst.primitive))
            && if p.contains("surface"@) {
                p.lookup("surface"@) matches Some(ParamValueView::Str(s)) && Ok::<SurfaceChoice, LoadErrorView>(
                    inst.surface,
                ) == (match r.surface(s) {
                    Ok(id) => Ok(SurfaceChoice::Surface(id)),
                    Err(e) => Err(e),
                })
            } else {
                p.lookup("material"@) matches Some(ParamValueView::Str(m)) && Ok::<SurfaceChoice, LoadErrorView>(
                    inst.surface,
                ) == (match r.material_id(m) {
                    Ok(id) => Ok(SurfaceChoice::Material(id)),
                    Err(e) => Err(e),
                })
            }),
{
    let p0 = ParamsView { name: "instance"@, ..p };
    let (p1, name) = p0.get_str("name"@);
    if let Ok(name) = name {
        let p2 = ParamsView { name: "instance-"@ + name, ..p1 };
        assert(p2.keys == p.keys && p2.values == p.values);
        lemma_optional_text(p2, "matrix"@);
        let (q1, _m) = optional_text(p2, "matrix"@);
        lemma_optional_text(q1, "scale"@);
        let (q2, _s) = optional_text(q1, "scale"@);
        lemma_optional_text(q2, "rotate"@);
        let (q3, _ro) = optional_text(q2, "rotate"@);
        lemma_optional_text(q3, "translate"@);
        let (p3, steps) = transform_steps(p2);
        if let Ok(steps) = steps {
            assert(p3.keys == p.keys && p3.values == p.values);
            let (p4, surface) = surface_choice(p3, r);
            if let Ok(surface) = surface {
                assert(p4.keys == p.keys && p4.values == p.values);
                let (p5, prim) = p4.get_str("primitive"@);
                if let Ok(prim) = prim {
                    if let Ok(primitive) = r.primitive(prim) {
                        crate::resources::resources_instance_read_after_add(r, name, InstanceView { primitive, transform: steps, surface });
                    }
                }
            }
        }
    }
}

} // verus!
