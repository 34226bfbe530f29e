use vstd::prelude::*;

use crate::error::{LoadError, LoadErrorView};
use crate::material::and_then;
use crate::params::{
    outcome_view, tagged, tagged_exec, text_is, CreateOutcome, CreateOutcomeView, InputParams,
    ParamsView,
};

verus! {

/// The primitive kinds a scene can declare. All of them are built from fractional
/// parameters or mesh files, which the caller reads.
pub open spec fn is_primitive_kind(ty: Seq<char>) -> bool {
    ||| ty == "sphere"@
    ||| ty == "trimesh"@
    ||| ty == "cubic_bezier"@
    ||| ty == "catmull_clark"@
}

/// Reading a primitive block: the new state of the block and the outcome.
pub open spec fn create_primitive(p: ParamsView) -> (ParamsView, Result<CreateOutcomeView, LoadErrorView>) {
    let p0 = ParamsView { name: "primitive"@, ..p };
    and_then(
        p0.get_str("type"@),
        |p1: ParamsView, ty: Seq<char>|
            and_then(
                p1.get_str("name"@),
                |p2: ParamsView, name: Seq<char>|
                    {
                        let p3 = ParamsView { name: tagged("primitive"@, ty, name), ..p2 };
                        if is_primitive_kind(ty) {
                            (p3, Ok(CreateOutcomeView::CallerBuilds { ty, name }))
                        } else {
                            (p3, Err(LoadErrorView::UnknownType { env: p3.name, ty }))
                        }
                    },
            ),
    )
}

/// Reads a primitive block's `type` and `name` and renames the block
/// `primitive-<type>-<name>`. Every known kind is handed back to the caller to
/// build from its fractional parameters or mesh file; other kinds are an error.
pub fn create_primitive_from_params(params: &mut InputParams) -> (res: Result<CreateOutcome, LoadError>)
    requires
        old(params).wf(),
    ensures
        final(params).wf(),
        (final(params)@, outcome_view(res)) == create_primitive(old(params)@),
{
    params.set_name("primitive".to_owned());
    let ty = params.get_str("type")?;
    let name = params.get_str("name")?;
    params.set_name(tagged_exec("primitive", &ty, &name));
    if text_is(&ty, "sphere") || text_is(&ty, "trimesh") || text_is(&ty, "cubic_bezier") || text_is(
        &ty,
        "catmull_clark",
    ) {
        Ok(CreateOutcome::CallerBuilds { ty, name })
    } else {
        Err(LoadError::UnknownType { env: params.name().to_owned(), ty })
    }
}

/// The vertex positions of triangle `t`, read from the flat index list.
pub open spec fn triangle_at(indices: Seq<u32>, t: int) -> [usize; 3] {
    [indices[3 * t] as usize, indices[3 * t + 1] as usize, indices[3 * t + 2] as usize]
}

/// Groups a flat index list into triangles, three indices each; a trailing one or
/// two indices are ignored.
pub fn triangle_indices(indices: &Vec<u32>) -> (res: Vec<[usize; 3]>)
    ensures
        res.len() == indices.len() / 3,
        forall|t: int| 0 <= t < res.len() ==> #[trigger] res@[t] == triangle_at(indices@, t),
{
    let triangle_count = indices.len() / 3;
    let mut res: Vec<[usize; 3]> = Vec::with_capacity(triangle_count);
    let mut i: usize = 0;
    while i < triangle_count
        invariant
            triangle_count == indices.len() / 3,
            i <= triangle_count,
            res.len() == i,
            forall|t: int| 0 <= t < i ==> #[trigger] res@[t] == triangle_at(indices@, t),
        decreases triangle_count - i,
    {
        let i0 = indices[3 * i] as usize;
        let i1 = indices[3 * i + 1] as usize;
        let i2 = indices[3 * i + 2] as usize;
        res.push([i0, i1, i2]);
        proof {
            assert(res@[i as int] == triangle_at(indices@, i as int));
        }
        i = i + 1;
    }
    res
}

/// The index lists of the models joined one after another, each model's indices
/// raised by the number of indices gathered before it.
pub open spec fn merged_indices(models: Seq<Seq<u32>>) -> Seq<int>
    decreases models.len(),
{
    if models.len() == 0 {
        seq![]
    } else {
        let before = merged_indices(models.drop_last());
        before + models.last().map_values(|ind: u32| ind + before.len())
    }
}

/// The models' index lists as sequences.
pub open spec fn index_lists(models: Seq<Vec<u32>>) -> Seq<Seq<u32>> {
    models.map_values(|m: Vec<u32>| m@)
}

/// Joins the index lists of several models into one, as the mesh loader does:
/// each model's indices are raised by how many indices came before them.
pub fn merge_model_indices(models: &Vec<Vec<u32>>) -> (res: Vec<u32>)
    requires
        forall|i: int| 0 <= i < merged_indices(index_lists(models@)).len() ==>
            #[trigger] merged_indices(index_lists(models@))[i] <= u32::MAX,
    ensures
        res@.map_values(|x: u32| x as int) == merged_indices(index_lists(models@)),
{
    let ghost mv = index_lists(models@);
    let mut res: Vec<u32> = Vec::new();
    let mut k: usize = 0;
    while k < models.len()
        invariant
            k <= models.len(),
            mv == index_lists(models@),
            forall|i: int| 0 <= i < merged_indices(mv).len() ==> #[trigger] merged_indices(mv)[i] <= u32::MAX,
            res@.map_values(|x: u32| x as int) == merged_indices(mv.take(k as int)),
        decreases models.len() - k,
    {
        proof {
            lemma_merged_prefix(mv, (k + 1) as int);
            assert(mv.take(k + 1).drop_last() =~= mv.take(k as int));
        }
        let model = &models[k];
        let offset_len = res.len();
        let ghost before = res@;
        let mut j: usize = 0;
        while j < model.len()
            invariant
                k < models.len(),
                *model == models@[k as int],
                mv == index_lists(models@),
                offset_len == before.len(),
                before.map_values(|x: u32| x as int) == merged_indices(mv.take(k as int)),
                merged_indices(mv.take(k + 1)) =~= merged_indices(mv.take(k as int)) + mv[k as int].map_values(|ind: u32| ind + offset_len),
                forall|i: int| 0 <= i < merged_indices(mv.take(k + 1)).len() ==> #[trigger] merged_indices(mv.take(k + 1))[i] <= u32::MAX,
                j <= model.len(),
                res@.len() == offset_len + j,
                res@.subrange(0, offset_len as int) == before,
                forall|q: int| 0 <= q < j ==> #[trigger] res@[offset_len + q] == model@[q] + offset_len,
            decreases model.len() - j,
        {
            proof {
                assert(merged_indices(mv.take(k + 1))[offset_len + j] == model@[j as int] + offset_len);
            }
            let value = model[j] + offset_len as u32;
            res.push(value);
            proof {
                assert(res@.subrange(0, offset_len as int) =~= before);
            }
            j = j + 1;
        }
        proof {
            let whole = merged_indices(mv.take(k + 1));
            let prev = merged_indices(mv.take(k as int));
            assert(prev.len() == offset_len);
            assert(mv[k as int] == model@);
            let mapped = res@.map_values(|x: u32| x as int);
            assert forall|i: int| 0 <= i < res@.len() implies #[trigger] mapped[i] == whole[i] by {
                if i < offset_len {
                    assert(res@[i] == before[i]);
                    assert(before.map_values(|x: u32| x as int)[i] == prev[i]);
                } else {
                    let q = i - offset_len;
                    assert(res@[offset_len + q] == model@[q] + offset_len);
                }
            }
            assert(mapped =~= whole);
        }
        k = k + 1;
    }
    proof {
        assert(mv.take(models.len() as int) =~= mv);
    }
    res
}

/// The joined list of a prefix of the models is a prefix of the whole joined list.
proof fn lemma_merged_prefix(models: Seq<Seq<u32>>, k: int)
    requires
        0 <= k <= models.len(),
    ensures
        merged_indices(models.take(k)).len() <= merged_indices(models).len(),
        forall|i: int| 0 <= i < merged_indices(models.take(k)).len() ==> #[trigger] merged_indices(models.take(k))[i] == merged_indices(models)[i],
    decreases models.len() - k,
{
    if k < models.len() {
        lemma_merged_prefix(models, k + 1);
        let a = models.take(k + 1);
        assert(a.drop_last() =~= models.take(k));
        let pre = merged_indices(models.take(k));
        assert(merged_indices(a) == pre + a.last().map_values(|ind: u32| ind + pre.len()));
        assert forall|i: int| 0 <= i < pre.len() implies #[trigger] pre[i] == merged_indices(models)[i] by {
            assert(merged_indices(a)[i] == pre[i]);
        }
    } else {
        assert(models.take(k) =~= models);
    }
}


/// How many indices models `0..k` hold together.
pub open spec fn indices_before(models: Seq<Seq<u32>>, k: int) -> int
    decreases k,
{
    if k <= 0 {
        0
    } else {
        indices_before(models, k - 1) + models[k - 1].len()
    }
}

proof fn lemma_indices_before_prefix(models: Seq<Seq<u32>>, n: int, k: int)
    requires
        0 <= k <= n <= models.len(),
    ensures
        indices_before(models.take(n), k) == indices_before(models, k),
    decreases k,
{
    if k > 0 {
        lemma_indices_before_prefix(models, n, k - 1);
    }
}

proof fn lemma_indices_before_grows(models: Seq<Seq<u32>>, k: int, n: int)
    requires
        0 <= k <= n,
    ensures
        indices_before(models, k) <= indices_before(models, n),
    decreases n - k,
{
    if k < n {
        lemma_indices_before_grows(models, k + 1, n);
    }
}

/// Joining the models keeps every index and lays the models one after another:
/// the joined list holds as many indices as all the models together, and model
/// `k`'s indices stand at `indices_before(models, k)` onwards, each raised by that
/// same count (the number of indices of all the models before it).
pub proof fn merged_models_follow_one_another(models: Seq<Seq<u32>>)
    ensures
        merged_indices(models).len() == indices_before(models, models.len() as int),
        forall|k: int, q: int|
            0 <= k < models.len() && 0 <= q < models[k].len() ==> #[trigger] merged_indices(models)[indices_before(models, k) + q]
                == models[k][q] + indices_before(models, k),
    decreases models.len(),
{
    if models.len() > 0 {
        let n = models.len() - 1;
        let front = models.drop_last();
        merged_models_follow_one_another(front);
        assert(front =~= models.take(n));
        let before = merged_indices(front);
        lemma_indices_before_prefix(models, n, n);
        assert forall|k: int, q: int|
            0 <= k < models.len() && 0 <= q < models[k].len() implies #[trigger] merged_indices(models)[indices_before(models, k) + q]
                == models[k][q] + indices_before(models, k) by {
            lemma_indices_before_prefix(models, n, k);
            lemma_indices_before_grows(models, 0, k);
            let whole = merged_indices(models);
            assert(whole == before + models.last().map_values(|ind: u32| ind + before.len()));
            assert(before.len() == indices_before(models, n));
            if k < n {
                assert(front[k] == models[k]);
                lemma_indices_before_grows(models, k + 1, n);
                assert(indices_before(models, k + 1) == indices_before(models, k) + models[k].len());
                assert(indices_before(models, k) + q < before.len());
                assert(indices_before(front, k) == indices_before(models, k));
                assert(before[indices_before(front, k) + q] == front[k][q] + indices_before(front, k));
                assert(whole[indices_before(models, k) + q] == before[indices_before(models, k) + q]);
            } else {
                assert(k == n);
                assert(models.last() == models[k]);
                assert(whole[before.len() + q] == models.last()[q] + before.len());
            }
        }
    }
}


/// Grouping into triangles keeps the flat order: index `i` of the list (short of
/// a trailing partial triangle) is corner `i % 3` of triangle `i / 3`.
pub proof fn triangles_keep_flat_order(indices: Seq<u32>, i: int)
    requires
        0 <= i < 3 * (indices.len() / 3),
    ensures
        triangle_at(indices, i / 3)[i % 3] == indices[i] as usize,
{
    let t = i / 3;
    assert(i == 3 * t + i % 3 && 0 <= i % 3 < 3);
}

} // verus!
