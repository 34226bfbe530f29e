use vstd::prelude::*;

use crate::error::{result_view, LoadError, LoadErrorView};
use crate::pixel_sampler::PixelSampler;

verus! {

/// Where and how large the rendered image is, and which camera to use (the scene's
/// default one when `None`).
#[derive(Debug)]
pub struct OutputConfig {
    pub width: u32,
    pub height: u32,
    pub output_filename: String,
    pub used_camera_name: Option<String>,
}

/// A unidirectional path tracer: paths are cut after `max_depth` bounces, each pixel
/// is sampled by `pixel_sampler` and the samples are reconstructed by `filter`.
pub struct PathTracer<F> {
    pub max_depth: u32,
    pub pixel_sampler: PixelSampler,
    pub filter: F,
}

/// The available renderers.
pub enum Renderer<F> {
    PathTracer(PathTracer<F>),
}

impl<F> PathTracer<F> {
    pub fn new(max_depth: u32, pixel_sampler: PixelSampler, filter: F) -> (res: Self)
        ensures
            res.max_depth == max_depth,
            res.pixel_sampler == pixel_sampler,
            res.filter == filter,
    {
        Self { max_depth, pixel_sampler, filter }
    }
}

/// Picks the renderer named `ty`; `"pt"` is the path tracer.
pub fn create_renderer<F>(ty: &str, max_depth: u32, pixel_sampler: PixelSampler, filter: F) -> (res:
    Result<Renderer<F>, LoadError>)
    ensures
        ty@ == "pt"@ ==> (res matches Ok(Renderer::PathTracer(pt)) && pt.max_depth == max_depth
            && pt.pixel_sampler == pixel_sampler && pt.filter == filter),
        ty@ != "pt"@ ==> result_view(res) == Err::<Renderer<F>, LoadErrorView>(
            LoadErrorView::UnknownType { env: "renderer"@, ty: ty@ },
        ),
{
    let t = ty.to_owned();
    if crate::params::text_is(&t, "pt") {
        Ok(Renderer::PathTracer(PathTracer::new(max_depth, pixel_sampler, filter)))
    } else {
        Err(LoadError::UnknownType { env: "renderer".to_owned(), ty: t })
    }
}

} // verus!
