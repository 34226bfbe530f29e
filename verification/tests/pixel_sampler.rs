use simple_path_tracer::error::LoadError;
use simple_path_tracer::params::{InputParams, ParamValue};
use simple_path_tracer::pixel_sampler::{
    create_sampler_from_params, AdditiveRecurrenceSampler, JitteredSampler, PixelSampler,
    RandomSampler,
};
use simple_path_tracer::renderer::{create_renderer, Renderer};
use simple_path_tracer::sampler::{sampler_from, SamplerChoice};

fn block(entries: &[(&str, ParamValue)]) -> InputParams {
    let mut p = InputParams::new(String::new());
    for (k, v) in entries {
        p.insert(k, v.clone_value());
    }
    p
}

trait CloneValue {
    fn clone_value(&self) -> ParamValue;
}

impl CloneValue for ParamValue {
    fn clone_value(&self) -> ParamValue {
        match self {
            ParamValue::Str(s) => ParamValue::Str(s.clone()),
            ParamValue::Int(i) => ParamValue::Int(*i),
            ParamValue::Other(s) => ParamValue::Other(s.clone()),
        }
    }
}

#[test]
fn random_sampler_hands_out_spp_samples_per_pixel() {
    let mut s = PixelSampler::RandomSampler(RandomSampler::new(3));
    assert_eq!(s.spp(), 3);
    for _ in 0..2 {
        s.start_pixel();
        let mut n = 0;
        while let Some(cell) = s.next_sample() {
            assert_eq!(cell, (0, 0));
            n += 1;
        }
        assert_eq!(n, 3);
        assert_eq!(s.next_sample(), None);
    }
}

#[test]
fn recurrence_sampler_counts_like_random() {
    let mut s = AdditiveRecurrenceSampler::new(2);
    s.start_pixel();
    assert_eq!(s.next_sample(), Some((0, 0)));
    assert_eq!(s.next_sample(), Some((0, 0)));
    assert_eq!(s.next_sample(), None);
    s.start_pixel();
    assert_eq!(s.next_sample(), Some((0, 0)));
}

#[test]
fn jittered_sampler_visits_cells_row_by_row_and_does_not_stop() {
    let mut s = JitteredSampler::new(2, 2);
    assert_eq!(s.spp(), 4);
    s.start_pixel();
    let cells: Vec<_> = (0..6).map(|_| s.next_sample()).collect();
    assert_eq!(
        cells,
        vec![Some((0, 0)), Some((1, 0)), Some((0, 1)), Some((1, 1)), Some((0, 2)), Some((1, 2))]
    );
}

#[test]
fn jittered_sampler_with_empty_grid_ends_at_once() {
    let mut s = JitteredSampler::new(0, 0);
    s.start_pixel();
    assert_eq!(s.next_sample(), None);
    assert_eq!(s.spp(), 0);
}

#[test]
fn create_sampler_random() {
    let mut p = block(&[("type", ParamValue::Str("random".into())), ("spp", ParamValue::Int(8))]);
    assert_eq!(create_sampler_from_params(&mut p), Ok(PixelSampler::RandomSampler(RandomSampler::new(8))));
    assert_eq!(p.name(), "sampler-random");
    assert!(p.check_unused_keys().is_empty());
}

#[test]
fn create_sampler_jittered_casts_like_the_loader() {
    let mut p = block(&[
        ("type", ParamValue::Str("jittered".into())),
        ("division_x", ParamValue::Int(4)),
        ("division_y", ParamValue::Int(-1)),
    ]);
    assert_eq!(
        create_sampler_from_params(&mut p),
        Ok(PixelSampler::JitteredSampler(JitteredSampler::new(4, u32::MAX)))
    );
}

#[test]
fn create_sampler_recurrence_and_errors() {
    let mut p = block(&[("type", ParamValue::Str("recurrence".into())), ("spp", ParamValue::Int(2))]);
    assert_eq!(
        create_sampler_from_params(&mut p),
        Ok(PixelSampler::AdditiveRecurrenceSampler(AdditiveRecurrenceSampler::new(2)))
    );
    let mut p = block(&[("type", ParamValue::Str("sobol".into()))]);
    assert_eq!(
        create_sampler_from_params(&mut p),
        Err(LoadError::UnknownType { env: "sampler-sobol".into(), ty: "sobol".into() })
    );
    let mut p = block(&[("type", ParamValue::Str("random".into()))]);
    assert_eq!(
        create_sampler_from_params(&mut p),
        Err(LoadError::MissingKey { env: "sampler-random".into(), key: "spp".into() })
    );
}

#[test]
fn renderer_pt_and_unknown() {
    let sampler = PixelSampler::RandomSampler(RandomSampler::new(1));
    match create_renderer("pt", 5, sampler, "box") {
        Ok(Renderer::PathTracer(pt)) => {
            assert_eq!(pt.max_depth, 5);
            assert_eq!(pt.pixel_sampler, sampler);
            assert_eq!(pt.filter, "box");
        }
        Err(e) => panic!("{:?}", e),
    }
    match create_renderer("bdpt", 5, sampler, ()) {
        Err(e) => assert_eq!(e, LoadError::UnknownType { env: "renderer".into(), ty: "bdpt".into() }),
        Ok(_) => panic!("accepted an unknown renderer"),
    }
}

#[test]
fn sampler_from_picks_by_name() {
    assert_eq!(sampler_from("random", 9), SamplerChoice::Random);
    assert_eq!(sampler_from("jittered", 9), SamplerChoice::Jittered { division: 9 });
    assert_eq!(sampler_from("recurrence", 9), SamplerChoice::Recurrence);
}
