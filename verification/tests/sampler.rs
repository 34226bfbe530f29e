use simple_path_tracer::sampler::Strata;

#[test]
fn strata_start_inside_the_grid() {
    let mut rng = rand::thread_rng();
    let s = Strata::new(&mut rng, 1, 1);
    assert_eq!((s.curr_ind, s.curr_ind_x, s.curr_ind_y), (0, 0, 0));
    for _ in 0..50 {
        let s = Strata::new(&mut rng, 5, 2);
        assert!(s.curr_ind < 5 && s.curr_ind_x < 2 && s.curr_ind_y < 2);
        assert_eq!((s.division, s.division_sqrt), (5, 2));
    }
}

#[test]
fn strata_single_numbers_cycle_through_every_stratum() {
    let mut s = Strata { division: 3, division_sqrt: 2, curr_ind: 2, curr_ind_x: 1, curr_ind_y: 0 };
    assert_eq!(s.next_1d(), 0);
    assert_eq!(s.next_1d(), 1);
    assert_eq!(s.next_1d(), 2);
    assert_eq!(s.next_1d(), 0);
    let mut rng = rand::thread_rng();
    let mut s = Strata::new(&mut rng, 7, 2);
    let mut seen = vec![0; 7];
    for _ in 0..7 {
        seen[s.next_1d() as usize] += 1;
    }
    assert_eq!(seen, vec![1; 7]);
}

#[test]
fn strata_pairs_advance_column_and_row_together() {
    let mut s = Strata { division: 3, division_sqrt: 2, curr_ind: 2, curr_ind_x: 1, curr_ind_y: 0 };
    assert_eq!(s.next_2d(), (0, 1));
    assert_eq!(s.next_2d(), (1, 0));
    assert_eq!(s.next_2d(), (0, 1));
    assert_eq!(s.curr_ind, 2);
}
