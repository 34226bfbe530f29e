use simple_path_tracer::image_range::{create_image_ranges, ImageRange};

#[test]
fn ranges_split_rows_evenly_with_remainder_in_last() {
    let ranges = create_image_ranges(4, 10);
    assert_eq!(
        ranges,
        vec![
            ImageRange { from: 0, to: 2 },
            ImageRange { from: 2, to: 4 },
            ImageRange { from: 4, to: 6 },
            ImageRange { from: 6, to: 10 },
        ]
    );
}

#[test]
fn ranges_single_thread_takes_all_rows() {
    assert_eq!(create_image_ranges(1, 7), vec![ImageRange { from: 0, to: 7 }]);
}

#[test]
fn ranges_more_threads_than_rows() {
    let ranges = create_image_ranges(3, 2);
    assert_eq!(
        ranges,
        vec![
            ImageRange { from: 0, to: 0 },
            ImageRange { from: 0, to: 0 },
            ImageRange { from: 0, to: 2 },
        ]
    );
}

#[test]
fn ranges_cover_every_row_once() {
    let height = 37u32;
    let ranges = create_image_ranges(5, height);
    for row in 0..height {
        let owners = ranges.iter().filter(|r| r.from <= row && row < r.to).count();
        assert_eq!(owners, 1);
    }
    assert_eq!(ranges[0].from, 0);
    assert_eq!(ranges[ranges.len() - 1].to, height);
}
