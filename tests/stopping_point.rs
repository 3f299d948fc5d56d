use voyage::stopping_point::{stopping_point, StoppingPoints, MAX_N_PROBES};

#[test]
fn general_stopping_point_0_95() {
    let stopping_point_95: [usize; 63] = [
        1, 6, 11, 16, 21, 27, 33, 38, 44, 51, 57, 63, 70, 76, 83, 90, 96, 103, 110, 117, 124,
        131, 138, 145, 152, 159, 167, 174, 181, 189, 196, 203, 211, 218, 226, 233, 241, 248,
        256, 264, 271, 279, 287, 294, 302, 310, 318, 326, 333, 341, 349, 357, 365, 373, 381,
        389, 397, 405, 413, 421, 429, 437, 445,
    ];
    let points = StoppingPoints::failure_5_percent();
    assert_eq!(
        (0..63)
            .map(|n| (n, stopping_point(n, &points)))
            .collect::<Vec<(usize, usize)>>(),
        (0..63)
            .map(|n| (n, stopping_point_95[n]))
            .collect::<Vec<(usize, usize)>>()
    )
}

#[test]
fn general_stopping_point_0_99() {
    let stopping_point_99: [usize; 63] = [
        1, 8, 15, 21, 28, 36, 43, 51, 58, 66, 74, 82, 90, 98, 106, 115, 123, 132, 140, 149,
        157, 166, 175, 183, 192, 201, 210, 219, 228, 237, 246, 255, 264, 273, 282, 291, 300,
        309, 319, 328, 337, 347, 356, 365, 375, 384, 393, 403, 412, 422, 431, 441, 450, 460,
        470, 479, 489, 499, 508, 518, 528, 537, 547,
    ];
    let points = StoppingPoints::failure_1_percent();
    assert_eq!(
        (0..63)
            .map(|n| (n, stopping_point(n, &points)))
            .collect::<Vec<(usize, usize)>>(),
        (0..63)
            .map(|n| (n, stopping_point_99[n]))
            .collect::<Vec<(usize, usize)>>()
    )
}

#[test]
fn beyond_the_table_gives_the_bound() {
    let points = StoppingPoints::failure_5_percent();
    assert_eq!(points.len(), 63);
    assert_eq!(stopping_point(63, &points), MAX_N_PROBES);
    assert_eq!(stopping_point(5000, &points), 722);
}

#[test]
fn computed_table_is_used_as_given() {
    let points = StoppingPoints::from_points(vec![2, 9, 17]).unwrap();
    assert_eq!(stopping_point(0, &points), 2);
    assert_eq!(stopping_point(2, &points), 17);
    assert_eq!(stopping_point(3, &points), MAX_N_PROBES);
}

#[test]
fn computed_table_over_the_bound_is_refused() {
    assert!(StoppingPoints::from_points(vec![1, 723]).is_none());
    assert!(StoppingPoints::from_points(vec![1, 722]).is_some());
    assert!(StoppingPoints::from_points(vec![]).is_some());
}
