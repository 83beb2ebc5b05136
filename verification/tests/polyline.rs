use matplotlib_pyo3::polyline::{is_nan, segments_to_points, IndexError, Segment, NAN_BITS};

fn seg(start: usize, end: usize, value: f64) -> Segment {
    Segment { start, end, value: value.to_bits() }
}

fn floats(bits: &[u64]) -> Vec<f64> {
    bits.iter().map(|b| f64::from_bits(*b)).collect()
}

#[test]
fn two_segments_give_six_points() {
    let segments = vec![seg(0, 2, 4.0), seg(2, 4, 1.0)];
    let positions: Vec<u32> = vec![10, 20, 30, 40];
    let (xs, ys) = segments_to_points(&segments, &positions).unwrap();
    assert_eq!(xs.to_vec(), vec![10, 20, 20, 30, 40, 40]);
    let ys = floats(&ys.to_vec());
    assert_eq!(ys.len(), 6);
    assert_eq!(ys[0], 4.0);
    assert_eq!(ys[1], 4.0);
    assert!(ys[2].is_nan());
    assert_eq!(ys[3], 1.0);
    assert_eq!(ys[4], 1.0);
    assert!(ys[5].is_nan());
}

#[test]
fn segment_outside_positions_is_an_index_error() {
    let segments = vec![seg(5, 6, 1.0)];
    let positions: Vec<u32> = vec![10, 20, 30, 40];
    let err = segments_to_points(&segments, &positions).unwrap_err();
    assert_eq!(err, IndexError { segment: 0, start: 5, end: 6, len: 4 });
}

#[test]
fn no_segments_give_no_points() {
    let segments: Vec<Segment> = Vec::new();
    let positions: Vec<u32> = vec![10, 20, 30, 40];
    let (mut xs, mut ys) = segments_to_points(&segments, &positions).unwrap();
    assert_eq!(xs.to_vec(), Vec::<u32>::new());
    assert_eq!(ys.to_vec(), Vec::<u64>::new());
    assert_eq!(xs.next(), None);
    assert_eq!(ys.next(), None);
}

#[test]
fn no_segments_and_no_positions_give_no_points() {
    let (xs, ys) = segments_to_points(&[], &[]).unwrap();
    assert!(xs.to_vec().is_empty());
    assert!(ys.to_vec().is_empty());
}

#[test]
fn three_points_per_segment() {
    let positions: Vec<u32> = (0..50).map(|i| 1000 + 7 * i).collect();
    let segments = vec![seg(0, 1, 0.5), seg(1, 10, -2.0), seg(10, 49, 3.25), seg(49, 50, 0.0)];
    let (xs, ys) = segments_to_points(&segments, &positions).unwrap();
    let xs = xs.to_vec();
    let ys = ys.to_vec();
    assert_eq!(xs.len(), 3 * segments.len());
    assert_eq!(ys.len(), 3 * segments.len());
    for (i, s) in segments.iter().enumerate() {
        assert_eq!(xs[3 * i], positions[s.start]);
        assert_eq!(xs[3 * i + 1], positions[s.end - 1]);
        assert_eq!(xs[3 * i + 2], positions[s.end - 1]);
        assert_eq!(ys[3 * i], s.value);
        assert_eq!(ys[3 * i + 1], s.value);
        assert!(f64::from_bits(ys[3 * i + 2]).is_nan());
    }
}

#[test]
fn single_position_segment_repeats_its_position() {
    let positions: Vec<u32> = vec![7, 8, 9];
    let segments = vec![seg(1, 2, 2.5)];
    let (xs, ys) = segments_to_points(&segments, &positions).unwrap();
    assert_eq!(xs.to_vec(), vec![8, 8, 8]);
    assert_eq!(ys.to_vec(), vec![2.5f64.to_bits(), 2.5f64.to_bits(), NAN_BITS]);
}

#[test]
fn segments_need_not_be_ordered_or_disjoint() {
    let positions: Vec<u32> = vec![10, 20, 30, 40];
    let segments = vec![seg(2, 4, 1.0), seg(0, 3, 2.0)];
    let (xs, _) = segments_to_points(&segments, &positions).unwrap();
    assert_eq!(xs.to_vec(), vec![30, 40, 40, 10, 30, 30]);
}

#[test]
fn segment_may_end_at_the_last_position() {
    let positions: Vec<u32> = vec![10, 20, 30, 40];
    let segments = vec![seg(3, 4, 1.0)];
    let (xs, _) = segments_to_points(&segments, &positions).unwrap();
    assert_eq!(xs.to_vec(), vec![40, 40, 40]);
}

#[test]
fn segment_one_past_the_end_is_an_index_error() {
    let positions: Vec<u32> = vec![10, 20, 30, 40];
    let segments = vec![seg(0, 2, 1.0), seg(3, 5, 1.0)];
    let err = segments_to_points(&segments, &positions).unwrap_err();
    assert_eq!(err, IndexError { segment: 1, start: 3, end: 5, len: 4 });
}

#[test]
fn zero_width_segment_is_an_index_error() {
    let positions: Vec<u32> = vec![10, 20, 30, 40];
    let err = segments_to_points(&[seg(2, 2, 1.0)], &positions).unwrap_err();
    assert_eq!(err, IndexError { segment: 0, start: 2, end: 2, len: 4 });
    let err = segments_to_points(&[seg(0, 0, 1.0)], &positions).unwrap_err();
    assert_eq!(err, IndexError { segment: 0, start: 0, end: 0, len: 4 });
}

#[test]
fn reversed_segment_is_an_index_error() {
    let positions: Vec<u32> = vec![10, 20, 30, 40];
    let err = segments_to_points(&[seg(3, 1, 1.0)], &positions).unwrap_err();
    assert_eq!(err, IndexError { segment: 0, start: 3, end: 1, len: 4 });
}

#[test]
fn first_bad_segment_is_reported() {
    let positions: Vec<u32> = vec![10, 20, 30, 40];
    let segments = vec![seg(0, 1, 1.0), seg(1, 9, 1.0), seg(2, 2, 1.0)];
    let err = segments_to_points(&segments, &positions).unwrap_err();
    assert_eq!(err, IndexError { segment: 1, start: 1, end: 9, len: 4 });
}

#[test]
fn any_segment_over_no_positions_is_an_index_error() {
    let err = segments_to_points(&[seg(0, 1, 1.0)], &[]).unwrap_err();
    assert_eq!(err, IndexError { segment: 0, start: 0, end: 1, len: 0 });
}

#[test]
fn transform_twice_gives_the_same_polyline() {
    let segments = vec![seg(0, 2, 4.0), seg(2, 4, f64::NAN), seg(1, 3, -0.0)];
    let positions: Vec<u32> = vec![10, 20, 30, 40];
    let (xs1, ys1) = segments_to_points(&segments, &positions).unwrap();
    let (xs2, ys2) = segments_to_points(&segments, &positions).unwrap();
    assert_eq!(xs1.to_vec(), xs2.to_vec());
    let ys1 = floats(&ys1.to_vec());
    let ys2 = floats(&ys2.to_vec());
    assert_eq!(ys1.len(), ys2.len());
    for k in 0..ys1.len() {
        if ys1[k].is_nan() {
            assert!(ys2[k].is_nan());
        } else {
            assert_eq!(ys1[k].to_bits(), ys2[k].to_bits());
        }
    }
}

#[test]
fn levels_pass_through_bit_for_bit() {
    let positions: Vec<u32> = vec![1, 2];
    let odd_nan: u64 = 0x7ff0_0000_0000_0001;
    let segments =
        vec![Segment { start: 0, end: 2, value: odd_nan }, seg(0, 1, f64::NEG_INFINITY)];
    let (_, ys) = segments_to_points(&segments, &positions).unwrap();
    assert_eq!(
        ys.to_vec(),
        vec![odd_nan, odd_nan, NAN_BITS, f64::NEG_INFINITY.to_bits(), f64::NEG_INFINITY.to_bits(), NAN_BITS]
    );
}

#[test]
fn separator_is_a_quiet_nan() {
    assert!(f64::from_bits(NAN_BITS).is_nan());
    assert_eq!(NAN_BITS >> 51, 0xfff);
}

#[test]
fn taking_points_one_by_one_matches_collecting() {
    let segments = vec![seg(0, 2, 4.0), seg(2, 4, 1.0)];
    let positions: Vec<u32> = vec![10, 20, 30, 40];
    let (mut xs, mut ys) = segments_to_points(&segments, &positions).unwrap();
    let all_xs = xs.to_vec();
    let all_ys = ys.to_vec();
    let mut taken_xs: Vec<u32> = Vec::new();
    while let Some(x) = xs.next() {
        taken_xs.push(x);
    }
    let mut taken_ys: Vec<u64> = Vec::new();
    while let Some(y) = ys.next() {
        taken_ys.push(y);
    }
    assert_eq!(taken_xs, all_xs);
    assert_eq!(taken_ys, all_ys);
    assert_eq!(xs.next(), None);
    assert_eq!(ys.next(), None);
    assert!(xs.to_vec().is_empty());
    assert!(ys.to_vec().is_empty());
}

#[test]
fn collecting_midway_gives_what_is_left() {
    let segments = vec![seg(0, 2, 4.0), seg(2, 4, 1.0)];
    let positions: Vec<u32> = vec![10, 20, 30, 40];
    let (mut xs, mut ys) = segments_to_points(&segments, &positions).unwrap();
    let all_xs = xs.to_vec();
    let all_ys = ys.to_vec();
    for taken in 0..=6usize {
        assert_eq!(xs.to_vec(), all_xs[taken..].to_vec());
        assert_eq!(ys.to_vec(), all_ys[taken..].to_vec());
        let x = xs.next();
        let y = ys.next();
        if taken < 6 {
            assert_eq!(x, Some(all_xs[taken]));
            assert_eq!(y, Some(all_ys[taken]));
        } else {
            assert_eq!(x, None);
            assert_eq!(y, None);
        }
    }
}

#[test]
fn a_copy_resumes_on_its_own() {
    let segments = vec![seg(0, 2, 4.0), seg(2, 4, 1.0)];
    let positions: Vec<u32> = vec![10, 20, 30, 40];
    let (mut xs, mut ys) = segments_to_points(&segments, &positions).unwrap();
    assert_eq!(xs.next(), Some(10));
    assert_eq!(ys.next(), Some(4.0f64.to_bits()));
    let mut xs_copy = xs;
    let mut ys_copy = ys.clone();
    assert_eq!(xs.next(), Some(20));
    assert_eq!(xs.next(), Some(20));
    assert_eq!(ys.next(), Some(4.0f64.to_bits()));
    assert_eq!(xs_copy.next(), Some(20));
    assert_eq!(ys_copy.next(), Some(4.0f64.to_bits()));
    assert_eq!(xs_copy.to_vec(), vec![20, 30, 40, 40]);
    assert_eq!(ys_copy.to_vec(), vec![NAN_BITS, 1.0f64.to_bits(), 1.0f64.to_bits(), NAN_BITS]);
}

#[test]
fn nan_test_on_bits_agrees_with_floats() {
    let samples: Vec<f64> = vec![
        0.0,
        -0.0,
        1.0,
        -1.5,
        f64::MIN_POSITIVE,
        f64::MAX,
        f64::MIN,
        f64::INFINITY,
        f64::NEG_INFINITY,
        f64::NAN,
        -f64::NAN,
        f64::EPSILON,
    ];
    for v in samples {
        assert_eq!(is_nan(v.to_bits()), v.is_nan());
    }
    let patterns: Vec<u64> = vec![
        0,
        1,
        0x7ff0_0000_0000_0000,
        0x7ff0_0000_0000_0001,
        0x7ff8_0000_0000_0000,
        0x7fff_ffff_ffff_ffff,
        0xfff0_0000_0000_0000,
        0xfff0_0000_0000_0001,
        0xffff_ffff_ffff_ffff,
        0x7fef_ffff_ffff_ffff,
        0x000f_ffff_ffff_ffff,
        0x8000_0000_0000_0000,
    ];
    for bits in patterns {
        assert_eq!(is_nan(bits), f64::from_bits(bits).is_nan());
    }
    assert!(is_nan(NAN_BITS));
}
