use axes_limits::grid::{axis_divisor, LockedAxis};
use axes_limits::limits::BoundingBox;
use axes_limits::model::ColorModel;
use axes_limits::rgb::LinearRgb;
use axes_limits::sampler::{
    compute_all_axes_limits, compute_axes_limits, compute_limits_table,
    compute_limits_table_serial, flatten, sweep_slice,
};
use std::sync::atomic::{AtomicUsize, Ordering};

fn colour(r: f32, g: f32, b: f32) -> LinearRgb {
    LinearRgb::new(r.to_bits(), g.to_bits(), b.to_bits())
}

fn verdict(inside: bool) -> LinearRgb {
    if inside {
        colour(0.5, 0.5, 0.5)
    } else {
        colour(2.0, 0.5, 0.5)
    }
}

fn boxed(min_x: u32, min_y: u32, max_x: u32, max_y: u32) -> BoundingBox {
    BoundingBox { min_x, min_y, max_x, max_y }
}

/// A ball around the middle of a cube of 9 points per channel, cut off by a plane.
fn lens(c0: u32, c1: u32, c2: u32) -> LinearRgb {
    let d = |c: u32| (c as i64 - 4) * (c as i64 - 4);
    verdict(d(c0) + d(c1) + d(c2) <= 11 && c0 + 2 * c1 + 3 * c2 >= 14)
}

fn scan(
    transfer: &dyn Fn(u32, u32, u32) -> LinearRgb,
    resolution: u32,
    axis: LockedAxis,
    locked: u32,
) -> BoundingBox {
    let mut hits: Vec<(u32, u32)> = Vec::new();
    for x in 0..resolution {
        for y in 0..resolution {
            let (c0, c1, c2) = axis.coordinate(locked, x, y);
            if transfer(c0, c1, c2).in_gamut() {
                hits.push((x, y));
            }
        }
    }
    if hits.is_empty() {
        return boxed(0, 0, 0, 0);
    }
    boxed(
        hits.iter().map(|p| p.0).min().unwrap(),
        hits.iter().map(|p| p.1).min().unwrap(),
        hits.iter().map(|p| p.0).max().unwrap(),
        hits.iter().map(|p| p.1).max().unwrap(),
    )
}

#[test]
fn boxes_are_ordered_and_inside_the_grid() {
    for resolution in [2u32, 3, 9] {
        let table = compute_limits_table(&lens, resolution);
        let divisor = axis_divisor(resolution);
        assert_eq!(divisor, resolution - 1);
        for limits in &table {
            assert!(limits.min_x <= limits.max_x && limits.max_x <= divisor);
            assert!(limits.min_y <= limits.max_y && limits.max_y <= divisor);
            for bound in limits.components() {
                let normalized = bound as f32 / divisor as f32;
                assert!((0.0..=1.0).contains(&normalized));
            }
        }
    }
}

#[test]
fn table_holds_the_bounding_box_of_each_slice() {
    let table = compute_limits_table(&lens, 9);
    assert_eq!(table.len(), 27);
    let axes = [LockedAxis::First, LockedAxis::Second, LockedAxis::Third];
    let mut distinct = 0;
    for (o, axis) in axes.iter().enumerate() {
        for locked in 0..9u32 {
            let expected = scan(&lens, 9, *axis, locked);
            assert_eq!(table[o * 9 + locked as usize], expected);
            assert_eq!(sweep_slice(&lens, 9, *axis, locked), expected);
            if expected != boxed(0, 0, 0, 0) {
                distinct += 1;
            }
        }
    }
    assert!(distinct >= 9);
}

#[test]
fn sweeping_twice_gives_the_same_table() {
    let first = compute_axes_limits(&lens, 9);
    let second = compute_axes_limits(&lens, 9);
    assert_eq!(first, second);
}

#[test]
fn one_thread_and_many_give_the_same_table() {
    let serial = compute_limits_table_serial(&lens, 9);
    let one = rayon::ThreadPoolBuilder::new()
        .num_threads(1)
        .build()
        .unwrap()
        .install(|| compute_limits_table(&lens, 9));
    let many = rayon::ThreadPoolBuilder::new()
        .num_threads(4)
        .build()
        .unwrap()
        .install(|| compute_limits_table(&lens, 9));
    assert_eq!(one, serial);
    assert_eq!(many, serial);
    assert_eq!(compute_limits_table(&lens, 9), serial);
    assert!(serial.iter().any(|limits| *limits != BoundingBox::origin()));
}

#[test]
fn transfer_that_always_leaves_the_gamut_collapses_every_box() {
    let outside = |_: u32, _: u32, _: u32| colour(1.5, -0.25, f32::NAN);
    for resolution in [1u32, 2, 5] {
        let values = compute_axes_limits(&outside, resolution);
        assert_eq!(values, vec![0u32; 12 * resolution as usize]);
        let table = compute_limits_table_serial(&outside, resolution);
        assert!(table.iter().all(|limits| *limits == boxed(0, 0, 0, 0)));
    }
}

#[test]
fn identity_transfer_spans_every_slice() {
    for resolution in [2u32, 3, 6] {
        let divisor = axis_divisor(resolution) as f32;
        let identity = |c0: u32, c1: u32, c2: u32| {
            colour(c0 as f32 / divisor, c1 as f32 / divisor, c2 as f32 / divisor)
        };
        let table = compute_limits_table(&identity, resolution);
        assert_eq!(table.len(), 3 * resolution as usize);
        let last = resolution - 1;
        for limits in &table {
            assert_eq!(*limits, boxed(0, 0, last, last));
            assert_eq!(limits.min_x as f32 / divisor, 0.0);
            assert_eq!(limits.max_x as f32 / divisor, 1.0);
            assert_eq!(limits.min_y as f32 / divisor, 0.0);
            assert_eq!(limits.max_y as f32 / divisor, 1.0);
        }
    }
}

#[test]
fn symmetric_transfer_gives_the_same_box_on_every_axis() {
    let symmetric = |c0: u32, c1: u32, c2: u32| {
        let sum = c0 + c1 + c2;
        let product = (c0 + 1) * (c1 + 1) * (c2 + 1);
        verdict(sum >= 5 && sum <= 13 && product % 7 != 0)
    };
    let resolution = 8u32;
    let table = compute_limits_table(&symmetric, resolution);
    let n = resolution as usize;
    let mut varied = false;
    for locked in 0..n {
        assert_eq!(table[locked], table[n + locked]);
        assert_eq!(table[n + locked], table[2 * n + locked]);
        varied = varied || table[locked] != table[0];
    }
    assert!(varied);
}

#[test]
fn asymmetric_transfer_tells_the_axes_apart() {
    let single = |c0: u32, c1: u32, c2: u32| verdict((c0, c1, c2) == (1, 2, 3));
    let table = compute_limits_table(&single, 4);
    for (i, limits) in table.iter().enumerate() {
        let expected = match i {
            1 => boxed(2, 3, 2, 3),
            6 => boxed(1, 3, 1, 3),
            11 => boxed(1, 2, 1, 2),
            _ => boxed(0, 0, 0, 0),
        };
        assert_eq!(*limits, expected, "slot {}", i);
    }
}

#[test]
fn output_has_twelve_values_for_each_grid_index() {
    for resolution in [0u32, 1, 2, 7, 16] {
        let values = compute_axes_limits(&lens_or_nothing, resolution);
        assert_eq!(values.len(), 3 * resolution as usize * 4);
        let table = compute_limits_table(&lens_or_nothing, resolution);
        assert_eq!(table.len(), 3 * resolution as usize);
    }
}

fn lens_or_nothing(c0: u32, c1: u32, c2: u32) -> LinearRgb {
    verdict(c0 < 9 && c1 < 9 && c2 < 9 && lens(c0, c1, c2).in_gamut())
}

#[test]
fn all_models_have_sixty_values_for_each_grid_index() {
    let by_model = |model: ColorModel, c0: u32, c1: u32, c2: u32| {
        verdict((c0 + c1 + c2) as usize % 5 == model.position())
    };
    for resolution in [0u32, 1, 2, 5] {
        let values = compute_all_axes_limits(&by_model, resolution);
        assert_eq!(values.len(), 5 * 3 * resolution as usize * 4);
    }
}

#[test]
fn all_models_follow_one_another_in_order() {
    let by_model = |model: ColorModel, c0: u32, c1: u32, c2: u32| {
        verdict(c0 as usize == model.position() && (c1 + c2) as usize <= 4 + model.position())
    };
    let resolution = 6u32;
    let values = compute_all_axes_limits(&by_model, resolution);
    let stride = 12 * resolution as usize;
    let mut runs: Vec<Vec<u32>> = Vec::new();
    for model in ColorModel::all() {
        let alone = compute_axes_limits(
            &|c0: u32, c1: u32, c2: u32| by_model(model, c0, c1, c2),
            resolution,
        );
        let k = model.position();
        assert_eq!(values[k * stride..(k + 1) * stride].to_vec(), alone);
        runs.push(alone);
    }
    for k in 1..runs.len() {
        assert_ne!(runs[k - 1], runs[k]);
    }
}

#[test]
fn two_point_grid_reflects_which_corners_pass() {
    let agree = |c0: u32, c1: u32, _: u32| verdict(c0 == c1);
    let table = compute_limits_table(&agree, 2);
    assert_eq!(
        table,
        vec![
            boxed(0, 0, 0, 1),
            boxed(1, 0, 1, 1),
            boxed(0, 0, 0, 1),
            boxed(1, 0, 1, 1),
            boxed(0, 0, 1, 1),
            boxed(0, 0, 1, 1),
        ]
    );
    let values = compute_axes_limits(&agree, 2);
    assert_eq!(
        values,
        vec![0, 0, 0, 1, 1, 0, 1, 1, 0, 0, 0, 1, 1, 0, 1, 1, 0, 0, 1, 1, 0, 0, 1, 1]
    );
    let normalized: Vec<f32> =
        values.iter().map(|v| *v as f32 / axis_divisor(2) as f32).collect();
    assert_eq!(normalized[..8], [0.0, 0.0, 0.0, 1.0, 1.0, 0.0, 1.0, 1.0]);
}

#[test]
fn single_point_grid_gives_all_zero_boxes() {
    let inside = |_: u32, _: u32, _: u32| verdict(true);
    let outside = |_: u32, _: u32, _: u32| verdict(false);
    assert_eq!(compute_axes_limits(&inside, 1), vec![0u32; 12]);
    assert_eq!(compute_axes_limits(&outside, 1), vec![0u32; 12]);
    assert_eq!(compute_limits_table_serial(&inside, 1), vec![boxed(0, 0, 0, 0); 3]);
}

#[test]
fn empty_grid_gives_an_empty_table() {
    let inside = |_: u32, _: u32, _: u32| verdict(true);
    assert!(compute_limits_table(&inside, 0).is_empty());
    assert!(compute_limits_table_serial(&inside, 0).is_empty());
    assert!(compute_axes_limits(&inside, 0).is_empty());
}

#[test]
fn lone_hit_at_the_far_corner_is_found() {
    let corner = |c0: u32, c1: u32, c2: u32| verdict(c0 == 4 && c1 == 4 && c2 == 4);
    assert_eq!(sweep_slice(&corner, 5, LockedAxis::First, 4), boxed(4, 4, 4, 4));
    assert_eq!(sweep_slice(&corner, 5, LockedAxis::First, 3), boxed(0, 0, 0, 0));
    let origin = |c0: u32, c1: u32, c2: u32| verdict(c0 == 0 && c1 == 0 && c2 == 0);
    assert_eq!(sweep_slice(&origin, 5, LockedAxis::Third, 0), boxed(0, 0, 0, 0));
}

#[test]
fn not_a_number_counts_as_outside() {
    let nan_on_diagonal = |c0: u32, c1: u32, _: u32| {
        if c0 == c1 {
            colour(f32::NAN, 0.5, 0.5)
        } else {
            colour(0.5, 0.5, 0.5)
        }
    };
    assert_eq!(sweep_slice(&nan_on_diagonal, 3, LockedAxis::Third, 0), boxed(0, 0, 2, 2));
    assert_eq!(sweep_slice(&nan_on_diagonal, 3, LockedAxis::First, 0), boxed(1, 0, 2, 2));
    assert_eq!(sweep_slice(&nan_on_diagonal, 3, LockedAxis::Second, 2), boxed(0, 0, 1, 2));
}

#[test]
fn every_sample_of_a_slice_is_visited_once() {
    let calls = AtomicUsize::new(0);
    let counting = |_: u32, _: u32, _: u32| {
        calls.fetch_add(1, Ordering::Relaxed);
        verdict(true)
    };
    sweep_slice(&counting, 7, LockedAxis::Second, 3);
    assert_eq!(calls.load(Ordering::Relaxed), 49);
    calls.store(0, Ordering::Relaxed);
    compute_limits_table(&counting, 7);
    assert_eq!(calls.load(Ordering::Relaxed), 3 * 7 * 49);
}

#[test]
fn flatten_writes_four_bounds_for_each_box() {
    let table = vec![boxed(1, 2, 3, 4), boxed(5, 6, 7, 8), boxed(0, 0, 0, 0)];
    assert_eq!(flatten(&table), vec![1, 2, 3, 4, 5, 6, 7, 8, 0, 0, 0, 0]);
    assert_eq!(flatten(&Vec::new()), Vec::<u32>::new());
    assert_eq!(compute_axes_limits(&lens, 9), flatten(&compute_limits_table_serial(&lens, 9)));
}
