use axes_limits::grid::{axis_divisor, LockedAxis};
use axes_limits::limits::BoundingBox;
use axes_limits::model::ColorModel;
use axes_limits::rgb::LinearRgb;
use axes_limits::sampler::{compute_all_axes_limits, compute_limits_table};
use bevy_color::{ColorToComponents, Laba, Lcha, LinearRgba, Oklaba, Oklcha, Xyza};

fn to_linear(model: ColorModel, v: [f32; 3]) -> [f32; 3] {
    let ranges = model.ranges();
    let mut c = [0.0f32; 3];
    for i in 0..3 {
        let min = f32::from_bits(ranges[i].min);
        let max = f32::from_bits(ranges[i].max);
        c[i] = min * (1.0 - v[i]) + max * v[i];
    }
    match model {
        ColorModel::Xyz => LinearRgba::from(Xyza::new(c[0], c[1], c[2], 1.0)),
        ColorModel::Lab => LinearRgba::from(Laba::new(c[0], c[1], c[2], 1.0)),
        ColorModel::Lch => LinearRgba::from(Lcha::new(c[0], c[1], c[2], 1.0)),
        ColorModel::Oklab => LinearRgba::from(Oklaba::new(c[0], c[1], c[2], 1.0)),
        ColorModel::Oklch => LinearRgba::from(Oklcha::new(c[0], c[1], c[2], 1.0)),
    }
    .to_f32_array_no_alpha()
}

fn sample(model: ColorModel, resolution: u32, c0: u32, c1: u32, c2: u32) -> LinearRgb {
    let d = axis_divisor(resolution) as f32;
    let rgb = to_linear(model, [c0 as f32 / d, c1 as f32 / d, c2 as f32 / d]);
    LinearRgb::new(rgb[0].to_bits(), rgb[1].to_bits(), rgb[2].to_bits())
}

fn scan(model: ColorModel, resolution: u32, axis: LockedAxis, locked: u32) -> BoundingBox {
    let d = axis_divisor(resolution) as f32;
    let mut found: Option<BoundingBox> = None;
    for x in 0..resolution {
        for y in 0..resolution {
            let (c0, c1, c2) = axis.coordinate(locked, x, y);
            let rgb = to_linear(model, [c0 as f32 / d, c1 as f32 / d, c2 as f32 / d]);
            if rgb.iter().all(|v| *v >= 0.0 && *v <= 1.0) {
                found = Some(match found {
                    None => BoundingBox { min_x: x, min_y: y, max_x: x, max_y: y },
                    Some(b) => BoundingBox {
                        min_x: b.min_x.min(x),
                        min_y: b.min_y.min(y),
                        max_x: b.max_x.max(x),
                        max_y: b.max_y.max(y),
                    },
                });
            }
        }
    }
    found.unwrap_or(BoundingBox { min_x: 0, min_y: 0, max_x: 0, max_y: 0 })
}

#[test]
fn tables_of_the_colour_models_match_a_direct_scan() {
    let resolution = 17u32;
    let axes = [LockedAxis::First, LockedAxis::Second, LockedAxis::Third];
    for model in ColorModel::all() {
        let table = compute_limits_table(
            &|c0: u32, c1: u32, c2: u32| sample(model, resolution, c0, c1, c2),
            resolution,
        );
        assert_eq!(table.len(), 51);
        let mut occupied = 0;
        for (o, axis) in axes.iter().enumerate() {
            for locked in 0..resolution {
                let expected = scan(model, resolution, *axis, locked);
                assert_eq!(table[o * 17 + locked as usize], expected, "{:?}", (model, o, locked));
                if expected.max_x > expected.min_x {
                    occupied += 1;
                }
            }
        }
        assert!(occupied > 0, "{:?}", model);
    }
}

#[test]
fn file_of_all_models_has_the_documented_size() {
    let resolution = 9u32;
    let values = compute_all_axes_limits(
        &|model: ColorModel, c0: u32, c1: u32, c2: u32| sample(model, resolution, c0, c1, c2),
        resolution,
    );
    assert_eq!(values.len(), 5 * 3 * 9 * 4);
    assert!(values.iter().all(|v| *v <= 8));
    assert!(values.iter().any(|v| *v == 8));
}

#[test]
fn black_and_white_points_of_xyz_are_displayable() {
    let black = sample(ColorModel::Xyz, 2, 0, 0, 0);
    assert!(black.in_gamut());
    let saturated = sample(ColorModel::Xyz, 2, 1, 0, 0);
    assert!(!saturated.in_gamut());
}
