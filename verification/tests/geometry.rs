use aspect_crop::geometry::get_center_offset;
use aspect_crop::geometry::AspectRatio;
use aspect_crop::geometry::Dimension;

const THREE_BY_FOUR: AspectRatio = AspectRatio { num: 3, den: 4 };

#[test]
fn landscape_source_is_width_cropped() {
    // 800x600 is wider than 3:4, so the height is kept and the width is
    // cut down to floor(600 * 3 / 4) = 450.
    let d = Dimension { width: 800, height: 600 };
    let r = d.to_aspect_ratio(&THREE_BY_FOUR);
    assert_eq!(r, Dimension { width: 450, height: 600 });
}

#[test]
fn source_already_at_ratio_is_unchanged() {
    let d = Dimension { width: 600, height: 800 };
    let r = d.to_aspect_ratio(&THREE_BY_FOUR);
    assert_eq!(r, d);
}

#[test]
fn narrow_source_is_height_cropped() {
    // 100x1000 is far narrower than 3:4, so the width is kept and the
    // height is cut down to floor(100 * 4 / 3) = 133.
    let d = Dimension { width: 100, height: 1000 };
    let r = d.to_aspect_ratio(&THREE_BY_FOUR);
    assert_eq!(r, Dimension { width: 100, height: 133 });
}

#[test]
fn result_never_expands() {
    let cases = [
        Dimension { width: 1920, height: 1080 },
        Dimension { width: 1, height: 1 },
        Dimension { width: 1, height: 4000 },
        Dimension { width: 4000, height: 1 },
        Dimension { width: u32::MAX, height: u32::MAX },
    ];
    let ratios = [
        AspectRatio { num: 3, den: 4 },
        AspectRatio { num: 1, den: 1 },
        AspectRatio { num: 1000, den: 1 },
        AspectRatio { num: 1, den: 1000 },
    ];
    for d in cases {
        for r in ratios {
            let out = d.to_aspect_ratio(&r);
            assert!(out.width <= d.width, "{}x{} at {}/{}", d.width, d.height, r.num, r.den);
            assert!(out.height <= d.height, "{}x{} at {}/{}", d.width, d.height, r.num, r.den);
        }
    }
}

#[test]
fn truncation_follows_floor_semantics() {
    // 7x5 at ratio 2:3 is wider than 2:3 (7*3 >= 5*2), so the height is
    // kept: width = floor(5 * 2 / 3) = 3.
    let d = Dimension { width: 7, height: 5 };
    let r = d.to_aspect_ratio(&AspectRatio { num: 2, den: 3 });
    assert_eq!(r, Dimension { width: 3, height: 5 });

    // 2x9 at ratio 2:3 is narrower (2*3 < 9*2), so the width is kept:
    // height = floor(2 * 3 / 2) = 3.
    let d = Dimension { width: 2, height: 9 };
    let r = d.to_aspect_ratio(&AspectRatio { num: 2, den: 3 });
    assert_eq!(r, Dimension { width: 2, height: 3 });
}

#[test]
fn centering_splits_the_difference() {
    let outer = Dimension { width: 800, height: 600 };
    let inner = Dimension { width: 450, height: 600 };
    let p = get_center_offset(&outer, &inner);
    assert_eq!(p.x, 175);
    assert_eq!(p.y, 0);
}

#[test]
fn centering_truncates_odd_differences() {
    let outer = Dimension { width: 11, height: 7 };
    let inner = Dimension { width: 4, height: 2 };
    let p = get_center_offset(&outer, &inner);
    assert_eq!(p.x, 3);
    assert_eq!(p.y, 2);
}

#[test]
fn centering_equal_dimensions_is_zero() {
    let d = Dimension { width: 640, height: 480 };
    let p = get_center_offset(&d, &d);
    assert_eq!(p.x, 0);
    assert_eq!(p.y, 0);
}
