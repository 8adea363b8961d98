use monte_carlo_pi::{is_in_unit_circle_fn, Point, UNIT};

#[test]
fn unit_is_two_to_the_53() {
    assert_eq!(UNIT, 1i64 << 53);
    assert_eq!(UNIT, 9_007_199_254_740_992);
}

#[test]
fn origin_is_inside() {
    assert!(is_in_unit_circle_fn(&Point { x: 0, y: 0 }));
}

#[test]
fn one_zero_is_outside() {
    assert!(!is_in_unit_circle_fn(&Point { x: UNIT, y: 0 }));
    assert!(!is_in_unit_circle_fn(&Point { x: 0, y: UNIT }));
    assert!(!is_in_unit_circle_fn(&Point { x: -UNIT, y: 0 }));
    assert!(!is_in_unit_circle_fn(&Point { x: 0, y: -UNIT }));
}

#[test]
fn just_below_one_is_inside() {
    assert!(is_in_unit_circle_fn(&Point { x: UNIT - 1, y: 0 }));
    assert!(is_in_unit_circle_fn(&Point { x: 0, y: UNIT - 1 }));
    assert!(is_in_unit_circle_fn(&Point { x: 1 - UNIT, y: 0 }));
    assert!(is_in_unit_circle_fn(&Point { x: 0, y: 1 - UNIT }));
}

#[test]
fn boundary_is_exact() {
    // With x = UNIT - 1 the point is inside exactly when y^2 < 2 * UNIT - 1,
    // that is when y < 2^27.
    let below: i64 = (1 << 27) - 1;
    let at: i64 = 1 << 27;
    assert!(is_in_unit_circle_fn(&Point { x: UNIT - 1, y: below }));
    assert!(!is_in_unit_circle_fn(&Point { x: UNIT - 1, y: at }));
    assert!(is_in_unit_circle_fn(&Point { x: -below, y: 1 - UNIT }));
    assert!(!is_in_unit_circle_fn(&Point { x: -at, y: 1 - UNIT }));
}

#[test]
fn scaled_three_four_five_triangle() {
    // (3/8)^2 + (4/8)^2 = (5/8)^2 < 1, and (6/8)^2 + (8/8)^2 > 1.
    let eighth = UNIT / 8;
    assert!(is_in_unit_circle_fn(&Point { x: 3 * eighth, y: 4 * eighth }));
    assert!(!is_in_unit_circle_fn(&Point { x: 6 * eighth, y: 8 * eighth }));
}

#[test]
fn diagonal_crosses_the_circle_at_root_half() {
    // floor(2^53 / sqrt(2)) = 6369051672525772.
    let inside: i64 = 6_369_051_672_525_772;
    assert!(is_in_unit_circle_fn(&Point { x: inside, y: inside }));
    assert!(!is_in_unit_circle_fn(&Point { x: inside + 1, y: inside + 1 }));
}

#[test]
fn extreme_coordinates_are_outside() {
    assert!(!is_in_unit_circle_fn(&Point { x: i64::MIN, y: i64::MIN }));
    assert!(!is_in_unit_circle_fn(&Point { x: i64::MAX, y: i64::MAX }));
    assert!(!is_in_unit_circle_fn(&Point { x: i64::MAX, y: 0 }));
    assert!(!is_in_unit_circle_fn(&Point { x: 0, y: i64::MIN }));
}

#[test]
fn predicate_is_idempotent() {
    let points = [
        Point { x: 0, y: 0 },
        Point { x: UNIT, y: 0 },
        Point { x: UNIT / 2, y: UNIT / 2 },
        Point { x: UNIT - 1, y: UNIT - 1 },
        Point { x: -7, y: 12 },
    ];
    for p in points.iter() {
        let first = is_in_unit_circle_fn(p);
        let second = is_in_unit_circle_fn(p);
        assert_eq!(first, second);
    }
}

#[test]
fn predicate_is_symmetric_in_sign() {
    let p = Point { x: UNIT / 3, y: UNIT / 5 };
    let q = Point { x: -p.x, y: -p.y };
    assert!(is_in_unit_circle_fn(&p));
    assert_eq!(is_in_unit_circle_fn(&p), is_in_unit_circle_fn(&q));
}

#[test]
fn from_words_keeps_the_top_53_bits() {
    assert_eq!(Point::from_words(0, 0), Point { x: 0, y: 0 });
    assert_eq!(Point::from_words(u64::MAX, 0), Point { x: UNIT - 1, y: 0 });
    assert_eq!(Point::from_words(2047, 2048), Point { x: 0, y: 1 });
    assert_eq!(Point::from_words(1 << 63, 1 << 62), Point { x: UNIT / 2, y: UNIT / 4 });
    assert_eq!(
        Point::from_words(0x0123_4567_89ab_cdef, 0xfedc_ba98_7654_3210),
        Point { x: 0x0123_4567_89ab_cdef >> 11, y: (0xfedc_ba98_7654_3210u64 >> 11) as i64 }
    );
}

#[test]
fn from_words_lands_in_the_unit_square() {
    let words = [0u64, 1, 2047, 2048, 1 << 32, u64::MAX - 1, u64::MAX];
    for &wx in words.iter() {
        for &wy in words.iter() {
            let p = Point::from_words(wx, wy);
            assert!(0 <= p.x && p.x < UNIT);
            assert!(0 <= p.y && p.y < UNIT);
        }
    }
}

#[test]
fn from_words_matches_double_precision_sampling() {
    // A double drawn uniformly from [0, 1) is the top 53 bits of a word
    // times 2^-53; the fixed-point coordinate is that same numerator.
    let scale = 1.0 / ((1u64 << 53) as f64);
    let word: u64 = 0xdead_beef_cafe_f00d;
    let as_double = scale * ((word >> 11) as f64);
    let p = Point::from_words(word, word);
    assert_eq!(p.x as f64 / UNIT as f64, as_double);
    assert!(as_double >= 0.0 && as_double < 1.0);
}
