use orbit_camera::input::{aggregate_pan, aggregate_scroll, ScrollEvent, ScrollUnit, Vec2Fx};

#[test]
fn pan_empty_is_zero() {
    let events: Vec<Vec2Fx> = Vec::new();
    let r = aggregate_pan(&events);
    assert_eq!(r.x, 0);
    assert_eq!(r.y, 0);
}

#[test]
fn pan_order_independent_and_additive() {
    let a = Vec2Fx { x: 15000, y: -20000 };
    let b = Vec2Fx { x: -5000, y: 70000 };
    let ab = aggregate_pan(&vec![a, b]);
    let ba = aggregate_pan(&vec![b, a]);
    let single = aggregate_pan(&vec![Vec2Fx { x: a.x + b.x, y: a.y + b.y }]);
    assert_eq!(ab, ba);
    assert_eq!(ab, single);
    assert_eq!(ab.x, 10000);
    assert_eq!(ab.y, 50000);
}

#[test]
fn pan_many_events_sum() {
    let events = vec![
        Vec2Fx { x: 1, y: 2 },
        Vec2Fx { x: 3, y: 4 },
        Vec2Fx { x: -10, y: 6 },
        Vec2Fx { x: 100, y: -200 },
    ];
    let r = aggregate_pan(&events);
    assert_eq!(r.x, 94);
    assert_eq!(r.y, -188);
}

#[test]
fn scroll_empty_is_zero() {
    let events: Vec<ScrollEvent> = Vec::new();
    assert_eq!(aggregate_scroll(&events), 0);
}

#[test]
fn scroll_mixed_units_normalize_before_summing() {
    // One line plus ten pixels: 1 + 10 * 0.1 = 2.0 lines exactly.
    let events = vec![
        ScrollEvent { amount: 10000, unit: ScrollUnit::Line },
        ScrollEvent { amount: 100000, unit: ScrollUnit::Pixel },
    ];
    assert_eq!(aggregate_scroll(&events), 20000);
}

#[test]
fn scroll_pixel_rounds_toward_zero() {
    let events = vec![
        ScrollEvent { amount: 5, unit: ScrollUnit::Pixel },
        ScrollEvent { amount: -5, unit: ScrollUnit::Pixel },
    ];
    assert_eq!(aggregate_scroll(&events), 0);
    let events2 = vec![ScrollEvent { amount: 25, unit: ScrollUnit::Pixel }];
    assert_eq!(aggregate_scroll(&events2), 2);
}

#[test]
fn scroll_order_independent() {
    let a = ScrollEvent { amount: 30000, unit: ScrollUnit::Line };
    let b = ScrollEvent { amount: -50000, unit: ScrollUnit::Pixel };
    let c = ScrollEvent { amount: 12340, unit: ScrollUnit::Pixel };
    let abc = aggregate_scroll(&vec![a, b, c]);
    let cba = aggregate_scroll(&vec![c, b, a]);
    assert_eq!(abc, cba);
    // 3.0 - 0.5 + 0.1234 lines
    assert_eq!(abc, 30000 - 5000 + 1234);
}

#[test]
fn pan_full_tick_of_events() {
    let mut events: Vec<Vec2Fx> = Vec::new();
    for i in 0..4096i64 {
        events.push(Vec2Fx { x: 1, y: -i % 7 });
    }
    let r = aggregate_pan(&events);
    assert_eq!(r.x, 4096);
    let expected: i64 = (0..4096i64).map(|i| -i % 7).sum();
    assert_eq!(r.y, expected);
}
