use rootvg::gradient::{pack_f16s, GradientStops, MAX_STOPS};

fn keys(g: &GradientStops<&'static str>) -> Vec<Option<u32>> {
    g.stops.iter().map(|s| s.as_ref().map(|s| s.0)).collect()
}

#[test]
fn stops_fill_in_order() {
    let mut g = GradientStops::new();
    assert_eq!(g.stops.len(), MAX_STOPS);
    g.add_stop(20, "a");
    g.add_stop(80, "b");
    assert_eq!(keys(&g)[..3], [Some(20), Some(80), None]);
    // An equal key replaces its stop.
    g.add_stop(80, "c");
    assert_eq!(g.stops[1], Some((80, "c")));
    // A key between two stops is inserted between them; none is lost.
    g.add_stop(50, "d");
    assert_eq!(keys(&g)[..4], [Some(20), Some(50), Some(80), None]);
    assert_eq!(g.stops[2], Some((80, "c")));
    // A smaller key goes first.
    g.add_stop(10, "e");
    assert_eq!(keys(&g)[..5], [Some(10), Some(20), Some(50), Some(80), None]);
}

#[test]
fn stops_10_20_add_15() {
    let mut g = GradientStops::new();
    g.add_stop(10, "a");
    g.add_stop(20, "b");
    g.add_stop(15, "c");
    assert_eq!(keys(&g)[..4], [Some(10), Some(15), Some(20), None]);
}

#[test]
fn full_stops_ignore_new_keys() {
    let mut g = GradientStops::new();
    for i in 1..=8u32 {
        g.add_stop(i * 10, "x");
    }
    assert!(g.stops.iter().all(|s| s.is_some()));
    let before = keys(&g);
    // A stop past the 8th is ignored, whether above or below the others.
    g.add_stop(1000, "y");
    assert_eq!(keys(&g), before);
    g.add_stop(5, "z");
    assert_eq!(keys(&g), before);
    // An equal key still replaces its stop.
    g.add_stop(30, "w");
    assert_eq!(g.stops[2], Some((30, "w")));
    assert_eq!(keys(&g), before);
}

#[test]
fn pack_half_floats() {
    assert_eq!(pack_f16s([0x3c00, 0x4000]), 0x3c00_4000);
    assert_eq!(pack_f16s([0, 0xffff]), 0xffff);
}
