use raytracer::colormap::{create_linear_colormap, Basic, ColorMap, RGBAColor};

fn c(r: u8, g: u8, b: u8) -> RGBAColor {
    RGBAColor::new(r, g, b)
}

#[test]
fn ramp_hits_both_ends() {
    let v = create_linear_colormap(c(0, 0, 0), c(255, 255, 255), 256);
    assert_eq!(v.len(), 256);
    for (i, col) in v.iter().enumerate() {
        assert_eq!(*col, c(i as u8, i as u8, i as u8));
    }
}

#[test]
fn ramp_rounds_down_and_runs_backwards() {
    let v = ColorMap::create_linear(c(255, 0, 10), c(0, 100, 10), 4);
    assert_eq!(v, vec![c(255, 0, 10), c(170, 33, 10), c(85, 66, 10), c(0, 100, 10)]);
}

#[test]
fn ramp_of_one_or_none_is_the_start() {
    assert_eq!(create_linear_colormap(c(1, 2, 3), c(9, 9, 9), 1), vec![c(1, 2, 3)]);
    assert_eq!(create_linear_colormap(c(1, 2, 3), c(9, 9, 9), 0), vec![c(1, 2, 3)]);
}

#[test]
fn color_new_is_opaque() {
    assert_eq!(RGBAColor::new(1, 2, 3).a, 255);
}

#[test]
fn two_ramp_palettes() {
    let p = ColorMap::pf1();
    assert_eq!(p.len(), 256);
    assert_eq!(p[0], Basic::black());
    assert_eq!(p[1], Basic::dark_blue());
    assert_eq!(p[128], Basic::cyan());
    assert_eq!(p[255], Basic::dark_green());
    let p = ColorMap::pf2();
    assert_eq!(p.len(), 256);
    assert_eq!(p[1], Basic::dark_red());
    assert_eq!(p[128], Basic::dark_blue());
    assert_eq!(p[255], Basic::cyan());
}

#[test]
fn cyan_to_blue_palette() {
    let p = ColorMap::pf3();
    assert_eq!(p.len(), 256);
    assert_eq!(p[0], Basic::black());
    assert_eq!(p[1], Basic::cyan());
    assert_eq!(p[255], Basic::dark_blue());
}

#[test]
fn band_palettes() {
    let p = ColorMap::pf4();
    assert_eq!(p.len(), 256);
    assert_eq!(p[16], Basic::black());
    assert_eq!(p[17], c(255, 255, 0));
    assert_eq!(p[18], c(243, 255, 0));
    assert_eq!(p[32], Basic::black());
    assert_eq!(p[33], c(255, 239, 0));
    assert_eq!(p[255], c(87, 31, 0));
    let p = ColorMap::pf5();
    assert_eq!(p[18], c(0, 255, 243));
    assert_eq!(p[255], c(0, 31, 87));
}

#[test]
fn quadrant_palette() {
    let p = ColorMap::pf6();
    assert_eq!(p.len(), 256);
    assert_eq!(p[0], Basic::black());
    assert_eq!(p[1], c(0, 2, 129));
    assert_eq!(p[128], c(0, 255, 255));
    assert_eq!(p[129], c(3, 253, 253));
    assert_eq!(p[255], c(255, 1, 1));
}

#[test]
fn alternating_palette() {
    let p = ColorMap::pf7();
    assert_eq!(p.len(), 256);
    assert_eq!(p[0], Basic::black());
    assert_eq!(p[1], Basic::dark_blue());
    assert_eq!(p[2], Basic::yellow());
}

#[test]
fn red_band_palette() {
    let p = ColorMap::pf8();
    assert_eq!(p.len(), 256);
    assert_eq!(p[0], Basic::black());
    assert_eq!(p[1], c(128, 0, 0));
    assert_eq!(p[19], Basic::white());
    assert_eq!(p[44], c(255, 160, 64));
    assert_eq!(p[45], c(255, 192, 128));
    assert_eq!(p[64], Basic::white());
    assert_eq!(p[64 + 49], c(255, 224, 192));
}
