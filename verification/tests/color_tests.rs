use render3d::color::lighten_darken_color;

#[test]
fn lighten_adds_to_each_channel() {
    assert_eq!(lighten_darken_color(0x1111ff, 10), 0x1b1bff);
}

#[test]
fn darken_subtracts_and_clamps_at_zero() {
    assert_eq!(lighten_darken_color(0x11a5ff, -0x20), 0x0085df);
    assert_eq!(lighten_darken_color(0x050505, -50), 0x000000);
}

#[test]
fn lighten_clamps_at_255() {
    assert_eq!(lighten_darken_color(0xfff0e0, 0x30), 0xffffff);
}

#[test]
fn shading_by_zero_keeps_a_24_bit_colour() {
    for col in [0x000000, 0x1111ff, 0x811181, 0xffffff, 0x11eaff] {
        assert_eq!(lighten_darken_color(col, 0), col);
    }
}

#[test]
fn bits_above_24_are_clamped_in_the_high_channel() {
    // 0x122ff45 has 0x122 above bit 16: it is clamped to 0xff.
    assert_eq!(lighten_darken_color(0x122ff45, 0), 0xffff45);
    assert_eq!(lighten_darken_color(0x122ff45, -0x30), 0xf2cf15);
}

#[test]
fn negative_colour_has_negative_high_channel() {
    // -1 is all ones: the high part is -1, the others 0xff.
    assert_eq!(lighten_darken_color(-1, 0), 0x00ffff);
    assert_eq!(lighten_darken_color(-1, 2), 0x01ffff);
}

#[test]
fn shading_is_monotone_in_the_amount() {
    let col = 0x4080c0;
    let mut prev = lighten_darken_color(col, -300);
    for amt in -299..300 {
        let cur = lighten_darken_color(col, amt);
        assert!((cur >> 16) >= (prev >> 16));
        assert!(((cur >> 8) & 0xff) >= ((prev >> 8) & 0xff));
        assert!((cur & 0xff) >= (prev & 0xff));
        assert!(0 <= cur && cur <= 0xffffff);
        prev = cur;
    }
}
