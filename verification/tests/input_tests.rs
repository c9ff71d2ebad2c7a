use render3d::input::{get_mouse_position, key_action, Movement};

#[test]
fn wasd_keys_move_the_camera() {
    assert_eq!(key_action(0x57), Some(Movement::Forward));
    assert_eq!(key_action(0x41), Some(Movement::Left));
    assert_eq!(key_action(0x53), Some(Movement::Backward));
    assert_eq!(key_action(0x44), Some(Movement::Right));
}

#[test]
fn other_keys_do_nothing() {
    for key in [0usize, 0x20, 0x42, 0x77, 0x61, 0x1b, usize::MAX] {
        assert_eq!(key_action(key), None);
    }
}

#[test]
fn mouse_position_reads_low_and_high_words() {
    assert_eq!(get_mouse_position(0x0003_0005), (5, 3));
    assert_eq!(get_mouse_position(0), (0, 0));
    assert_eq!(get_mouse_position(0xffff_ffff), (0xffff, 0xffff));
}

#[test]
fn mouse_position_ignores_higher_bits_and_sign() {
    assert_eq!(get_mouse_position(-1), (0xffff, 0xffff));
    assert_eq!(get_mouse_position(0x7_0012_0034), (0x34, 0x12));
}

#[test]
fn mouse_position_round_trip() {
    for (x, y) in [(0isize, 0isize), (640, 480), (0xffff, 1), (1, 0xffff), (1234, 4321)] {
        assert_eq!(get_mouse_position(y * 0x10000 + x), (x, y));
    }
}
