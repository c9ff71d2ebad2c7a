//! Decoding of keyboard and mouse window messages.
use vstd::prelude::*;

verus! {

/// A camera movement that a key press asks for.
#[derive(PartialEq, Eq, Structural, Clone, Copy, Debug)]
pub enum Movement {
    /// Move along the look direction.
    Forward,
    /// Move against the look direction.
    Backward,
    /// Move sideways to the left.
    Left,
    /// Move sideways to the right.
    Right,
}

/// Virtual-key code of the W key.
pub const KEY_W: usize = 0x57;

/// Virtual-key code of the A key.
pub const KEY_A: usize = 0x41;

/// Virtual-key code of the S key.
pub const KEY_S: usize = 0x53;

/// Virtual-key code of the D key.
pub const KEY_D: usize = 0x44;

/// The movement bound to a virtual-key code, if any.
pub open spec fn movement_for_key(key: usize) -> Option<Movement> {
    if key == KEY_W {
        Some(Movement::Forward)
    } else if key == KEY_A {
        Some(Movement::Left)
    } else if key == KEY_S {
        Some(Movement::Backward)
    } else if key == KEY_D {
        Some(Movement::Right)
    } else {
        None
    }
}

/// The movement that a key-down message with the given virtual-key code
/// asks for: W, A, S and D move forward, left, backward and right; every
/// other key asks for nothing.
pub fn key_action(key: usize) -> (res: Option<Movement>)
    ensures
        res == movement_for_key(key),
{
    match key {
        0x57 => Some(Movement::Forward),
        0x41 => Some(Movement::Left),
        0x53 => Some(Movement::Backward),
        0x44 => Some(Movement::Right),
        _ => None,
    }
}

/// The x coordinate packed in the low 16 bits of a mouse message parameter.
pub open spec fn mouse_x(lparam: isize) -> int {
    lparam as int % 0x10000
}

/// The y coordinate packed in bits 16 to 31 of a mouse message parameter.
pub open spec fn mouse_y(lparam: isize) -> int {
    (lparam as int / 0x10000) % 0x10000
}

/// The (x, y) client coordinates packed in a mouse message parameter:
/// x in the low 16 bits, y in the next 16.
pub fn get_mouse_position(lparam: isize) -> (res: (isize, isize))
    ensures
        res.0 as int == mouse_x(lparam),
        res.1 as int == mouse_y(lparam),
{
    let x = lparam & 0xffff;
    let y = (lparam >> 16u32) & 0xffff;
    assert(x as int == lparam as int % 0x10000) by (bit_vector)
        requires
            x == lparam & 0xffff,
    ;
    assert(y as int == (lparam as int / 0x10000) % 0x10000) by (bit_vector)
        requires
            y == (lparam >> 16u32) & 0xffff,
    ;
    (x, y)
}

/// Decoding a mouse parameter built from coordinates `x` and `y` in
/// `0..65536` gives back `x` and `y`.
pub proof fn lemma_mouse_position_round_trip(x: int, y: int)
    requires
        0 <= x < 0x10000,
        0 <= y < 0x10000,
        y * 0x10000 + x <= isize::MAX,
    ensures
        mouse_x((y * 0x10000 + x) as isize) == x,
        mouse_y((y * 0x10000 + x) as isize) == y,
{
    let p = y * 0x10000 + x;
    assert(p / 0x10000 == y && p % 0x10000 == x) by (nonlinear_arith)
        requires
            0 <= x < 0x10000,
            0 <= y < 0x10000,
            p == y * 0x10000 + x,
    ;
}

/// Both decoded coordinates lie in `0..65536`.
pub proof fn lemma_mouse_position_range(lparam: isize)
    ensures
        0 <= mouse_x(lparam) < 0x10000,
        0 <= mouse_y(lparam) < 0x10000,
{
}

/// Exactly four keys move the camera: W (0x57) forward, A (0x41) left,
/// S (0x53) backward and D (0x44) right. Every other key does nothing.
pub proof fn lemma_only_wasd_keys_move(key: usize)
    ensures
        key == 0x57 ==> movement_for_key(key) == Some(Movement::Forward),
        key == 0x41 ==> movement_for_key(key) == Some(Movement::Left),
        key == 0x53 ==> movement_for_key(key) == Some(Movement::Backward),
        key == 0x44 ==> movement_for_key(key) == Some(Movement::Right),
        key != 0x57 && key != 0x41 && key != 0x53 && key != 0x44 ==> movement_for_key(key) is None,
{
}

/// Different keys that move the camera move it in different directions.
pub proof fn lemma_moving_keys_distinct(k1: usize, k2: usize)
    requires
        movement_for_key(k1) is Some,
        movement_for_key(k1) == movement_for_key(k2),
    ensures
        k1 == k2,
{
}

/// Decoding ignores everything above the low 32 bits, the sign included:
/// any parameter of the form `q * 2^32 + y * 2^16 + x`, with `x` and `y` in
/// `0..65536`, decodes to `(x, y)`.
pub proof fn lemma_mouse_position_ignores_high_bits(q: int, x: int, y: int)
    requires
        0 <= x < 0x10000,
        0 <= y < 0x10000,
        isize::MIN <= q * 0x100000000 + y * 0x10000 + x <= isize::MAX,
    ensures
        mouse_x((q * 0x100000000 + y * 0x10000 + x) as isize) == x,
        mouse_y((q * 0x100000000 + y * 0x10000 + x) as isize) == y,
{
    let p = q * 0x100000000 + y * 0x10000 + x;
    assert(p == (q * 0x10000 + y) * 0x10000 + x) by (nonlinear_arith)
        requires
            p == q * 0x100000000 + y * 0x10000 + x,
    ;
    assert(p % 0x10000 == x && p / 0x10000 == q * 0x10000 + y) by (nonlinear_arith)
        requires
            0 <= x < 0x10000,
            p == (q * 0x10000 + y) * 0x10000 + x,
    ;
    assert((q * 0x10000 + y) % 0x10000 == y) by (nonlinear_arith)
        requires
            0 <= y < 0x10000,
    ;
}

} // verus!
