//! Keyboard helpers for driving the remote application: mapping a unit
//! direction vector to a movement key, and shifting a sliding read buffer.

use vstd::prelude::*;

verus! {

/// The movement key for a unit direction vector, spelled out as a table:
/// columns are `x` in `-1, 0, 1`, rows are `y` in `-1, 0, 1`.
pub open spec fn direction_key_spec(x: int, y: int) -> char {
    if y == -1 {
        if x == -1 {
            'y'
        } else if x == 0 {
            'k'
        } else {
            'u'
        }
    } else if y == 0 {
        if x == -1 {
            'h'
        } else if x == 0 {
            '.'
        } else {
            'l'
        }
    } else {
        if x == -1 {
            'b'
        } else if x == 0 {
            'j'
        } else {
            'n'
        }
    }
}

/// Maps a unit direction vector `(x, y)` to the key that moves one step
/// in that direction, `.` for the zero vector.
pub fn get_direction_key(unit_vec: (i8, i8)) -> (r: char)
    requires
        -1 <= unit_vec.0 <= 1,
        -1 <= unit_vec.1 <= 1,
    ensures
        r == direction_key_spec(unit_vec.0 as int, unit_vec.1 as int),
{
    let key: char = if unit_vec.1 == -1 {
        if unit_vec.0 == -1 {
            'y'
        } else if unit_vec.0 == 0 {
            'k'
        } else {
            'u'
        }
    } else if unit_vec.1 == 0 {
        if unit_vec.0 == -1 {
            'h'
        } else if unit_vec.0 == 0 {
            '.'
        } else {
            'l'
        }
    } else {
        if unit_vec.0 == -1 {
            'b'
        } else if unit_vec.0 == 0 {
            'j'
        } else {
            'n'
        }
    };
    key
}

/// Moves every byte of the buffer one position towards the front; the
/// last byte keeps its old value.  Used to slide a fixed read window.
pub fn shift(buf: &mut Vec<u8>)
    ensures
        final(buf)@.len() == old(buf)@.len(),
        forall|i: int| 1 <= i < old(buf)@.len() ==> final(buf)@[i - 1] == old(buf)@[i],
        old(buf)@.len() > 0 ==> final(buf)@.last() == old(buf)@.last(),
{
    let n = buf.len();
    let mut i: usize = 1;
    while i < n
        invariant
            1 <= i,
            n == buf@.len(),
            n == old(buf)@.len(),
            forall|j: int| 1 <= j < i ==> buf@[j - 1] == old(buf)@[j],
            forall|j: int| i <= j < n ==> buf@[j] == old(buf)@[j],
            n > 0 ==> buf@.last() == old(buf)@.last(),
        decreases n - i,
    {
        let b = buf[i];
        buf.set(i - 1, b);
        i = i + 1;
    }
}

} // verus!
