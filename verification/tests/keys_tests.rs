use nhterm::keys::{get_direction_key, shift};

#[test]
fn direction_keys_cover_the_grid() {
    assert_eq!(get_direction_key((-1, -1)), 'y');
    assert_eq!(get_direction_key((0, -1)), 'k');
    assert_eq!(get_direction_key((1, -1)), 'u');
    assert_eq!(get_direction_key((-1, 0)), 'h');
    assert_eq!(get_direction_key((0, 0)), '.');
    assert_eq!(get_direction_key((1, 0)), 'l');
    assert_eq!(get_direction_key((-1, 1)), 'b');
    assert_eq!(get_direction_key((0, 1)), 'j');
    assert_eq!(get_direction_key((1, 1)), 'n');
}

#[test]
fn shift_slides_bytes_towards_the_front() {
    let mut buf = vec![1u8, 2, 3, 4, 5];
    shift(&mut buf);
    assert_eq!(buf, vec![2u8, 3, 4, 5, 5]);
}

#[test]
fn shift_on_short_buffers() {
    let mut empty: Vec<u8> = Vec::new();
    shift(&mut empty);
    assert_eq!(empty, Vec::<u8>::new());
    let mut one = vec![9u8];
    shift(&mut one);
    assert_eq!(one, vec![9u8]);
}
