use region_growth::buffer::{Color, PixelBuffer};
use region_growth::worker::{truncate_pos, Pos};

#[test]
fn wraparound_values() {
    assert_eq!(PixelBuffer::wrap_coord(5, 10), 4);
    assert_eq!(PixelBuffer::wrap_coord(1, 10), 0);
    assert_eq!(PixelBuffer::wrap_coord(0, 10), 8);
    assert_eq!(PixelBuffer::wrap_coord(10, 10), 0);
    assert_eq!(PixelBuffer::wrap_coord(-5, 10), 3);
    assert_eq!(PixelBuffer::wrap_coord(9, 10), 8);
}

#[test]
fn wraparound_always_in_range() {
    for d in 2u32..12 {
        for p in -50i64..50 {
            let r = PixelBuffer::wrap_coord(p, d);
            assert!(r < d - 1);
            // consistent with modular arithmetic on (p - 1) mod (d - 1)
            let m = (d - 1) as i64;
            assert_eq!(r as i64, (p - 1).rem_euclid(m));
        }
    }
}

#[test]
fn wraparound_idempotent_only_on_dimension_two() {
    for p in -20i64..20 {
        let once = PixelBuffer::wrap_coord(p, 2);
        let twice = PixelBuffer::wrap_coord(once as i64, 2);
        assert_eq!(once, twice);
    }
    // on a wider axis, re-wrapping an in-range value shifts it
    let once = PixelBuffer::wrap_coord(5, 10);
    assert_eq!(once, 4);
    assert_eq!(PixelBuffer::wrap_coord(once as i64, 10), 3);
}

#[test]
fn invalid_geometry_rejected() {
    assert!(PixelBuffer::new(0, 5, Color(0, 0, 0, 0)).is_err());
    assert!(PixelBuffer::new(5, 0, Color(0, 0, 0, 0)).is_err());
    assert!(PixelBuffer::new(0, 0, Color(0, 0, 0, 0)).is_err());
    assert!(PixelBuffer::new(1, 1, Color(0, 0, 0, 0)).is_ok());
}

#[test]
fn new_buffer_is_filled() {
    let fill = Color(128, 0, 0, 255);
    let buf = PixelBuffer::new(3, 4, fill).unwrap();
    assert_eq!(buf.width(), 3);
    assert_eq!(buf.height(), 4);
    for x in 0..3 {
        for y in 0..4 {
            assert_eq!(buf.cell_color(x, y), fill);
        }
    }
}

#[test]
fn set_and_get_color_wrap() {
    let black = Color(0, 0, 0, 255);
    let red = Color(255, 0, 0, 255);
    let mut buf = PixelBuffer::new(10, 10, black).unwrap();

    buf.set_color(5, 5, red);
    // the wraparound shifts a coordinate down by one: cell (4, 4) changed
    assert_eq!(buf.cell_color(4, 4), red);
    assert_eq!(buf.cell_color(5, 5), black);
    assert_eq!(buf.get_color(5, 5), red);

    // painting at the origin wraps to the far corner of the walkable grid
    buf.set_color(0, 0, red);
    assert_eq!(buf.cell_color(8, 8), red);

    // exactly those two cells changed
    let mut changed = 0;
    for x in 0..10 {
        for y in 0..10 {
            if buf.cell_color(x, y) != black {
                changed += 1;
            }
        }
    }
    assert_eq!(changed, 2);
}

#[test]
fn truncate_pos_both_axes() {
    let buf = PixelBuffer::new(10, 6, Color(0, 0, 0, 0)).unwrap();
    let r = truncate_pos(&buf, Pos { x: -5, y: 12 });
    assert_eq!(r.x, (-6i64).rem_euclid(9));
    assert_eq!(r.y, 11i64.rem_euclid(5));
    let r2 = truncate_pos(&buf, Pos { x: 3, y: 3 });
    assert_eq!(r2.x, 2);
    assert_eq!(r2.y, 2);
}
