use grid_rect::{Coord, Rect};

/// Drive a fresh walk of `rect` to exhaustion and collect every coordinate.
fn collect_coords(rect: &Rect) -> Vec<Coord> {
    let mut coords: Vec<Coord> = Vec::new();
    let mut it = rect.iter();
    while let Some(c) = it.next() {
        coords.push(c);
    }
    coords
}

#[test]
fn test_rect_iter() {
    let rect = Rect::new(Coord::new(1, 2), Coord::new(3, 4)).unwrap();
    let coords: Vec<Coord> = collect_coords(&rect);
    assert_eq!(
        coords,
        [
            Coord::new(1, 2),
            Coord::new(2, 2),
            Coord::new(3, 2),
            Coord::new(1, 3),
            Coord::new(2, 3),
            Coord::new(3, 3),
            Coord::new(1, 4),
            Coord::new(2, 4),
            Coord::new(3, 4)
        ]
    );
}

#[test]
fn test_new_keeps_corners() {
    let min = Coord::new(10, 20);
    let max = Coord::new(30, 20);
    let rect = Rect::new(min, max).unwrap();
    assert_eq!(rect.min_coord, min);
    assert_eq!(rect.max_coord, max);
}

#[test]
fn test_new_rejects_x_axis() {
    assert!(Rect::new(Coord::new(4, 0), Coord::new(3, 9)).is_none());
}

#[test]
fn test_new_rejects_y_axis() {
    assert!(Rect::new(Coord::new(0, 5), Coord::new(9, 4)).is_none());
}

#[test]
fn test_new_rejects_both_axes() {
    assert!(Rect::new(Coord::new(7, 7), Coord::new(1, 1)).is_none());
}

#[test]
fn test_single_cell() {
    let rect = Rect::new(Coord::new(1, 2), Coord::new(1, 2)).unwrap();
    let coords = collect_coords(&rect);
    assert_eq!(coords, [Coord::new(1, 2)]);
}

#[test]
fn test_count() {
    let rect = Rect::new(Coord::new(2, 3), Coord::new(6, 5)).unwrap();
    assert_eq!(collect_coords(&rect).len(), 15);
}

#[test]
fn test_first_and_last() {
    let rect = Rect::new(Coord::new(4, 1), Coord::new(9, 8)).unwrap();
    let coords = collect_coords(&rect);
    assert_eq!(*coords.first().unwrap(), Coord::new(4, 1));
    assert_eq!(*coords.last().unwrap(), Coord::new(9, 8));
}

#[test]
fn test_row_major_steps() {
    let rect = Rect::new(Coord::new(5, 5), Coord::new(8, 7)).unwrap();
    let coords = collect_coords(&rect);
    for pair in coords.windows(2) {
        if pair[0].x < 8 {
            assert_eq!(pair[1], Coord::new(pair[0].x + 1, pair[0].y));
        } else {
            assert_eq!(pair[1], Coord::new(5, pair[0].y + 1));
        }
    }
}

#[test]
fn test_single_row() {
    let rect = Rect::new(Coord::new(3, 9), Coord::new(6, 9)).unwrap();
    let coords = collect_coords(&rect);
    assert_eq!(
        coords,
        [
            Coord::new(3, 9),
            Coord::new(4, 9),
            Coord::new(5, 9),
            Coord::new(6, 9)
        ]
    );
}

#[test]
fn test_single_column() {
    let rect = Rect::new(Coord::new(9, 3), Coord::new(9, 5)).unwrap();
    let coords = collect_coords(&rect);
    assert_eq!(
        coords,
        [Coord::new(9, 3), Coord::new(9, 4), Coord::new(9, 5)]
    );
}

#[test]
fn test_iter_twice_identical() {
    let rect = Rect::new(Coord::new(0, 0), Coord::new(4, 4)).unwrap();
    let first = collect_coords(&rect);
    let second = collect_coords(&rect);
    assert_eq!(first, second);
    assert_eq!(first.len(), 25);
}

#[test]
fn test_exhausted_stays_exhausted() {
    let rect = Rect::new(Coord::new(0, 0), Coord::new(1, 0)).unwrap();
    let mut it = rect.iter();
    assert_eq!(it.next(), Some(Coord::new(0, 0)));
    assert_eq!(it.next(), Some(Coord::new(1, 0)));
    assert_eq!(it.next(), None);
    assert_eq!(it.next(), None);
    assert_eq!(it.next(), None);
}

#[test]
fn test_corners_at_numeric_maximum() {
    let top = u64::MAX;
    let rect = Rect::new(Coord::new(top - 1, top - 1), Coord::new(top, top)).unwrap();
    let coords = collect_coords(&rect);
    assert_eq!(
        coords,
        [
            Coord::new(top - 1, top - 1),
            Coord::new(top, top - 1),
            Coord::new(top - 1, top),
            Coord::new(top, top)
        ]
    );
    let cell = Rect::new(Coord::new(top, top), Coord::new(top, top)).unwrap();
    assert_eq!(collect_coords(&cell), [Coord::new(top, top)]);
}
