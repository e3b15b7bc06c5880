use quadratic_core::grid::bounds::{BoundsRect, GridBounds};
use quadratic_core::pos::Pos;
use quadratic_core::rect::Rect;

#[test]
fn test_bounds_rect() {
    let bounds = BoundsRect {
        x: 1,
        y: 2,
        width: 3,
        height: 4,
    };
    let grid_bounds = GridBounds::NonEmpty(Rect::new(1, 2, 3, 5));
    assert_eq!(grid_bounds.to_bounds_rect(), Some(bounds));
}

#[test]
fn test_bounds_rect_empty() {
    let grid_bounds = GridBounds::Empty;
    assert_eq!(grid_bounds.to_bounds_rect(), None);
}

#[test]
fn test_bounds_rect_extend_x() {
    let mut grid_bounds = GridBounds::NonEmpty(Rect::new(1, 2, 3, 4));
    grid_bounds.extend_x(5);
    assert_eq!(grid_bounds, GridBounds::NonEmpty(Rect::new(1, 2, 5, 4)));
}

#[test]
fn test_bounds_rect_extend_y() {
    let mut grid_bounds = GridBounds::NonEmpty(Rect::new(1, 2, 3, 4));
    grid_bounds.extend_y(5);
    assert_eq!(grid_bounds, GridBounds::NonEmpty(Rect::new(1, 2, 3, 5)));
}

#[test]
fn to_rect() {
    let grid_bounds = GridBounds::NonEmpty(Rect::new(1, 2, 3, 4));
    assert_eq!(grid_bounds.to_rect(), Some(Rect::new(1, 2, 3, 4)));
    let grid_bounds = GridBounds::Empty;
    assert_eq!(grid_bounds.to_rect(), None);
}

#[test]
fn bounds_add_and_merge() {
    let mut bounds = GridBounds::default();
    assert!(bounds.is_empty());
    bounds.add(Pos { x: 3, y: -2 });
    assert_eq!(bounds, GridBounds::NonEmpty(Rect::new(3, -2, 3, -2)));
    bounds.add(Pos { x: -1, y: 4 });
    assert_eq!(bounds, GridBounds::NonEmpty(Rect::new(-1, -2, 3, 4)));
    bounds.add_rect(Rect::new(0, 0, 10, 1));
    assert_eq!(bounds, GridBounds::NonEmpty(Rect::new(-1, -2, 10, 4)));
    let other = GridBounds::NonEmpty(Rect::new(-5, 0, -4, 9));
    assert_eq!(
        GridBounds::merge(bounds, other),
        GridBounds::NonEmpty(Rect::new(-5, -2, 10, 9))
    );
    assert_eq!(GridBounds::merge(GridBounds::Empty, other), other);
    assert_eq!(GridBounds::merge(other, GridBounds::Empty), other);
    bounds.clear();
    assert_eq!(bounds, GridBounds::Empty);
    bounds.extend_x(7);
    assert_eq!(bounds, GridBounds::Empty);
    bounds.extend_y(7);
    assert_eq!(bounds, GridBounds::Empty);
}

#[test]
fn rect_geometry() {
    let rect = Rect::new(5, 6, 1, 2);
    assert_eq!(rect.min, Pos { x: 1, y: 2 });
    assert_eq!(rect.max, Pos { x: 5, y: 6 });
    assert_eq!(rect.width(), 5);
    assert_eq!(rect.height(), 5);
    assert!(rect.contains(Pos { x: 1, y: 6 }));
    assert!(!rect.contains(Pos { x: 0, y: 6 }));
    assert!(rect.intersects(Rect::new(5, 6, 9, 9)));
    assert!(!rect.intersects(Rect::new(6, 6, 9, 9)));
    assert_eq!(rect.union(&Rect::new(-1, 3, 2, 8)), Rect::new(-1, 2, 5, 8));
}
