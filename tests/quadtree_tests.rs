use quadtree::{Point, QuadTree, Quadrant, Rectangle, DEFAULT_CAPACITY};

const ALL: [Quadrant; 4] = [
    Quadrant::NorthEast,
    Quadrant::NorthWest,
    Quadrant::SouthWest,
    Quadrant::SouthEast,
];

fn create_qt() -> QuadTree {
    QuadTree::new(Rectangle::new(0, 0, 100, 100), Some(4))
}

fn child_points(t: &QuadTree, q: Quadrant) -> Vec<Point> {
    t.child(q).expect("divided node has every child").get_points().clone()
}

#[test]
fn test_qt() {
    let mut qt = create_qt();
    for i in 1..6 {
        qt.insert(Point { x: i, y: i });
    }
    assert_eq!(qt.is_divided(), true);
}

#[test]
fn contains_interior_point() {
    let r = Rectangle::new(0, 0, 10, 20);
    assert!(r.contains(Point::new(1, 1)));
    assert!(r.contains(Point::new(9, 19)));
    assert!(r.contains(Point::new(5, 10)));
}

#[test]
fn contains_excludes_edges() {
    let r = Rectangle::new(0, 0, 10, 20);
    assert!(!r.contains(Point::new(0, 5)));
    assert!(!r.contains(Point::new(10, 5)));
    assert!(!r.contains(Point::new(5, 0)));
    assert!(!r.contains(Point::new(5, 20)));
    assert!(!r.contains(Point::new(0, 0)));
    assert!(!r.contains(Point::new(10, 20)));
    assert!(!r.contains(Point::new(11, 5)));
    assert!(!r.contains(Point::new(-1, 5)));
}

#[test]
fn contains_near_integer_limits() {
    let r = Rectangle::new(i64::MAX - 10, i64::MIN, 10, 10);
    assert!(r.contains(Point::new(i64::MAX - 1, i64::MIN + 1)));
    assert!(!r.contains(Point::new(i64::MAX, i64::MIN + 1)));
    assert!(!r.contains(Point::new(i64::MAX - 1, i64::MIN)));
}

#[test]
fn intersects_overlapping_and_disjoint() {
    let a = Rectangle::new(0, 0, 10, 10);
    assert!(a.intersects(Rectangle::new(5, 5, 10, 10)));
    assert!(a.intersects(Rectangle::new(2, 2, 3, 3)));
    assert!(a.intersects(Rectangle::new(10, 0, 5, 5)));
    assert!(!a.intersects(Rectangle::new(11, 0, 5, 5)));
    assert!(!a.intersects(Rectangle::new(0, 20, 5, 5)));
    assert!(!a.intersects(Rectangle::new(-20, -20, 5, 5)));
}

#[test]
fn quadrants_of_even_rectangle() {
    let r = Rectangle::new(0, 0, 100, 100);
    assert_eq!(r.quadrant(Quadrant::NorthEast), Rectangle::new(50, 0, 50, 50));
    assert_eq!(r.quadrant(Quadrant::NorthWest), Rectangle::new(0, 0, 50, 50));
    assert_eq!(r.quadrant(Quadrant::SouthWest), Rectangle::new(0, 50, 50, 50));
    assert_eq!(r.quadrant(Quadrant::SouthEast), Rectangle::new(50, 50, 50, 50));
}

#[test]
fn quadrants_of_odd_rectangle_tile_it() {
    let r = Rectangle::new(-3, 4, 7, 5);
    let mut area = 0;
    for q in ALL {
        let c = r.quadrant(q);
        area += c.w * c.h;
    }
    assert_eq!(area, 35);
    assert_eq!(r.quadrant(Quadrant::NorthEast), Rectangle::new(0, 4, 4, 2));
    assert_eq!(r.quadrant(Quadrant::SouthWest), Rectangle::new(-3, 6, 3, 3));
}

#[test]
fn quadrant_of_picks_the_enclosing_quadrant() {
    let r = Rectangle::new(0, 0, 100, 100);
    assert_eq!(r.quadrant_of(Point::new(5, 5)), Some(Quadrant::NorthWest));
    assert_eq!(r.quadrant_of(Point::new(75, 5)), Some(Quadrant::NorthEast));
    assert_eq!(r.quadrant_of(Point::new(5, 75)), Some(Quadrant::SouthWest));
    assert_eq!(r.quadrant_of(Point::new(75, 75)), Some(Quadrant::SouthEast));
    assert_eq!(r.quadrant_of(Point::new(50, 5)), None);
    assert_eq!(r.quadrant_of(Point::new(200, 5)), None);
}

#[test]
fn new_uses_default_capacity() {
    let t = QuadTree::new(Rectangle::new(0, 0, 10, 10), None);
    assert_eq!(t.capacity(), DEFAULT_CAPACITY);
    assert_eq!(t.capacity(), 4);
    assert_eq!(t.boundary(), Rectangle::new(0, 0, 10, 10));
    assert!(!t.is_divided());
    assert!(t.get_points().is_empty());
    assert!(t.child(Quadrant::NorthEast).is_none());
}

#[test]
fn filling_to_capacity_keeps_points_then_divides() {
    let mut t = QuadTree::new(Rectangle::new(0, 0, 100, 100), Some(3));
    let pts = [Point::new(10, 10), Point::new(20, 80), Point::new(90, 30)];
    for p in pts {
        t.insert(p);
    }
    assert!(!t.is_divided());
    assert_eq!(t.get_points().as_slice(), &pts);
    t.insert(Point::new(60, 60));
    assert!(t.is_divided());
    assert_eq!(t.get_points().as_slice(), &pts);
    assert_eq!(child_points(&t, Quadrant::SouthEast), vec![Point::new(60, 60)]);
}

#[test]
fn subdivide_makes_four_empty_children() {
    let mut t = QuadTree::new(Rectangle::new(0, 0, 100, 60), Some(2));
    t.subdivide();
    assert!(t.is_divided());
    let expected = [
        Rectangle::new(50, 0, 50, 30),
        Rectangle::new(0, 0, 50, 30),
        Rectangle::new(0, 30, 50, 30),
        Rectangle::new(50, 30, 50, 30),
    ];
    for (q, r) in ALL.into_iter().zip(expected) {
        let c = t.child(q).unwrap();
        assert_eq!(c.boundary(), r);
        assert_eq!(c.capacity(), 2);
        assert!(!c.is_divided());
        assert!(c.get_points().is_empty());
    }
}

#[test]
fn subdivide_twice_keeps_stored_points() {
    let mut t = create_qt();
    for i in 1..6 {
        t.insert(Point::new(i, i));
    }
    assert_eq!(child_points(&t, Quadrant::NorthWest), vec![Point::new(5, 5)]);
    t.subdivide();
    t.insert(Point::new(6, 6));
    assert_eq!(
        child_points(&t, Quadrant::NorthWest),
        vec![Point::new(5, 5), Point::new(6, 6)]
    );
}

#[test]
fn outside_point_changes_nothing() {
    let mut t = create_qt();
    for i in 1..6 {
        t.insert(Point::new(i, i));
    }
    t.insert(Point::new(-1, -1));
    t.insert(Point::new(100, 50));
    t.insert(Point::new(0, 50));
    assert!(t.is_divided());
    assert_eq!(t.get_points().len(), 4);
    for q in ALL {
        let n = child_points(&t, q).len();
        assert_eq!(n, if q == Quadrant::NorthWest { 1 } else { 0 });
    }
}

#[test]
fn fifth_point_lands_in_exactly_one_child() {
    let mut t = create_qt();
    for i in 1..6 {
        t.insert(Point::new(i, i));
    }
    assert!(t.is_divided());
    let holders: Vec<Quadrant> = ALL
        .into_iter()
        .filter(|q| child_points(&t, *q).contains(&Point::new(5, 5)))
        .collect();
    assert_eq!(holders, vec![Quadrant::NorthWest]);
    let first_four: Vec<Point> = (1..5).map(|i| Point::new(i, i)).collect();
    assert_eq!(t.get_points(), &first_four);
}

#[test]
fn outside_point_into_fresh_root_is_ignored() {
    let mut t = create_qt();
    t.insert(Point::new(-1, -1));
    assert!(!t.is_divided());
    assert_eq!(t.get_points().len(), 0);
}

#[test]
fn point_on_split_line_is_dropped() {
    let mut t = QuadTree::new(Rectangle::new(0, 0, 100, 100), Some(1));
    t.insert(Point::new(10, 10));
    t.insert(Point::new(50, 20));
    assert!(t.is_divided());
    for q in ALL {
        assert!(child_points(&t, q).is_empty());
    }
}

#[test]
fn deep_insert_divides_children() {
    let mut t = QuadTree::new(Rectangle::new(0, 0, 100, 100), Some(1));
    t.insert(Point::new(10, 10));
    t.insert(Point::new(20, 20));
    t.insert(Point::new(30, 30));
    let nw = t.child(Quadrant::NorthWest).unwrap();
    assert_eq!(nw.get_points(), &vec![Point::new(20, 20)]);
    assert!(nw.is_divided());
    let nw_se = nw.child(Quadrant::SouthEast).unwrap();
    assert_eq!(nw_se.boundary(), Rectangle::new(25, 25, 25, 25));
    assert_eq!(nw_se.get_points(), &vec![Point::new(30, 30)]);
}

#[test]
fn zero_capacity_stores_nothing() {
    let mut t = QuadTree::new(Rectangle::new(0, 0, 64, 64), Some(0));
    t.insert(Point::new(7, 9));
    assert!(t.is_divided());
    assert!(t.get_points().is_empty());
    for q in ALL {
        assert!(child_points(&t, q).is_empty());
    }
}
