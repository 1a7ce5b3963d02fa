use scene_graph::geometry::Color;
use scene_graph::geometry::Point;
use scene_graph::geometry::Rect;
use scene_graph::geometry::Size;
use scene_graph::geometry::Thickness;

#[test]
fn from_bounds_round_trips() {
    // arbitrary valid bounds (right > left, bottom > top) come back exactly
    let cases: Vec<(i64, i64, i64, i64)> = vec![
        (196, 8, 4, 92),
        (1, -5, 0, 7),
        (1_000_000, -1_000_000, -999_999, 1_000_000),
        (50, 10, 10, 50),
    ];
    for (right, top, left, bottom) in cases {
        let r = Rect::from_bounds(right, top, left, bottom);
        assert_eq!(r.right(), right);
        assert_eq!(r.top(), top);
        assert_eq!(r.left(), left);
        assert_eq!(r.bottom(), bottom);
    }
}

#[test]
fn from_bounds_fields() {
    let r = Rect::from_bounds(196, 8, 4, 92);
    assert_eq!(r.pos, Point::new(4, 8));
    assert_eq!(r.size, Size::new(192, 84));
}

#[test]
fn inset_shrinks_each_edge() {
    let r = Rect::from_size(Size::new(200, 100)).inset(Thickness::hv(4, 8));
    assert_eq!(r, Rect::pos_size(Point::new(4, 8), Size::new(192, 84)));

    let asym = Rect::from_size(Size::new(100, 100)).inset(Thickness::new(1, 2, 3, 4));
    assert_eq!(asym.left(), 3);
    assert_eq!(asym.top(), 2);
    assert_eq!(asym.right(), 99);
    assert_eq!(asym.bottom(), 96);
}

#[test]
fn expand_undoes_inset() {
    let m = Thickness::new(1, 2, 3, 4);
    let r = Rect::pos_size(Point::new(10, 20), Size::new(30, 40));
    assert_eq!(r.inset(m).expand(m), r);
}

#[test]
fn transforms_are_inverse_translations() {
    let outer = Rect::pos_size(Point::new(100, 100), Size::new(300, 300));
    let local = Rect::pos_size(Point::new(10, 10), Size::new(50, 50));

    let global = outer.transform_to_outer(local);
    assert_eq!(global, Rect::pos_size(Point::new(110, 110), Size::new(50, 50)));
    assert_eq!(outer.transform_to_inner(global), local);
}

#[test]
fn rect_in_takes_margins_from_container() {
    let r = Thickness::new(5, 6, 7, 8).rect_in(Size::new(100, 50));
    assert_eq!(r.left(), 7);
    assert_eq!(r.top(), 6);
    assert_eq!(r.right(), 95);
    assert_eq!(r.bottom(), 42);
}

#[test]
fn value_type_conversions() {
    assert_eq!(Point::from_tuple((3, 4)).to_tuple(), (3, 4));
    assert_eq!(Point::zero().to_tuple(), (0, 0));
    assert_eq!(Point::new(1, 2).add(Point::new(10, 20)).to_tuple(), (11, 22));
    assert_eq!(Point::new(11, 22).sub(Point::new(10, 20)).to_tuple(), (1, 2));

    assert_eq!(Size::from_tuple((5, 6)).to_tuple(), (5, 6));
    assert_eq!(Size::zero().to_tuple(), (0, 0));

    let c = Color::argb(255, 10, 20, 30);
    assert_eq!(c.to_tuple_argb(), (255, 10, 20, 30));
    assert_eq!(c.to_tuple_rgb(), (10, 20, 30));

    let r = Rect::pos_size(Point::new(1, 2), Size::new(3, 4));
    assert_eq!(r.to_pos_size_tuple(), ((1, 2), (3, 4)));
    assert_eq!(Rect::zero().to_pos_size_tuple(), ((0, 0), (0, 0)));
}

#[test]
fn thickness_hv_mirrors_margins() {
    let t = Thickness::hv(4, 8);
    assert_eq!(t, Thickness::new(4, 8, 4, 8));
}
