use scene_graph::geometry::Point;
use scene_graph::geometry::Rect;
use scene_graph::geometry::Size;
use scene_graph::geometry::Thickness;
use scene_graph::tree::Element;
use scene_graph::tree::StubElement;
use scene_graph::tree::TestBorder;
use scene_graph::tree::TestElement;
use scene_graph::tree::TestList;
use scene_graph::tree::TestListItem;
use scene_graph::tree::Tree;

#[test]
fn margin_layout_example() {
    // a border with 4 horizontal / 8 vertical margins wrapping a leaf with
    // a uniform margin of 6, laid out in a 200 by 100 container
    let mut tree = Tree::new();
    tree.set_root(Some(Element::Border(TestBorder::new(Thickness::hv(4, 8)))));
    let root = tree.root().unwrap();
    let child = TestBorder::set_content(
        &mut tree,
        root,
        Element::Test(TestElement { margin: Thickness::hv(6, 6) }),
    );

    tree.layout(root, Size::new(200, 100));

    // the border's own rectangle spans (4,8)-(196,92)
    let root_rect = tree.rect(root);
    assert_eq!(root_rect.left(), 4);
    assert_eq!(root_rect.top(), 8);
    assert_eq!(root_rect.right(), 196);
    assert_eq!(root_rect.bottom(), 92);

    // the child's rectangle, taken to global space, spans (10,14)-(190,86)
    let child_global = root_rect.transform_to_outer(tree.rect(child));
    assert_eq!(child_global.left(), 10);
    assert_eq!(child_global.top(), 14);
    assert_eq!(child_global.right(), 190);
    assert_eq!(child_global.bottom(), 86);
}

#[test]
fn leaf_layout_insets_the_container() {
    let mut tree = Tree::new();
    tree.set_root(Some(Element::Test(TestElement { margin: Thickness::hv(6, 6) })));
    let root = tree.root().unwrap();

    tree.layout(root, Size::new(200, 100));

    assert_eq!(tree.rect(root), Rect::pos_size(Point::new(6, 6), Size::new(188, 88)));
}

#[test]
fn measure_of_leaf_and_containers() {
    let mut tree = Tree::new();
    tree.set_root(Some(Element::Test(TestElement { margin: Thickness::hv(6, 6) })));
    let root = tree.root().unwrap();
    assert_eq!(tree.measure(root), Size::new(10, 70));

    let mut tree2 = Tree::new();
    tree2.set_root(Some(Element::Border(TestBorder::new(Thickness::hv(4, 8)))));
    assert_eq!(tree2.measure(tree2.root().unwrap()), Size::new(0, 0));

    let mut tree3 = Tree::new();
    tree3.set_root(Some(Element::Stub(StubElement)));
    assert_eq!(tree3.measure(tree3.root().unwrap()), Size::new(0, 0));
}

#[test]
fn list_item_measure_forwards_its_child() {
    let mut tree = Tree::new();
    tree.set_root(Some(Element::List(TestList::new())));
    let root = tree.root().unwrap();
    TestList::add_item(&mut tree, root, Element::Test(TestElement {
        margin: Thickness::hv(6, 6),
    }));

    let item = tree.children(root)[0];
    assert_eq!(tree.measure(item), Size::new(10, 70));
    // the list itself sizes to its container and so asks for nothing
    assert_eq!(tree.measure(root), Size::new(0, 0));
}

#[test]
fn list_stacks_rows_top_to_bottom() {
    // a border around a list of two leaf rows, as the demo program builds
    let mut tree = Tree::new();
    tree.set_root(Some(Element::Border(TestBorder::new(Thickness::hv(4, 8)))));
    let root = tree.root().unwrap();
    let list = TestBorder::set_content(&mut tree, root, Element::List(TestList::new()));
    let leaf0 = TestList::add_item(&mut tree, list, Element::Test(TestElement {
        margin: Thickness::hv(6, 6),
    }));
    let leaf1 = TestList::add_item(&mut tree, list, Element::Test(TestElement {
        margin: Thickness::hv(6, 6),
    }));

    tree.layout(root, Size::new(600, 400));

    // border: inset of (600,400) by (4,8); list fills the border's inside
    assert_eq!(tree.rect(root), Rect::pos_size(Point::new(4, 8), Size::new(592, 384)));
    assert_eq!(tree.rect(list), Rect::pos_size(Point::new(0, 0), Size::new(592, 384)));

    // rows: each 70 tall (the leaf's measured height), stacked at 0 and 70
    let item0 = tree.children(list)[0];
    let item1 = tree.children(list)[1];
    assert_eq!(tree.cast_element::<TestListItem>(item0).unwrap().vertical_offset, 0);
    assert_eq!(tree.cast_element::<TestListItem>(item1).unwrap().vertical_offset, 70);
    assert_eq!(tree.rect(item0), Rect::pos_size(Point::new(0, 0), Size::new(592, 70)));
    assert_eq!(tree.rect(item1), Rect::pos_size(Point::new(0, 70), Size::new(592, 70)));

    // the leaves inset each row by their margin of 6
    assert_eq!(tree.rect(leaf0), Rect::pos_size(Point::new(6, 6), Size::new(580, 58)));
    assert_eq!(tree.rect(leaf1), Rect::pos_size(Point::new(6, 6), Size::new(580, 58)));
}

#[test]
fn stale_list_rows_are_skipped() {
    let mut tree = Tree::new();
    tree.set_root(Some(Element::List(TestList::new())));
    let root = tree.root().unwrap();
    TestList::add_item(&mut tree, root, Element::Test(TestElement {
        margin: Thickness::hv(6, 6),
    }));

    // a list whose rows are gone lays out nothing but itself
    let mut fresh = Tree::new();
    fresh.set_root(Some(Element::List(TestList::new())));
    let fresh_root = fresh.root().unwrap();
    fresh.layout(fresh_root, Size::new(100, 100));
    assert_eq!(fresh.rect(fresh_root), Rect::from_size(Size::new(100, 100)));
}

#[test]
fn relayout_overwrites_rectangles() {
    let mut tree = Tree::new();
    tree.set_root(Some(Element::Test(TestElement { margin: Thickness::hv(0, 0) })));
    let root = tree.root().unwrap();

    tree.layout(root, Size::new(200, 100));
    assert_eq!(tree.rect(root), Rect::from_size(Size::new(200, 100)));

    // a resize runs a fresh full pass; the old rectangle is replaced
    tree.layout(root, Size::new(50, 60));
    assert_eq!(tree.rect(root), Rect::from_size(Size::new(50, 60)));
}
