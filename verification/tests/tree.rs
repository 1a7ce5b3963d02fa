use scene_graph::geometry::Thickness;
use scene_graph::tree::Element;
use scene_graph::tree::NodeWeakRef;
use scene_graph::tree::StubElement;
use scene_graph::tree::TestBorder;
use scene_graph::tree::TestElement;
use scene_graph::tree::TestList;
use scene_graph::tree::TestListItem;
use scene_graph::tree::Tree;

#[test]
fn new_tree_has_empty_root() {
    let tree = Tree::new();
    assert!(tree.root() == None);
}

#[test]
fn tree_set_root_sets_root() {
    let mut tree = Tree::new();
    tree.set_root(Some(Element::Stub(StubElement)));

    let root = tree.root();

    assert!(root.is_some());

    let root = root.unwrap();

    assert!(tree.cast_element::<StubElement>(root).is_some());
}

#[test]
fn tree_root_has_no_parrent() {
    let mut tree = Tree::new();
    tree.set_root(Some(Element::Stub(StubElement)));

    let root = tree.root().unwrap();

    assert!(tree.parrent(root) == None);
}

#[test]
fn add_child_adds_child() {
    let mut tree = Tree::new();
    tree.set_root(Some(Element::Stub(StubElement)));
    let root = tree.root().unwrap();

    assert_eq!(tree.children(root).len(), 0);

    tree.add_child(root, Element::Stub(StubElement));

    assert_eq!(tree.children(root).len(), 1);
    {
        let child0 = tree.children(root)[0].clone();
        assert!(tree.cast_element::<StubElement>(child0).is_some());
    }

    tree.add_child(root, Element::Stub(StubElement));

    assert_eq!(tree.children(root).len(), 2);
    {
        let child0 = tree.children(root)[0].clone();
        let child1 = tree.children(root)[1].clone();
        assert!(tree.cast_element::<StubElement>(child0).is_some());
        assert!(tree.cast_element::<StubElement>(child1).is_some());
    }
}

#[test]
fn children_appear_in_call_order() {
    let mut tree = Tree::new();
    tree.set_root(Some(Element::Stub(StubElement)));
    let root = tree.root().unwrap();

    let a = tree.add_child(root, Element::Stub(StubElement));
    let b = tree.add_child(root, Element::Stub(StubElement));
    let c = tree.add_child(root, Element::Stub(StubElement));

    assert_eq!(tree.children(root).len(), 3);
    assert!(tree.children(root)[0] == a);
    assert!(tree.children(root)[1] == b);
    assert!(tree.children(root)[2] == c);
}

#[test]
fn handles_identify_nodes() {
    let mut tree = Tree::new();
    tree.set_root(Some(Element::Stub(StubElement)));
    let root = tree.root().unwrap();

    let a = tree.add_child(root, Element::Stub(StubElement));
    let b = tree.add_child(root, Element::Stub(StubElement));

    // handles to distinct nodes are never equal
    assert!(a != b);
    assert!(a != root);

    // handles derived from the same node are equal
    let a_again = a.clone();
    assert!(a_again == a);
    assert!(tree.children(root)[0] == a);
    assert!(tree.parrent(a).unwrap() == root);
    assert!(tree.root().unwrap() == root);
}

#[test]
fn weak_upgrade_while_alive() {
    let mut tree = Tree::new();
    tree.set_root(Some(Element::Stub(StubElement)));
    let root = tree.root().unwrap();
    let child = tree.add_child(root, Element::Stub(StubElement));

    let weak = child.downgrade();
    assert!(weak.upgrade(&tree) == Some(child));

    let weak_root = root.downgrade();
    assert!(weak_root.upgrade(&tree) == Some(root));
}

#[test]
fn weak_upgrade_after_teardown() {
    let mut tree = Tree::new();
    tree.set_root(Some(Element::Stub(StubElement)));
    let root = tree.root().unwrap();
    let child = tree.add_child(root, Element::Stub(StubElement));
    let grandchild = tree.add_child(child, Element::Stub(StubElement));

    let weak_root = root.downgrade();
    let weak_child = child.downgrade();
    let weak_grandchild = grandchild.downgrade();

    // replacing the root destroys the whole previous subtree
    tree.set_root(Some(Element::Stub(StubElement)));

    assert!(weak_root.upgrade(&tree).is_none());
    assert!(weak_child.upgrade(&tree).is_none());
    assert!(weak_grandchild.upgrade(&tree).is_none());

    // the new root is alive and upgradable
    let new_root = tree.root().unwrap();
    assert!(new_root != root);
    assert!(new_root.downgrade().upgrade(&tree) == Some(new_root));
}

#[test]
fn empty_weak_never_upgrades() {
    let mut tree = Tree::new();
    tree.set_root(Some(Element::Stub(StubElement)));
    assert!(NodeWeakRef::empty().upgrade(&tree).is_none());
}

#[test]
fn set_root_none_clears_tree() {
    let mut tree = Tree::new();
    tree.set_root(Some(Element::Stub(StubElement)));
    let root = tree.root().unwrap();
    let weak = root.downgrade();

    let r = tree.set_root(None);

    assert!(r.is_none());
    assert!(tree.root().is_none());
    assert!(weak.upgrade(&tree).is_none());
}

#[test]
fn downcast_reaches_exact_type_only() {
    let e = Element::Border(TestBorder::new(Thickness::hv(1, 2)));

    assert!(e.can_cast::<TestBorder>());
    assert!(!e.can_cast::<TestElement>());
    assert!(!e.can_cast::<TestList>());
    assert!(!e.can_cast::<TestListItem>());
    assert!(!e.can_cast::<StubElement>());

    assert!(e.cast_element_ref::<TestBorder>().is_some());
    assert!(e.cast_element_ref::<TestList>().is_none());
    assert_eq!(e.cast_element_ref::<TestBorder>().unwrap().margin, Thickness::hv(1, 2));
}

#[test]
fn downcast_mut_edits_the_element() {
    let mut e = Element::Test(TestElement { margin: Thickness::hv(1, 1) });

    assert!(e.cast_element_mut::<TestBorder>().is_none());

    let t = e.cast_element_mut::<TestElement>().unwrap();
    t.margin = Thickness::hv(9, 9);

    assert_eq!(e.cast_element_ref::<TestElement>().unwrap().margin, Thickness::hv(9, 9));
}

#[test]
fn tree_cast_element_mut_edits_in_place() {
    let mut tree = Tree::new();
    tree.set_root(Some(Element::Test(TestElement { margin: Thickness::hv(1, 1) })));
    let root = tree.root().unwrap();

    assert!(tree.cast_element_mut::<TestBorder>(root).is_none());

    tree.cast_element_mut::<TestElement>(root).unwrap().margin = Thickness::hv(3, 3);
    assert_eq!(tree.cast_element::<TestElement>(root).unwrap().margin, Thickness::hv(3, 3));

    match tree.element_mut(root) {
        Element::Test(t) => t.margin = Thickness::hv(5, 5),
        _ => panic!("unexpected element"),
    }
    assert_eq!(tree.cast_element::<TestElement>(root).unwrap().margin, Thickness::hv(5, 5));
}

#[test]
fn border_set_content_links_child() {
    let mut tree = Tree::new();
    tree.set_root(Some(Element::Border(TestBorder::new(Thickness::hv(4, 8)))));
    let root = tree.root().unwrap();

    let content = TestBorder::set_content(
        &mut tree,
        root,
        Element::Test(TestElement { margin: Thickness::hv(6, 6) }),
    );

    assert_eq!(tree.children(root).len(), 1);
    assert!(tree.children(root)[0] == content);
    assert!(tree.parrent(content).unwrap() == root);

    // the border remembers its content as a weak reference
    let border = tree.cast_element::<TestBorder>(root).unwrap();
    let remembered = border.content.unwrap();
    assert!(remembered.upgrade(&tree) == Some(content));
}

#[test]
fn list_add_item_creates_row() {
    let mut tree = Tree::new();
    tree.set_root(Some(Element::List(TestList::new())));
    let root = tree.root().unwrap();

    let inner = TestList::add_item(
        &mut tree,
        root,
        Element::Test(TestElement { margin: Thickness::hv(6, 6) }),
    );

    // one row under the list, holding the element as its single child
    assert_eq!(tree.children(root).len(), 1);
    let item = tree.children(root)[0];
    assert!(tree.cast_element::<TestListItem>(item).is_some());
    assert_eq!(tree.children(item).len(), 1);
    assert!(tree.children(item)[0] == inner);
    assert!(tree.parrent(inner).unwrap() == item);

    // and the list remembers the row
    let list = tree.cast_element::<TestList>(root).unwrap();
    assert_eq!(list.child_items.len(), 1);
    assert!(list.child_items[0].upgrade(&tree) == Some(item));
}
