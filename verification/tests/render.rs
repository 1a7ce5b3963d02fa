use scene_graph::commands::RenderCommand;
use scene_graph::commands::RenderCommandList;
use scene_graph::geometry::Color;
use scene_graph::geometry::Point;
use scene_graph::geometry::Rect;
use scene_graph::geometry::Size;
use scene_graph::geometry::Thickness;
use scene_graph::render::Renderer;
use scene_graph::tree::Element;
use scene_graph::tree::StubElement;
use scene_graph::tree::TestBorder;
use scene_graph::tree::TestElement;
use scene_graph::tree::Tree;

fn red() -> Color {
    Color::argb(255, 255, 0, 0)
}

fn green() -> Color {
    Color::argb(255, 0, 255, 0)
}

#[test]
fn parent_commands_precede_child_commands() {
    // a parent that clears red with one child that clears green must draw
    // the red clear at the parent's viewport before the green one at the
    // child's viewport
    let mut tree = Tree::new();
    tree.set_root(Some(Element::Test(TestElement { margin: Thickness::hv(0, 0) })));
    let root = tree.root().unwrap();
    let child = tree.add_child(root, Element::Border(TestBorder::new(Thickness::hv(0, 0))));

    tree.set_rect(root, Rect::pos_size(Point::new(0, 0), Size::new(200, 100)));
    tree.set_rect(child, Rect::pos_size(Point::new(20, 30), Size::new(50, 40)));

    let surface = Size::new(200, 100);
    let mut renderer = Renderer::new(surface, Rect::from_size(surface));
    tree.render(root, &mut renderer);

    let ops = renderer.into_ops();
    assert_eq!(ops.len(), 2);
    assert_eq!(ops[0].color, red());
    assert_eq!(ops[0].rect, Rect::pos_size(Point::new(0, 0), Size::new(200, 100)));
    assert_eq!(ops[1].color, green());
    assert_eq!(ops[1].rect, Rect::pos_size(Point::new(20, 30), Size::new(50, 40)));
}

#[test]
fn viewport_transform_example() {
    // a child at local (10,10,50,50) inside a parent whose pushed viewport
    // is at global (100,100,300,300) draws at global (110,110,50,50)
    let mut tree = Tree::new();
    tree.set_root(Some(Element::Stub(StubElement)));
    let root = tree.root().unwrap();
    let child = tree.add_child(root, Element::Border(TestBorder::new(Thickness::hv(0, 0))));

    tree.set_rect(root, Rect::pos_size(Point::new(100, 100), Size::new(300, 300)));
    tree.set_rect(child, Rect::pos_size(Point::new(10, 10), Size::new(50, 50)));

    let surface = Size::new(800, 600);
    let mut renderer = Renderer::new(surface, Rect::from_size(surface));
    tree.render(root, &mut renderer);

    let ops = renderer.into_ops();
    // the stub root draws nothing; the child's clear is the only call
    assert_eq!(ops.len(), 1);
    assert_eq!(ops[0].rect, Rect::pos_size(Point::new(110, 110), Size::new(50, 50)));
    assert_eq!(ops[0].color, green());
}

#[test]
fn siblings_draw_in_child_order() {
    let mut tree = Tree::new();
    tree.set_root(Some(Element::Stub(StubElement)));
    let root = tree.root().unwrap();
    let first = tree.add_child(root, Element::Test(TestElement { margin: Thickness::hv(0, 0) }));
    let second = tree.add_child(root, Element::Border(TestBorder::new(Thickness::hv(0, 0))));

    tree.set_rect(root, Rect::from_size(Size::new(100, 100)));
    tree.set_rect(first, Rect::pos_size(Point::new(1, 1), Size::new(10, 10)));
    tree.set_rect(second, Rect::pos_size(Point::new(2, 2), Size::new(20, 20)));

    let surface = Size::new(100, 100);
    let mut renderer = Renderer::new(surface, Rect::from_size(surface));
    tree.render(root, &mut renderer);

    let ops = renderer.into_ops();
    // first child drawn first (bottom), later sibling on top
    assert_eq!(ops.len(), 2);
    assert_eq!(ops[0].color, red());
    assert_eq!(ops[0].rect, Rect::pos_size(Point::new(1, 1), Size::new(10, 10)));
    assert_eq!(ops[1].color, green());
    assert_eq!(ops[1].rect, Rect::pos_size(Point::new(2, 2), Size::new(20, 20)));
}

#[test]
fn renderer_stack_and_primitives() {
    let surface = Size::new(640, 480);
    let mut renderer = Renderer::new(surface, Rect::from_size(surface));

    // clear fills the whole current viewport
    renderer.clear(red());

    // a rect command is translated by the viewport in force
    renderer.push_rect(Rect::pos_size(Point::new(100, 100), Size::new(300, 300)));
    renderer.rect(Rect::pos_size(Point::new(10, 10), Size::new(50, 50)), green());
    renderer.pop_rect();

    // after the pop the original viewport is in force again
    renderer.rect(Rect::pos_size(Point::new(5, 5), Size::new(6, 6)), red());

    let ops = renderer.into_ops();
    assert_eq!(ops.len(), 3);
    assert_eq!(ops[0].rect, Rect::from_size(surface));
    assert_eq!(ops[0].color, red());
    assert_eq!(ops[1].rect, Rect::pos_size(Point::new(110, 110), Size::new(50, 50)));
    assert_eq!(ops[2].rect, Rect::pos_size(Point::new(5, 5), Size::new(6, 6)));
}

#[test]
fn execute_preserves_command_order() {
    let mut list = RenderCommandList::new();
    list.add(RenderCommand::Clear(red()));
    list.add(RenderCommand::Rect(Rect::pos_size(Point::new(1, 2), Size::new(3, 4)), green()));

    let surface = Size::new(100, 100);
    let mut renderer = Renderer::new(surface, Rect::from_size(surface));
    renderer.execute(list);

    let ops = renderer.into_ops();
    assert_eq!(ops.len(), 2);
    assert_eq!(ops[0].rect, Rect::from_size(surface));
    assert_eq!(ops[0].color, red());
    assert_eq!(ops[1].rect, Rect::pos_size(Point::new(1, 2), Size::new(3, 4)));
    assert_eq!(ops[1].color, green());
}

#[test]
fn add_many_keeps_both_orders() {
    let mut a = RenderCommandList::new();
    a.add(RenderCommand::Clear(red()));
    a.add(RenderCommand::Clear(green()));

    let mut b = RenderCommandList::new();
    b.add(RenderCommand::Rect(Rect::zero(), red()));

    a.add_many(b);
    let cmds = a.to_list();
    assert_eq!(cmds.len(), 3);
    assert_eq!(cmds[0], RenderCommand::Clear(red()));
    assert_eq!(cmds[1], RenderCommand::Clear(green()));
    assert_eq!(cmds[2], RenderCommand::Rect(Rect::zero(), red()));
}

#[test]
fn element_render_emits_own_commands_only() {
    let leaf = Element::Test(TestElement { margin: Thickness::hv(0, 0) });
    assert_eq!(leaf.render().to_list(), vec![RenderCommand::Clear(red())]);

    let border = Element::Border(TestBorder::new(Thickness::hv(0, 0)));
    assert_eq!(border.render().to_list(), vec![RenderCommand::Clear(green())]);

    let stub = Element::Stub(StubElement);
    assert_eq!(stub.render().to_list(), Vec::<RenderCommand>::new());
}
