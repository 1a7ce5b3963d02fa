//! The two-pass layout algorithm: `measure` asks a node how much space it
//! would like; `layout` hands a node its container, upon which the node
//! commits its own rectangle and arranges its children top-down.
//!
//! `spec_layout` is the functional mirror of the imperative pass: it
//! threads the node sequence through every write the pass performs, in
//! program order, so the contract of `Tree::layout` pins down every
//! rectangle and vertical offset the pass leaves behind.

use vstd::prelude::*;

use crate::geometry::Point;
use crate::geometry::Rect;
use crate::geometry::Size;
use crate::geometry::spec_from_bounds;
use crate::geometry::spec_inset;
use crate::geometry::Thickness;
use crate::tree::Element;
use crate::tree::MAX_NODES;
use crate::tree::NodeWeakRef;
use crate::tree::Node;
use crate::tree::NodeRef;
use crate::tree::OFFSET_LIMIT;
use crate::tree::TestListItem;
use crate::tree::elem_limited;
use crate::tree::rect_limited;
use crate::tree::Tree;
use crate::tree::live_at;
use crate::tree::with_offset;
use crate::tree::with_rect;

verus! {

/// Head room one tree level adds to the container bound: far more than the
/// two margins a level can contribute.
pub const CONTAINER_STEP: i64 = 0x40_0000;

/// Magnitude bound on the container a node at slot `i` may be handed: the
/// deeper the node, the more margin-induced growth the bound allows for.
pub open(crate) spec fn cbound(i: int) -> int {
    (CONTAINER_STEP as int) * (i + 1)
}

pub open(crate) spec fn size_within(s: Size, b: int) -> bool {
    &&& -b <= s.w <= b
    &&& -b <= s.h <= b
}

/// The bound grows with the slot index and never exceeds its value at the
/// last slot.
pub(crate) proof fn lemma_cbound_mono(i: int, j: int)
    requires
        0 <= i <= j,
    ensures
        (CONTAINER_STEP as int) <= cbound(i) <= cbound(j),
{
    assert((CONTAINER_STEP as int) * 1 <= (CONTAINER_STEP as int) * (i + 1) <= (
    CONTAINER_STEP as int) * (j + 1)) by (nonlinear_arith)
        requires
            0 <= i <= j,
    ;
}

pub(crate) proof fn lemma_cbound_cap(i: int)
    requires
        0 <= i < MAX_NODES as int,
    ensures
        cbound(i) <= (CONTAINER_STEP as int) * (MAX_NODES as int),
{
    assert((CONTAINER_STEP as int) * (i + 1) <= (CONTAINER_STEP as int) * (MAX_NODES as int))
        by (nonlinear_arith)
        requires
            0 <= i < MAX_NODES as int,
    ;
}

/// What `measure` answers for the node at slot `i`: the fixed request of a
/// leaf, the single child's request for a list row, and nothing for the
/// containers that size themselves to their container.
pub open(crate) spec fn spec_measure(nodes: Seq<Node>, i: int) -> Size
    decreases nodes.len() - i,
{
    if 0 <= i < nodes.len() {
        match nodes[i].element {
            Element::Test(_) => Size { w: 10i64, h: 70i64 },
            Element::ListItem(_) => {
                let cs = nodes[i].children@;
                if cs.len() == 1 && i < cs[0].id() < nodes.len() {
                    spec_measure(nodes, cs[0].id())
                } else {
                    Size { w: 0i64, h: 0i64 }
                }
            },
            _ => Size { w: 0i64, h: 0i64 },
        }
    } else {
        Size { w: 0i64, h: 0i64 }
    }
}

/// The structural assumption `measure` relies on: every list row it
/// reaches has exactly one child. A violated count is a tree-construction
/// bug, a fatal failure rather than a value.
pub open(crate) spec fn measure_ok(nodes: Seq<Node>, i: int) -> bool
    decreases nodes.len() - i,
{
    if 0 <= i < nodes.len() {
        match nodes[i].element {
            Element::ListItem(_) => {
                let cs = nodes[i].children@;
                &&& cs.len() == 1
                &&& i < cs[0].id() < nodes.len()
                &&& measure_ok(nodes, cs[0].id())
            },
            _ => true,
        }
    } else {
        true
    }
}

/// Measure results are tiny: a leaf asks for 10 by 70 and everything else
/// forwards or returns zero.
pub(crate) proof fn lemma_measure_bounds(nodes: Seq<Node>, i: int)
    ensures
        0 <= spec_measure(nodes, i).w <= 10,
        0 <= spec_measure(nodes, i).h <= 70,
    decreases nodes.len() - i,
{
    if 0 <= i < nodes.len() {
        match nodes[i].element {
            Element::ListItem(_) => {
                let cs = nodes[i].children@;
                if cs.len() == 1 && i < cs[0].id() < nodes.len() {
                    lemma_measure_bounds(nodes, cs[0].id());
                }
            },
            _ => {},
        }
    }
}

/// The structural assumptions the layout pass relies on, below slot `i`:
/// every list row has exactly one child, every live node a list stacks is
/// in fact a list row below the list, and a border's remembered content, if
/// still live, sits below the border. Their violation is a
/// tree-construction bug and fatal; a stale reference is not, and is
/// treated as the feature being absent.
pub open(crate) spec fn layout_ok(nodes: Seq<Node>, i: int) -> bool
    decreases nodes.len() - i,
{
    if 0 <= i < nodes.len() {
        match nodes[i].element {
            Element::Border(b) => match b.content {
                Some(w) => match w.target() {
                    Some(c) => live_at(nodes, c.id()) ==> (i < c.id() < nodes.len() && layout_ok(
                        nodes,
                        c.id(),
                    )),
                    None => true,
                },
                None => true,
            },
            Element::List(l) => forall|k: int|
                0 <= k < l.child_items@.len() ==> match (#[trigger] l.child_items@[k]).target() {
                    Some(c) => live_at(nodes, c.id()) ==> {
                        &&& i < c.id() < nodes.len()
                        &&& nodes[c.id()].element is ListItem
                        &&& measure_ok(nodes, c.id())
                        &&& layout_ok(nodes, c.id())
                    },
                    None => true,
                },
            Element::ListItem(_) => {
                let cs = nodes[i].children@;
                &&& cs.len() == 1
                &&& i < cs[0].id() < nodes.len()
                &&& layout_ok(nodes, cs[0].id())
            },
            _ => true,
        }
    } else {
        true
    }
}

/// The node sequence after the layout pass has run for slot `i` with the
/// given container, within an arena of `len` slots. Mirrors the pass write
/// for write: a leaf insets its container by its margin; a border does the
/// same and lays out its live content within the result; a list fills the
/// container and stacks its rows; a row spans the container's width at its
/// assigned vertical offset and passes its size on to its single child.
pub open(crate) spec fn spec_layout(len: int, nodes: Seq<Node>, i: int, container: Size) -> Seq<
    Node,
>
    decreases len - i, 3int, 0int,
{
    if 0 <= i < len {
        match nodes[i].element {
            Element::Test(e) => nodes.update(
                i,
                with_rect(
                    nodes[i],
                    spec_inset(Rect { pos: Point { x: 0i64, y: 0i64 }, size: container }, e.margin),
                ),
            ),
            Element::Border(b) => {
                let inner = spec_inset(
                    Rect { pos: Point { x: 0i64, y: 0i64 }, size: container },
                    b.margin,
                );
                let n1 = nodes.update(i, with_rect(nodes[i], inner));
                match b.content {
                    Some(w) => match w.target() {
                        Some(c) => if live_at(nodes, c.id()) && i < c.id() < len {
                            spec_layout(len, n1, c.id(), inner.size)
                        } else {
                            n1
                        },
                        None => n1,
                    },
                    None => n1,
                }
            },
            Element::List(l) => {
                let n1 = nodes.update(
                    i,
                    with_rect(
                        nodes[i],
                        Rect { pos: Point { x: 0i64, y: 0i64 }, size: container },
                    ),
                );
                spec_layout_items(len, n1, i, l.child_items@, 0, 0, container)
            },
            Element::ListItem(e) => {
                let rect = spec_from_bounds(
                    container.w as int,
                    e.vertical_offset as int,
                    0,
                    e.vertical_offset as int + container.h as int,
                );
                let n1 = nodes.update(i, with_rect(nodes[i], rect));
                let cs = nodes[i].children@;
                if cs.len() == 1 && i < cs[0].id() < len {
                    spec_layout(len, n1, cs[0].id(), rect.size)
                } else {
                    n1
                }
            },
            Element::Stub(_) => nodes,
        }
    } else {
        nodes
    }
}

/// The node sequence after the list at slot `i` has stacked its rows from
/// index `k` on, the next row going at vertical offset `off`: each live row
/// is measured, assigned the running offset, and laid out with the list's
/// width and its own measured height; stale rows are skipped.
pub open(crate) spec fn spec_layout_items(
    len: int,
    nodes: Seq<Node>,
    i: int,
    items: Seq<crate::tree::NodeWeakRef>,
    k: int,
    off: int,
    container: Size,
) -> Seq<Node>
    decreases len - i, 2int, items.len() - k,
{
    if 0 <= i < len && 0 <= k < items.len() {
        match items[k].target() {
            Some(c) => {
                if live_at(nodes, c.id()) && i < c.id() < len && nodes[c.id()].element
                    is ListItem {
                    let m = spec_measure(nodes, c.id());
                    let n1 = nodes.update(c.id(), with_offset(nodes[c.id()], off as i64));
                    let n2 = spec_layout(len, n1, c.id(), Size { w: container.w, h: m.h });
                    spec_layout_items(len, n2, i, items, k + 1, off + m.h, container)
                } else {
                    spec_layout_items(len, nodes, i, items, k + 1, off, container)
                }
            },
            None => spec_layout_items(len, nodes, i, items, k + 1, off, container),
        }
    } else {
        nodes
    }
}

/// An element with its mutable layout state blanked: what remains is the
/// part of a node the pass reads but never writes.
pub open(crate) spec fn elem_core(e: Element) -> Element {
    match e {
        Element::ListItem(_) => Element::ListItem(TestListItem { vertical_offset: 0i64 }),
        _ => e,
    }
}

/// Two node sequences that agree on everything the layout pass reads:
/// length, liveness, children, parents, and elements up to vertical
/// offsets. Rectangles and offsets are free.
pub open(crate) spec fn same_core(a: Seq<Node>, b: Seq<Node>) -> bool {
    &&& b.len() == a.len()
    &&& forall|j: int|
        0 <= j < a.len() ==> {
            &&& (#[trigger] b[j]).alive == a[j].alive
            &&& b[j].parrent == a[j].parrent
            &&& b[j].children@ == a[j].children@
            &&& elem_core(b[j].element) == elem_core(a[j].element)
        }
}

pub(crate) proof fn lemma_same_core_trans(a: Seq<Node>, b: Seq<Node>, c: Seq<Node>)
    requires
        same_core(a, b),
        same_core(b, c),
    ensures
        same_core(a, c),
{
    assert forall|j: int|
        0 <= j < a.len() implies {
        &&& (#[trigger] c[j]).alive == a[j].alive
        &&& c[j].parrent == a[j].parrent
        &&& c[j].children@ == a[j].children@
        &&& elem_core(c[j].element) == elem_core(a[j].element)
    } by {
        assert(b[j].alive == a[j].alive);
        assert(c[j].alive == b[j].alive);
        assert(c[j].children@ == b[j].children@);
        assert(b[j].children@ == a[j].children@);
        assert(elem_core(b[j].element) == elem_core(a[j].element));
        assert(elem_core(c[j].element) == elem_core(b[j].element));
    }
}

/// Measure answers and the measure assumption depend only on the core.
pub(crate) proof fn lemma_core_measure(a: Seq<Node>, b: Seq<Node>, i: int)
    requires
        same_core(a, b),
    ensures
        spec_measure(a, i) == spec_measure(b, i),
        measure_ok(a, i) == measure_ok(b, i),
    decreases a.len() - i,
{
    if 0 <= i < a.len() {
        assert(elem_core(a[i].element) == elem_core(b[i].element));
        assert(a[i].children@ == b[i].children@);
        match a[i].element {
            Element::ListItem(_) => {
                let cs = a[i].children@;
                if cs.len() == 1 && i < cs[0].id() < a.len() {
                    lemma_core_measure(a, b, cs[0].id());
                }
            },
            _ => {},
        }
    }
}

/// The layout assumption depends only on the core.
pub(crate) proof fn lemma_core_layout_ok(a: Seq<Node>, b: Seq<Node>, i: int)
    requires
        same_core(a, b),
    ensures
        layout_ok(a, i) == layout_ok(b, i),
    decreases a.len() - i,
{
    if 0 <= i < a.len() {
        assert(elem_core(a[i].element) == elem_core(b[i].element));
        assert(a[i].children@ == b[i].children@);
        assert(b[i].alive == a[i].alive);
        match a[i].element {
            Element::Border(bb) => match bb.content {
                Some(w) => match w.target() {
                    Some(c) => {
                        if 0 <= c.id() < a.len() {
                            assert(b[c.id()].alive == a[c.id()].alive);
                            if live_at(a, c.id()) && i < c.id() {
                                lemma_core_layout_ok(a, b, c.id());
                            }
                        }
                    },
                    None => {},
                },
                None => {},
            },
            Element::List(l) => {
                assert forall|k: int|
                    0 <= k < l.child_items@.len() implies match (
                #[trigger] l.child_items@[k]).target() {
                    Some(c) => (live_at(a, c.id()) ==> {
                        &&& i < c.id() < a.len()
                        &&& a[c.id()].element is ListItem
                        &&& measure_ok(a, c.id())
                        &&& layout_ok(a, c.id())
                    }) == (live_at(b, c.id()) ==> {
                        &&& i < c.id() < b.len()
                        &&& b[c.id()].element is ListItem
                        &&& measure_ok(b, c.id())
                        &&& layout_ok(b, c.id())
                    }),
                    None => true,
                } by {
                    match l.child_items@[k].target() {
                        Some(c) => {
                            if 0 <= c.id() < a.len() {
                                assert(b[c.id()].alive == a[c.id()].alive);
                                assert(elem_core(a[c.id()].element) == elem_core(
                                    b[c.id()].element,
                                ));
                                if live_at(a, c.id()) && i < c.id() {
                                    lemma_core_measure(a, b, c.id());
                                    lemma_core_layout_ok(a, b, c.id());
                                }
                            }
                        },
                        None => {},
                    }
                }
                assert(layout_ok(a, i) == layout_ok(b, i)) by {
                    assert(b[i].element == a[i].element);
                }
            },
            Element::ListItem(_) => {
                let cs = a[i].children@;
                if cs.len() == 1 && i < cs[0].id() < a.len() {
                    lemma_core_layout_ok(a, b, cs[0].id());
                }
            },
            _ => {},
        }
    }
}

/// The pass writes only rectangles and offsets, only at or above slot `i`,
/// and keeps the sequence's length and core.
pub(crate) proof fn lemma_layout_frame(len: int, nodes: Seq<Node>, i: int, container: Size)
    requires
        nodes.len() == len,
    ensures
        spec_layout(len, nodes, i, container).len() == nodes.len(),
        same_core(nodes, spec_layout(len, nodes, i, container)),
        forall|j: int|
            0 <= j < nodes.len() && !(i <= j) ==> #[trigger] spec_layout(
                len,
                nodes,
                i,
                container,
            )[j] == nodes[j],
    decreases len - i, 3int, 0int,
{
    if 0 <= i < len {
        match nodes[i].element {
            Element::Test(_) => {},
            Element::Border(b) => {
                let inner = spec_inset(
                    Rect { pos: Point { x: 0i64, y: 0i64 }, size: container },
                    b.margin,
                );
                let n1 = nodes.update(i, with_rect(nodes[i], inner));
                assert(same_core(nodes, n1));
                match b.content {
                    Some(w) => match w.target() {
                        Some(c) => {
                            if live_at(nodes, c.id()) && i < c.id() < len {
                                lemma_layout_frame(len, n1, c.id(), inner.size);
                                lemma_same_core_trans(
                                    nodes,
                                    n1,
                                    spec_layout(len, n1, c.id(), inner.size),
                                );
                            }
                        },
                        None => {},
                    },
                    None => {},
                }
            },
            Element::List(l) => {
                let n1 = nodes.update(
                    i,
                    with_rect(
                        nodes[i],
                        Rect { pos: Point { x: 0i64, y: 0i64 }, size: container },
                    ),
                );
                assert(same_core(nodes, n1));
                lemma_layout_items_frame(len, n1, i, l.child_items@, 0, 0, container);
                lemma_same_core_trans(
                    nodes,
                    n1,
                    spec_layout_items(len, n1, i, l.child_items@, 0, 0, container),
                );
            },
            Element::ListItem(e) => {
                let rect = spec_from_bounds(
                    container.w as int,
                    e.vertical_offset as int,
                    0,
                    e.vertical_offset as int + container.h as int,
                );
                let n1 = nodes.update(i, with_rect(nodes[i], rect));
                assert(same_core(nodes, n1));
                let cs = nodes[i].children@;
                if cs.len() == 1 && i < cs[0].id() < len {
                    lemma_layout_frame(len, n1, cs[0].id(), rect.size);
                    lemma_same_core_trans(nodes, n1, spec_layout(len, n1, cs[0].id(), rect.size));
                }
            },
            Element::Stub(_) => {},
        }
    }
}

pub(crate) proof fn lemma_layout_items_frame(
    len: int,
    nodes: Seq<Node>,
    i: int,
    items: Seq<crate::tree::NodeWeakRef>,
    k: int,
    off: int,
    container: Size,
)
    requires
        nodes.len() == len,
    ensures
        spec_layout_items(len, nodes, i, items, k, off, container).len() == nodes.len(),
        same_core(nodes, spec_layout_items(len, nodes, i, items, k, off, container)),
        forall|j: int|
            0 <= j < nodes.len() && !(i < j) ==> #[trigger] spec_layout_items(
                len,
                nodes,
                i,
                items,
                k,
                off,
                container,
            )[j] == nodes[j],
    decreases len - i, 2int, items.len() - k,
{
    if 0 <= i < len && 0 <= k < items.len() {
        match items[k].target() {
            Some(c) => {
                if live_at(nodes, c.id()) && i < c.id() < len && nodes[c.id()].element
                    is ListItem {
                    let m = spec_measure(nodes, c.id());
                    let n1 = nodes.update(c.id(), with_offset(nodes[c.id()], off as i64));
                    assert(same_core(nodes, n1));
                    let n2 = spec_layout(len, n1, c.id(), Size { w: container.w, h: m.h });
                    lemma_layout_frame(len, n1, c.id(), Size { w: container.w, h: m.h });
                    lemma_same_core_trans(nodes, n1, n2);
                    lemma_layout_items_frame(len, n2, i, items, k + 1, off + m.h, container);
                    lemma_same_core_trans(
                        nodes,
                        n2,
                        spec_layout_items(len, n2, i, items, k + 1, off + m.h, container),
                    );
                } else {
                    lemma_layout_items_frame(len, nodes, i, items, k + 1, off, container);
                }
            },
            None => {
                lemma_layout_items_frame(len, nodes, i, items, k + 1, off, container);
            },
        }
    }
}

/// Updating a slot's rectangle keeps the core.
pub(crate) proof fn lemma_core_update_rect(nodes: Seq<Node>, i: int, r: Rect)
    requires
        0 <= i < nodes.len(),
    ensures
        same_core(nodes, nodes.update(i, with_rect(nodes[i], r))),
{
    let b = nodes.update(i, with_rect(nodes[i], r));
    assert forall|j: int|
        0 <= j < nodes.len() implies {
        &&& (#[trigger] b[j]).alive == nodes[j].alive
        &&& b[j].parrent == nodes[j].parrent
        &&& b[j].children@ == nodes[j].children@
        &&& elem_core(b[j].element) == elem_core(nodes[j].element)
    } by {}
}

/// Updating a list row's offset keeps the core.
pub(crate) proof fn lemma_core_update_offset(nodes: Seq<Node>, i: int, off: i64)
    requires
        0 <= i < nodes.len(),
        nodes[i].element is ListItem,
    ensures
        same_core(nodes, nodes.update(i, with_offset(nodes[i], off))),
{
    let b = nodes.update(i, with_offset(nodes[i], off));
    assert forall|j: int|
        0 <= j < nodes.len() implies {
        &&& (#[trigger] b[j]).alive == nodes[j].alive
        &&& b[j].parrent == nodes[j].parrent
        &&& b[j].children@ == nodes[j].children@
        &&& elem_core(b[j].element) == elem_core(nodes[j].element)
    } by {}
}

/// What the layout pass reads from an element before dispatching on it.
enum LayoutStep {
    Leaf(Thickness),
    Bordered(Thickness, Option<NodeWeakRef>),
    Stack,
    Row(i64),
    Inert,
}

impl Tree {
    /// How much space the node `h` would like, unconstrained: a pure query
    /// that recurses through the children the node's element manages and
    /// mutates nothing.
    pub fn measure(&self, h: NodeRef) -> (s: Size)
        requires
            self.wf(),
            self.live(h),
            measure_ok(self.nodes_view(), h.id()),
        ensures
            s == spec_measure(self.nodes_view(), h.id()),
        decreases self.nodes_view().len() - h.id(),
    {
        match self.element(h) {
            Element::Test(_) => Size::new(10, 70),
            Element::ListItem(_) => {
                let cs = self.children(h);
                assert(cs@.len() == 1);
                let c: NodeRef = cs[0];
                proof {
                    assert(self.children_of_id(h.id())[0] == c);
                    assert(self.nodes_view()[h.id()].children@[0] == c);
                    assert(self.live_id(c.id()));
                }
                self.measure(c)
            },
            _ => Size::zero(),
        }
    }

    /// Lays out the node `h` within the space `container` its parent has
    /// allotted, top-down: the node commits its own rectangle and arranges
    /// the children its element manages, write for write as `spec_layout`
    /// describes.
    pub fn layout(&mut self, h: NodeRef, container: Size)
        requires
            old(self).wf(),
            old(self).live(h),
            layout_ok(old(self).nodes_view(), h.id()),
            size_within(container, cbound(h.id())),
        ensures
            final (self).wf(),
            final (self).spec_root() == old(self).spec_root(),
            final (self).node_count() == old(self).node_count(),
            final (self).nodes_view() == spec_layout(
                old(self).node_count(),
                old(self).nodes_view(),
                h.id(),
                container,
            ),
        decreases old(self).nodes_view().len() - h.id(),
    {
        let ghost t0 = *old(self);
        let ghost len_g: int = t0.node_count();
        proof {
            assert(elem_limited(t0.element_of_id(h.id())));
            lemma_cbound_cap(h.id());
            assert(cbound(h.id()) <= 0x40_0000_0000);
        }
        let step: LayoutStep = match self.element(h) {
            Element::Test(e) => LayoutStep::Leaf(e.margin),
            Element::Border(b) => LayoutStep::Bordered(b.margin, b.content),
            Element::List(_) => LayoutStep::Stack,
            Element::ListItem(e) => LayoutStep::Row(e.vertical_offset),
            Element::Stub(_) => LayoutStep::Inert,
        };
        match step {
            LayoutStep::Leaf(margin) => {
                let rect = Rect::from_size(container).inset(margin);
                proof {
                    assert(rect_limited(rect));
                }
                self.set_rect(h, rect);
                proof {
                    assert(self.nodes_view() == spec_layout(
                        len_g,
                        t0.nodes_view(),
                        h.id(),
                        container,
                    ));
                }
            },
            LayoutStep::Bordered(margin, content) => {
                let inner = Rect::from_size(container).inset(margin);
                proof {
                    assert(rect_limited(inner));
                }
                self.set_rect(h, inner);
                let ghost n1 = self.nodes_view();
                proof {
                    lemma_core_update_rect(t0.nodes_view(), h.id(), inner);
                }
                if let Some(w) = content {
                    match w.upgrade(self) {
                        Some(c) => {
                            proof {
                                assert(self.live_id(c.id()) == t0.live_id(c.id()));
                                assert(live_at(t0.nodes_view(), c.id()));
                                assert(h.id() < c.id() < len_g);
                                assert(layout_ok(t0.nodes_view(), c.id()));
                                lemma_core_layout_ok(t0.nodes_view(), self.nodes_view(), c.id());
                                lemma_cbound_mono(h.id() + 1, c.id());
                                assert(size_within(inner.size, cbound(c.id())));
                            }
                            self.layout(c, inner.size);
                            proof {
                                assert(self.nodes_view() == spec_layout(
                                    len_g,
                                    n1,
                                    c.id(),
                                    inner.size,
                                ));
                                assert(self.nodes_view() == spec_layout(
                                    len_g,
                                    t0.nodes_view(),
                                    h.id(),
                                    container,
                                ));
                            }
                        },
                        None => {
                            proof {
                                assert(self.nodes_view() == spec_layout(
                                    len_g,
                                    t0.nodes_view(),
                                    h.id(),
                                    container,
                                ));
                            }
                        },
                    }
                } else {
                    proof {
                        assert(self.nodes_view() == spec_layout(
                            len_g,
                            t0.nodes_view(),
                            h.id(),
                            container,
                        ));
                    }
                }
            },
            LayoutStep::Stack => {
                let rect = Rect::from_size(container);
                proof {
                    assert(rect_limited(rect));
                }
                self.set_rect(h, rect);
                let ghost base = *self;
                let ghost items = t0.element_of_id(h.id())->List_0.child_items@;
                proof {
                    lemma_core_update_rect(t0.nodes_view(), h.id(), rect);
                    assert(items.len() <= MAX_NODES);
                }
                let num: usize = match self.element(h) {
                    Element::List(l) => l.child_items.len(),
                    _ => 0,
                };
                proof {
                    assert(num == items.len());
                }
                let mut offset_acc: i64 = 0;
                let mut k: usize = 0;
                while k < num
                    invariant
                        t0 == *old(self),
                        t0.wf(),
                        t0.live(h),
                        layout_ok(t0.nodes_view(), h.id()),
                        size_within(container, cbound(h.id())),
                        cbound(h.id()) <= 0x40_0000_0000,
                        len_g == t0.node_count(),
                        0 <= h.id() < len_g,
                        t0.element_of_id(h.id()) is List,
                        items == t0.element_of_id(h.id())->List_0.child_items@,
                        items.len() <= MAX_NODES,
                        num == items.len(),
                        k <= num,
                        0 <= offset_acc <= 70 * (k as int),
                        self.wf(),
                        self.nodes_view().len() == len_g,
                        self.spec_root() == t0.spec_root(),
                        same_core(t0.nodes_view(), self.nodes_view()),
                        base.nodes_view() == t0.nodes_view().update(
                            h.id(),
                            with_rect(t0.nodes_view()[h.id()], rect),
                        ),
                        rect == (Rect { pos: Point { x: 0i64, y: 0i64 }, size: container }),
                        spec_layout_items(
                            len_g,
                            self.nodes_view(),
                            h.id(),
                            items,
                            k as int,
                            offset_acc as int,
                            container,
                        ) == spec_layout_items(
                            len_g,
                            base.nodes_view(),
                            h.id(),
                            items,
                            0,
                            0,
                            container,
                        ),
                    decreases num - k,
                {
                    proof {
                        assert(elem_core(self.nodes_view()[h.id()].element) == elem_core(
                            t0.nodes_view()[h.id()].element,
                        ));
                        assert(self.element_of_id(h.id()) == t0.element_of_id(h.id()));
                        assert(self.live_id(h.id()) == t0.live_id(h.id()));
                    }
                    let w: NodeWeakRef = match self.element(h) {
                        Element::List(l) => l.child_items[k],
                        _ => NodeWeakRef::empty(),
                    };
                    proof {
                        assert(w == items[k as int]);
                    }
                    let ghost cur0 = *self;
                    match w.upgrade(self) {
                        Some(c) => {
                            proof {
                                assert(cur0.live_id(c.id()));
                                assert(t0.live_id(c.id()) == cur0.live_id(c.id()));
                                assert(live_at(t0.nodes_view(), c.id()));
                                // the layout assumption speaks of this very row
                                assert(t0.element_of_id(h.id())->List_0.child_items@[k as int]
                                    == items[k as int]);
                                assert(h.id() < c.id() < len_g);
                                assert(t0.nodes_view()[c.id()].element is ListItem);
                                assert(measure_ok(t0.nodes_view(), c.id()));
                                assert(layout_ok(t0.nodes_view(), c.id()));
                                lemma_core_measure(t0.nodes_view(), cur0.nodes_view(), c.id());
                                lemma_core_layout_ok(t0.nodes_view(), cur0.nodes_view(), c.id());
                                assert(elem_core(cur0.nodes_view()[c.id()].element) == elem_core(
                                    t0.nodes_view()[c.id()].element,
                                ));
                                assert(cur0.nodes_view()[c.id()].element is ListItem);
                                lemma_measure_bounds(cur0.nodes_view(), c.id());
                            }
                            let size = self.measure(c);
                            proof {
                                assert(0 <= offset_acc + size.h <= 70 * ((k as int) + 1));
                            }
                            self.set_item_offset(c, offset_acc);
                            let ghost cur1 = *self;
                            proof {
                                lemma_core_update_offset(cur0.nodes_view(), c.id(), offset_acc);
                                assert(same_core(cur0.nodes_view(), cur1.nodes_view()));
                                lemma_core_layout_ok(cur0.nodes_view(), cur1.nodes_view(), c.id());
                                lemma_cbound_mono(h.id(), c.id());
                                assert(size_within(
                                    Size { w: container.w, h: size.h },
                                    cbound(c.id()),
                                ));
                                assert(cur1.live_id(c.id()));
                            }
                            self.layout(c, Size::new(container.w, size.h));
                            proof {
                                assert(self.nodes_view() == spec_layout(
                                    len_g,
                                    cur1.nodes_view(),
                                    c.id(),
                                    Size { w: container.w, h: size.h },
                                ));
                                lemma_layout_frame(
                                    len_g,
                                    cur1.nodes_view(),
                                    c.id(),
                                    Size { w: container.w, h: size.h },
                                );
                                lemma_same_core_trans(
                                    cur0.nodes_view(),
                                    cur1.nodes_view(),
                                    self.nodes_view(),
                                );
                                lemma_same_core_trans(
                                    t0.nodes_view(),
                                    cur0.nodes_view(),
                                    self.nodes_view(),
                                );
                                // one unfolding of the stacking mirror
                                assert(spec_layout_items(
                                    len_g,
                                    cur0.nodes_view(),
                                    h.id(),
                                    items,
                                    k as int,
                                    offset_acc as int,
                                    container,
                                ) == spec_layout_items(
                                    len_g,
                                    self.nodes_view(),
                                    h.id(),
                                    items,
                                    k as int + 1,
                                    offset_acc as int + size.h as int,
                                    container,
                                ));
                            }
                            offset_acc = offset_acc + size.h;
                        },
                        None => {
                            proof {
                                assert(match items[k as int].target() {
                                    Some(c) => !live_at(cur0.nodes_view(), c.id()),
                                    None => true,
                                });
                                assert(spec_layout_items(
                                    len_g,
                                    cur0.nodes_view(),
                                    h.id(),
                                    items,
                                    k as int,
                                    offset_acc as int,
                                    container,
                                ) == spec_layout_items(
                                    len_g,
                                    cur0.nodes_view(),
                                    h.id(),
                                    items,
                                    k as int + 1,
                                    offset_acc as int,
                                    container,
                                ));
                            }
                        },
                    }
                    k = k + 1;
                }
                proof {
                    assert(spec_layout_items(
                        len_g,
                        self.nodes_view(),
                        h.id(),
                        items,
                        num as int,
                        offset_acc as int,
                        container,
                    ) == self.nodes_view());
                    assert(self.nodes_view() == spec_layout(
                        len_g,
                        t0.nodes_view(),
                        h.id(),
                        container,
                    ));
                }
            },
            LayoutStep::Row(voff) => {
                proof {
                    assert(-OFFSET_LIMIT <= voff <= OFFSET_LIMIT);
                }
                let rect = Rect::from_bounds(container.w, voff, 0, voff + container.h);
                proof {
                    assert(rect_limited(rect));
                }
                self.set_rect(h, rect);
                proof {
                    lemma_core_update_rect(t0.nodes_view(), h.id(), rect);
                }
                let c: NodeRef = self.children(h)[0];
                proof {
                    assert(self.children_of_id(h.id()) == t0.children_of_id(h.id()));
                    assert(t0.nodes_view()[h.id()].children@[0] == c);
                    assert(h.id() < c.id() < len_g);
                    assert(layout_ok(t0.nodes_view(), c.id()));
                    assert(t0.live_id(c.id())) by {
                        assert(t0.children_of_id(h.id())[0] == c);
                    }
                    assert(self.live_id(c.id()) == t0.live_id(c.id()));
                    lemma_core_layout_ok(t0.nodes_view(), self.nodes_view(), c.id());
                    lemma_cbound_mono(h.id(), c.id());
                    assert(size_within(rect.size, cbound(c.id())));
                }
                self.layout(c, rect.size);
                proof {
                    assert(self.nodes_view() == spec_layout(
                        len_g,
                        t0.nodes_view(),
                        h.id(),
                        container,
                    ));
                }
            },
            LayoutStep::Inert => {
                proof {
                    assert(self.nodes_view() == spec_layout(
                        len_g,
                        t0.nodes_view(),
                        h.id(),
                        container,
                    ));
                }
            },
        }
    }
}

} // verus!

