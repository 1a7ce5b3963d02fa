//! The scene tree: an arena of nodes with owning parent-to-child edges and
//! non-owning child-to-parent back references.
//!
//! Handles are stable indices into the arena; an index is never reused, so
//! handle equality is node identity. A destroyed node leaves a dead slot
//! behind, which makes upgrading a stale weak handle an explicit `None`
//! rather than undefined behavior.

use vstd::prelude::*;

use crate::geometry::Point;
use crate::geometry::Rect;
use crate::geometry::Size;
use crate::geometry::Thickness;

verus! {

/// Largest number of nodes a tree may ever hold. Keeps every arithmetic
/// bound of the layout and render passes comfortably inside an `i64`.
pub const MAX_NODES: usize = 65536;

/// Magnitude bound on the coordinates of a rectangle stored in a node.
pub const RECT_LIMIT: i64 = 0x800_0000_0000;

/// Magnitude bound on the margins an element may carry.
pub const MARGIN_LIMIT: i64 = 0x10_0000;

/// Magnitude bound on a list item's stored vertical offset.
pub const OFFSET_LIMIT: i64 = 0x4000_0000;

/// A strong handle: a stable identity for one node of a tree. Two handles
/// are equal exactly when they denote the same node.
#[derive(Clone, Copy, Debug, PartialEq, Eq, Structural)]
pub struct NodeRef {
    pub(crate) id: usize,
}

impl NodeRef {
    /// The arena index this handle denotes.
    pub closed spec fn id(self) -> int {
        self.id as int
    }

    /// A non-owning handle to the same node.
    pub fn downgrade(&self) -> (w: NodeWeakRef)
        ensures
            w == weak_to(*self),
            w.target() == Some(*self),
    {
        NodeWeakRef { target: Some(*self) }
    }
}

/// Two handles are equal exactly when they denote the same underlying node.
pub proof fn lemma_handle_eq(a: NodeRef, b: NodeRef)
    ensures
        (a == b) <==> (a.id() == b.id()),
{
}

/// A weak handle: remembers which node it came from but keeps nothing
/// alive. Upgrading fails once the node has been destroyed.
#[derive(Clone, Copy, Debug)]
pub struct NodeWeakRef {
    pub(crate) target: Option<NodeRef>,
}

/// What `NodeWeakRef::upgrade` returns: the original strong handle while
/// the node lives, and nothing afterwards.
pub open spec fn spec_upgrade(t: Tree, w: NodeWeakRef) -> Option<NodeRef> {
    match w.target() {
        Some(h) => if t.live(h) {
            Some(h)
        } else {
            None
        },
        None => None,
    }
}

impl NodeWeakRef {
    /// The handle this weak reference was taken from, if any.
    pub closed spec fn target(self) -> Option<NodeRef> {
        self.target
    }

    /// A weak handle that never upgrades.
    pub fn empty() -> (w: NodeWeakRef)
        ensures
            w.target() is None,
    {
        NodeWeakRef { target: None }
    }

    /// The strong handle, if the node is still alive in `tree`.
    pub fn upgrade(&self, tree: &Tree) -> (r: Option<NodeRef>)
        ensures
            r == spec_upgrade(*tree, *self),
    {
        match self.target {
            Some(h) => {
                if h.id < tree.nodes.len() && tree.nodes[h.id].alive {
                    Some(h)
                } else {
                    None
                }
            },
            None => None,
        }
    }
}

/// The weak handle that `downgrade` yields for `h`.
pub closed spec fn weak_to(h: NodeRef) -> NodeWeakRef {
    NodeWeakRef { target: Some(h) }
}

/// The weak handle for `h` remembers exactly `h`.
pub proof fn lemma_weak_to(h: NodeRef)
    ensures
        weak_to(h).target() == Some(h),
{
}

/// A weak handle taken from a live node upgrades to an equal strong
/// handle; one taken from a destroyed node upgrades to nothing.
pub proof fn lemma_upgrade_after_downgrade(t: Tree, h: NodeRef, w: NodeWeakRef)
    requires
        w.target() == Some(h),
    ensures
        t.live(h) ==> spec_upgrade(t, w) == Some(h),
        !t.live(h) ==> spec_upgrade(t, w) is None,
{
}

/// A leaf behavior: requests a fixed size, fills its container up to a
/// margin, and clears with red.
#[derive(Clone, Copy, Debug)]
pub struct TestElement {
    pub margin: Thickness,
}

/// A single-child container that insets its content by a margin and clears
/// with green.
#[derive(Clone, Copy, Debug)]
pub struct TestBorder {
    pub margin: Thickness,
    pub node: NodeWeakRef,
    pub content: Option<NodeWeakRef>,
}

/// A vertical stack: measures each item and stacks them top to bottom.
#[derive(Debug)]
pub struct TestList {
    pub node: NodeWeakRef,
    pub child_items: Vec<NodeWeakRef>,
}

/// One row of a list: positioned at the vertical offset its list assigned.
#[derive(Clone, Copy, Debug)]
pub struct TestListItem {
    pub vertical_offset: i64,
}

/// A behavior that does nothing: zero size, no layout, no drawing.
#[derive(Clone, Copy, Debug)]
pub struct StubElement;

/// The behavior bound to a node: one of the concrete element types. Nodes
/// are heterogeneous, and recovering the concrete type from a node handle
/// goes through the checked casts below, which fail on a mismatch instead
/// of reinterpreting memory.
#[derive(Debug)]
pub enum Element {
    Test(TestElement),
    Border(TestBorder),
    List(TestList),
    ListItem(TestListItem),
    Stub(StubElement),
}

/// The margins and offsets an element carries, small enough for layout
/// arithmetic never to overflow.
pub open spec fn elem_limited(e: Element) -> bool {
    match e {
        Element::Test(t) => thickness_limited(t.margin),
        Element::Border(b) => thickness_limited(b.margin),
        Element::List(l) => l.child_items@.len() <= MAX_NODES,
        Element::ListItem(it) => -OFFSET_LIMIT <= it.vertical_offset <= OFFSET_LIMIT,
        Element::Stub(_) => true,
    }
}

pub open spec fn thickness_limited(t: Thickness) -> bool {
    &&& -MARGIN_LIMIT <= t.right <= MARGIN_LIMIT
    &&& -MARGIN_LIMIT <= t.top <= MARGIN_LIMIT
    &&& -MARGIN_LIMIT <= t.left <= MARGIN_LIMIT
    &&& -MARGIN_LIMIT <= t.bottom <= MARGIN_LIMIT
}

/// The coordinates of a rectangle stored in a node, bounded so that a
/// stack of viewport translations stays inside an `i64`.
pub open spec fn rect_limited(r: Rect) -> bool {
    &&& -RECT_LIMIT <= r.pos.x <= RECT_LIMIT
    &&& -RECT_LIMIT <= r.pos.y <= RECT_LIMIT
    &&& -RECT_LIMIT <= r.size.w <= RECT_LIMIT
    &&& -RECT_LIMIT <= r.size.h <= RECT_LIMIT
}

/// The element as it stands right after `init` ran with `self_handle`:
/// behaviors that navigate the tree capture a weak self reference; the
/// others are untouched.
pub open(crate) spec fn spec_init_element(e: Element, self_handle: NodeRef) -> Element {
    match e {
        Element::Border(b) => Element::Border(
            TestBorder {
                margin: b.margin,
                node: NodeWeakRef { target: Some(self_handle) },
                content: b.content,
            },
        ),
        Element::List(l) => Element::List(
            TestList { node: NodeWeakRef { target: Some(self_handle) }, child_items: l.child_items },
        ),
        _ => e,
    }
}

/// A concrete element type that a checked cast can recover from an
/// `Element`. `wraps` gives the value carried by the matching variant and
/// nothing for every other variant; `wrap` is the variant injection.
pub trait ElementCast: Sized {
    spec fn wraps(e: Element) -> Option<Self>;

    spec fn wrap(self) -> Element;

    /// Read access to the concrete behavior, exactly when the variant
    /// matches.
    fn cast_ref(e: &Element) -> (r: Option<&Self>)
        ensures
            match r {
                Some(v) => Self::wraps(*e) == Some(*v),
                None => Self::wraps(*e) is None,
            },
    ;

    /// Exclusive access to the concrete behavior, exactly when the variant
    /// matches.
    fn cast_mut(e: &mut Element) -> (r: Option<&mut Self>)
        ensures
            match r {
                Some(v) => Self::wraps(*old(e)) == Some(*v) && *final (e) == (*final (v)).wrap(),
                None => Self::wraps(*old(e)) is None && *final (e) == *old(e),
            },
    ;
}

impl ElementCast for TestElement {
    open spec fn wraps(e: Element) -> Option<TestElement> {
        match e {
            Element::Test(v) => Some(v),
            _ => None,
        }
    }

    open spec fn wrap(self) -> Element {
        Element::Test(self)
    }

    fn cast_ref(e: &Element) -> (r: Option<&TestElement>) {
        match e {
            Element::Test(v) => Some(v),
            _ => None,
        }
    }

    fn cast_mut(e: &mut Element) -> (r: Option<&mut TestElement>) {
        match e {
            Element::Test(v) => Some(v),
            _ => None,
        }
    }
}

impl ElementCast for TestBorder {
    open spec fn wraps(e: Element) -> Option<TestBorder> {
        match e {
            Element::Border(v) => Some(v),
            _ => None,
        }
    }

    open spec fn wrap(self) -> Element {
        Element::Border(self)
    }

    fn cast_ref(e: &Element) -> (r: Option<&TestBorder>) {
        match e {
            Element::Border(v) => Some(v),
            _ => None,
        }
    }

    fn cast_mut(e: &mut Element) -> (r: Option<&mut TestBorder>) {
        match e {
            Element::Border(v) => Some(v),
            _ => None,
        }
    }
}

impl ElementCast for TestList {
    open spec fn wraps(e: Element) -> Option<TestList> {
        match e {
            Element::List(v) => Some(v),
            _ => None,
        }
    }

    open spec fn wrap(self) -> Element {
        Element::List(self)
    }

    fn cast_ref(e: &Element) -> (r: Option<&TestList>) {
        match e {
            Element::List(v) => Some(v),
            _ => None,
        }
    }

    fn cast_mut(e: &mut Element) -> (r: Option<&mut TestList>) {
        match e {
            Element::List(v) => Some(v),
            _ => None,
        }
    }
}

impl ElementCast for TestListItem {
    open spec fn wraps(e: Element) -> Option<TestListItem> {
        match e {
            Element::ListItem(v) => Some(v),
            _ => None,
        }
    }

    open spec fn wrap(self) -> Element {
        Element::ListItem(self)
    }

    fn cast_ref(e: &Element) -> (r: Option<&TestListItem>) {
        match e {
            Element::ListItem(v) => Some(v),
            _ => None,
        }
    }

    fn cast_mut(e: &mut Element) -> (r: Option<&mut TestListItem>) {
        match e {
            Element::ListItem(v) => Some(v),
            _ => None,
        }
    }
}

impl ElementCast for StubElement {
    open spec fn wraps(e: Element) -> Option<StubElement> {
        match e {
            Element::Stub(v) => Some(v),
            _ => None,
        }
    }

    open spec fn wrap(self) -> Element {
        Element::Stub(self)
    }

    fn cast_ref(e: &Element) -> (r: Option<&StubElement>) {
        match e {
            Element::Stub(v) => Some(v),
            _ => None,
        }
    }

    fn cast_mut(e: &mut Element) -> (r: Option<&mut StubElement>) {
        match e {
            Element::Stub(v) => Some(v),
            _ => None,
        }
    }
}

impl Element {
    /// Whether this element's concrete type is `T`.
    pub fn can_cast<T: ElementCast>(&self) -> (b: bool)
        ensures
            b == (T::wraps(*self) is Some),
    {
        T::cast_ref(self).is_some()
    }

    /// The concrete behavior, exactly when its type is `T`.
    pub fn cast_element_ref<T: ElementCast>(&self) -> (r: Option<&T>)
        ensures
            match r {
                Some(v) => T::wraps(*self) == Some(*v),
                None => T::wraps(*self) is None,
            },
    {
        T::cast_ref(self)
    }

    /// Exclusive access to the concrete behavior, exactly when its type is
    /// `T`.
    pub fn cast_element_mut<T: ElementCast>(&mut self) -> (r: Option<&mut T>)
        ensures
            match r {
                Some(v) => T::wraps(*old(self)) == Some(*v) && *final (self) == (*final (v)).wrap(),
                None => T::wraps(*old(self)) is None && *final (self) == *old(self),
            },
    {
        T::cast_mut(self)
    }
}

/// One arena slot: a node's interior state. A dead slot is what remains of
/// a destroyed node; it is never revived and its index is never reused.
/// Opaque outside the crate; the spec functions below are its interface.
pub struct Node {
    pub(crate) alive: bool,
    pub(crate) parrent: Option<NodeRef>,
    pub(crate) children: Vec<NodeRef>,
    pub(crate) rect: Rect,
    pub(crate) element: Element,
}

/// The scene tree: an append-only arena of nodes and an optional root.
/// Parent-to-child edges own; child-to-parent references are weak.
pub struct Tree {
    pub(crate) nodes: Vec<Node>,
    pub(crate) root: Option<NodeRef>,
}

/// Whether slot `j` of a node sequence holds a live node.
pub open(crate) spec fn live_at(nodes: Seq<Node>, j: int) -> bool {
    0 <= j < nodes.len() && nodes[j].alive
}

/// The slot `n` with its rectangle replaced.
pub open(crate) spec fn with_rect(n: Node, r: Rect) -> Node {
    Node { alive: n.alive, parrent: n.parrent, children: n.children, rect: r, element: n.element }
}

/// The slot `n` with its element replaced.
pub open(crate) spec fn with_element(n: Node, e: Element) -> Node {
    Node { alive: n.alive, parrent: n.parrent, children: n.children, rect: n.rect, element: e }
}

/// The slot `n`, which must hold a list row, with its vertical offset
/// replaced.
pub open(crate) spec fn with_offset(n: Node, off: i64) -> Node {
    Node {
        alive: n.alive,
        parrent: n.parrent,
        children: n.children,
        rect: n.rect,
        element: Element::ListItem(TestListItem { vertical_offset: off }),
    }
}

impl Tree {
    /// The arena contents as a sequence of slots.
    pub open(crate) spec fn nodes_view(self) -> Seq<Node> {
        self.nodes@
    }

    /// How many node slots the arena holds, dead ones included.
    pub open(crate) spec fn node_count(self) -> int {
        self.nodes@.len() as int
    }

    /// Whether slot `i` holds a node that is still part of the tree.
    pub open(crate) spec fn live_id(self, i: int) -> bool {
        0 <= i < self.nodes@.len() && self.nodes@[i].alive
    }

    /// Whether the node `h` denotes is still part of the tree.
    pub open(crate) spec fn live(self, h: NodeRef) -> bool {
        self.live_id(h.id())
    }

    pub open(crate) spec fn children_of_id(self, i: int) -> Seq<NodeRef> {
        self.nodes@[i].children@
    }

    /// The ordered children of the node `h` denotes; first is drawn first.
    pub open(crate) spec fn children_of(self, h: NodeRef) -> Seq<NodeRef> {
        self.children_of_id(h.id())
    }

    pub open(crate) spec fn parent_of_id(self, i: int) -> Option<NodeRef> {
        self.nodes@[i].parrent
    }

    /// The parent of the node `h` denotes; the root has none.
    pub open(crate) spec fn parent_of(self, h: NodeRef) -> Option<NodeRef> {
        self.parent_of_id(h.id())
    }

    pub open(crate) spec fn rect_of_id(self, i: int) -> Rect {
        self.nodes@[i].rect
    }

    /// The last layout rectangle of the node `h` denotes.
    pub open(crate) spec fn rect_of(self, h: NodeRef) -> Rect {
        self.rect_of_id(h.id())
    }

    pub open(crate) spec fn element_of_id(self, i: int) -> Element {
        self.nodes@[i].element
    }

    /// The behavior bound to the node `h` denotes.
    pub open(crate) spec fn element_of(self, h: NodeRef) -> Element {
        self.element_of_id(h.id())
    }

    /// The root handle, if a root has been set.
    pub open(crate) spec fn spec_root(self) -> Option<NodeRef> {
        self.root
    }

    /// Every child's index lies strictly between its parent's index and the
    /// arena length: nodes are only ever added below existing ones, so every
    /// downward edge goes to a higher index. This also bounds recursion over
    /// subtrees.
    pub open(crate) spec fn ordered(self) -> bool {
        forall|i: int, k: int|
            0 <= i < self.nodes@.len() && 0 <= k < self.nodes@[i].children@.len() ==> i < (
            #[trigger] self.nodes@[i].children@[k]).id() < self.nodes@.len()
    }

    /// Children of a live node are live and point back to it.
    pub open(crate) spec fn wf_children(self) -> bool {
        forall|i: int, k: int|
            self.live_id(i) && 0 <= k < self.children_of_id(i).len() ==> {
                let c = (#[trigger] self.children_of_id(i)[k]).id();
                &&& self.live_id(c)
                &&& self.parent_of_id(c) == Some(NodeRef { id: i as usize })
            }
    }

    /// A node's children sequence has no duplicates.
    pub open(crate) spec fn wf_children_distinct(self) -> bool {
        forall|i: int, k1: int, k2: int|
            self.live_id(i) && 0 <= k1 < k2 < self.children_of_id(i).len() ==> #[trigger] self.children_of_id(
                i,
            )[k1] != #[trigger] self.children_of_id(i)[k2]
    }

    /// A live node's parent reference points to a live node whose children
    /// sequence contains this node.
    pub open(crate) spec fn wf_parent(self) -> bool {
        forall|i: int|
            self.live_id(i) && (#[trigger] self.parent_of_id(i)) is Some ==> {
                let p = self.parent_of_id(i)->Some_0.id();
                &&& self.live_id(p)
                &&& self.children_of_id(p).contains(NodeRef { id: i as usize })
            }
    }

    /// The root, if present, is live and has no parent.
    pub open(crate) spec fn wf_root(self) -> bool {
        match self.root {
            Some(r) => self.live_id(r.id()) && self.parent_of_id(r.id()) is None,
            None => true,
        }
    }

    /// Machine bounds: the arena is not too large, and every live node's
    /// rectangle and element stay inside the limits that keep layout and
    /// render arithmetic exact.
    pub open(crate) spec fn wf_limits(self) -> bool {
        &&& self.nodes@.len() <= MAX_NODES
        &&& forall|i: int| self.live_id(i) ==> rect_limited(#[trigger] self.rect_of_id(i))
        &&& forall|i: int| self.live_id(i) ==> elem_limited(#[trigger] self.element_of_id(i))
    }

    /// The tree invariant, established by `new` and preserved by every
    /// operation.
    pub open(crate) spec fn wf(self) -> bool {
        &&& self.ordered()
        &&& self.wf_children()
        &&& self.wf_children_distinct()
        &&& self.wf_parent()
        &&& self.wf_root()
        &&& self.wf_limits()
    }

    /// An empty tree: no nodes, no root.
    pub fn new() -> (t: Tree)
        ensures
            t.node_count() == 0,
            t.spec_root() is None,
            t.wf(),
    {
        Tree { nodes: Vec::new(), root: None }
    }

    /// How many node slots the arena holds, dead ones included: the index
    /// the next added node will get.
    pub fn slot_count(&self) -> (n: usize)
        ensures
            n == self.node_count(),
    {
        self.nodes.len()
    }

    /// The root handle, if a root has been set.
    pub fn root(&self) -> (r: Option<NodeRef>)
        ensures
            r == self.spec_root(),
            r matches Some(h) ==> self.wf() ==> self.live(h),
    {
        self.root
    }

    /// The ordered, read-only view of the direct children of `h`.
    pub fn children(&self, h: NodeRef) -> (r: &Vec<NodeRef>)
        requires
            self.live(h),
        ensures
            r@ == self.children_of(h),
    {
        &self.nodes[h.id].children
    }

    /// The parent of `h`: a live node whose children contain `h`, or none
    /// for the root.
    pub fn parrent(&self, h: NodeRef) -> (r: Option<NodeRef>)
        requires
            self.wf(),
            self.live(h),
        ensures
            r == self.parent_of(h),
            r matches Some(p) ==> self.live(p) && self.children_of(p).contains(h),
    {
        proof {
            assert(self.live_id(h.id()) && self.parent_of_id(h.id()) is Some ==> {
                let p = self.parent_of_id(h.id())->Some_0.id();
                self.live_id(p) && self.children_of_id(p).contains(NodeRef { id: h.id() as usize })
            });
        }
        self.nodes[h.id].parrent
    }

    /// The last layout rectangle of `h`.
    pub fn rect(&self, h: NodeRef) -> (r: Rect)
        requires
            self.live(h),
        ensures
            r == self.rect_of(h),
    {
        self.nodes[h.id].rect
    }

    /// The behavior bound to `h`.
    pub fn element(&self, h: NodeRef) -> (r: &Element)
        requires
            self.live(h),
        ensures
            *r == self.element_of(h),
    {
        &self.nodes[h.id].element
    }

    /// The concrete behavior of `h`, exactly when its type is `T`.
    pub fn cast_element<T: ElementCast>(&self, h: NodeRef) -> (r: Option<&T>)
        requires
            self.live(h),
        ensures
            match r {
                Some(v) => T::wraps(self.element_of(h)) == Some(*v),
                None => T::wraps(self.element_of(h)) is None,
            },
    {
        T::cast_ref(&self.nodes[h.id].element)
    }

    /// Exclusive access to the behavior bound to `h`. What the caller
    /// writes through it becomes the node's element; a write that leaves
    /// the element limits is possible and leaves the tree outside its
    /// invariant, so the dedicated mutators are preferred.
    pub fn element_mut(&mut self, h: NodeRef) -> (r: &mut Element)
        requires
            old(self).live(h),
        ensures
            *r == old(self).element_of(h),
            final (self).nodes_view() == old(self).nodes_view().update(
                h.id(),
                with_element(old(self).nodes_view()[h.id()], *final (r)),
            ),
            final (self).spec_root() == old(self).spec_root(),
    {
        let id: usize = h.id;
        let node = &mut self.nodes[id];
        &mut node.element
    }

    /// Exclusive access to the concrete behavior of `h`, exactly when its
    /// type is `T`. Only the element of `h` can change through the result.
    pub fn cast_element_mut<T: ElementCast>(&mut self, h: NodeRef) -> (r: Option<&mut T>)
        requires
            old(self).live(h),
        ensures
            final (self).spec_root() == old(self).spec_root(),
            final (self).nodes_view() == old(self).nodes_view().update(
                h.id(),
                with_element(old(self).nodes_view()[h.id()], final (self).element_of(h)),
            ),
            match r {
                Some(v) => T::wraps(old(self).element_of(h)) == Some(*v) && final (
                self).element_of(h) == (*final (v)).wrap(),
                None => T::wraps(old(self).element_of(h)) is None && final (self).element_of(h)
                    == old(self).element_of(h),
            },
    {
        let e = self.element_mut(h);
        T::cast_mut(e)
    }

    /// Swaps the node at slot `i` for `n`.
    pub(crate) fn replace_node(&mut self, i: usize, n: Node)
        requires
            i < old(self).nodes@.len(),
        ensures
            final (self).nodes@ == old(self).nodes@.update(i as int, n),
            final (self).root == old(self).root,
    {
        let _removed = self.nodes.remove(i);
        self.nodes.insert(i, n);
        proof {
            assert(self.nodes@ =~= old(self).nodes@.update(i as int, n));
        }
    }

    /// Sets the layout rectangle of `h`; everything else is untouched. Only
    /// a node's own `layout`, or an ancestor arranging it, calls this.
    pub fn set_rect(&mut self, h: NodeRef, rect: Rect)
        requires
            old(self).wf(),
            old(self).live(h),
            rect_limited(rect),
        ensures
            final (self).wf(),
            tree_same_shape(*old(self), *final (self)),
            final (self).nodes_view() == old(self).nodes_view().update(
                h.id(),
                with_rect(old(self).nodes_view()[h.id()], rect),
            ),
            final (self).rect_of(h) == rect,
            forall|j: int|
                0 <= j < old(self).node_count() && j != h.id() ==> final (self).rect_of_id(j) == old(
                    self,
                ).rect_of_id(j),
            forall|j: int|
                0 <= j < old(self).node_count() ==> final (self).element_of_id(j) == old(
                    self,
                ).element_of_id(j),
    {
        let id: usize = h.id;
        let mut n = self.nodes.remove(id);
        n.rect = rect;
        self.nodes.insert(id, n);
        proof {
            assert(self.nodes@ =~= old(self).nodes@.update(h.id(), n));
            assert forall|j: int| self.live_id(j) implies rect_limited(
                #[trigger] self.rect_of_id(j),
            ) by {
                if j != h.id() {
                    assert(self.rect_of_id(j) == old(self).rect_of_id(j));
                    assert(old(self).live_id(j));
                }
            }
            assert forall|j: int| self.live_id(j) implies elem_limited(
                #[trigger] self.element_of_id(j),
            ) by {
                assert(self.element_of_id(j) == old(self).element_of_id(j));
                assert(old(self).live_id(j));
            }
            lemma_wf_same_shape(*old(self), *self);
        }
    }
}

impl Tree {
    /// Runs the element's `init` for the freshly linked node `r`: behaviors
    /// that navigate the tree capture a weak self reference.
    pub(crate) fn init_node(&mut self, r: NodeRef)
        requires
            0 <= r.id() < old(self).nodes@.len(),
        ensures
            final (self).nodes@.len() == old(self).nodes@.len(),
            final (self).root == old(self).root,
            forall|j: int|
                0 <= j < old(self).nodes@.len() && j != r.id() ==> final (self).nodes@[j] == old(
                    self,
                ).nodes@[j],
            final (self).nodes@[r.id()].alive == old(self).nodes@[r.id()].alive,
            final (self).nodes@[r.id()].parrent == old(self).nodes@[r.id()].parrent,
            final (self).nodes@[r.id()].children@ == old(self).nodes@[r.id()].children@,
            final (self).nodes@[r.id()].rect == old(self).nodes@[r.id()].rect,
            final (self).nodes@[r.id()].element == spec_init_element(
                old(self).nodes@[r.id()].element,
                r,
            ),
    {
        let id: usize = r.id;
        let mut n = self.nodes.remove(id);
        match &mut n.element {
            Element::Border(b) => {
                b.node = r.downgrade();
            },
            Element::List(l) => {
                l.node = r.downgrade();
            },
            _ => {},
        }
        let ghost gn = n;
        self.nodes.insert(id, n);
        proof {
            assert(self.nodes@ =~= old(self).nodes@.update(r.id(), gn));
        }
    }

    /// Creates a new node owned by `parent`, appends it to the parent's
    /// children, sets its parent back reference, runs the element's `init`
    /// with a handle to the new node, and returns that handle. The handle is
    /// fresh: its index is the previous node count, which no earlier handle
    /// carries.
    pub fn add_child(&mut self, parent: NodeRef, element: Element) -> (r: NodeRef)
        requires
            old(self).wf(),
            old(self).live(parent),
            old(self).node_count() < MAX_NODES,
            elem_limited(element),
        ensures
            final (self).wf(),
            r.id() == old(self).node_count(),
            final (self).node_count() == old(self).node_count() + 1,
            final (self).spec_root() == old(self).spec_root(),
            final (self).live(r),
            final (self).children_of(r).len() == 0,
            final (self).parent_of(r) == Some(parent),
            final (self).rect_of(r) == (Rect {
                pos: Point { x: 0i64, y: 0i64 },
                size: Size { w: 0i64, h: 0i64 },
            }),
            final (self).element_of(r) == spec_init_element(element, r),
            final (self).children_of(parent) == old(self).children_of(parent).push(r),
            forall|j: int|
                0 <= j < old(self).node_count() ==> #[trigger] final (self).live_id(j) == old(
                    self,
                ).live_id(j),
            forall|j: int|
                0 <= j < old(self).node_count() && j != parent.id() ==> #[trigger] final (
                self).children_of_id(j) == old(self).children_of_id(j),
            forall|j: int|
                0 <= j < old(self).node_count() ==> #[trigger] final (self).parent_of_id(j) == old(
                    self,
                ).parent_of_id(j),
            forall|j: int|
                0 <= j < old(self).node_count() ==> #[trigger] final (self).rect_of_id(j) == old(
                    self,
                ).rect_of_id(j),
            forall|j: int|
                0 <= j < old(self).node_count() ==> #[trigger] final (self).element_of_id(j) == old(
                    self,
                ).element_of_id(j),
    {
        let id: usize = self.nodes.len();
        let r = NodeRef { id };
        let mut pnode = self.nodes.remove(parent.id);
        pnode.children.push(r);
        let ghost gpnode = pnode;
        self.nodes.insert(parent.id, pnode);
        proof {
            assert(self.nodes@ =~= old(self).nodes@.update(parent.id(), gpnode));
        }
        self.nodes.push(
            Node {
                alive: true,
                parrent: Some(parent),
                children: Vec::new(),
                rect: Rect::zero(),
                element,
            },
        );
        let ghost t2 = *self;
        self.init_node(r);
        proof {
            let t0 = *old(self);
            let t3 = *self;
            assert(t3.nodes@.len() == t0.nodes@.len() + 1);
            assert forall|j: int|
                0 <= j < t0.node_count() && j != parent.id() implies t3.nodes@[j] == t0.nodes@[j] by {
                assert(t2.nodes@[j] == t0.nodes@.update(parent.id(), gpnode)[j]);
            }
            assert(t3.nodes@[parent.id()].children@ == t0.nodes@[parent.id()].children@.push(r));
            assert(t3.nodes@[parent.id()].alive == t0.nodes@[parent.id()].alive);
            assert(t3.nodes@[parent.id()].parrent == t0.nodes@[parent.id()].parrent);
            assert(t3.nodes@[parent.id()].rect == t0.nodes@[parent.id()].rect);
            assert(t3.nodes@[parent.id()].element == t0.nodes@[parent.id()].element);
            assert(t3.nodes@[r.id()].element == spec_init_element(element, r));
            assert(t3.nodes@[r.id()].alive);
            assert(t3.nodes@[r.id()].parrent == Some(parent));
            assert(t3.nodes@[r.id()].children@.len() == 0);
            lemma_init_elem_limited(element, r);
            lemma_add_child_wf(t0, t3, parent, r);
        }
        r
    }
}

/// After linking a fresh node under `parent` and initializing its element,
/// the tree invariant holds again.
pub(crate) proof fn lemma_add_child_wf(t0: Tree, t3: Tree, parent: NodeRef, r: NodeRef)
    requires
        t0.wf(),
        t0.live(parent),
        t0.node_count() < MAX_NODES,
        r.id() == t0.node_count(),
        t3.node_count() == t0.node_count() + 1,
        t3.spec_root() == t0.spec_root(),
        forall|j: int|
            0 <= j < t0.node_count() ==> #[trigger] t3.live_id(j) == t0.live_id(j),
        forall|j: int|
            0 <= j < t0.node_count() && j != parent.id() ==> #[trigger] t3.children_of_id(j)
                == t0.children_of_id(j),
        forall|j: int|
            0 <= j < t0.node_count() ==> #[trigger] t3.parent_of_id(j) == t0.parent_of_id(j),
        forall|j: int|
            0 <= j < t0.node_count() ==> #[trigger] t3.rect_of_id(j) == t0.rect_of_id(j),
        forall|j: int|
            0 <= j < t0.node_count() ==> #[trigger] t3.element_of_id(j) == t0.element_of_id(j),
        t3.children_of_id(parent.id()) == t0.children_of_id(parent.id()).push(r),
        t3.live_id(r.id()),
        t3.children_of_id(r.id()).len() == 0,
        t3.parent_of_id(r.id()) == Some(parent),
        rect_limited(t3.rect_of_id(r.id())),
        elem_limited(t3.element_of_id(r.id())),
    ensures
        t3.wf(),
{
    let n0 = t0.node_count();
    assert forall|i: int, k: int|
        0 <= i < t3.nodes@.len() && 0 <= k < t3.nodes@[i].children@.len() implies i < (
    #[trigger] t3.nodes@[i].children@[k]).id() < t3.nodes@.len() by {
        assert(t3.nodes@[i].children@ == t3.children_of_id(i));
        if i == r.id() {
            // the new node has no children
        } else if i == parent.id() {
            assert(t3.children_of_id(i) == t0.children_of_id(i).push(r));
            if k < t0.children_of_id(i).len() {
                assert(t0.nodes@[i].children@[k] == t3.children_of_id(i)[k]);
            } else {
                assert(t3.children_of_id(i)[k] == r);
            }
        } else {
            assert(t3.children_of_id(i) == t0.children_of_id(i));
            assert(t0.nodes@[i].children@[k] == t3.children_of_id(i)[k]);
        }
    }
    assert forall|i: int, k: int|
        t3.live_id(i) && 0 <= k < t3.children_of_id(i).len() implies {
        let c = (#[trigger] t3.children_of_id(i)[k]).id();
        &&& t3.live_id(c)
        &&& t3.parent_of_id(c) == Some(NodeRef { id: i as usize })
    } by {
        if i == r.id() {
            // no children
        } else {
            assert(t0.live_id(i));
            let c = t3.children_of_id(i)[k];
            if i == parent.id() && k == t0.children_of_id(i).len() {
                assert(c == r);
                assert(NodeRef { id: i as usize } == parent);
            } else {
                assert(c == t0.children_of_id(i)[k]);
                assert(t0.live_id(c.id()));
                assert(t0.parent_of_id(c.id()) == Some(NodeRef { id: i as usize }));
            }
        }
    }
    assert forall|i: int, k1: int, k2: int|
        t3.live_id(i) && 0 <= k1 < k2 < t3.children_of_id(i).len() implies #[trigger] t3.children_of_id(
        i,
    )[k1] != #[trigger] t3.children_of_id(i)[k2] by {
        if i != r.id() {
            assert(t0.live_id(i));
            if i == parent.id() {
                if k2 == t0.children_of_id(i).len() {
                    // the fresh index is larger than any index already present
                    assert(t3.children_of_id(i)[k1] == t0.children_of_id(i)[k1]);
                    assert(t0.nodes@[i].children@[k1] == t0.children_of_id(i)[k1]);
                    assert(t0.children_of_id(i)[k1].id() < n0);
                } else {
                    assert(t3.children_of_id(i)[k1] == t0.children_of_id(i)[k1]);
                    assert(t3.children_of_id(i)[k2] == t0.children_of_id(i)[k2]);
                }
            }
        }
    }
    assert forall|i: int|
        t3.live_id(i) && (#[trigger] t3.parent_of_id(i)) is Some implies {
        let p = t3.parent_of_id(i)->Some_0.id();
        &&& t3.live_id(p)
        &&& t3.children_of_id(p).contains(NodeRef { id: i as usize })
    } by {
        if i == r.id() {
            assert(t3.parent_of_id(i) == Some(parent));
            assert(t3.live_id(parent.id()));
            let s = t3.children_of_id(parent.id());
            assert(s[s.len() - 1] == r);
            assert(NodeRef { id: i as usize } == r);
            assert(s.contains(NodeRef { id: i as usize }));
        } else {
            assert(t0.live_id(i));
            assert(t0.parent_of_id(i) is Some);
            let p = t0.parent_of_id(i)->Some_0.id();
            assert(t0.live_id(p));
            assert(t0.children_of_id(p).contains(NodeRef { id: i as usize }));
            if p == parent.id() {
                lemma_push_contains(t0.children_of_id(p), r, NodeRef { id: i as usize });
            }
        }
    }
    assert(t3.wf_root()) by {
        match t3.spec_root() {
            Some(r0) => {
                assert(t0.live_id(r0.id()));
                assert(t3.parent_of_id(r0.id()) == t0.parent_of_id(r0.id()));
            },
            None => {},
        }
    }
    assert forall|i: int| t3.live_id(i) implies rect_limited(#[trigger] t3.rect_of_id(i)) by {
        if i != r.id() {
            assert(t0.live_id(i));
            assert(t3.rect_of_id(i) == t0.rect_of_id(i));
        }
    }
    assert forall|i: int| t3.live_id(i) implies elem_limited(#[trigger] t3.element_of_id(i)) by {
        if i != r.id() {
            assert(t0.live_id(i));
            assert(t3.element_of_id(i) == t0.element_of_id(i));
        }
    }
}

/// Appending keeps every element a sequence already contains.
pub(crate) proof fn lemma_push_contains(s: Seq<NodeRef>, x: NodeRef, y: NodeRef)
    requires
        s.contains(y),
    ensures
        s.push(x).contains(y),
{
    let k = choose|k: int| 0 <= k < s.len() && s[k] == y;
    assert(s.push(x)[k] == y);
}

/// Initialization only captures a self reference; margins and offsets, and
/// with them the element bounds, are untouched.
pub(crate) proof fn lemma_init_elem_limited(e: Element, r: NodeRef)
    ensures
        elem_limited(spec_init_element(e, r)) == elem_limited(e),
{
}

/// In any well-formed tree the root has no parent and is alive; a freshly
/// created node has no children (see `add_child`), so a leaf's children
/// view is empty.
pub proof fn lemma_root_has_no_parrent(t: Tree)
    requires
        t.wf(),
        t.spec_root() is Some,
    ensures
        t.parent_of(t.spec_root()->Some_0) is None,
        t.live(t.spec_root()->Some_0),
{
}

/// Downcasting an element succeeds exactly on its true concrete type and
/// fails on every other.
pub proof fn lemma_cast_exact(e: Element)
    ensures
        <TestElement as ElementCast>::wraps(e) is Some <==> e is Test,
        <TestBorder as ElementCast>::wraps(e) is Some <==> e is Border,
        <TestList as ElementCast>::wraps(e) is Some <==> e is List,
        <TestListItem as ElementCast>::wraps(e) is Some <==> e is ListItem,
        <StubElement as ElementCast>::wraps(e) is Some <==> e is Stub,
{
}

/// Whether slot `j` lies in the subtree rooted at slot `r`: it is `r`
/// itself, or it lies in the subtree of one of `r`'s children.
pub open(crate) spec fn in_subtree(t: Tree, r: int, j: int) -> bool
    decreases t.node_count() - r,
{
    if 0 <= r < t.node_count() {
        ||| j == r
        ||| exists|k: int|
            0 <= k < t.children_of_id(r).len() && r < (#[trigger] t.children_of_id(r)[k]).id()
                < t.node_count() && in_subtree(t, t.children_of_id(r)[k].id(), j)
    } else {
        false
    }
}

/// Which subtree a slot belongs to depends only on the children structure,
/// not on liveness, rectangles or elements.
pub(crate) proof fn lemma_in_subtree_congruent(a: Tree, b: Tree, r: int, j: int)
    requires
        a.node_count() == b.node_count(),
        forall|x: int|
            0 <= x < a.node_count() ==> #[trigger] a.children_of_id(x) == b.children_of_id(x),
    ensures
        in_subtree(a, r, j) == in_subtree(b, r, j),
    decreases a.node_count() - r,
{
    if 0 <= r < a.node_count() {
        assert(a.children_of_id(r) == b.children_of_id(r));
        if in_subtree(a, r, j) && j != r {
            let k = choose|k: int|
                0 <= k < a.children_of_id(r).len() && r < (#[trigger] a.children_of_id(r)[k]).id()
                    < a.node_count() && in_subtree(a, a.children_of_id(r)[k].id(), j);
            lemma_in_subtree_congruent(a, b, a.children_of_id(r)[k].id(), j);
            assert(in_subtree(b, b.children_of_id(r)[k].id(), j));
            assert(in_subtree(b, r, j));
        }
        if in_subtree(b, r, j) && j != r {
            let k = choose|k: int|
                0 <= k < b.children_of_id(r).len() && r < (#[trigger] b.children_of_id(r)[k]).id()
                    < b.node_count() && in_subtree(b, b.children_of_id(r)[k].id(), j);
            lemma_in_subtree_congruent(a, b, b.children_of_id(r)[k].id(), j);
            assert(in_subtree(a, a.children_of_id(r)[k].id(), j));
            assert(in_subtree(a, r, j));
        }
    }
}

/// In a well-formed tree, every node of a subtree rooted at a live node is
/// live.
pub(crate) proof fn lemma_subtree_live(t: Tree, r: int, j: int)
    requires
        t.wf(),
        t.live_id(r),
        in_subtree(t, r, j),
    ensures
        t.live_id(j),
    decreases t.node_count() - r,
{
    if j != r {
        let k = choose|k: int|
            0 <= k < t.children_of_id(r).len() && r < (#[trigger] t.children_of_id(r)[k]).id()
                < t.node_count() && in_subtree(t, t.children_of_id(r)[k].id(), j);
        assert(t.live_id(t.children_of_id(r)[k].id()));
        lemma_subtree_live(t, t.children_of_id(r)[k].id(), j);
    }
}

/// A child of a subtree node lies in the subtree as well.
pub(crate) proof fn lemma_subtree_child(t: Tree, r: int, j: int, k: int)
    requires
        t.wf(),
        t.live_id(r),
        in_subtree(t, r, j),
        0 <= k < t.children_of_id(j).len(),
    ensures
        in_subtree(t, r, t.children_of_id(j)[k].id()),
    decreases t.node_count() - r,
{
    lemma_subtree_live(t, r, j);
    let c = t.children_of_id(j)[k].id();
    assert(t.nodes@[j].children@[k] == t.children_of_id(j)[k]);
    assert(j < c < t.node_count());
    if j == r {
        assert(in_subtree(t, c, c));
        assert(in_subtree(t, r, c));
    } else {
        let m = choose|m: int|
            0 <= m < t.children_of_id(r).len() && r < (#[trigger] t.children_of_id(r)[m]).id()
                < t.node_count() && in_subtree(t, t.children_of_id(r)[m].id(), j);
        assert(t.live_id(t.children_of_id(r)[m].id()));
        lemma_subtree_child(t, t.children_of_id(r)[m].id(), j, k);
        assert(in_subtree(t, r, c));
    }
}

/// Inside a live subtree, any node but the subtree root has its parent in
/// the subtree too.
pub(crate) proof fn lemma_subtree_parent(t: Tree, r: int, j: int)
    requires
        t.wf(),
        t.live_id(r),
        in_subtree(t, r, j),
        j != r,
    ensures
        t.parent_of_id(j) is Some,
        in_subtree(t, r, t.parent_of_id(j)->Some_0.id()),
    decreases t.node_count() - r,
{
    let k = choose|k: int|
        0 <= k < t.children_of_id(r).len() && r < (#[trigger] t.children_of_id(r)[k]).id()
            < t.node_count() && in_subtree(t, t.children_of_id(r)[k].id(), j);
    let c = t.children_of_id(r)[k].id();
    assert(t.live_id(c));
    if j == c {
        assert(t.parent_of_id(j) == Some(NodeRef { id: r as usize }));
        assert(in_subtree(t, r, r));
    } else {
        lemma_subtree_parent(t, c, j);
        let p = t.parent_of_id(j)->Some_0.id();
        assert(in_subtree(t, c, p));
        assert(in_subtree(t, r, p));
    }
}

/// Whether `j` is node `i` itself or lies in the subtree of one of the
/// first `k` children of `i`.
spec fn killed_prefix(t: Tree, i: int, k: int, j: int) -> bool {
    ||| j == i
    ||| exists|m: int|
        0 <= m < k && in_subtree(t, (#[trigger] t.children_of_id(i)[m]).id(), j)
}

proof fn lemma_killed_prefix_step(t: Tree, i: int, k: int, j: int)
    requires
        0 <= k < t.children_of_id(i).len(),
    ensures
        killed_prefix(t, i, k + 1, j) == (killed_prefix(t, i, k, j) || in_subtree(
            t,
            t.children_of_id(i)[k].id(),
            j,
        )),
{
    if killed_prefix(t, i, k + 1, j) && j != i {
        let m = choose|m: int|
            0 <= m < k + 1 && in_subtree(t, (#[trigger] t.children_of_id(i)[m]).id(), j);
        if m < k {
            assert(killed_prefix(t, i, k, j));
        } else {
            assert(in_subtree(t, t.children_of_id(i)[k].id(), j));
        }
    }
    if killed_prefix(t, i, k, j) {
        if j != i {
            let m = choose|m: int|
                0 <= m < k && in_subtree(t, (#[trigger] t.children_of_id(i)[m]).id(), j);
            assert(0 <= m < k + 1 && in_subtree(t, t.children_of_id(i)[m].id(), j));
            assert(killed_prefix(t, i, k + 1, j));
        }
    }
    if in_subtree(t, t.children_of_id(i)[k].id(), j) {
        assert(killed_prefix(t, i, k + 1, j));
    }
}

proof fn lemma_killed_prefix_full(t: Tree, i: int, j: int)
    requires
        t.ordered(),
        0 <= i < t.node_count(),
    ensures
        killed_prefix(t, i, t.children_of_id(i).len() as int, j) == in_subtree(t, i, j),
{
    let n = t.children_of_id(i).len() as int;
    if killed_prefix(t, i, n, j) && j != i {
        let m = choose|m: int|
            0 <= m < n && in_subtree(t, (#[trigger] t.children_of_id(i)[m]).id(), j);
        assert(t.nodes@[i].children@[m] == t.children_of_id(i)[m]);
        assert(i < t.children_of_id(i)[m].id() < t.node_count());
        assert(in_subtree(t, i, j));
    }
    if in_subtree(t, i, j) && j != i {
        let k = choose|k: int|
            0 <= k < t.children_of_id(i).len() && i < (#[trigger] t.children_of_id(i)[k]).id()
                < t.node_count() && in_subtree(t, t.children_of_id(i)[k].id(), j);
        assert(killed_prefix(t, i, n, j));
    }
}

impl Tree {
    /// Marks the node at slot `i` and its whole subtree dead. Structure,
    /// rectangles and elements of every slot stay as they were; only
    /// liveness changes, and exactly on the subtree.
    pub(crate) fn kill_subtree(&mut self, i: usize)
        requires
            old(self).ordered(),
            i < old(self).nodes@.len(),
        ensures
            final (self).nodes@.len() == old(self).nodes@.len(),
            final (self).root == old(self).root,
            forall|j: int|
                0 <= j < old(self).node_count() ==> {
                    &&& (#[trigger] final (self).nodes@[j]).parrent == old(self).nodes@[j].parrent
                    &&& final (self).nodes@[j].children@ == old(self).nodes@[j].children@
                    &&& final (self).nodes@[j].rect == old(self).nodes@[j].rect
                    &&& final (self).nodes@[j].element == old(self).nodes@[j].element
                },
            forall|j: int|
                0 <= j < old(self).node_count() ==> (#[trigger] final (self).live_id(j) <==> (old(
                    self,
                ).live_id(j) && !in_subtree(*old(self), i as int, j))),
        decreases old(self).nodes@.len() - i,
    {
        let ghost t0 = *old(self);
        let mut n = self.nodes.remove(i);
        n.alive = false;
        let ghost gn = n;
        self.nodes.insert(i, n);
        proof {
            assert(self.nodes@ =~= t0.nodes@.update(i as int, gn));
        }
        let num: usize = self.nodes[i].children.len();
        let mut k: usize = 0;
        while k < num
            invariant
                t0 == *old(self),
                i < t0.nodes@.len(),
                t0.ordered(),
                num == t0.children_of_id(i as int).len(),
                k <= num,
                self.nodes@.len() == t0.nodes@.len(),
                self.root == t0.root,
                forall|j: int|
                    0 <= j < t0.node_count() ==> {
                        &&& (#[trigger] self.nodes@[j]).parrent == t0.nodes@[j].parrent
                        &&& self.nodes@[j].children@ == t0.nodes@[j].children@
                        &&& self.nodes@[j].rect == t0.nodes@[j].rect
                        &&& self.nodes@[j].element == t0.nodes@[j].element
                    },
                forall|j: int|
                    0 <= j < t0.node_count() ==> (#[trigger] self.live_id(j) <==> (t0.live_id(j)
                        && !killed_prefix(t0, i as int, k as int, j))),
            decreases num - k,
        {
            let c: NodeRef = self.nodes[i].children[k];
            proof {
                assert(self.nodes@[i as int].children@ == t0.nodes@[i as int].children@);
                assert(t0.nodes@[i as int].children@[k as int] == c);
                assert(i < c.id() < t0.node_count());
                assert forall|x: int, k2: int|
                    0 <= x < self.nodes@.len() && 0 <= k2 < self.nodes@[x].children@.len() implies x
                    < (#[trigger] self.nodes@[x].children@[k2]).id() < self.nodes@.len() by {
                    assert(self.nodes@[x].children@ == t0.nodes@[x].children@);
                    assert(t0.nodes@[x].children@[k2] == self.nodes@[x].children@[k2]);
                }
            }
            let ghost pre = *self;
            self.kill_subtree(c.id);
            proof {
                assert forall|j: int|
                    0 <= j < t0.node_count() implies (#[trigger] self.live_id(j) <==> (t0.live_id(j)
                        && !killed_prefix(t0, i as int, (k + 1) as int, j))) by {
                    assert forall|x: int|
                        0 <= x < pre.node_count() implies #[trigger] pre.children_of_id(x)
                        == t0.children_of_id(x) by {
                        assert(pre.nodes@[x].children@ == t0.nodes@[x].children@);
                    }
                    lemma_in_subtree_congruent(pre, t0, c.id(), j);
                    lemma_killed_prefix_step(t0, i as int, k as int, j);
                }
            }
            k += 1;
        }
        proof {
            assert forall|j: int|
                0 <= j < t0.node_count() implies (#[trigger] self.live_id(j) <==> (t0.live_id(j)
                    && !in_subtree(t0, i as int, j))) by {
                lemma_killed_prefix_full(t0, i as int, j);
            }
        }
    }

    /// Replaces the tree's root. The previous subtree, if any, is destroyed:
    /// every handle into it goes stale. The new root's element, if one is
    /// given, is initialized once the node is fully linked, and a strong
    /// handle to it is returned.
    pub fn set_root(&mut self, element: Option<Element>) -> (r: Option<NodeRef>)
        requires
            old(self).wf(),
            old(self).node_count() < MAX_NODES,
            element matches Some(e) ==> elem_limited(e),
        ensures
            final (self).wf(),
            r == final (self).spec_root(),
            r is Some <==> element is Some,
            forall|j: int|
                0 <= j < old(self).node_count() ==> (#[trigger] final (self).live_id(j) <==> (old(
                    self,
                ).live_id(j) && !(old(self).spec_root() matches Some(r0) && in_subtree(
                    *old(self),
                    r0.id(),
                    j,
                )))),
            forall|j: int|
                0 <= j < old(self).node_count() ==> #[trigger] final (self).children_of_id(j)
                    == old(self).children_of_id(j),
            forall|j: int|
                0 <= j < old(self).node_count() ==> #[trigger] final (self).parent_of_id(j) == old(
                    self,
                ).parent_of_id(j),
            forall|j: int|
                0 <= j < old(self).node_count() ==> #[trigger] final (self).rect_of_id(j) == old(
                    self,
                ).rect_of_id(j),
            forall|j: int|
                0 <= j < old(self).node_count() ==> #[trigger] final (self).element_of_id(j) == old(
                    self,
                ).element_of_id(j),
            element is None ==> final (self).node_count() == old(self).node_count(),
            r matches Some(nr) ==> {
                &&& nr.id() == old(self).node_count()
                &&& final (self).node_count() == old(self).node_count() + 1
                &&& final (self).live(nr)
                &&& final (self).parent_of(nr) is None
                &&& final (self).children_of(nr).len() == 0
                &&& final (self).rect_of(nr) == (Rect {
                    pos: Point { x: 0i64, y: 0i64 },
                    size: Size { w: 0i64, h: 0i64 },
                })
                &&& element matches Some(e) ==> final (self).element_of(nr) == spec_init_element(
                    e,
                    nr,
                )
            },
    {
        let ghost t0 = *old(self);
        let prev = self.root;
        if let Some(r0) = prev {
            self.kill_subtree(r0.id);
        }
        let ghost s2 = *self;
        self.root = None;
        let ghost t1 = *self;
        proof {
            assert(t1.nodes@ == s2.nodes@);
            assert forall|j: int|
                0 <= j < t0.node_count() implies {
                &&& (#[trigger] t1.nodes@[j]).parrent == t0.nodes@[j].parrent
                &&& t1.nodes@[j].children@ == t0.nodes@[j].children@
                &&& t1.nodes@[j].rect == t0.nodes@[j].rect
                &&& t1.nodes@[j].element == t0.nodes@[j].element
            } by {
                if prev is Some {
                    assert((s2.nodes@[j]).parrent == t0.nodes@[j].parrent);
                    assert(s2.nodes@[j].children@ == t0.nodes@[j].children@);
                    assert(s2.nodes@[j].rect == t0.nodes@[j].rect);
                    assert(s2.nodes@[j].element == t0.nodes@[j].element);
                }
            }
            match prev {
                Some(r0) => {
                    assert forall|j: int|
                        0 <= j < t0.node_count() implies (#[trigger] t1.live_id(j) <==> (
                    t0.live_id(j) && !in_subtree(t0, r0.id(), j))) by {
                        assert(s2.live_id(j) <==> (t0.live_id(j) && !in_subtree(t0, r0.id(), j)));
                        assert(t1.nodes@[j] == s2.nodes@[j]);
                    }
                    lemma_wf_after_kill(t0, t1, r0.id());
                },
                None => {
                    assert(t1.nodes@ == t0.nodes@);
                    assert forall|j: int|
                        0 <= j < t0.node_count() implies #[trigger] t1.live_id(j) == t0.live_id(
                        j,
                    ) by {
                        assert(t1.nodes@[j] == t0.nodes@[j]);
                    }
                    lemma_wf_same_root_change(t0, t1);
                },
            }
        }
        match element {
            None => None,
            Some(e) => {
                let id: usize = self.nodes.len();
                let nr = NodeRef { id };
                self.nodes.push(
                    Node {
                        alive: true,
                        parrent: None,
                        children: Vec::new(),
                        rect: Rect::zero(),
                        element: e,
                    },
                );
                self.root = Some(nr);
                self.init_node(nr);
                proof {
                    assert forall|j: int|
                        0 <= j < t1.node_count() implies #[trigger] self.nodes@[j]
                        == t1.nodes@[j] by {}
                    assert forall|j: int|
                        0 <= j < t0.node_count() implies {
                        &&& #[trigger] self.live_id(j) == t1.live_id(j)
                        &&& self.children_of_id(j) == t1.children_of_id(j)
                        &&& self.parent_of_id(j) == t1.parent_of_id(j)
                        &&& self.rect_of_id(j) == t1.rect_of_id(j)
                        &&& self.element_of_id(j) == t1.element_of_id(j)
                    } by {
                        assert(self.nodes@[j] == t1.nodes@[j]);
                    }
                    lemma_init_elem_limited(e, nr);
                    lemma_wf_new_root(t1, *self, nr);
                }
                Some(nr)
            },
        }
    }
}

/// Dropping the root reference of a well-formed tree whose nodes are
/// untouched leaves it well-formed.
pub(crate) proof fn lemma_wf_same_root_change(t0: Tree, t1: Tree)
    requires
        t0.wf(),
        t1.nodes@ == t0.nodes@,
        t1.spec_root() is None,
    ensures
        t1.wf(),
{
    assert forall|i: int, k: int|
        0 <= i < t1.nodes@.len() && 0 <= k < t1.nodes@[i].children@.len() implies i < (
    #[trigger] t1.nodes@[i].children@[k]).id() < t1.nodes@.len() by {
        assert(t0.nodes@[i].children@[k] == t1.nodes@[i].children@[k]);
    }
    assert forall|i: int, k: int|
        t1.live_id(i) && 0 <= k < t1.children_of_id(i).len() implies {
        let c = (#[trigger] t1.children_of_id(i)[k]).id();
        &&& t1.live_id(c)
        &&& t1.parent_of_id(c) == Some(NodeRef { id: i as usize })
    } by {
        assert(t0.live_id(i));
        let c = t0.children_of_id(i)[k].id();
        assert(t0.live_id(c));
    }
    assert forall|i: int, k1: int, k2: int|
        t1.live_id(i) && 0 <= k1 < k2 < t1.children_of_id(i).len() implies #[trigger] t1.children_of_id(
        i,
    )[k1] != #[trigger] t1.children_of_id(i)[k2] by {
        assert(t0.live_id(i));
        assert(t0.children_of_id(i)[k1] != t0.children_of_id(i)[k2]);
    }
    assert forall|i: int|
        t1.live_id(i) && (#[trigger] t1.parent_of_id(i)) is Some implies {
        let p = t1.parent_of_id(i)->Some_0.id();
        &&& t1.live_id(p)
        &&& t1.children_of_id(p).contains(NodeRef { id: i as usize })
    } by {
        assert(t0.live_id(i));
        assert(t0.parent_of_id(i) is Some);
        let p = t0.parent_of_id(i)->Some_0.id();
        assert(t0.live_id(p));
        assert(t0.children_of_id(p).contains(NodeRef { id: i as usize }));
    }
    assert forall|i: int| t1.live_id(i) implies rect_limited(#[trigger] t1.rect_of_id(i)) by {
        assert(t0.live_id(i));
        assert(rect_limited(t0.rect_of_id(i)));
    }
    assert forall|i: int| t1.live_id(i) implies elem_limited(#[trigger] t1.element_of_id(i)) by {
        assert(t0.live_id(i));
        assert(elem_limited(t0.element_of_id(i)));
    }
}

/// Killing the subtree of a parentless live node restores the invariant:
/// the survivors' children and parents all survive.
pub(crate) proof fn lemma_wf_after_kill(t0: Tree, t1: Tree, r0: int)
    requires
        t0.wf(),
        t0.live_id(r0),
        t0.parent_of_id(r0) is None,
        t1.node_count() == t0.node_count(),
        t1.spec_root() is None,
        forall|j: int|
            0 <= j < t0.node_count() ==> {
                &&& (#[trigger] t1.nodes@[j]).parrent == t0.nodes@[j].parrent
                &&& t1.nodes@[j].children@ == t0.nodes@[j].children@
                &&& t1.nodes@[j].rect == t0.nodes@[j].rect
                &&& t1.nodes@[j].element == t0.nodes@[j].element
            },
        forall|j: int|
            0 <= j < t0.node_count() ==> (#[trigger] t1.live_id(j) <==> (t0.live_id(j)
                && !in_subtree(t0, r0, j))),
    ensures
        t1.wf(),
{
    assert forall|i: int, k: int|
        0 <= i < t1.nodes@.len() && 0 <= k < t1.nodes@[i].children@.len() implies i < (
    #[trigger] t1.nodes@[i].children@[k]).id() < t1.nodes@.len() by {
        assert(t1.nodes@[i].children@ == t0.nodes@[i].children@);
        assert(t0.nodes@[i].children@[k] == t1.nodes@[i].children@[k]);
    }
    assert forall|i: int, k: int|
        t1.live_id(i) && 0 <= k < t1.children_of_id(i).len() implies {
        let c = (#[trigger] t1.children_of_id(i)[k]).id();
        &&& t1.live_id(c)
        &&& t1.parent_of_id(c) == Some(NodeRef { id: i as usize })
    } by {
        assert(t0.live_id(i) && !in_subtree(t0, r0, i));
        assert(t1.children_of_id(i) == t0.children_of_id(i));
        let cref = t0.children_of_id(i)[k];
        let c = cref.id();
        assert(t0.live_id(c) && t0.parent_of_id(c) == Some(NodeRef { id: i as usize }));
        // if the child were inside the killed subtree, its parent would be
        // too, and the parent is live outside it
        if in_subtree(t0, r0, c) {
            if c == r0 {
                assert(t0.parent_of_id(c) is None);
                assert(false);
            } else {
                lemma_subtree_parent(t0, r0, c);
                assert(in_subtree(t0, r0, i));
                assert(false);
            }
        }
        assert(t1.parent_of_id(c) == t0.parent_of_id(c));
    }
    assert forall|i: int, k1: int, k2: int|
        t1.live_id(i) && 0 <= k1 < k2 < t1.children_of_id(i).len() implies #[trigger] t1.children_of_id(
        i,
    )[k1] != #[trigger] t1.children_of_id(i)[k2] by {
        assert(t0.live_id(i));
        assert(t1.children_of_id(i) == t0.children_of_id(i));
    }
    assert forall|i: int|
        t1.live_id(i) && (#[trigger] t1.parent_of_id(i)) is Some implies {
        let p = t1.parent_of_id(i)->Some_0.id();
        &&& t1.live_id(p)
        &&& t1.children_of_id(p).contains(NodeRef { id: i as usize })
    } by {
        assert(t0.live_id(i) && !in_subtree(t0, r0, i));
        assert(t1.parent_of_id(i) == t0.parent_of_id(i));
        let p = t0.parent_of_id(i)->Some_0.id();
        assert(t0.live_id(p));
        assert(t0.children_of_id(p).contains(NodeRef { id: i as usize }));
        if in_subtree(t0, r0, p) {
            let kidx = choose|kidx: int|
                0 <= kidx < t0.children_of_id(p).len() && t0.children_of_id(p)[kidx] == (NodeRef {
                    id: i as usize,
                });
            lemma_subtree_child(t0, r0, p, kidx);
            assert(in_subtree(t0, r0, i));
            assert(false);
        }
        assert(t1.children_of_id(p) == t0.children_of_id(p));
    }
    assert forall|i: int| t1.live_id(i) implies rect_limited(#[trigger] t1.rect_of_id(i)) by {
        assert(t0.live_id(i));
        assert(t1.rect_of_id(i) == t0.rect_of_id(i));
        assert(rect_limited(t0.rect_of_id(i)));
    }
    assert forall|i: int| t1.live_id(i) implies elem_limited(#[trigger] t1.element_of_id(i)) by {
        assert(t0.live_id(i));
        assert(t1.element_of_id(i) == t0.element_of_id(i));
        assert(elem_limited(t0.element_of_id(i)));
    }
}

/// Appending a fresh, parentless live node and making it the root restores
/// the invariant.
pub(crate) proof fn lemma_wf_new_root(t1: Tree, t3: Tree, nr: NodeRef)
    requires
        t1.wf(),
        t1.spec_root() is None,
        t1.node_count() < MAX_NODES,
        nr.id() == t1.node_count(),
        t3.node_count() == t1.node_count() + 1,
        t3.spec_root() == Some(nr),
        forall|j: int| 0 <= j < t1.node_count() ==> #[trigger] t3.nodes@[j] == t1.nodes@[j],
        t3.live_id(nr.id()),
        t3.parent_of_id(nr.id()) is None,
        t3.children_of_id(nr.id()).len() == 0,
        rect_limited(t3.rect_of_id(nr.id())),
        elem_limited(t3.element_of_id(nr.id())),
    ensures
        t3.wf(),
{
    assert forall|i: int, k: int|
        0 <= i < t3.nodes@.len() && 0 <= k < t3.nodes@[i].children@.len() implies i < (
    #[trigger] t3.nodes@[i].children@[k]).id() < t3.nodes@.len() by {
        if i != nr.id() {
            assert(t3.nodes@[i] == t1.nodes@[i]);
            assert(t1.nodes@[i].children@[k] == t3.nodes@[i].children@[k]);
        }
    }
    assert forall|i: int, k: int|
        t3.live_id(i) && 0 <= k < t3.children_of_id(i).len() implies {
        let c = (#[trigger] t3.children_of_id(i)[k]).id();
        &&& t3.live_id(c)
        &&& t3.parent_of_id(c) == Some(NodeRef { id: i as usize })
    } by {
        if i != nr.id() {
            assert(t3.nodes@[i] == t1.nodes@[i]);
            assert(t1.live_id(i));
            let c = t1.children_of_id(i)[k].id();
            assert(t1.live_id(c));
            assert(t3.nodes@[c] == t1.nodes@[c]);
        }
    }
    assert forall|i: int, k1: int, k2: int|
        t3.live_id(i) && 0 <= k1 < k2 < t3.children_of_id(i).len() implies #[trigger] t3.children_of_id(
        i,
    )[k1] != #[trigger] t3.children_of_id(i)[k2] by {
        if i != nr.id() {
            assert(t3.nodes@[i] == t1.nodes@[i]);
            assert(t1.live_id(i));
            assert(t1.children_of_id(i)[k1] != t1.children_of_id(i)[k2]);
        }
    }
    assert forall|i: int|
        t3.live_id(i) && (#[trigger] t3.parent_of_id(i)) is Some implies {
        let p = t3.parent_of_id(i)->Some_0.id();
        &&& t3.live_id(p)
        &&& t3.children_of_id(p).contains(NodeRef { id: i as usize })
    } by {
        assert(i != nr.id());
        assert(t3.nodes@[i] == t1.nodes@[i]);
        assert(t1.live_id(i));
        let p = t1.parent_of_id(i)->Some_0.id();
        assert(t1.live_id(p));
        assert(t3.nodes@[p] == t1.nodes@[p]);
        assert(t1.children_of_id(p).contains(NodeRef { id: i as usize }));
        assert(t3.children_of_id(p) == t1.children_of_id(p));
    }
    assert forall|i: int| t3.live_id(i) implies rect_limited(#[trigger] t3.rect_of_id(i)) by {
        if i != nr.id() {
            assert(t3.nodes@[i] == t1.nodes@[i]);
            assert(t1.live_id(i));
            assert(rect_limited(t1.rect_of_id(i)));
        }
    }
    assert forall|i: int| t3.live_id(i) implies elem_limited(#[trigger] t3.element_of_id(i)) by {
        if i != nr.id() {
            assert(t3.nodes@[i] == t1.nodes@[i]);
            assert(t1.live_id(i));
            assert(elem_limited(t1.element_of_id(i)));
        }
    }
}

impl Tree {
    /// Stores `w` as the remembered content reference of the border element
    /// bound to `h`.
    pub(crate) fn set_border_content(&mut self, h: NodeRef, w: NodeWeakRef)
        requires
            old(self).wf(),
            old(self).live(h),
            old(self).element_of(h) is Border,
        ensures
            final (self).wf(),
            tree_same_shape(*old(self), *final (self)),
            forall|j: int|
                0 <= j < old(self).node_count() ==> #[trigger] final (self).rect_of_id(j) == old(
                    self,
                ).rect_of_id(j),
            forall|j: int|
                0 <= j < old(self).node_count() && j != h.id() ==> #[trigger] final (
                self).element_of_id(j) == old(self).element_of_id(j),
            final (self).element_of(h) is Border,
            final (self).element_of(h)->Border_0.margin == old(self).element_of(
                h,
            )->Border_0.margin,
            final (self).element_of(h)->Border_0.node == old(self).element_of(h)->Border_0.node,
            final (self).element_of(h)->Border_0.content == Some(w),
    {
        let id: usize = h.id;
        let mut n = self.nodes.remove(id);
        match &mut n.element {
            Element::Border(b) => {
                b.content = Some(w);
            },
            _ => {},
        }
        let ghost gn = n;
        self.nodes.insert(id, n);
        proof {
            assert(self.nodes@ =~= old(self).nodes@.update(h.id(), gn));
            assert forall|j: int| self.live_id(j) implies rect_limited(
                #[trigger] self.rect_of_id(j),
            ) by {
                assert(self.rect_of_id(j) == old(self).rect_of_id(j));
                assert(old(self).live_id(j));
            }
            assert forall|j: int| self.live_id(j) implies elem_limited(
                #[trigger] self.element_of_id(j),
            ) by {
                assert(old(self).live_id(j));
                if j != h.id() {
                    assert(self.element_of_id(j) == old(self).element_of_id(j));
                }
            }
            lemma_wf_same_shape(*old(self), *self);
        }
    }

    /// Stores `off` as the vertical offset of the list row element bound to
    /// `h`. Only a list arranging its rows calls this.
    pub(crate) fn set_item_offset(&mut self, h: NodeRef, off: i64)
        requires
            old(self).wf(),
            old(self).live(h),
            old(self).element_of(h) is ListItem,
            -OFFSET_LIMIT <= off <= OFFSET_LIMIT,
        ensures
            final (self).wf(),
            tree_same_shape(*old(self), *final (self)),
            final (self).nodes_view() == old(self).nodes_view().update(
                h.id(),
                with_offset(old(self).nodes_view()[h.id()], off),
            ),
    {
        let id: usize = h.id;
        let mut n = self.nodes.remove(id);
        match &mut n.element {
            Element::ListItem(it) => {
                it.vertical_offset = off;
            },
            _ => {},
        }
        let ghost gn = n;
        self.nodes.insert(id, n);
        proof {
            assert(self.nodes@ =~= old(self).nodes@.update(h.id(), gn));
            assert(gn == with_offset(old(self).nodes_view()[h.id()], off));
            assert forall|j: int| self.live_id(j) implies rect_limited(
                #[trigger] self.rect_of_id(j),
            ) by {
                assert(self.rect_of_id(j) == old(self).rect_of_id(j));
                assert(old(self).live_id(j));
            }
            assert forall|j: int| self.live_id(j) implies elem_limited(
                #[trigger] self.element_of_id(j),
            ) by {
                assert(old(self).live_id(j));
                if j != h.id() {
                    assert(self.element_of_id(j) == old(self).element_of_id(j));
                }
            }
            lemma_wf_same_shape(*old(self), *self);
        }
    }

    /// Appends `w` to the remembered item references of the list element
    /// bound to `h`.
    pub(crate) fn push_list_item(&mut self, h: NodeRef, w: NodeWeakRef)
        requires
            old(self).wf(),
            old(self).live(h),
            old(self).element_of(h) is List,
            old(self).element_of(h)->List_0.child_items@.len() < MAX_NODES,
        ensures
            final (self).wf(),
            tree_same_shape(*old(self), *final (self)),
            forall|j: int|
                0 <= j < old(self).node_count() ==> #[trigger] final (self).rect_of_id(j) == old(
                    self,
                ).rect_of_id(j),
            forall|j: int|
                0 <= j < old(self).node_count() && j != h.id() ==> #[trigger] final (
                self).element_of_id(j) == old(self).element_of_id(j),
            final (self).element_of(h) is List,
            final (self).element_of(h)->List_0.node == old(self).element_of(h)->List_0.node,
            final (self).element_of(h)->List_0.child_items@ == old(self).element_of(
                h,
            )->List_0.child_items@.push(w),
    {
        let id: usize = h.id;
        let mut n = self.nodes.remove(id);
        match &mut n.element {
            Element::List(l) => {
                l.child_items.push(w);
            },
            _ => {},
        }
        let ghost gn = n;
        self.nodes.insert(id, n);
        proof {
            assert(self.nodes@ =~= old(self).nodes@.update(h.id(), gn));
            assert forall|j: int| self.live_id(j) implies rect_limited(
                #[trigger] self.rect_of_id(j),
            ) by {
                assert(self.rect_of_id(j) == old(self).rect_of_id(j));
                assert(old(self).live_id(j));
            }
            assert forall|j: int| self.live_id(j) implies elem_limited(
                #[trigger] self.element_of_id(j),
            ) by {
                assert(old(self).live_id(j));
                if j != h.id() {
                    assert(self.element_of_id(j) == old(self).element_of_id(j));
                }
            }
            lemma_wf_same_shape(*old(self), *self);
        }
    }
}

impl TestBorder {
    /// A border with the given margin, not yet bound to a node and with no
    /// content.
    pub fn new(margin: Thickness) -> (b: TestBorder)
        ensures
            b.margin == margin,
            b.node.target() is None,
            b.content is None,
    {
        TestBorder { margin, node: NodeWeakRef::empty(), content: None }
    }

    /// Adds `content` as a new child node of the border node `border` and
    /// remembers a weak reference to it as the border's content. Returns the
    /// content's handle.
    pub fn set_content(tree: &mut Tree, border: NodeRef, content: Element) -> (r: NodeRef)
        requires
            old(tree).wf(),
            old(tree).live(border),
            old(tree).node_count() < MAX_NODES,
            elem_limited(content),
            old(tree).element_of(border) is Border,
        ensures
            final (tree).wf(),
            r.id() == old(tree).node_count(),
            final (tree).node_count() == old(tree).node_count() + 1,
            final (tree).spec_root() == old(tree).spec_root(),
            final (tree).live(r),
            final (tree).parent_of(r) == Some(border),
            final (tree).children_of(r).len() == 0,
            final (tree).element_of(r) == spec_init_element(content, r),
            final (tree).children_of(border) == old(tree).children_of(border).push(r),
            final (tree).element_of(border) is Border,
            final (tree).element_of(border)->Border_0.margin == old(tree).element_of(
                border,
            )->Border_0.margin,
            final (tree).element_of(border)->Border_0.content == Some(weak_to(r)),
            forall|j: int|
                0 <= j < old(tree).node_count() ==> #[trigger] final (tree).live_id(j) == old(
                    tree,
                ).live_id(j),
            forall|j: int|
                0 <= j < old(tree).node_count() && j != border.id() ==> #[trigger] final (
                tree).children_of_id(j) == old(tree).children_of_id(j),
            forall|j: int|
                0 <= j < old(tree).node_count() ==> #[trigger] final (tree).parent_of_id(j) == old(
                    tree,
                ).parent_of_id(j),
            forall|j: int|
                0 <= j < old(tree).node_count() ==> #[trigger] final (tree).rect_of_id(j) == old(
                    tree,
                ).rect_of_id(j),
            forall|j: int|
                0 <= j < old(tree).node_count() && j != border.id() ==> #[trigger] final (
                tree).element_of_id(j) == old(tree).element_of_id(j),
    {
        let r = tree.add_child(border, content);
        let w = r.downgrade();
        tree.set_border_content(border, w);
        r
    }
}

impl TestList {
    /// An empty list, not yet bound to a node.
    pub fn new() -> (l: TestList)
        ensures
            l.node.target() is None,
            l.child_items@.len() == 0,
    {
        TestList { node: NodeWeakRef::empty(), child_items: Vec::new() }
    }

    /// Creates a new list row under the list node `list`: an item node is
    /// appended to the list's children and remembered by the list element,
    /// and `element` becomes the item's single child. Returns the element's
    /// handle; the item's handle is the last child of `list`.
    pub fn add_item(tree: &mut Tree, list: NodeRef, element: Element) -> (r: NodeRef)
        requires
            old(tree).wf(),
            old(tree).live(list),
            old(tree).node_count() + 2 <= MAX_NODES,
            elem_limited(element),
            old(tree).element_of(list) is List,
            old(tree).element_of(list)->List_0.child_items@.len() < MAX_NODES,
        ensures
            final (tree).wf(),
            final (tree).node_count() == old(tree).node_count() + 2,
            final (tree).spec_root() == old(tree).spec_root(),
            r.id() == old(tree).node_count() + 1,
            ({
                let item = final (tree).children_of(list).last();
                &&& item.id() == old(tree).node_count()
                &&& final (tree).children_of(list) == old(tree).children_of(list).push(item)
                &&& final (tree).live(item)
                &&& final (tree).parent_of(item) == Some(list)
                &&& final (tree).element_of(item) is ListItem
                &&& final (tree).element_of(item)->ListItem_0.vertical_offset == 0
                &&& final (tree).children_of(item) == seq![r]
                &&& final (tree).live(r)
                &&& final (tree).parent_of(r) == Some(item)
                &&& final (tree).element_of(r) == spec_init_element(element, r)
                &&& final (tree).children_of(r).len() == 0
                &&& final (tree).element_of(list) is List
                &&& final (tree).element_of(list)->List_0.node == old(tree).element_of(
                    list,
                )->List_0.node
                &&& final (tree).element_of(list)->List_0.child_items@ == old(tree).element_of(
                    list,
                )->List_0.child_items@.push(weak_to(item))
            }),
            forall|j: int|
                0 <= j < old(tree).node_count() ==> #[trigger] final (tree).live_id(j) == old(
                    tree,
                ).live_id(j),
            forall|j: int|
                0 <= j < old(tree).node_count() && j != list.id() ==> #[trigger] final (
                tree).children_of_id(j) == old(tree).children_of_id(j),
            forall|j: int|
                0 <= j < old(tree).node_count() ==> #[trigger] final (tree).parent_of_id(j) == old(
                    tree,
                ).parent_of_id(j),
            forall|j: int|
                0 <= j < old(tree).node_count() ==> #[trigger] final (tree).rect_of_id(j) == old(
                    tree,
                ).rect_of_id(j),
            forall|j: int|
                0 <= j < old(tree).node_count() && j != list.id() ==> #[trigger] final (
                tree).element_of_id(j) == old(tree).element_of_id(j),
    {
        let item = tree.add_child(list, Element::ListItem(TestListItem { vertical_offset: 0 }));
        let w = item.downgrade();
        tree.push_list_item(list, w);
        let ghost mid = *tree;
        let r = tree.add_child(item, element);
        proof {
            assert(tree.children_of(list) == old(tree).children_of(list).push(item));
            assert(tree.children_of(list).last() == item);
            assert(tree.children_of(item) =~= seq![r]);
        }
        r
    }
}

/// Two trees with the same slots, root, liveness, children and parents;
/// they may differ in rectangles and elements.
pub open(crate) spec fn tree_same_shape(a: Tree, b: Tree) -> bool {
    &&& b.node_count() == a.node_count()
    &&& b.spec_root() == a.spec_root()
    &&& forall|j: int| 0 <= j < a.node_count() ==> #[trigger] b.live_id(j) == a.live_id(j)
    &&& forall|j: int|
        0 <= j < a.node_count() ==> #[trigger] b.children_of_id(j) == a.children_of_id(j)
    &&& forall|j: int|
        0 <= j < a.node_count() ==> #[trigger] b.parent_of_id(j) == a.parent_of_id(j)
}

/// The invariant survives any change that keeps the shape and keeps every
/// live rectangle and element within limits.
pub(crate) proof fn lemma_wf_same_shape(a: Tree, b: Tree)
    requires
        a.wf(),
        tree_same_shape(a, b),
        forall|j: int| b.live_id(j) ==> rect_limited(#[trigger] b.rect_of_id(j)),
        forall|j: int| b.live_id(j) ==> elem_limited(#[trigger] b.element_of_id(j)),
    ensures
        b.wf(),
{
    assert forall|i: int, k: int|
        0 <= i < b.nodes@.len() && 0 <= k < b.nodes@[i].children@.len() implies i < (
    #[trigger] b.nodes@[i].children@[k]).id() < b.nodes@.len() by {
        assert(b.children_of_id(i) == a.children_of_id(i));
    }
    assert forall|i: int, k: int|
        b.live_id(i) && 0 <= k < b.children_of_id(i).len() implies {
        let c = (#[trigger] b.children_of_id(i)[k]).id();
        &&& b.live_id(c)
        &&& b.parent_of_id(c) == Some(NodeRef { id: i as usize })
    } by {
        assert(b.children_of_id(i) == a.children_of_id(i));
        assert(a.live_id(i));
        let c = a.children_of_id(i)[k].id();
        assert(a.live_id(c));
    }
    assert forall|i: int, k1: int, k2: int|
        b.live_id(i) && 0 <= k1 < k2 < b.children_of_id(i).len() implies #[trigger] b.children_of_id(
        i,
    )[k1] != #[trigger] b.children_of_id(i)[k2] by {
        assert(b.children_of_id(i) == a.children_of_id(i));
        assert(a.live_id(i));
    }
    assert forall|i: int|
        b.live_id(i) && (#[trigger] b.parent_of_id(i)) is Some implies {
        let p = b.parent_of_id(i)->Some_0.id();
        &&& b.live_id(p)
        &&& b.children_of_id(p).contains(NodeRef { id: i as usize })
    } by {
        assert(a.live_id(i));
        assert(a.parent_of_id(i) == b.parent_of_id(i));
        let p = a.parent_of_id(i)->Some_0.id();
        assert(a.live_id(p));
        assert(a.children_of_id(p).contains(NodeRef { id: i as usize }));
        assert(b.children_of_id(p) == a.children_of_id(p));
    }
    assert(b.wf_root()) by {
        if b.spec_root() is Some {
            let r = b.spec_root()->Some_0.id();
            assert(a.live_id(r));
            assert(a.parent_of_id(r) == b.parent_of_id(r));
        }
    }
}

} // verus!
