//! The renderer: walks the tree depth-first in painter's order, maintains a
//! stack of viewports in global surface coordinates, and executes each
//! node's command list against that stack, recording one primitive draw
//! call per command. A drawing backend consumes the recorded calls.

use vstd::prelude::*;

use crate::commands::RenderCommand;
use crate::commands::RenderCommandList;
use crate::geometry::Color;
use crate::geometry::Point;
use crate::geometry::Rect;
use crate::geometry::Size;
use crate::geometry::rect_in_range;
use crate::geometry::spec_transform_to_outer;
use crate::tree::Element;
use crate::tree::MAX_NODES;
use crate::tree::Node;
use crate::tree::NodeRef;
use crate::tree::RECT_LIMIT;
use crate::tree::Tree;
use crate::tree::rect_limited;

verus! {

/// One primitive draw call against the surface: fill `rect`, given in
/// global surface coordinates, with `color`.
#[derive(Clone, Copy, Debug, PartialEq, Eq, Structural)]
pub struct DrawOp {
    pub rect: Rect,
    pub color: Color,
}

/// Magnitude bound on the viewport in force when the node at slot `i` is
/// drawn: each level of the traversal translates by at most one stored
/// rectangle, and levels only ever descend to higher slots.
pub open(crate) spec fn vbound(i: int) -> int {
    (RECT_LIMIT as int) * (i + 1)
}

pub open(crate) spec fn rect_within(r: Rect, b: int) -> bool {
    &&& -b <= r.pos.x <= b
    &&& -b <= r.pos.y <= b
    &&& -b <= r.size.w <= b
    &&& -b <= r.size.h <= b
}

pub(crate) proof fn lemma_vbound_mono(i: int, j: int)
    requires
        0 <= i <= j,
    ensures
        (RECT_LIMIT as int) <= vbound(i) <= vbound(j),
{
    assert((RECT_LIMIT as int) * 1 <= (RECT_LIMIT as int) * (i + 1) <= (RECT_LIMIT as int) * (j
        + 1)) by (nonlinear_arith)
        requires
            0 <= i <= j,
    ;
}

pub(crate) proof fn lemma_vbound_cap(i: int)
    requires
        0 <= i < MAX_NODES as int,
    ensures
        vbound(i + 1) <= (RECT_LIMIT as int) * (MAX_NODES as int + 1),
{
    assert((RECT_LIMIT as int) * (i + 2) <= (RECT_LIMIT as int) * (MAX_NODES as int + 1))
        by (nonlinear_arith)
        requires
            0 <= i < MAX_NODES as int,
    ;
}

/// The draw call one command produces under the viewport `vp`: a clear
/// fills the whole viewport; a rectangle is translated out of the node's
/// local space.
pub open(crate) spec fn spec_draw(cmd: RenderCommand, vp: Rect) -> DrawOp {
    match cmd {
        RenderCommand::Clear(color) => DrawOp {
            rect: spec_transform_to_outer(
                vp,
                Rect { pos: Point { x: 0i64, y: 0i64 }, size: vp.size },
            ),
            color,
        },
        RenderCommand::Rect(r, color) => DrawOp { rect: spec_transform_to_outer(vp, r), color },
    }
}

/// The draw calls executing a whole command list produces, in order.
pub open(crate) spec fn spec_exec_cmds(cmds: Seq<RenderCommand>, vp: Rect) -> Seq<DrawOp> {
    cmds.map_values(|c: RenderCommand| spec_draw(c, vp))
}

/// A rectangle command small enough to translate without overflow; clears
/// carry no geometry of their own.
pub open(crate) spec fn cmd_in_range(cmd: RenderCommand) -> bool {
    match cmd {
        RenderCommand::Clear(_) => true,
        RenderCommand::Rect(r, _) => rect_in_range(r),
    }
}

/// The commands a node's element emits for one render pass: its own
/// drawing only, in its own local coordinate space.
pub open(crate) spec fn spec_render_cmds(e: Element) -> Seq<RenderCommand> {
    match e {
        Element::Test(_) => seq![
            RenderCommand::Clear(Color { a: 255u8, r: 255u8, g: 0u8, b: 0u8 }),
        ],
        Element::Border(_) => seq![
            RenderCommand::Clear(Color { a: 255u8, r: 0u8, g: 255u8, b: 0u8 }),
        ],
        Element::List(_) => seq![
            RenderCommand::Clear(Color { a: 255u8, r: 0u8, g: 255u8, b: 0u8 }),
        ],
        _ => Seq::empty(),
    }
}

impl Element {
    /// The drawing commands this element emits for its node, in the node's
    /// own local coordinate space: a leaf clears with red, the containers
    /// clear with green, rows and stubs draw nothing.
    pub fn render(&self) -> (r: RenderCommandList)
        ensures
            r@ == spec_render_cmds(*self),
    {
        let mut cmd = RenderCommandList::new();
        match self {
            Element::Test(_) => {
                cmd.add(RenderCommand::Clear(Color::argb(255, 255, 0, 0)));
            },
            Element::Border(_) => {
                cmd.add(RenderCommand::Clear(Color::argb(255, 0, 255, 0)));
            },
            Element::List(_) => {
                cmd.add(RenderCommand::Clear(Color::argb(255, 0, 255, 0)));
            },
            _ => {},
        }
        proof {
            assert(cmd@ =~= spec_render_cmds(*self));
        }
        cmd
    }
}

/// The renderer: the surface size (for the backend's normalization), the
/// viewport stack, and the draw calls recorded so far.
pub struct Renderer {
    pub(crate) size: Size,
    pub(crate) viewport_stack: Vec<Rect>,
    pub(crate) ops: Vec<DrawOp>,
}

impl Renderer {
    /// The surface size the renderer was created with.
    pub open(crate) spec fn surface_size(self) -> Size {
        self.size
    }

    /// The viewport stack, bottom first.
    pub open(crate) spec fn viewports(self) -> Seq<Rect> {
        self.viewport_stack@
    }

    /// The viewport currently in force: the top of the stack.
    pub open(crate) spec fn viewport_spec(self) -> Rect {
        self.viewport_stack@.last()
    }

    /// The draw calls recorded so far, in execution order.
    pub open(crate) spec fn ops_view(self) -> Seq<DrawOp> {
        self.ops@
    }

    /// A renderer for a surface of size `size`, with `viewport` as the
    /// initial (whole-surface) viewport and nothing drawn yet.
    pub fn new(size: Size, viewport: Rect) -> (r: Renderer)
        ensures
            r.surface_size() == size,
            r.viewports() == seq![viewport],
            r.ops_view().len() == 0,
    {
        let mut stack: Vec<Rect> = Vec::new();
        stack.push(viewport);
        proof {
            assert(stack@ =~= seq![viewport]);
        }
        Renderer { size, viewport_stack: stack, ops: Vec::new() }
    }

    /// The viewport currently in force.
    fn viewport(&self) -> (r: Rect)
        requires
            self.viewports().len() > 0,
        ensures
            r == self.viewport_spec(),
    {
        self.viewport_stack[self.viewport_stack.len() - 1]
    }

    /// Enters a nested local space: pushes `rect`, translated out of the
    /// current viewport, as the new top viewport.
    pub fn push_rect(&mut self, rect: Rect)
        requires
            old(self).viewports().len() > 0,
            rect_in_range(old(self).viewport_spec()),
            rect_in_range(rect),
        ensures
            final (self).viewports() == old(self).viewports().push(
                spec_transform_to_outer(old(self).viewport_spec(), rect),
            ),
            final (self).ops_view() == old(self).ops_view(),
            final (self).surface_size() == old(self).surface_size(),
    {
        let transformed = self.viewport().transform_to_outer(rect);
        self.viewport_stack.push(transformed);
    }

    /// Leaves the current local space: pops the top viewport.
    pub fn pop_rect(&mut self)
        requires
            old(self).viewports().len() > 0,
        ensures
            final (self).viewports() == old(self).viewports().drop_last(),
            final (self).ops_view() == old(self).ops_view(),
            final (self).surface_size() == old(self).surface_size(),
    {
        let _popped = self.viewport_stack.pop();
        proof {
            assert(self.viewport_stack@ =~= old(self).viewport_stack@.drop_last());
        }
    }

    /// Fills the whole current viewport with `color`.
    pub fn clear(&mut self, color: Color)
        requires
            old(self).viewports().len() > 0,
            rect_in_range(old(self).viewport_spec()),
        ensures
            final (self).ops_view() == old(self).ops_view().push(
                spec_draw(RenderCommand::Clear(color), old(self).viewport_spec()),
            ),
            final (self).viewports() == old(self).viewports(),
            final (self).surface_size() == old(self).surface_size(),
    {
        let size = self.viewport().size;
        self.rect(Rect::from_size(size), color);
    }

    /// Fills `rect`, given in the current local space, with `color`: the
    /// recorded draw call carries the rectangle translated into global
    /// surface coordinates.
    pub fn rect(&mut self, rect: Rect, color: Color)
        requires
            old(self).viewports().len() > 0,
            rect_in_range(old(self).viewport_spec()),
            rect_in_range(rect),
        ensures
            final (self).ops_view() == old(self).ops_view().push(
                spec_draw(RenderCommand::Rect(rect, color), old(self).viewport_spec()),
            ),
            final (self).viewports() == old(self).viewports(),
            final (self).surface_size() == old(self).surface_size(),
    {
        let vp = self.viewport();
        let transformed = vp.transform_to_outer(rect);
        self.ops.push(DrawOp { rect: transformed, color });
    }

    /// Executes a node's command list against the current viewport: one
    /// draw call per command, in list order. The list is consumed.
    pub fn execute(&mut self, commands: RenderCommandList)
        requires
            old(self).viewports().len() > 0,
            rect_in_range(old(self).viewport_spec()),
            forall|i: int| 0 <= i < commands@.len() ==> cmd_in_range(#[trigger] commands@[i]),
        ensures
            final (self).ops_view() == old(self).ops_view() + spec_exec_cmds(
                commands@,
                old(self).viewport_spec(),
            ),
            final (self).viewports() == old(self).viewports(),
            final (self).surface_size() == old(self).surface_size(),
    {
        let ghost all = commands@;
        let cmds = commands.to_list();
        let n: usize = cmds.len();
        let mut k: usize = 0;
        while k < n
            invariant
                all == cmds@,
                n == cmds@.len(),
                k <= n,
                forall|i: int| 0 <= i < all.len() ==> cmd_in_range(#[trigger] all[i]),
                self.viewports() == old(self).viewports(),
                self.viewports().len() > 0,
                self.viewport_spec() == old(self).viewport_spec(),
                rect_in_range(self.viewport_spec()),
                self.surface_size() == old(self).surface_size(),
                self.ops_view() == old(self).ops_view() + spec_exec_cmds(
                    all.take(k as int),
                    old(self).viewport_spec(),
                ),
            decreases n - k,
        {
            let cmd = cmds[k];
            match cmd {
                RenderCommand::Clear(color) => {
                    self.clear(color);
                },
                RenderCommand::Rect(rect, color) => {
                    self.rect(rect, color);
                },
            }
            proof {
                assert(spec_exec_cmds(all.take(k as int + 1), old(self).viewport_spec())
                    =~= spec_exec_cmds(all.take(k as int), old(self).viewport_spec()).push(
                    spec_draw(all[k as int], old(self).viewport_spec()),
                ));
                assert(self.ops_view() =~= old(self).ops_view() + spec_exec_cmds(
                    all.take(k as int + 1),
                    old(self).viewport_spec(),
                ));
            }
            k = k + 1;
        }
        proof {
            assert(all.take(n as int) =~= all);
            assert(self.ops_view() =~= old(self).ops_view() + spec_exec_cmds(
                all,
                old(self).viewport_spec(),
            ));
        }
    }

    /// The draw calls recorded so far, in execution order.
    pub fn ops(&self) -> (r: &Vec<DrawOp>)
        ensures
            r@ == self.ops_view(),
    {
        &self.ops
    }

    /// The recorded draw calls, giving up the renderer. The backend turns
    /// each into an actual drawing call.
    pub fn into_ops(self) -> (r: Vec<DrawOp>)
        ensures
            r@ == self.ops_view(),
    {
        self.ops
    }
}

/// The draw calls rendering the subtree at slot `i` produces, with `vp` as
/// the surrounding viewport: the node's own commands first, under the
/// node's own pushed viewport, then each child's calls in child order, so
/// that parents are drawn before children and later siblings on top.
pub open(crate) spec fn spec_render(nodes: Seq<Node>, i: int, vp: Rect) -> Seq<DrawOp>
    decreases nodes.len() - i, 1int, 0int,
{
    if 0 <= i < nodes.len() {
        let v = spec_transform_to_outer(vp, nodes[i].rect);
        spec_exec_cmds(spec_render_cmds(nodes[i].element), v) + spec_render_children(
            nodes,
            nodes[i].children@,
            0,
            i,
            v,
        )
    } else {
        Seq::empty()
    }
}

pub open(crate) spec fn spec_render_children(
    nodes: Seq<Node>,
    cs: Seq<NodeRef>,
    k: int,
    i: int,
    v: Rect,
) -> Seq<DrawOp>
    decreases nodes.len() - i, 0int, cs.len() - k,
{
    if 0 <= k < cs.len() {
        (if i < cs[k].id() < nodes.len() {
            spec_render(nodes, cs[k].id(), v)
        } else {
            Seq::empty()
        }) + spec_render_children(nodes, cs, k + 1, i, v)
    } else {
        Seq::empty()
    }
}

impl Tree {
    /// Renders the subtree rooted at `h`: pushes the node's rectangle onto
    /// the viewport stack, executes the node's own command list, recurses
    /// into the children in painter's order, and pops the viewport. The
    /// tree itself is untouched; the draw calls accumulate in `renderer`.
    pub fn render(&self, h: NodeRef, renderer: &mut Renderer)
        requires
            self.wf(),
            self.live(h),
            old(renderer).viewports().len() > 0,
            rect_within(old(renderer).viewport_spec(), vbound(h.id())),
        ensures
            final (renderer).surface_size() == old(renderer).surface_size(),
            final (renderer).viewports() == old(renderer).viewports(),
            final (renderer).ops_view() == old(renderer).ops_view() + spec_render(
                self.nodes_view(),
                h.id(),
                old(renderer).viewport_spec(),
            ),
        decreases self.nodes_view().len() - h.id(),
    {
        let ghost vp0 = old(renderer).viewport_spec();
        proof {
            assert(rect_limited(self.rect_of_id(h.id())));
            lemma_vbound_cap(h.id());
            lemma_vbound_mono(0, h.id());
            assert(rect_in_range(vp0));
        }
        let rect = self.rect(h);
        renderer.push_rect(rect);
        let ghost v = renderer.viewport_spec();
        proof {
            assert(v == spec_transform_to_outer(vp0, rect));
            assert(rect_within(v, vbound(h.id() + 1)));
            assert(rect_in_range(v));
        }
        let cmds = self.element(h).render();
        proof {
            assert(forall|i: int| 0 <= i < cmds@.len() ==> cmd_in_range(#[trigger] cmds@[i]));
        }
        renderer.execute(cmds);
        let ghost after_own = renderer.ops_view();
        let num: usize = self.children(h).len();
        let ghost cs = self.children_of_id(h.id());
        let mut k: usize = 0;
        while k < num
            invariant
                self.wf(),
                self.live(h),
                0 <= h.id() < self.nodes_view().len(),
                cs == self.children_of_id(h.id()),
                num == cs.len(),
                k <= num,
                v == spec_transform_to_outer(vp0, self.nodes_view()[h.id()].rect),
                rect_within(v, vbound(h.id() + 1)),
                renderer.viewports().len() > 0,
                renderer.viewports() == old(renderer).viewports().push(v),
                renderer.viewport_spec() == v,
                renderer.surface_size() == old(renderer).surface_size(),
                after_own == old(renderer).ops_view() + spec_exec_cmds(
                    spec_render_cmds(self.nodes_view()[h.id()].element),
                    v,
                ),
                renderer.ops_view() == after_own + spec_render_children_take(
                    self.nodes_view(),
                    cs,
                    k as int,
                    h.id(),
                    v,
                ),
            decreases num - k,
        {
            let c: NodeRef = self.children(h)[k];
            proof {
                assert(self.children_of_id(h.id())[k as int] == c);
                assert(self.nodes_view()[h.id()].children@[k as int] == c);
                assert(h.id() < c.id() < self.nodes_view().len());
                assert(self.live_id(c.id()));
                lemma_vbound_mono(h.id() + 1, c.id());
                assert(rect_within(v, vbound(c.id())));
            }
            self.render(c, renderer);
            proof {
                lemma_render_children_take_step(self.nodes_view(), cs, k as int, h.id(), v);
                assert(renderer.ops_view() =~= after_own + spec_render_children_take(
                    self.nodes_view(),
                    cs,
                    k as int + 1,
                    h.id(),
                    v,
                ));
            }
            k = k + 1;
        }
        renderer.pop_rect();
        proof {
            assert(renderer.viewports() =~= old(renderer).viewports());
            lemma_render_children_take_all(self.nodes_view(), cs, h.id(), v);
            assert(renderer.ops_view() =~= old(renderer).ops_view() + spec_render(
                self.nodes_view(),
                h.id(),
                vp0,
            ));
        }
    }
}

/// Painter's order: a node's own commands are drawn first, under the
/// node's own viewport, and only then its children's, in child-list order,
/// so a parent's drawing lies below its children's and later siblings lie
/// on top.
pub proof fn lemma_painters_order(t: Tree, h: NodeRef, vp: Rect)
    requires
        0 <= h.id() < t.node_count(),
    ensures
        ({
            let v = spec_transform_to_outer(vp, t.rect_of(h));
            spec_render(t.nodes_view(), h.id(), vp) == spec_exec_cmds(
                spec_render_cmds(t.element_of(h)),
                v,
            ) + spec_render_children(t.nodes_view(), t.children_of(h), 0, h.id(), v)
        }),
{
}

/// The draw calls of the first `k` children only.
pub open(crate) spec fn spec_render_children_take(
    nodes: Seq<Node>,
    cs: Seq<NodeRef>,
    k: int,
    i: int,
    v: Rect,
) -> Seq<DrawOp>
    decreases k,
{
    if 0 < k <= cs.len() {
        spec_render_children_take(nodes, cs, k - 1, i, v) + (if i < cs[k - 1].id() < nodes.len() {
            spec_render(nodes, cs[k - 1].id(), v)
        } else {
            Seq::empty()
        })
    } else {
        Seq::empty()
    }
}

pub(crate) proof fn lemma_render_children_take_step(
    nodes: Seq<Node>,
    cs: Seq<NodeRef>,
    k: int,
    i: int,
    v: Rect,
)
    requires
        0 <= k < cs.len(),
    ensures
        spec_render_children_take(nodes, cs, k + 1, i, v) == spec_render_children_take(
            nodes,
            cs,
            k,
            i,
            v,
        ) + (if i < cs[k].id() < nodes.len() {
            spec_render(nodes, cs[k].id(), v)
        } else {
            Seq::empty()
        }),
{
}

/// Processing all children front to back gives the same calls as the
/// recursive back-to-front description.
pub(crate) proof fn lemma_render_children_take_all(
    nodes: Seq<Node>,
    cs: Seq<NodeRef>,
    i: int,
    v: Rect,
)
    ensures
        spec_render_children_take(nodes, cs, cs.len() as int, i, v) == spec_render_children(
            nodes,
            cs,
            0,
            i,
            v,
        ),
{
    lemma_render_children_split(nodes, cs, 0, i, v);
    assert(spec_render_children_take(nodes, cs, 0, i, v) + spec_render_children(nodes, cs, 0, i, v)
        =~= spec_render_children(nodes, cs, 0, i, v));
}

/// The calls of the first `k` children followed by the calls of the rest
/// are the calls of all children.
pub(crate) proof fn lemma_render_children_split(
    nodes: Seq<Node>,
    cs: Seq<NodeRef>,
    k: int,
    i: int,
    v: Rect,
)
    requires
        0 <= k <= cs.len(),
    ensures
        spec_render_children_take(nodes, cs, cs.len() as int, i, v) == spec_render_children_take(
            nodes,
            cs,
            k,
            i,
            v,
        ) + spec_render_children(nodes, cs, k, i, v),
    decreases cs.len() - k,
{
    if k < cs.len() {
        lemma_render_children_split(nodes, cs, k + 1, i, v);
        lemma_render_children_take_step(nodes, cs, k, i, v);
        assert(spec_render_children_take(nodes, cs, k, i, v) + spec_render_children(
            nodes,
            cs,
            k,
            i,
            v,
        ) =~= spec_render_children_take(nodes, cs, k + 1, i, v) + spec_render_children(
            nodes,
            cs,
            k + 1,
            i,
            v,
        ));
    } else {
        assert(spec_render_children_take(nodes, cs, k, i, v) + spec_render_children(
            nodes,
            cs,
            k,
            i,
            v,
        ) =~= spec_render_children_take(nodes, cs, cs.len() as int, i, v));
    }
}

} // verus!

