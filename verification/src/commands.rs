//! The render command list: an ordered, first-in-first-out sequence of
//! declarative drawing instructions, decoupled from any drawing backend.

use vstd::prelude::*;

use crate::geometry::Color;
use crate::geometry::Rect;

verus! {

/// One declarative drawing instruction. `Clear` fills the emitting node's
/// whole viewport; `Rect` fills a rectangle given in the node's own local
/// coordinate space.
#[derive(Clone, Copy, Debug, PartialEq, Eq, Structural)]
pub enum RenderCommand {
    Clear(Color),
    Rect(Rect, Color),
}

/// The drawing instructions one node emits for one render pass, in the
/// order they are to be executed. Produced once per node per pass and
/// consumed exactly once by the renderer.
#[derive(Debug)]
pub struct RenderCommandList {
    list: Vec<RenderCommand>,
}

impl View for RenderCommandList {
    type V = Seq<RenderCommand>;

    closed spec fn view(&self) -> Seq<RenderCommand> {
        self.list@
    }
}

impl RenderCommandList {
    /// An empty command list.
    pub fn new() -> (r: RenderCommandList)
        ensures
            r@.len() == 0,
    {
        RenderCommandList { list: Vec::new() }
    }

    /// Appends one command at the back.
    pub fn add(&mut self, command: RenderCommand)
        ensures
            final (self)@ == old(self)@.push(command),
    {
        self.list.push(command);
    }

    /// Appends every command of `commands` at the back, keeping the order
    /// of both lists.
    pub fn add_many(&mut self, commands: RenderCommandList)
        ensures
            final (self)@ == old(self)@ + commands@,
    {
        let mut rest = commands.to_list();
        self.list.append(&mut rest);
    }

    /// The commands in execution order, giving up the list.
    pub fn to_list(self) -> (r: Vec<RenderCommand>)
        ensures
            r@ == self@,
    {
        self.list
    }
}

} // verus!
