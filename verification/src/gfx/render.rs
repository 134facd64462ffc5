//! What a GPU backend is to do with a display list, step by step.

use super::compositor::{Command, DisplayList, Pipeline};
use vstd::prelude::*;

verus! {

/// The render pipelines of a backend. Sub-pixel glyphs are drawn once for
/// each color channel, each time with the writes masked to that channel.
#[derive(Copy, Clone, PartialEq, Eq, Debug, Structural)]
pub enum RenderPipeline {
    Opaque,
    Transparent,
    SubpixelRed,
    SubpixelGreen,
    SubpixelBlue,
}

/// One step of a backend within a render pass.
#[derive(Copy, Clone, PartialEq, Eq, Debug, Structural)]
pub enum RenderOp {
    /// Make the pipeline current.
    SetPipeline(RenderPipeline),
    /// Bind the texture page of the given index.
    BindTexture(usize),
    /// Draw the indices `start..end`.
    DrawIndexed { start: u32, end: u32 },
}

/// Why a backend could not hand out the texture to draw the frame into.
#[derive(Copy, Clone, PartialEq, Eq, Debug, Structural)]
pub enum SurfaceError {
    Timeout,
    Outdated,
    Lost,
    OutOfMemory,
}

/// What becomes of a frame whose texture could not be had.
#[derive(Copy, Clone, PartialEq, Eq, Debug, Structural)]
pub enum FrameAction {
    /// Leave the frame out.
    Skip,
    /// Configure the surface anew and leave the frame out.
    Reconfigure,
    /// End the render loop.
    Abort,
}

/// What to do about a frame whose texture could not be had: a lost surface
/// is configured anew, want of memory ends the render loop, and anything else
/// costs the frame only.
pub fn on_surface_error(error: SurfaceError) -> (action: FrameAction)
    ensures
        action == (match error {
            SurfaceError::Lost => FrameAction::Reconfigure,
            SurfaceError::OutOfMemory => FrameAction::Abort,
            _ => FrameAction::Skip,
        }),
{
    match error {
        SurfaceError::Lost => FrameAction::Reconfigure,
        SurfaceError::OutOfMemory => FrameAction::Abort,
        SurfaceError::Timeout => FrameAction::Skip,
        SurfaceError::Outdated => FrameAction::Skip,
    }
}

/// Whether the sub-pixel pipeline is current after the first `n` of
/// `commands`: the last pipeline that they bind is the sub-pixel one.
pub open spec fn subpixel_after(commands: Seq<Command>, n: int) -> bool
    decreases n,
{
    if n <= 0 {
        false
    } else {
        match commands[n - 1] {
            Command::BindPipeline(pipeline) => pipeline == Pipeline::Subpixel,
            _ => subpixel_after(commands, n - 1),
        }
    }
}

/// The steps for one command. With the sub-pixel pipeline current a range is
/// drawn three times, once for each color channel.
pub open spec fn steps_of(command: Command, subpixel: bool) -> Seq<RenderOp> {
    match command {
        Command::BindTexture(page) => seq![RenderOp::BindTexture(page)],
        Command::BindPipeline(Pipeline::Opaque) => seq![
            RenderOp::SetPipeline(RenderPipeline::Opaque),
        ],
        Command::BindPipeline(Pipeline::Transparent) => seq![
            RenderOp::SetPipeline(RenderPipeline::Transparent),
        ],
        Command::BindPipeline(Pipeline::Subpixel) => seq![],
        Command::Draw { start, count } => {
            let draw = RenderOp::DrawIndexed { start, end: (start + count) as u32 };
            if subpixel {
                seq![
                    RenderOp::SetPipeline(RenderPipeline::SubpixelRed),
                    draw,
                    RenderOp::SetPipeline(RenderPipeline::SubpixelGreen),
                    draw,
                    RenderOp::SetPipeline(RenderPipeline::SubpixelBlue),
                    draw,
                ]
            } else {
                seq![draw]
            }
        },
    }
}

/// The steps for the first `n` of `commands`, in their order.
pub open spec fn steps(commands: Seq<Command>, n: int) -> Seq<RenderOp>
    decreases n,
{
    if n <= 0 {
        Seq::empty()
    } else {
        steps(commands, n - 1) + steps_of(commands[n - 1], subpixel_after(commands, n - 1))
    }
}

/// Whether every texture page that `commands` bind is one of `page_count`
/// pages.
pub open spec fn pages_exist(commands: Seq<Command>, page_count: int) -> bool {
    forall|k: int|
        0 <= k < commands.len() ==> (#[trigger] commands[k] matches Command::BindTexture(page)
            ==> page < page_count)
}

/// The steps of a backend for a frame: the first page is bound, so that
/// something is bound whatever is drawn, and then the commands of
/// `display_list` are followed. The frame is left out, with `None`, where
/// there is no page at all or a command binds a page that does not exist.
pub fn render(display_list: &DisplayList, page_count: usize) -> (ops: Option<Vec<RenderOp>>)
    requires
        display_list@.wf(),
    ensures
        match ops {
            Some(ops) => {
                &&& page_count > 0
                &&& pages_exist(display_list@.commands, page_count as int)
                &&& ops@ == seq![RenderOp::BindTexture(0)] + steps(
                    display_list@.commands,
                    display_list@.commands.len() as int,
                )
            },
            None => page_count == 0 || !pages_exist(display_list@.commands, page_count as int),
        },
{
    if page_count == 0 {
        return None;
    }
    let commands = display_list.commands();
    let mut ops: Vec<RenderOp> = Vec::new();
    ops.push(RenderOp::BindTexture(0));
    let mut subpixel = false;
    let mut i: usize = 0;
    while i < commands.len()
        invariant
            i <= commands.len(),
            commands@ == display_list@.commands,
            display_list@.wf(),
            subpixel == subpixel_after(commands@, i as int),
            ops@ == seq![RenderOp::BindTexture(0)] + steps(commands@, i as int),
            forall|k: int|
                0 <= k < i ==> (#[trigger] commands@[k] matches Command::BindTexture(page) ==> page
                    < page_count),
        decreases commands.len() - i,
    {
        let ghost before = ops@;
        match commands[i] {
            Command::BindTexture(page) => {
                if page >= page_count {
                    return None;
                }
                ops.push(RenderOp::BindTexture(page));
            },
            Command::Draw { start, count } => {
                let end = start + count;
                if subpixel {
                    ops.push(RenderOp::SetPipeline(RenderPipeline::SubpixelRed));
                    ops.push(RenderOp::DrawIndexed { start, end });
                    ops.push(RenderOp::SetPipeline(RenderPipeline::SubpixelGreen));
                    ops.push(RenderOp::DrawIndexed { start, end });
                    ops.push(RenderOp::SetPipeline(RenderPipeline::SubpixelBlue));
                    ops.push(RenderOp::DrawIndexed { start, end });
                } else {
                    ops.push(RenderOp::DrawIndexed { start, end });
                }
            },
            Command::BindPipeline(pipeline) => {
                match pipeline {
                    Pipeline::Opaque => {
                        subpixel = false;
                        ops.push(RenderOp::SetPipeline(RenderPipeline::Opaque));
                    },
                    Pipeline::Transparent => {
                        subpixel = false;
                        ops.push(RenderOp::SetPipeline(RenderPipeline::Transparent));
                    },
                    Pipeline::Subpixel => {
                        subpixel = true;
                    },
                }
            },
        }
        proof {
            assert(ops@ =~= before + steps_of(commands@[i as int], subpixel_after(commands@, i as int)));
        }
        i += 1;
    }
    Some(ops)
}

} // verus!
