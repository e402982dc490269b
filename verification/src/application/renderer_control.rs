use crate::application::common::{ack_slot, AckKey, RedrawMode, RenderDecree};
use vstd::prelude::*;

verus! {

/// What the renderer keeps between decrees: whether it renders, whether it keeps
/// running, and when it redraws.
#[derive(Clone, Copy, PartialEq, Eq, Debug, Structural)]
pub struct RendererState {
    pub should_render: bool,
    pub run: bool,
    pub redraw_mode: RedrawMode,
}

/// What the renderer does in answer to a decree, besides changing its state.
#[derive(Clone, Copy, PartialEq, Eq, Debug, Structural)]
pub enum RenderAction {
    Nothing,
    /// Resize the surface, then render at once when `then_render` holds.
    ResizeSurface { width: u32, height: u32, then_render: bool },
    /// Rebuild the text buffers from the graphics arena.
    RebuildBuffers,
}

/// What the renderer reads of a decree sent to it: a render decree, an
/// acknowledgement, or a decree meant for another part of the application.
#[derive(Clone, Copy, PartialEq, Eq, Debug, Structural)]
pub enum RendererDecree {
    Render(RenderDecree),
    Acknowledge(AckKey, usize),
    Other,
}

/// The renderer's next state and action on `decree`: starting and stopping set
/// whether it renders, terminating stops its run, a new surface size resizes the
/// surface (and renders at once when it redraws on request), an arena update rebuilds
/// its buffers; showing the frame rate, re-initialising the adapter, acknowledgements
/// and decrees for others do nothing to either.
pub open spec fn renderer_next(state: RendererState, decree: RendererDecree) -> (RendererState, RenderAction) {
    match decree {
        RendererDecree::Render(RenderDecree::StartRender) => (RendererState { should_render: true, ..state }, RenderAction::Nothing),
        RendererDecree::Render(RenderDecree::StopRender) => (RendererState { should_render: false, ..state }, RenderAction::Nothing),
        RendererDecree::Render(RenderDecree::Terminate) => (RendererState { run: false, ..state }, RenderAction::Nothing),
        RendererDecree::Render(RenderDecree::SetSurfaceSize(width, height)) => (
            state,
            RenderAction::ResizeSurface { width, height, then_render: state.redraw_mode == RedrawMode::OnRequest },
        ),
        RendererDecree::Render(RenderDecree::ArenaUpdate) => (state, RenderAction::RebuildBuffers),
        _ => (state, RenderAction::Nothing),
    }
}

/// The answer owed to an instruction that asks for acknowledgement `ack` under
/// `key`: an acknowledgement of it where `ack` is not 0, none where it is.
pub open spec fn acknowledgement(key: AckKey, ack: usize) -> Option<(AckKey, usize)> {
    if ack > 0 {
        Some((key, ack))
    } else {
        None
    }
}

/// Decides the answer to an instruction that carries acknowledgement `ack` under `key`
/// (see [acknowledgement]); sending it is left to the caller.
pub fn acknowledge_instruction(key: AckKey, ack: usize) -> (reply: Option<(AckKey, usize)>)
    ensures
        reply == acknowledgement(key, ack),
{
    if ack > 0 {
        Some((key, ack))
    } else {
        None
    }
}

/// The table of pending acknowledgements after acknowledgement `ack` comes in under
/// `key`: the key's entry is cleared when it is pending and is `ack`.
pub open spec fn acks_after(table: Seq<usize>, key: AckKey, ack: usize) -> Seq<usize> {
    let i = ack_slot(key);
    if table[i] != 0 && table[i] == ack {
        table.update(i, 0)
    } else {
        table
    }
}

/// What the renderer does with one instruction: its next state and action on the
/// decree (see [renderer_next]), the table of pending acknowledgements updated where
/// the decree is an acknowledgement, and the answer owed to the instruction's own
/// acknowledgement request (see [acknowledgement]). The renderer does not take the
/// empty render decree.
pub fn renderer_step(
    state: RendererState,
    decree: RendererDecree,
    acknowledge: (AckKey, usize),
    ack_table: &mut [usize; 2],
) -> (out: (RendererState, RenderAction, Option<(AckKey, usize)>))
    requires
        decree != RendererDecree::Render(RenderDecree::Noop),
    ensures
        (out.0, out.1) == renderer_next(state, decree),
        out.2 == acknowledgement(acknowledge.0, acknowledge.1),
        final(ack_table)@ == match decree {
            RendererDecree::Acknowledge(key, ack) => acks_after(old(ack_table)@, key, ack),
            _ => old(ack_table)@,
        },
{
    let (next, action) = match decree {
        RendererDecree::Render(RenderDecree::StartRender) => (RendererState { should_render: true, ..state }, RenderAction::Nothing),
        RendererDecree::Render(RenderDecree::StopRender) => (RendererState { should_render: false, ..state }, RenderAction::Nothing),
        RendererDecree::Render(RenderDecree::Terminate) => (RendererState { run: false, ..state }, RenderAction::Nothing),
        RendererDecree::Render(RenderDecree::SetSurfaceSize(width, height)) => {
            let then_render = match state.redraw_mode {
                RedrawMode::OnRequest => true,
                _ => false,
            };
            (state, RenderAction::ResizeSurface { width, height, then_render })
        },
        RendererDecree::Render(RenderDecree::ArenaUpdate) => (state, RenderAction::RebuildBuffers),
        RendererDecree::Acknowledge(key, ack) => {
            AckKey::check_ack(key, ack_table, ack);
            (state, RenderAction::Nothing)
        },
        _ => (state, RenderAction::Nothing),
    };
    (next, action, acknowledge_instruction(acknowledge.0, acknowledge.1))
}

} // verus!
