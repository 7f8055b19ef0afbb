//! The compositor's bookkeeping of toplevel windows and committed buffers.
use std::collections::HashMap;
use vstd::prelude::*;

use crate::layout::{Layout, LayoutModel, SizeRequest, SurfaceId};

verus! {

broadcast use vstd::std_specs::hash::group_hash_axioms;

/// What a commit did to the buffer attached to a surface.
pub enum BufferAssignment<B> {
    /// A new buffer was attached.
    NewBuffer(B),
    /// The buffer was detached.
    Removed,
}

/// A state of a toplevel window that the compositor sets or unsets.
#[derive(Clone, Copy, Debug, PartialEq, Eq, Structural)]
pub enum ToplevelState {
    Activated,
    Maximized,
    Fullscreen,
}

/// A change to a toplevel's pending states.
#[derive(Clone, Copy, Debug, PartialEq, Eq, Structural)]
pub enum StateChange {
    /// The state is set.
    Enable(ToplevelState),
    /// The state is unset.
    Disable(ToplevelState),
}

/// Who draws a toplevel's decorations.
#[derive(Clone, Copy, Debug, PartialEq, Eq, Structural)]
pub enum DecorationMode {
    ClientSide,
    ServerSide,
}

/// A message to the compositor's window loop.
#[derive(Clone, Copy, Debug, PartialEq, Eq, Structural)]
pub enum CompositorMessage {
    /// The output window should be maximized, or no longer be.
    Maximize(bool),
    /// The output window should be fullscreen, or no longer be.
    Fullscreen(bool),
}

/// A request from a client about one of its toplevels.
#[derive(Clone, Copy, Debug, PartialEq, Eq, Structural)]
pub enum ShellRequest {
    NewToplevel,
    Maximize,
    Unmaximize,
    Fullscreen,
    Unfullscreen,
    NewDecoration,
    RequestDecorationMode(DecorationMode),
    UnsetDecorationMode,
}

/// How the compositor answers a shell request. The listed changes go to the
/// toplevel's pending state, after which a configure is sent to the client;
/// `message`, if any, then goes to the window loop.
#[derive(Clone, Copy, Debug, PartialEq, Eq, Structural)]
pub struct ShellResponse {
    /// The state set or unset.
    pub state: Option<StateChange>,
    /// The pending size becomes the output's logical size.
    pub size_to_output: bool,
    /// The decoration mode chosen.
    pub decoration_mode: Option<DecorationMode>,
    pub message: Option<CompositorMessage>,
}

/// The answer to each shell request: a new toplevel is activated; maximizing
/// and fullscreening set their state, size the toplevel to the output and
/// tell the window loop, and undoing them unsets the state and tells the loop;
/// decorations are drawn by the server unless the client asks for a mode.
pub open spec fn response_to(request: ShellRequest) -> ShellResponse {
    match request {
        ShellRequest::NewToplevel => ShellResponse {
            state: Some(StateChange::Enable(ToplevelState::Activated)),
            size_to_output: false,
            decoration_mode: None,
            message: None,
        },
        ShellRequest::Maximize => ShellResponse {
            state: Some(StateChange::Enable(ToplevelState::Maximized)),
            size_to_output: true,
            decoration_mode: None,
            message: Some(CompositorMessage::Maximize(true)),
        },
        ShellRequest::Unmaximize => ShellResponse {
            state: Some(StateChange::Disable(ToplevelState::Maximized)),
            size_to_output: false,
            decoration_mode: None,
            message: Some(CompositorMessage::Maximize(false)),
        },
        ShellRequest::Fullscreen => ShellResponse {
            state: Some(StateChange::Enable(ToplevelState::Fullscreen)),
            size_to_output: true,
            decoration_mode: None,
            message: Some(CompositorMessage::Fullscreen(true)),
        },
        ShellRequest::Unfullscreen => ShellResponse {
            state: Some(StateChange::Disable(ToplevelState::Fullscreen)),
            size_to_output: false,
            decoration_mode: None,
            message: Some(CompositorMessage::Fullscreen(false)),
        },
        ShellRequest::NewDecoration => ShellResponse {
            state: None,
            size_to_output: false,
            decoration_mode: Some(DecorationMode::ServerSide),
            message: None,
        },
        ShellRequest::RequestDecorationMode(mode) => ShellResponse {
            state: None,
            size_to_output: false,
            decoration_mode: Some(mode),
            message: None,
        },
        ShellRequest::UnsetDecorationMode => ShellResponse {
            state: None,
            size_to_output: false,
            decoration_mode: Some(DecorationMode::ServerSide),
            message: None,
        },
    }
}

/// Decides how the compositor answers a shell request.
pub fn shell_response(request: ShellRequest) -> (response: ShellResponse)
    ensures
        response == response_to(request),
{
    match request {
        ShellRequest::NewToplevel => ShellResponse {
            state: Some(StateChange::Enable(ToplevelState::Activated)),
            size_to_output: false,
            decoration_mode: None,
            message: None,
        },
        ShellRequest::Maximize => ShellResponse {
            state: Some(StateChange::Enable(ToplevelState::Maximized)),
            size_to_output: true,
            decoration_mode: None,
            message: Some(CompositorMessage::Maximize(true)),
        },
        ShellRequest::Unmaximize => ShellResponse {
            state: Some(StateChange::Disable(ToplevelState::Maximized)),
            size_to_output: false,
            decoration_mode: None,
            message: Some(CompositorMessage::Maximize(false)),
        },
        ShellRequest::Fullscreen => ShellResponse {
            state: Some(StateChange::Enable(ToplevelState::Fullscreen)),
            size_to_output: true,
            decoration_mode: None,
            message: Some(CompositorMessage::Fullscreen(true)),
        },
        ShellRequest::Unfullscreen => ShellResponse {
            state: Some(StateChange::Disable(ToplevelState::Fullscreen)),
            size_to_output: false,
            decoration_mode: None,
            message: Some(CompositorMessage::Fullscreen(false)),
        },
        ShellRequest::NewDecoration => ShellResponse {
            state: None,
            size_to_output: false,
            decoration_mode: Some(DecorationMode::ServerSide),
            message: None,
        },
        ShellRequest::RequestDecorationMode(mode) => ShellResponse {
            state: None,
            size_to_output: false,
            decoration_mode: Some(mode),
            message: None,
        },
        ShellRequest::UnsetDecorationMode => ShellResponse {
            state: None,
            size_to_output: false,
            decoration_mode: Some(DecorationMode::ServerSide),
            message: None,
        },
    }
}

/// The windows the compositor manages: the toplevels in the order they
/// appeared, their tiling layout, the buffer each surface last committed, and
/// the surface whose client last asked to be moved.
pub struct WindowState<B> {
    pub toplevels: Vec<SurfaceId>,
    pub layout: Layout,
    pub surface_buffers: HashMap<SurfaceId, B>,
    pub start_drag_request: Option<SurfaceId>,
}

/// The buffers after a commit on `surface`: a new buffer replaces any
/// earlier one, a detached buffer is forgotten, and a commit that does not
/// touch the buffer leaves the buffers as they are.
pub open spec fn committed<B>(
    buffers: Map<SurfaceId, B>,
    surface: SurfaceId,
    update: Option<BufferAssignment<B>>,
) -> Map<SurfaceId, B> {
    match update {
        Some(BufferAssignment::NewBuffer(b)) => buffers.insert(surface, b),
        Some(BufferAssignment::Removed) => buffers.remove(surface),
        None => buffers,
    }
}

impl<B> WindowState<B> {
    /// No toplevels yet, an empty layout for a view of `width` by `height`,
    /// no buffers and no move request.
    pub fn new(width: i32, height: i32) -> (state: WindowState<B>)
        ensures
            state.toplevels@.len() == 0,
            state.layout@.tiles.len() == 0,
            state.layout@.focused_idx is None,
            state.layout@.view_size.w == width,
            state.layout@.view_size.h == height,
            state.layout@.gap == 10,
            state.layout@.padding == 10,
            state.surface_buffers@ == Map::<SurfaceId, B>::empty(),
            state.start_drag_request is None,
    {
        WindowState {
            toplevels: Vec::new(),
            layout: Layout::new(width, height),
            surface_buffers: HashMap::new(),
            start_drag_request: None,
        }
    }

    /// Whether `surface` is a known toplevel.
    fn knows(&self, surface: SurfaceId) -> (known: bool)
        ensures
            known == self.toplevels@.contains(surface),
    {
        let mut i: usize = 0;
        while i < self.toplevels.len()
            invariant
                0 <= i <= self.toplevels@.len(),
                forall|j: int| 0 <= j < i ==> self.toplevels@[j] != surface,
            decreases self.toplevels@.len() - i,
        {
            if self.toplevels[i] == surface {
                return true;
            }
            i = i + 1;
        }
        false
    }

    /// A new toplevel appeared: an unknown surface is recorded and gets a
    /// focused tile, and the size requests for the rearranged tiles are
    /// returned; a known surface changes nothing.
    ///
    /// Whatever else happens, the toplevel is then activated: the returned
    /// response is the one for [`ShellRequest::NewToplevel`].
    pub fn new_toplevel(&mut self, surface: SurfaceId) -> (actions: (
        Vec<SizeRequest>,
        ShellResponse,
    ))
        requires
            !old(self).toplevels@.contains(surface) ==> old(self).layout@.added(
                surface,
            ).can_relayout(),
        ensures
            old(self).toplevels@.contains(surface) ==> {
                &&& final(self).toplevels@ == old(self).toplevels@
                &&& final(self).layout@ == old(self).layout@
                &&& actions.0@.len() == 0
            },
            !old(self).toplevels@.contains(surface) ==> {
                &&& final(self).toplevels@ == old(self).toplevels@.push(surface)
                &&& final(self).layout@ == old(self).layout@.added(surface).relayout()
                &&& actions.0@ == old(self).layout@.added(surface).size_requests()
            },
            actions.1 == response_to(ShellRequest::NewToplevel),
            actions.1.state == Some(StateChange::Enable(ToplevelState::Activated)),
            final(self).surface_buffers@ == old(self).surface_buffers@,
            final(self).start_drag_request == old(self).start_drag_request,
    {
        let requests = if !self.knows(surface) {
            self.toplevels.push(surface);
            self.layout.add_tile(surface)
        } else {
            Vec::new()
        };
        (requests, shell_response(ShellRequest::NewToplevel))
    }

    /// A surface committed its state; `update` says what happened to its
    /// buffer.
    pub fn commit(&mut self, surface: SurfaceId, update: Option<BufferAssignment<B>>)
        ensures
            final(self).surface_buffers@ == committed(old(self).surface_buffers@, surface, update),
            final(self).toplevels@ == old(self).toplevels@,
            final(self).layout@ == old(self).layout@,
            final(self).start_drag_request == old(self).start_drag_request,
    {
        match update {
            Some(BufferAssignment::NewBuffer(buffer)) => {
                self.surface_buffers.insert(surface, buffer);
            },
            Some(BufferAssignment::Removed) => {
                self.surface_buffers.remove(&surface);
            },
            None => {},
        }
    }

    /// The client of `surface` asked to move its window.
    pub fn move_request(&mut self, surface: SurfaceId)
        ensures
            final(self).start_drag_request == Some(surface),
            final(self).toplevels@ == old(self).toplevels@,
            final(self).layout@ == old(self).layout@,
            final(self).surface_buffers@ == old(self).surface_buffers@,
    {
        self.start_drag_request = Some(surface);
    }
}

/// A commit that attaches a buffer makes it the surface's buffer; one that
/// detaches it leaves the surface without a buffer; one that does not touch
/// the buffer keeps it. Other surfaces keep theirs.
pub proof fn lemma_commit_reads_back<B>(
    buffers: Map<SurfaceId, B>,
    surface: SurfaceId,
    other: SurfaceId,
    buffer: B,
)
    requires
        other != surface,
    ensures
        committed(buffers, surface, Some(BufferAssignment::NewBuffer(buffer))).contains_key(surface),
        committed(buffers, surface, Some(BufferAssignment::NewBuffer(buffer)))[surface] == buffer,
        !committed(buffers, surface, Some(BufferAssignment::<B>::Removed)).contains_key(surface),
        committed(buffers, surface, None) == buffers,
        committed(buffers, surface, Some(BufferAssignment::NewBuffer(buffer))).contains_key(other)
            == buffers.contains_key(other),
        committed(buffers, surface, Some(BufferAssignment::<B>::Removed)).contains_key(other)
            == buffers.contains_key(other),
        buffers.contains_key(other) ==> committed(
            buffers,
            surface,
            Some(BufferAssignment::NewBuffer(buffer)),
        )[other] == buffers[other] && committed(
            buffers,
            surface,
            Some(BufferAssignment::<B>::Removed),
        )[other] == buffers[other],
{
}

/// Undoing a maximize or fullscreen request unsets exactly the state that
/// the request set and tells the window loop the opposite; every toplevel
/// request but these changes no size and sends no message beyond them.
pub proof fn lemma_undo_requests_mirror()
    ensures
        response_to(ShellRequest::Maximize).state == Some(StateChange::Enable(ToplevelState::Maximized)),
        response_to(ShellRequest::Unmaximize).state == Some(
            StateChange::Disable(ToplevelState::Maximized),
        ),
        response_to(ShellRequest::Maximize).message == Some(CompositorMessage::Maximize(true)),
        response_to(ShellRequest::Unmaximize).message == Some(CompositorMessage::Maximize(false)),
        response_to(ShellRequest::Fullscreen).state == Some(
            StateChange::Enable(ToplevelState::Fullscreen),
        ),
        response_to(ShellRequest::Unfullscreen).state == Some(
            StateChange::Disable(ToplevelState::Fullscreen),
        ),
        response_to(ShellRequest::Fullscreen).message == Some(CompositorMessage::Fullscreen(true)),
        response_to(ShellRequest::Unfullscreen).message == Some(
            CompositorMessage::Fullscreen(false),
        ),
        forall|r: ShellRequest|
            #[trigger] response_to(r).size_to_output <==> (r == ShellRequest::Maximize || r
                == ShellRequest::Fullscreen),
{
}

/// A client that asks for a decoration mode gets that mode; a new decoration
/// and an unset mode get server-side decorations; decoration requests set no
/// state, change no size and send no message; a new toplevel is activated and
/// nothing else.
pub proof fn lemma_decoration_modes()
    ensures
        forall|mode: DecorationMode|
            #[trigger] response_to(ShellRequest::RequestDecorationMode(mode)) == (ShellResponse {
                state: None,
                size_to_output: false,
                decoration_mode: Some(mode),
                message: None,
            }),
        response_to(ShellRequest::NewDecoration).decoration_mode == Some(DecorationMode::ServerSide),
        response_to(ShellRequest::UnsetDecorationMode).decoration_mode == Some(
            DecorationMode::ServerSide,
        ),
        response_to(ShellRequest::NewDecoration).state is None,
        response_to(ShellRequest::UnsetDecorationMode).state is None,
        response_to(ShellRequest::NewDecoration).message is None,
        response_to(ShellRequest::UnsetDecorationMode).message is None,
        response_to(ShellRequest::NewToplevel) == (ShellResponse {
            state: Some(StateChange::Enable(ToplevelState::Activated)),
            size_to_output: false,
            decoration_mode: None,
            message: None,
        }),
        forall|r: ShellRequest|
            #[trigger] response_to(r).decoration_mode is Some <==> (r == ShellRequest::NewDecoration
                || r == ShellRequest::UnsetDecorationMode || r is RequestDecorationMode),
{
}

/// The tiles stay in step with the toplevels: when the layout's surfaces are
/// the recorded toplevels, they still are after a new toplevel appears, and
/// announcing the same toplevel again changes nothing.
pub proof fn lemma_new_toplevel_keeps_tiles_in_step(
    layout: LayoutModel,
    toplevels: Seq<SurfaceId>,
    surface: SurfaceId,
)
    requires
        layout.surfaces() == toplevels,
        !toplevels.contains(surface) ==> layout.added(surface).can_relayout(),
    ensures
        !toplevels.contains(surface) ==> {
            &&& layout.added(surface).relayout().surfaces() == toplevels.push(surface)
            &&& toplevels.push(surface).contains(surface)
        },
{
    if !toplevels.contains(surface) {
        let r = layout.added(surface).relayout();
        assert(r.surfaces() =~= toplevels.push(surface));
        assert(toplevels.push(surface)[toplevels.len() as int] == surface);
    }
}

} // verus!
