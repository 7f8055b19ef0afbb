use cocoa_way::layout::{Size, SizeRequest};
use cocoa_way::state::{
    shell_response, BufferAssignment, CompositorMessage, DecorationMode, ShellRequest, StateChange,
    ToplevelState, WindowState,
};

#[test]
fn new_state_is_empty() {
    let state: WindowState<u32> = WindowState::new(800, 600);
    assert!(state.toplevels.is_empty());
    assert!(state.layout.tiles.is_empty());
    assert_eq!(state.layout.view_size, Size { w: 800, h: 600 });
    assert!(state.surface_buffers.is_empty());
    assert_eq!(state.start_drag_request, None);
}

#[test]
fn new_toplevel_gets_a_tile_once() {
    let mut state: WindowState<u32> = WindowState::new(1000, 800);
    let (requests, response) = state.new_toplevel(4);
    assert_eq!(requests, vec![SizeRequest { surface: 4, size: Size { w: 980, h: 780 } }]);
    assert_eq!(response.state, Some(StateChange::Enable(ToplevelState::Activated)));
    assert_eq!(state.toplevels, vec![4]);
    let (again, response) = state.new_toplevel(4);
    assert!(again.is_empty());
    assert_eq!(response.state, Some(StateChange::Enable(ToplevelState::Activated)));
    assert_eq!(state.toplevels, vec![4]);
    assert_eq!(state.layout.tiles.len(), 1);
}

#[test]
fn tiles_follow_toplevels() {
    let mut state: WindowState<u32> = WindowState::new(1000, 800);
    for id in [3, 1, 3, 2] {
        state.new_toplevel(id);
    }
    let tiles: Vec<u64> = state.layout.tiles.iter().map(|t| t.toplevel).collect();
    assert_eq!(tiles, state.toplevels);
    assert_eq!(state.toplevels, vec![3, 1, 2]);
}

#[test]
fn commit_reads_back_the_buffer() {
    let mut state: WindowState<&str> = WindowState::new(100, 100);
    state.commit(1, Some(BufferAssignment::NewBuffer("a")));
    state.commit(2, Some(BufferAssignment::NewBuffer("b")));
    assert_eq!(state.surface_buffers.get(&1), Some(&"a"));
    state.commit(1, Some(BufferAssignment::NewBuffer("c")));
    assert_eq!(state.surface_buffers.get(&1), Some(&"c"));
    state.commit(1, None);
    assert_eq!(state.surface_buffers.get(&1), Some(&"c"));
    state.commit(1, Some(BufferAssignment::Removed));
    assert_eq!(state.surface_buffers.get(&1), None);
    assert_eq!(state.surface_buffers.get(&2), Some(&"b"));
}

#[test]
fn move_request_records_the_surface() {
    let mut state: WindowState<u32> = WindowState::new(100, 100);
    state.move_request(9);
    assert_eq!(state.start_drag_request, Some(9));
}

#[test]
fn maximize_and_fullscreen_size_to_the_output_and_tell_the_loop() {
    let r = shell_response(ShellRequest::Maximize);
    assert_eq!(r.state, Some(StateChange::Enable(ToplevelState::Maximized)));
    assert!(r.size_to_output);
    assert_eq!(r.message, Some(CompositorMessage::Maximize(true)));
    let r = shell_response(ShellRequest::Fullscreen);
    assert_eq!(r.state, Some(StateChange::Enable(ToplevelState::Fullscreen)));
    assert!(r.size_to_output);
    assert_eq!(r.message, Some(CompositorMessage::Fullscreen(true)));
}

#[test]
fn undoing_unsets_the_state_and_tells_the_loop() {
    let r = shell_response(ShellRequest::Unmaximize);
    assert_eq!(r.state, Some(StateChange::Disable(ToplevelState::Maximized)));
    assert!(!r.size_to_output);
    assert_eq!(r.message, Some(CompositorMessage::Maximize(false)));
    let r = shell_response(ShellRequest::Unfullscreen);
    assert_eq!(r.state, Some(StateChange::Disable(ToplevelState::Fullscreen)));
    assert_eq!(r.message, Some(CompositorMessage::Fullscreen(false)));
}

#[test]
fn decorations_are_server_side_unless_requested() {
    assert_eq!(shell_response(ShellRequest::NewDecoration).decoration_mode, Some(DecorationMode::ServerSide));
    assert_eq!(shell_response(ShellRequest::UnsetDecorationMode).decoration_mode, Some(DecorationMode::ServerSide));
    let r = shell_response(ShellRequest::RequestDecorationMode(DecorationMode::ClientSide));
    assert_eq!(r.decoration_mode, Some(DecorationMode::ClientSide));
    assert_eq!(r.state, None);
    assert_eq!(r.message, None);
}

#[test]
fn new_toplevel_response_only_activates() {
    let r = shell_response(ShellRequest::NewToplevel);
    assert_eq!(r.state, Some(StateChange::Enable(ToplevelState::Activated)));
    assert!(!r.size_to_output);
    assert_eq!(r.decoration_mode, None);
    assert_eq!(r.message, None);
}
