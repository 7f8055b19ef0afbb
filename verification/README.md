# cocoa_way

The verified core of a small tiling Wayland compositor.

- `src/layout.rs`: the horizontal tiling layout. Tiles share the view side by
  side; adding, removing and resizing rearrange them and return the size
  requests to send to the clients. Its state is modelled by `LayoutModel`, and
  the laws of the layout (the row shape, the focus marks, the focus staying on
  a tile, moving the focus back and forth and around, adding then removing a
  window, more tiles never being wider) are
  proof functions over that model.
- `src/render.rs`: reading client pixel buffers, either into a packed image or
  onto a canvas of opaque pixels, with exact per-pixel contracts.
- `src/state.rs`: the toplevels, their layout and the buffers committed per
  surface, and how the compositor answers each shell request (which state it
  sets or unsets, whether it sizes the window to the output, which decoration
  mode it picks, which message it sends to the window loop).
- `src/gl_renderer.rs`: the decisions of the OpenGL renderer that do not touch
  the GPU.
- `app/`: the OpenGL window renderer and a test client that lists the globals
  of a running compositor.
