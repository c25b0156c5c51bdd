# clm-vdisplay

A headless virtual display engine with an RFB 3.8 (VNC) server, written in
Rust and verified with Verus.

- `src/` is the library. It holds the tiled framebuffer and its damage
  tracking, the RFB messages, encodings and sessions, mouse, keyboard and
  clipboard, the decisions of the capture loop, of the X server's supervision
  and of the control socket, and the metrics. Every function has a contract that
  Verus proves; the few that call another crate or a part of std outside vstd
  say in their doc comments what is taken on trust.
- `app/` is the program around it: command line, sockets, the X connection,
  shared memory, and the tasks that tie them together. It does what the library
  decides.
- `tests/` runs the library on concrete values.

Laws that span several functions are public proof functions whose names start
with `law_`, next to what they speak of.

## How the pieces meet

The library takes plain values and returns what to do. A client's bytes go into
`RfbProtocolEngine::handshake` and then `next_action`; a captured frame goes
into `TileFramebuffer::update_rect_from_full_frame`; `build_framebuffer_update`
turns the damage into an update. `CaptureLoop::look` says whether to capture
now and how long to wait, `DisplaySupervisor::handle_command` what a command
leads to.

Times in the capture loop are nanoseconds. Arithmetic on pixel channels of at
most 16 bits and on default port numbers wraps around.
