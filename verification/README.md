# EWC

EWC is an experimental Wayland compositor.

`src/` is a library with the logic of the compositor: the clients and their objects, surfaces and
their pending and committed state, subsurfaces, windows and popups, the seat with its keyboards and
pointers, selections, buffers and their locks, the regions and transformations that a frame is drawn
with, the choices that a backend makes about screens, formats and buffers, and the texts of
protocols with the code that is made of them. It holds no file descriptors and draws nothing. Its
functions take plain values and return the messages that are to be sent and the work that is to be
done. Their contracts and proofs are written for Verus. The properties that hold across several
functions are the public proof functions whose names begin with `law_`.

`app/` is the program around the library: sockets and `epoll`, the wire format, the renderers (pixman
and OpenGL), the backends (a window of another compositor, or a screen through DRM/KMS, libseat and
libinput), keymaps, cursor themes and the configuration file.

`tests/` runs the library on concrete values.

## Running

Without arguments the program runs the compositor. It uses a window of the running Wayland compositor
if there is one, and a screen otherwise.

- `ewc generate FILE` prints Rust code for a protocol file.
- `ewc debug INTEREST..` prints what a running compositor tells its debuggers.

Two environment variables change what it does:

- `EWC_NO_GL`: frames are drawn with pixman instead of OpenGL.
- `EWC_PROTOCOL_DIR`: the directory that holds `protocol/` and `wayland-protocols/` (by default, the
  current directory).
