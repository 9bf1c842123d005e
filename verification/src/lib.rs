//! The state machines of a Wayland compositor.
//!
//! The crate holds what the compositor decides: which objects a client may name, what a surface
//! commit changes, which window the pointer is over, which buffers are still in use, and which
//! events each client is sent. Sockets, devices and drawing stay outside; they hand in plain
//! values and take plain values back.
pub mod backend;
pub mod buffer_locks;
pub mod buffer_transform;
pub mod client;
pub mod codegen;
pub mod config;
pub mod cursor;
pub mod depth;
pub mod dispatch;
pub mod draw;
pub mod eglgbm;
pub mod error;
pub mod event_loop;
pub mod ewcdbg;
pub mod focus_stack;
pub mod frame;
pub mod gestures;
pub mod globals;
pub mod hit;
pub mod input;
pub mod libseat;
pub mod lifecycle;
pub mod placement;
pub mod pointing;
pub mod poll_backend;
pub mod protocol;
pub mod protocol_markup;
pub mod protocol_reader;
pub mod protocol_tables;
pub mod protocol_text;
pub mod protocol_values;
pub mod region;
pub mod scanner;
pub mod seat;
pub mod server;
pub mod state;
pub mod surface_tree;
pub mod wayland_core;
pub mod windows;
