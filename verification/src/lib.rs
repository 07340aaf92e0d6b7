//! Core logic of a small Wayland desktop shell: rectangle regions, the
//! wire framing, protocol objects on both sides of the connection,
//! compositor surface, buffer and pointer state, copying client buffers
//! into the output frame, window routing, timers, clock text, the session
//! lock and lock-screen presentation.
pub mod rect;
pub mod sweep;
pub mod region;
pub mod canon;
pub mod wire;
pub mod conn;
pub mod session_lock;
pub mod client;
pub mod seat;
pub mod server;
pub mod surface;
pub mod blit;
pub mod shm;
pub mod pointer;
pub mod window;
pub mod timer;
pub mod clock;
pub mod dbus;
pub mod lockscreen;
pub mod lock_session;
pub mod counter;
mod text;
pub mod launcher;
