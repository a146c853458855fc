//! Verified core of a runtime interposition layer.
//!
//! The layer lets a caller treat fixed numeric addresses inside a host
//! process image as callable routines (direct invocation bindings), and
//! install detours at such addresses that replace the code there while
//! keeping the displaced code reachable through a trampoline (detour
//! hooks). A registry owns the installed hooks, one per address, and a
//! lazy cache memoizes the resolution of named entry points.
//!
//! The host image is held as an explicit byte array so that every step of
//! the mechanics — capturing displaced bytes, writing a redirect,
//! dispatching a call through the current hook state — is ordinary
//! verified code with a contract.

pub mod code;
pub mod console;
pub mod conv;
pub mod dib;
pub mod hook;
pub mod mem;
pub mod registry;
pub mod symbols;
pub mod window;
