//! A page-navigation and shared-state layer for terminal user interfaces.
//!
//! An application describes a set of routes (pages), each carrying
//! page-local state. The [`router::Router`] owns the current route, a
//! back-stack of previously visited routes, a token-indexed store of
//! shared state cells ([`context::Context`]), an ordered registry of
//! pre-render hooks ([`callback::CallbackHolder`]), and a tagged
//! [`event::Events`] value that says why the current render pass is
//! happening. The blocking input source and the terminal drawing surface
//! stay outside: the caller runs the render loop and drives the router
//! through its pass protocol.

pub mod callback;
pub mod context;
pub mod event;
pub mod router;
