//! The tagged event model: why the current render pass is happening.

use vstd::prelude::*;

verus! {

/// Relies on crossterm's `event::Event` type: the raw input event that the
/// terminal backend produces. The library only stores such a value and hands
/// it back; it never reads inside it.
#[verifier::external_type_specification]
#[verifier::external_body]
pub struct ExCrosstermEvent(crossterm::event::Event);

/// The cause of the current render pass. Exactly one tag is active per pass,
/// where `T` is the application-declared custom payload type.
pub enum Events<T> {
    /// An application-declared payload handed in by the route dispatch layer.
    Custom(T),
    /// A raw terminal input event, polled between passes.
    Event(crossterm::event::Event),
    /// The final pass before the main loop returns.
    Exit,
    /// The pass immediately following a page change or a back-navigation.
    PageChanged,
    /// The first pass of the program.
    Started,
}

} // verus!
