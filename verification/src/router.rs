//! The router core: current route, back-stack, lifecycle, and the render
//! pass protocol.
//!
//! The router owns the current route, the navigation stack, the shared
//! [`Context`](crate::context::Context) store, the
//! [`CallbackHolder`](crate::callback::CallbackHolder) registry and the
//! current [`Events`] tag. The blocking input source and the drawing
//! surface stay with the caller, who runs the loop:
//!
//! 1. [`Router::start`] begins the first pass with a `Started` event.
//! 2. For each pass the caller detaches the callbacks, invokes them,
//!    reattaches, hands the current route to the route handler, and then
//!    calls [`Router::after_pass`].
//! 3. `after_pass` applies what the pass requested — exit first, else the
//!    last navigation request — and answers whether to render again at
//!    once, to block for the next input event and hand it to
//!    [`Router::deliver_input`], or to return.

use crate::callback::CallbackHolder;
use crate::callback::committed;
use crate::context::Context;
use crate::context::ContextHandle;
use crate::context::ContextView;
use crate::event::Events;
use vstd::prelude::*;

verus! {

/// Lifecycle of the router's main loop.
#[derive(Clone, Copy, Debug, PartialEq, Eq, Structural)]
pub enum Phase {
    /// Constructed, not yet running.
    Idle,
    /// The loop is running.
    Active,
    /// Exit was requested; one final pass is pending.
    Exiting,
    /// The loop has returned.
    Terminated,
}

/// The navigation requested during the current render pass; a later request
/// overrides an earlier one, and exit takes priority over either.
pub enum NavRequest<R> {
    /// No navigation requested.
    Stay,
    /// `change_page` was called with this route.
    Change(R),
    /// `go_back` was called.
    Back,
}

/// What the caller must do once a render pass has ended.
#[derive(Clone, Copy, Debug, PartialEq, Eq, Structural)]
pub enum PassStep {
    /// Render one more pass immediately; the event is already set.
    Redraw,
    /// Block for the next input event and hand it to `deliver_input`.
    AwaitInput,
    /// The loop is over; return to the caller.
    Finished,
}

/// The navigation half of a [`Router`]: everything but the context store
/// and the callback registry.
#[verifier::ext_equal]
pub struct RouterView<R, E> {
    /// The current route; detached (`None`) while a handler holds it.
    pub route: Option<R>,
    /// Previously active routes, most recent last; never the current one.
    pub stack: Seq<R>,
    /// Where the main loop stands.
    pub phase: Phase,
    /// The event of the current pass; detached (`None`) while a hook holds
    /// it, and not yet set before the loop starts.
    pub event: Option<Events<E>>,
    /// The navigation requested during the current pass.
    pub nav: NavRequest<R>,
    /// Whether `exit` was called during the current pass.
    pub exit_requested: bool,
}

impl<R, E> RouterView<R, E> {
    /// What `start` does: the loop becomes active and the first pass
    /// carries the start signal.
    pub open spec fn started(self) -> Self {
        RouterView { phase: Phase::Active, event: Some(Events::Started), ..self }
    }

    /// What `change_page` does: records the request; it is applied when
    /// the pass ends.
    pub open spec fn request_change(self, route: R) -> Self {
        RouterView { nav: NavRequest::Change(route), ..self }
    }

    /// What `go_back` does: records the request; it is applied when the
    /// pass ends.
    pub open spec fn request_back(self) -> Self {
        RouterView { nav: NavRequest::Back, ..self }
    }

    /// What `exit` does: records the request; it wins over any navigation
    /// recorded for the same pass.
    pub open spec fn request_exit(self) -> Self {
        RouterView { exit_requested: true, ..self }
    }

    /// The state after a pass ends. Exit wins: once it is requested, no
    /// further navigation is applied. A back-navigation on an empty stack
    /// is a no-op. In every case the pending request is cleared.
    pub open spec fn pass_end_state(self) -> Self {
        if self.phase is Exiting {
            RouterView { phase: Phase::Terminated, nav: NavRequest::Stay, ..self }
        } else if self.exit_requested {
            RouterView {
                phase: Phase::Exiting,
                event: Some(Events::Exit),
                nav: NavRequest::Stay,
                exit_requested: false,
                ..self
            }
        } else {
            match (self.nav, self.route) {
                (NavRequest::Change(next), Some(current)) => RouterView {
                    route: Some(next),
                    stack: self.stack.push(current),
                    event: Some(Events::PageChanged),
                    nav: NavRequest::Stay,
                    ..self
                },
                (NavRequest::Back, _) => if self.stack.len() > 0 {
                    RouterView {
                        route: Some(self.stack.last()),
                        stack: self.stack.drop_last(),
                        event: Some(Events::PageChanged),
                        nav: NavRequest::Stay,
                        ..self
                    }
                } else {
                    RouterView { nav: NavRequest::Stay, ..self }
                },
                _ => RouterView { nav: NavRequest::Stay, ..self },
            }
        }
    }

    /// What the caller must do after the pass: one more pass right away
    /// after a navigation or an exit request, return once the final pass
    /// is done, and block for input otherwise.
    pub open spec fn pass_end_step(self) -> PassStep {
        if self.phase is Exiting {
            PassStep::Finished
        } else if self.exit_requested {
            PassStep::Redraw
        } else {
            match self.nav {
                NavRequest::Change(_) => PassStep::Redraw,
                NavRequest::Back => if self.stack.len() > 0 {
                    PassStep::Redraw
                } else {
                    PassStep::AwaitInput
                },
                NavRequest::Stay => PassStep::AwaitInput,
            }
        }
    }
}

/// The router core. `R` is the application's route type, `E` its custom
/// event payload type, `F` its stored callback representation, and `C` its
/// universe of shared context values.
pub struct Router<R, E, F, C> {
    path: Option<R>,
    history: Vec<R>,
    phase: Phase,
    event: Option<Events<E>>,
    nav: NavRequest<R>,
    exit_requested: bool,
    callback: CallbackHolder<F>,
    context: Context<C>,
}

impl<R, E, F, C> View for Router<R, E, F, C> {
    type V = RouterView<R, E>;

    closed spec fn view(&self) -> RouterView<R, E> {
        RouterView {
            route: self.path,
            stack: self.history@,
            phase: self.phase,
            event: self.event,
            nav: self.nav,
            exit_requested: self.exit_requested,
        }
    }
}

impl<R, E, F, C> Router<R, E, F, C> {
    /// The callback registry, for contracts about callbacks.
    pub closed spec fn callbacks(self) -> CallbackHolder<F> {
        self.callback
    }

    /// The context store, for contracts about shared state.
    pub closed spec fn contexts(self) -> Context<C> {
        self.context
    }

    /// The owned subsystems are well formed.
    pub open spec fn wf(self) -> bool {
        &&& self.callbacks().wf()
        &&& self.contexts().wf()
    }

    /// A router that is not yet running: the initial route is current, the
    /// stack is empty, no event is set, nothing is requested, no context
    /// exists and no callback is registered.
    pub fn create_router(initial: R) -> (router: Self)
        ensures
            router.wf(),
            router@.route == Some(initial),
            router@.stack == Seq::<R>::empty(),
            router@.phase is Idle,
            router@.event is None,
            router@.nav is Stay,
            !router@.exit_requested,
            router.callbacks().is_attached(),
            router.callbacks().entries() == Seq::<(usize, F)>::empty(),
            router.callbacks().counter() == 0,
            router.contexts()@ == ContextView::<C>::empty(),
    {
        Router {
            path: Some(initial),
            history: Vec::new(),
            phase: Phase::Idle,
            event: None,
            nav: NavRequest::Stay,
            exit_requested: false,
            callback: CallbackHolder::new(),
            context: Context::new(),
        }
    }

    /// Begins the loop: the router becomes active and the first render
    /// pass carries the start signal.
    pub fn start(&mut self)
        requires
            old(self).wf(),
            old(self)@.phase is Idle,
        ensures
            final(self).wf(),
            final(self)@ == old(self)@.started(),
            final(self).callbacks() == old(self).callbacks(),
            final(self).contexts() == old(self).contexts(),
    {
        self.phase = Phase::Active;
        self.event = Some(Events::Started);
        proof {
            assert(self@ =~= old(self)@.started());
        }
    }

    /// Requests a page change; the previous route is pushed on the stack
    /// and a fresh pass rendered when the current pass ends, unless exit
    /// was also requested.
    pub fn change_page(&mut self, route: R)
        requires
            old(self).wf(),
        ensures
            final(self).wf(),
            final(self)@ == old(self)@.request_change(route),
            final(self).callbacks() == old(self).callbacks(),
            final(self).contexts() == old(self).contexts(),
    {
        self.nav = NavRequest::Change(route);
        proof {
            assert(self@ =~= old(self)@.request_change(route));
        }
    }

    /// Requests a back-navigation; when the current pass ends the last
    /// stacked route is restored, or nothing happens if the stack is
    /// empty or exit was also requested.
    pub fn go_back(&mut self)
        requires
            old(self).wf(),
        ensures
            final(self).wf(),
            final(self)@ == old(self)@.request_back(),
            final(self).callbacks() == old(self).callbacks(),
            final(self).contexts() == old(self).contexts(),
    {
        self.nav = NavRequest::Back;
        proof {
            assert(self@ =~= old(self)@.request_back());
        }
    }

    /// Requests exit. When the current pass ends, one final pass carrying
    /// the exit signal is rendered and then the loop returns; any
    /// navigation requested in the same pass is discarded.
    pub fn exit(&mut self)
        requires
            old(self).wf(),
        ensures
            final(self).wf(),
            final(self)@ == old(self)@.request_exit(),
            final(self).callbacks() == old(self).callbacks(),
            final(self).contexts() == old(self).contexts(),
    {
        self.exit_requested = true;
        proof {
            assert(self@ =~= old(self)@.request_exit());
        }
    }

    /// Ends a render pass: applies exit first, else the recorded
    /// navigation, and says whether to render again immediately, to block
    /// for input, or to return. The route must be back in place.
    pub fn after_pass(&mut self) -> (step: PassStep)
        requires
            old(self).wf(),
            old(self)@.route is Some,
            old(self)@.phase is Active || old(self)@.phase is Exiting,
        ensures
            final(self).wf(),
            final(self)@ == old(self)@.pass_end_state(),
            step == old(self)@.pass_end_step(),
            final(self).callbacks() == old(self).callbacks(),
            final(self).contexts() == old(self).contexts(),
    {
        match self.phase {
            Phase::Exiting => {
                self.phase = Phase::Terminated;
                self.nav = NavRequest::Stay;
                proof {
                    assert(self@ =~= old(self)@.pass_end_state());
                }
                PassStep::Finished
            },
            _ => {
                if self.exit_requested {
                    self.exit_requested = false;
                    self.nav = NavRequest::Stay;
                    self.phase = Phase::Exiting;
                    self.event = Some(Events::Exit);
                    proof {
                        assert(self@ =~= old(self)@.pass_end_state());
                    }
                    PassStep::Redraw
                } else {
                    let mut nav = NavRequest::Stay;
                    std::mem::swap(&mut nav, &mut self.nav);
                    match nav {
                        NavRequest::Change(next) => {
                            let previous = self.path.take().unwrap();
                            self.history.push(previous);
                            self.path = Some(next);
                            self.event = Some(Events::PageChanged);
                            proof {
                                assert(self@ =~= old(self)@.pass_end_state());
                            }
                            PassStep::Redraw
                        },
                        NavRequest::Back => {
                            match self.history.pop() {
                                Some(previous) => {
                                    self.path = Some(previous);
                                    self.event = Some(Events::PageChanged);
                                    proof {
                                        assert(old(self)@.stack.len() > 0);
                                        assert(self@ =~= old(self)@.pass_end_state());
                                    }
                                    PassStep::Redraw
                                },
                                None => {
                                    proof {
                                        assert(self@ =~= old(self)@.pass_end_state());
                                    }
                                    PassStep::AwaitInput
                                },
                            }
                        },
                        NavRequest::Stay => {
                            proof {
                                assert(self@ =~= old(self)@.pass_end_state());
                            }
                            PassStep::AwaitInput
                        },
                    }
                }
            },
        }
    }

    /// Sets the raw input event that causes the next render pass; the
    /// caller obtained it by blocking on the input source after
    /// `after_pass` asked for input.
    pub fn deliver_input(&mut self, input: crossterm::event::Event)
        requires
            old(self).wf(),
            old(self)@.phase is Active,
        ensures
            final(self).wf(),
            final(self)@ == (RouterView { event: Some(Events::Event(input)), ..old(self)@ }),
            final(self).callbacks() == old(self).callbacks(),
            final(self).contexts() == old(self).contexts(),
    {
        self.event = Some(Events::Event(input));
        proof {
            assert(self@ =~= (RouterView { event: Some(Events::Event(input)), ..old(self)@ }));
        }
    }

    /// A read-only reference to the event of the current pass.
    pub fn get_event(&self) -> (event: &Events<E>)
        requires
            self@.event is Some,
        ensures
            self@.event == Some(*event),
    {
        match &self.event {
            Some(event) => event,
            None => vstd::pervasive::unreached(),
        }
    }

    /// Detaches the current event, so that a hook can hand its payload to
    /// user code together with the router itself; [`Router::set_event`]
    /// restores it afterwards.
    pub fn take_event(&mut self) -> (event: Option<Events<E>>)
        requires
            old(self).wf(),
        ensures
            final(self).wf(),
            event == old(self)@.event,
            final(self)@ == (RouterView { event: None, ..old(self)@ }),
            final(self).callbacks() == old(self).callbacks(),
            final(self).contexts() == old(self).contexts(),
    {
        let event = self.event.take();
        proof {
            assert(self@ =~= (RouterView { event: None, ..old(self)@ }));
        }
        event
    }

    /// Restores (or replaces) the event of the current pass.
    pub fn set_event(&mut self, event: Events<E>)
        requires
            old(self).wf(),
        ensures
            final(self).wf(),
            final(self)@ == (RouterView { event: Some(event), ..old(self)@ }),
            final(self).callbacks() == old(self).callbacks(),
            final(self).contexts() == old(self).contexts(),
    {
        self.event = Some(event);
        proof {
            assert(self@ =~= (RouterView { event: Some(event), ..old(self)@ }));
        }
    }

    /// Hands the current route to the caller for the duration of one
    /// render pass; [`Router::restore_route`] puts it back.
    pub fn take_route(&mut self) -> (route: R)
        requires
            old(self).wf(),
            old(self)@.route is Some,
        ensures
            final(self).wf(),
            old(self)@.route == Some(route),
            final(self)@ == (RouterView { route: None, ..old(self)@ }),
            final(self).callbacks() == old(self).callbacks(),
            final(self).contexts() == old(self).contexts(),
    {
        let route = self.path.take().unwrap();
        proof {
            assert(self@ =~= (RouterView { route: None, ..old(self)@ }));
        }
        route
    }

    /// Returns the route after the pass, with whatever page-local changes
    /// the handler made.
    pub fn restore_route(&mut self, route: R)
        requires
            old(self).wf(),
        ensures
            final(self).wf(),
            final(self)@ == (RouterView { route: Some(route), ..old(self)@ }),
            final(self).callbacks() == old(self).callbacks(),
            final(self).contexts() == old(self).contexts(),
    {
        self.path = Some(route);
        proof {
            assert(self@ =~= (RouterView { route: Some(route), ..old(self)@ }));
        }
    }

    /// Creates (or replaces) the shared context for `token`; see
    /// [`Context::create_context`](crate::context::Context::create_context).
    pub fn create_context(&mut self, token: u64, value: C)
        requires
            old(self).wf(),
            old(self).contexts()@.cells.len() < usize::MAX,
        ensures
            final(self).wf(),
            final(self).contexts()@ == old(self).contexts()@.create(token, value),
            final(self)@ == old(self)@,
            final(self).callbacks() == old(self).callbacks(),
    {
        self.context.create_context(token, value);
        proof {
            assert(self@ =~= old(self)@);
        }
    }

    /// A handle to the shared context for `token`, which must exist; see
    /// [`Context::get_context`](crate::context::Context::get_context).
    pub fn get_context(&self, token: u64) -> (h: ContextHandle)
        requires
            self.wf(),
            self.contexts()@.has(token),
        ensures
            h.token() == token,
            h.cell() == self.contexts()@.cell_of(token),
            0 <= h.cell() < self.contexts()@.cells.len(),
    {
        self.context.get_context(token)
    }

    /// True once a shared context exists for `token`.
    pub fn is_context_exists(&self, token: u64) -> (r: bool)
        requires
            self.wf(),
        ensures
            r == self.contexts()@.has(token),
    {
        self.context.is_context_exists(token)
    }

    /// Shared read access to the cell a context handle designates.
    pub fn read_context(&self, h: &ContextHandle) -> (r: &C)
        requires
            0 <= h.cell() < self.contexts()@.cells.len(),
        ensures
            *r == self.contexts()@.cells[h.cell()],
    {
        self.context.read(h)
    }

    /// Exclusive write access to the cell a context handle designates.
    pub fn write_context(&mut self, h: &ContextHandle, value: C)
        requires
            old(self).wf(),
            0 <= h.cell() < old(self).contexts()@.cells.len(),
        ensures
            final(self).wf(),
            final(self).contexts()@ == old(self).contexts()@.write_cell(h.cell(), value),
            final(self)@ == old(self)@,
            final(self).callbacks() == old(self).callbacks(),
    {
        self.context.write(h, value);
        proof {
            assert(self@ =~= old(self)@);
        }
    }

    /// Registers a pre-render callback and returns its id; ids only ever
    /// grow, starting at 1. See
    /// [`CallbackHolder::add_callback`](crate::callback::CallbackHolder::add_callback).
    pub fn add_callback(&mut self, callback: F) -> (id: usize)
        requires
            old(self).wf(),
            old(self).callbacks().counter() < usize::MAX,
        ensures
            final(self).wf(),
            id == old(self).callbacks().counter() + 1,
            final(self).callbacks().counter() == id,
            final(self).callbacks().is_attached() == old(self).callbacks().is_attached(),
            old(self).callbacks().is_attached() ==> final(self).callbacks().entries() == old(
                self,
            ).callbacks().entries().push((id, callback)),
            !old(self).callbacks().is_attached() ==> final(self).callbacks().queued_adds() == old(
                self,
            ).callbacks().queued_adds().push((id, callback)),
            final(self)@ == old(self)@,
            final(self).contexts() == old(self).contexts(),
    {
        let id = self.callback.add_callback(callback);
        proof {
            assert(self@ =~= old(self)@);
        }
        id
    }

    /// Removes the callback registered under `id`; it is not invoked on
    /// any later pass. See
    /// [`CallbackHolder::remove_callback`](crate::callback::CallbackHolder::remove_callback).
    pub fn remove_callback(&mut self, id: usize)
        requires
            old(self).wf(),
        ensures
            final(self).wf(),
            final(self).callbacks().counter() == old(self).callbacks().counter(),
            final(self).callbacks().is_attached() == old(self).callbacks().is_attached(),
            old(self).callbacks().is_attached() ==> final(self).callbacks().entries() == old(
                self,
            ).callbacks().entries().filter(crate::callback::keep_pred(id)),
            !old(self).callbacks().is_attached() ==> final(self).callbacks().queued_removals()
                == old(self).callbacks().queued_removals().push(id)
                && final(self).callbacks().queued_adds() == old(self).callbacks().queued_adds(),
            final(self)@ == old(self)@,
            final(self).contexts() == old(self).contexts(),
    {
        self.callback.remove_callback(id);
        proof {
            assert(self@ =~= old(self)@);
        }
    }

    /// Detaches the callback set for invocation: the caller calls each
    /// entry with the router and then reattaches with
    /// [`Router::restore_callbacks`]. Callbacks invoked in between may add
    /// and remove callbacks freely; those operations are queued and take
    /// effect on reattachment.
    pub fn take_callbacks(&mut self) -> (snapshot: Vec<(usize, F)>)
        requires
            old(self).wf(),
            old(self).callbacks().is_attached(),
        ensures
            final(self).wf(),
            !final(self).callbacks().is_attached(),
            snapshot@ == old(self).callbacks().entries(),
            final(self).callbacks().counter() == old(self).callbacks().counter(),
            final(self).callbacks().queued_adds().len() == 0,
            final(self).callbacks().queued_removals().len() == 0,
            final(self)@ == old(self)@,
            final(self).contexts() == old(self).contexts(),
    {
        let snapshot = self.callback.get_functions();
        proof {
            assert(self@ =~= old(self)@);
        }
        snapshot
    }

    /// How many routes the navigation stack holds.
    pub fn stack_len(&self) -> (n: usize)
        ensures
            n == self@.stack.len(),
    {
        self.history.len()
    }

    /// Where the main loop stands.
    pub fn current_phase(&self) -> (phase: Phase)
        ensures
            phase == self@.phase,
    {
        self.phase
    }

    /// Reattaches the callback set detached by [`Router::take_callbacks`]
    /// and commits the additions and removals queued in between.
    pub fn restore_callbacks(&mut self, snapshot: Vec<(usize, F)>)
        requires
            old(self).wf(),
            !old(self).callbacks().is_attached(),
            forall|j: int|
                0 <= j < snapshot@.len() ==> 1 <= (#[trigger] snapshot@[j]).0 <= old(
                    self,
                ).callbacks().counter(),
        ensures
            final(self).wf(),
            final(self).callbacks().is_attached(),
            final(self).callbacks().entries() == committed(
                snapshot@,
                old(self).callbacks().queued_adds(),
                old(self).callbacks().queued_removals(),
            ),
            final(self).callbacks().counter() == old(self).callbacks().counter(),
            final(self)@ == old(self)@,
            final(self).contexts() == old(self).contexts(),
    {
        self.callback.set_functions(snapshot);
        proof {
            assert(self@ =~= old(self)@);
        }
    }
}

/// Changing to a new page and then going back restores the page that was
/// current and the stack exactly as they were; a back-navigation on an
/// empty stack is a no-op.
pub proof fn lemma_change_then_back<R, E>(v: RouterView<R, E>, next: R)
    requires
        v.phase is Active,
        !v.exit_requested,
        v.route is Some,
    ensures
        v.request_change(next).pass_end_state().route == Some(next),
        v.request_change(next).pass_end_state().stack.len() == v.stack.len() + 1,
        v.request_change(next).pass_end_state().request_back().pass_end_state().route == v.route,
        v.request_change(next).pass_end_state().request_back().pass_end_state().stack == v.stack,
        v.stack.len() == 0 ==> v.request_back().pass_end_state() == (RouterView {
            nav: NavRequest::Stay,
            ..v
        }),
{
    let changed = v.request_change(next).pass_end_state();
    assert(changed.stack == v.stack.push(v.route.unwrap()));
    assert(changed.request_back().pass_end_state().stack =~= v.stack);
}

/// The exit protocol: however the pass went — any pending navigation is
/// outranked and discarded — requesting exit yields exactly one further
/// pass, which carries the exit signal, and then the loop reports itself
/// finished without touching the route or the stack again.
pub proof fn lemma_exit_protocol<R, E>(v: RouterView<R, E>)
    requires
        v.phase is Active,
    ensures
        v.request_exit().pass_end_step() == PassStep::Redraw,
        v.request_exit().pass_end_state().phase is Exiting,
        v.request_exit().pass_end_state().event == Some(Events::<E>::Exit),
        v.request_exit().pass_end_state().route == v.route,
        v.request_exit().pass_end_state().stack == v.stack,
        v.request_exit().pass_end_state().pass_end_step() == PassStep::Finished,
        v.request_exit().pass_end_state().pass_end_state().phase is Terminated,
        v.request_exit().pass_end_state().pass_end_state().route == v.route,
        v.request_exit().pass_end_state().pass_end_state().stack == v.stack,
{
}

} // verus!
