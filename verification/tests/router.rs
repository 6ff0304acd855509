use crossterm::event::Event;
use crossterm::event::KeyCode;
use crossterm::event::KeyEvent;
use crossterm::event::KeyModifiers;
use ratatui_router::event::Events;
use ratatui_router::router::PassStep;
use ratatui_router::router::Phase;
use ratatui_router::router::Router;

#[derive(Debug, PartialEq, Clone, Copy)]
enum MyRoutes {
    Home { counter: i64 },
    Modifier,
}

#[derive(Debug, PartialEq, Clone, Copy)]
enum NoCustom {}

struct Cb(Box<dyn FnMut(&mut AppRouter)>);

type AppRouter = Router<MyRoutes, NoCustom, Cb, i64>;

const MODIFIER: u64 = 1;
const TICKS: u64 = 2;

fn key(code: KeyCode) -> Event {
    Event::Key(KeyEvent::new(code, KeyModifiers::NONE))
}

fn home(router: &mut AppRouter, counter: &mut i64) {
    let ev = router.take_event();
    if let Some(Events::Event(Event::Key(k))) = &ev {
        match k.code {
            KeyCode::Esc => router.exit(),
            KeyCode::Tab => router.change_page(MyRoutes::Modifier),
            _ => {
                let h = router.get_context(MODIFIER);
                *counter += *router.read_context(&h);
            }
        }
    }
    if let Some(e) = ev {
        router.set_event(e);
    }
}

fn modifier_page(router: &mut AppRouter) {
    let ev = router.take_event();
    if let Some(Events::Event(Event::Key(k))) = &ev {
        match k.code {
            KeyCode::Esc => router.exit(),
            KeyCode::Tab => router.go_back(),
            _ => {
                let h = router.get_context(MODIFIER);
                let v = *router.read_context(&h);
                router.write_context(&h, v + 1);
            }
        }
    }
    if let Some(e) = ev {
        router.set_event(e);
    }
}

/// One render pass as the main loop performs it: callbacks first, then the
/// route handler, then the pass-end bookkeeping.
fn run_pass(router: &mut AppRouter) -> PassStep {
    let mut funcs = router.take_callbacks();
    for entry in funcs.iter_mut() {
        (entry.1.0)(router);
    }
    router.restore_callbacks(funcs);
    let mut route = router.take_route();
    match &mut route {
        MyRoutes::Home { counter } => home(router, counter),
        MyRoutes::Modifier => modifier_page(router),
    }
    router.restore_route(route);
    router.after_pass()
}

fn current_route(router: &mut AppRouter) -> MyRoutes {
    let route = router.take_route();
    router.restore_route(route);
    route
}

fn read_cell(router: &mut AppRouter, token: u64) -> i64 {
    let h = router.get_context(token);
    *router.read_context(&h)
}

#[test]
fn start_emits_a_started_pass() {
    let mut router: AppRouter = Router::create_router(MyRoutes::Home { counter: 0 });
    router.start();
    assert!(matches!(router.get_event(), Events::Started));
    assert_eq!(router.current_phase(), Phase::Active);
    let step = run_pass(&mut router);
    assert_eq!(step, PassStep::AwaitInput);
}

#[test]
fn change_page_then_go_back_restores_route_and_stack() {
    let mut router: AppRouter = Router::create_router(MyRoutes::Home { counter: 5 });
    router.create_context(MODIFIER, 1);
    router.start();
    assert_eq!(run_pass(&mut router), PassStep::AwaitInput);
    router.deliver_input(key(KeyCode::Tab));
    let step = run_pass(&mut router);
    assert_eq!(step, PassStep::Redraw);
    assert_eq!(current_route(&mut router), MyRoutes::Modifier);
    assert_eq!(router.stack_len(), 1);
    assert!(matches!(router.get_event(), Events::PageChanged));
    assert_eq!(run_pass(&mut router), PassStep::AwaitInput);
    router.deliver_input(key(KeyCode::Tab));
    let step = run_pass(&mut router);
    assert_eq!(step, PassStep::Redraw);
    assert_eq!(current_route(&mut router), MyRoutes::Home { counter: 5 });
    assert_eq!(router.stack_len(), 0);
}

#[test]
fn go_back_on_empty_stack_is_a_no_op() {
    let mut router: AppRouter = Router::create_router(MyRoutes::Home { counter: 0 });
    router.start();
    assert_eq!(run_pass(&mut router), PassStep::AwaitInput);
    router.go_back();
    let step = router.after_pass();
    assert_eq!(step, PassStep::AwaitInput);
    assert_eq!(current_route(&mut router), MyRoutes::Home { counter: 0 });
    assert_eq!(router.stack_len(), 0);
    assert_eq!(router.current_phase(), Phase::Active);
}

#[test]
fn exit_returns_after_exactly_one_exit_pass() {
    let mut router: AppRouter = Router::create_router(MyRoutes::Home { counter: 0 });
    router.start();
    assert_eq!(run_pass(&mut router), PassStep::AwaitInput);
    router.deliver_input(key(KeyCode::Esc));
    let step = run_pass(&mut router);
    assert_eq!(step, PassStep::Redraw);
    assert!(matches!(router.get_event(), Events::Exit));
    assert_eq!(router.current_phase(), Phase::Exiting);
    let step = run_pass(&mut router);
    assert_eq!(step, PassStep::Finished);
    assert_eq!(router.current_phase(), Phase::Terminated);
}

#[test]
fn exit_wins_over_navigation_requested_in_the_same_pass() {
    let mut router: AppRouter = Router::create_router(MyRoutes::Home { counter: 0 });
    router.start();
    router.change_page(MyRoutes::Modifier);
    router.exit();
    let step = router.after_pass();
    assert_eq!(step, PassStep::Redraw);
    assert!(matches!(router.get_event(), Events::Exit));
    assert_eq!(current_route(&mut router), MyRoutes::Home { counter: 0 });
    assert_eq!(router.stack_len(), 0);
    let step = router.after_pass();
    assert_eq!(step, PassStep::Finished);
}

#[test]
fn callbacks_run_each_pass_until_removed() {
    let mut router: AppRouter = Router::create_router(MyRoutes::Home { counter: 0 });
    router.create_context(MODIFIER, 1);
    router.create_context(TICKS, 0);
    let id = router.add_callback(Cb(Box::new(|r| {
        let h = r.get_context(TICKS);
        let v = *r.read_context(&h);
        r.write_context(&h, v + 1);
    })));
    assert_eq!(id, 1);
    router.start();
    assert_eq!(run_pass(&mut router), PassStep::AwaitInput);
    assert_eq!(read_cell(&mut router, TICKS), 1);
    router.deliver_input(key(KeyCode::Char('a')));
    assert_eq!(run_pass(&mut router), PassStep::AwaitInput);
    assert_eq!(read_cell(&mut router, TICKS), 2);
    router.remove_callback(id);
    router.deliver_input(key(KeyCode::Char('a')));
    assert_eq!(run_pass(&mut router), PassStep::AwaitInput);
    assert_eq!(read_cell(&mut router, TICKS), 2);
}

#[test]
fn callback_may_rewire_the_registry_during_invocation() {
    let mut router: AppRouter = Router::create_router(MyRoutes::Home { counter: 0 });
    router.create_context(MODIFIER, 1);
    router.create_context(TICKS, 0);
    // The first callback replaces itself with a ticking callback, from
    // within its own invocation.
    let id = router.add_callback(Cb(Box::new(|r| {
        r.remove_callback(1);
        r.add_callback(Cb(Box::new(|r| {
            let h = r.get_context(TICKS);
            let v = *r.read_context(&h);
            r.write_context(&h, v + 1);
        })));
    })));
    assert_eq!(id, 1);
    router.start();
    assert_eq!(run_pass(&mut router), PassStep::AwaitInput);
    assert_eq!(read_cell(&mut router, TICKS), 0);
    router.deliver_input(key(KeyCode::Char('a')));
    assert_eq!(run_pass(&mut router), PassStep::AwaitInput);
    assert_eq!(read_cell(&mut router, TICKS), 1);
    router.deliver_input(key(KeyCode::Char('a')));
    assert_eq!(run_pass(&mut router), PassStep::AwaitInput);
    assert_eq!(read_cell(&mut router, TICKS), 2);
}

#[test]
fn counter_scenario_across_pages() {
    let mut router: AppRouter = Router::create_router(MyRoutes::Home { counter: 0 });
    router.create_context(MODIFIER, 1);
    router.start();
    assert_eq!(run_pass(&mut router), PassStep::AwaitInput);
    // 'a' on Home: the counter grows by the modifier.
    router.deliver_input(key(KeyCode::Char('a')));
    assert_eq!(run_pass(&mut router), PassStep::AwaitInput);
    assert_eq!(current_route(&mut router), MyRoutes::Home { counter: 1 });
    // Tab on Home: change to the Modifier page.
    router.deliver_input(key(KeyCode::Tab));
    assert_eq!(run_pass(&mut router), PassStep::Redraw);
    assert_eq!(current_route(&mut router), MyRoutes::Modifier);
    assert_eq!(router.stack_len(), 1);
    assert_eq!(run_pass(&mut router), PassStep::AwaitInput);
    // 'b' on Modifier: the shared modifier cell becomes 2.
    router.deliver_input(key(KeyCode::Char('b')));
    assert_eq!(run_pass(&mut router), PassStep::AwaitInput);
    assert_eq!(read_cell(&mut router, MODIFIER), 2);
    // Tab on Modifier: back to Home, unchanged.
    router.deliver_input(key(KeyCode::Tab));
    assert_eq!(run_pass(&mut router), PassStep::Redraw);
    assert_eq!(current_route(&mut router), MyRoutes::Home { counter: 1 });
    assert_eq!(router.stack_len(), 0);
    assert_eq!(run_pass(&mut router), PassStep::AwaitInput);
    // The next plain key increments by the updated modifier.
    router.deliver_input(key(KeyCode::Char('c')));
    assert_eq!(run_pass(&mut router), PassStep::AwaitInput);
    assert_eq!(current_route(&mut router), MyRoutes::Home { counter: 3 });
}
