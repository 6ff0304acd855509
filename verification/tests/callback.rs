use ratatui_router::callback::CallbackHolder;

#[test]
fn callback_ids_start_at_one_and_increase() {
    let mut holder: CallbackHolder<u32> = CallbackHolder::new();
    let a = holder.add_callback(10);
    let b = holder.add_callback(20);
    let c = holder.add_callback(30);
    assert_eq!((a, b, c), (1, 2, 3));
    let snapshot = holder.get_functions();
    let ids: Vec<usize> = snapshot.iter().map(|e| e.0).collect();
    assert_eq!(ids, vec![1, 2, 3]);
    holder.set_functions(snapshot);
}

#[test]
fn increment_issues_sequential_ids() {
    let mut holder: CallbackHolder<u32> = CallbackHolder::new();
    assert_eq!(holder.increment(), 1);
    assert_eq!(holder.increment(), 2);
    assert_eq!(holder.add_callback(5), 3);
}

#[test]
fn removed_callback_leaves_the_set() {
    let mut holder: CallbackHolder<u32> = CallbackHolder::new();
    holder.add_callback(10);
    holder.add_callback(20);
    holder.add_callback(30);
    holder.remove_callback(2);
    let snapshot = holder.get_functions();
    let ids: Vec<usize> = snapshot.iter().map(|e| e.0).collect();
    assert_eq!(ids, vec![1, 3]);
    holder.set_functions(snapshot);
}

#[test]
fn removing_an_absent_id_is_ignored() {
    let mut holder: CallbackHolder<u32> = CallbackHolder::new();
    holder.add_callback(10);
    holder.remove_callback(42);
    let snapshot = holder.get_functions();
    let ids: Vec<usize> = snapshot.iter().map(|e| e.0).collect();
    assert_eq!(ids, vec![1]);
    holder.set_functions(snapshot);
}

#[test]
fn detached_operations_commit_on_reattach() {
    let mut holder: CallbackHolder<u32> = CallbackHolder::new();
    holder.add_callback(10);
    holder.add_callback(20);
    let snapshot = holder.get_functions();
    // While the set is detached, additions and removals are queued.
    let queued_id = holder.add_callback(30);
    assert_eq!(queued_id, 3);
    holder.remove_callback(1);
    holder.set_functions(snapshot);
    let committed = holder.get_functions();
    let pairs: Vec<(usize, u32)> = committed.iter().map(|e| (e.0, e.1)).collect();
    assert_eq!(pairs, vec![(2, 20), (3, 30)]);
    holder.set_functions(committed);
}

#[test]
fn queued_removal_of_a_queued_addition_cancels_it() {
    let mut holder: CallbackHolder<u32> = CallbackHolder::new();
    holder.add_callback(10);
    let snapshot = holder.get_functions();
    let queued_id = holder.add_callback(20);
    holder.remove_callback(queued_id);
    holder.set_functions(snapshot);
    let committed = holder.get_functions();
    let ids: Vec<usize> = committed.iter().map(|e| e.0).collect();
    assert_eq!(ids, vec![1]);
    holder.set_functions(committed);
}

#[test]
fn ids_are_never_reissued_after_removal() {
    let mut holder: CallbackHolder<u32> = CallbackHolder::new();
    let first = holder.add_callback(10);
    holder.remove_callback(first);
    let second = holder.add_callback(20);
    assert_eq!(first, 1);
    assert_eq!(second, 2);
    assert_ne!(first, second);
}
