use misty_vm::resources::MistyResourceId;
use misty_vm::resources::MistyResourceManager;
use misty_vm::resources::ResourceUpdateAction;
use misty_vm::resources::ToFlushResourceAction;

fn find(actions: &[ResourceUpdateAction], id: MistyResourceId) -> Vec<&ResourceUpdateAction> {
    actions.iter().filter(|a| a.id() == id).collect()
}

#[test]
fn insert_then_harvest_reports_the_bytes() {
    let mut ledger = MistyResourceManager::new();
    let handle = ledger.insert(vec![1, 2, 3]);
    assert_eq!(handle.id(), MistyResourceId::wrap(1));
    assert_eq!(handle.load(), &vec![1u8, 2, 3]);
    let actions = ledger.take_all_actions();
    assert_eq!(actions.len(), 1);
    match &actions[0] {
        ResourceUpdateAction::Insert(id, bytes) => {
            assert_eq!(*id, MistyResourceId::wrap(1));
            assert_eq!(bytes, &vec![1u8, 2, 3]);
        }
        ResourceUpdateAction::Remove(_) => panic!("expected an insert"),
    }
    assert!(actions[0].is_insert());
    ledger.release(handle);
}

#[test]
fn insert_and_release_before_harvest_cancel_out() {
    let mut ledger = MistyResourceManager::new();
    let handle = ledger.insert(vec![9]);
    let id = handle.id();
    assert_eq!(ledger.pending_action(id), Some(ToFlushResourceAction::Insert));
    ledger.release(handle);
    assert_eq!(ledger.pending_action(id), None);
    let actions = ledger.take_all_actions();
    assert!(find(&actions, id).is_empty());
    assert!(actions.is_empty());
    assert_eq!(ledger.ref_count(id), 0);
}

#[test]
fn release_after_harvest_yields_one_remove() {
    let mut ledger = MistyResourceManager::new();
    let handle = ledger.insert(vec![4, 5]);
    let id = handle.id();
    let first = ledger.take_all_actions();
    assert_eq!(first.len(), 1);
    assert!(first[0].is_insert());
    ledger.release(handle);
    let second = ledger.take_all_actions();
    assert_eq!(second.len(), 1);
    match &second[0] {
        ResourceUpdateAction::Remove(removed) => assert_eq!(*removed, id),
        ResourceUpdateAction::Insert(_, _) => panic!("expected a remove"),
    }
    assert!(ledger.take_all_actions().is_empty());
}

#[test]
fn ids_rise_and_are_never_reused() {
    let mut ledger = MistyResourceManager::new();
    let a = ledger.insert(vec![]);
    let a_id = a.id();
    ledger.release(a);
    let b = ledger.insert(vec![]);
    let c = ledger.insert(vec![]);
    assert_eq!(a_id.value(), 1);
    assert_eq!(b.id().value(), 2);
    assert_eq!(c.id().value(), 3);
    assert!(ledger.has_free_id());
    ledger.release(b);
    ledger.release(c);
}

#[test]
fn the_ledger_does_not_keep_a_resource_alive() {
    let mut ledger = MistyResourceManager::new();
    let handle = ledger.insert(vec![7, 7]);
    let id = handle.id();
    let second = ledger.get_handle(id).expect("still live");
    assert_eq!(second.id(), id);
    assert_eq!(second.load(), &vec![7u8, 7]);
    assert_eq!(ledger.ref_count(id), 2);
    ledger.release(handle);
    assert_eq!(ledger.ref_count(id), 1);
    assert!(ledger.get_handle(id).map(|h| ledger.release(h)).is_some());
    ledger.release(second);
    assert_eq!(ledger.ref_count(id), 0);
    assert!(ledger.get_handle(id).is_none());
    assert!(ledger.get_handle(MistyResourceId::wrap(99)).is_none());
}

#[test]
fn only_the_last_release_records_the_remove() {
    let mut ledger = MistyResourceManager::new();
    let first = ledger.insert(vec![1]);
    let id = first.id();
    let second = ledger.get_handle(id).unwrap();
    ledger.take_all_actions();
    ledger.release(first);
    assert_eq!(ledger.pending_action(id), None);
    ledger.release(second);
    assert_eq!(ledger.pending_action(id), Some(ToFlushResourceAction::Remove));
}

#[test]
fn a_handle_of_another_ledger_changes_nothing() {
    let mut ledger = MistyResourceManager::new();
    let mut other = MistyResourceManager::new();
    let foreign = other.insert(vec![1]);
    ledger.release(foreign);
    assert!(ledger.take_all_actions().is_empty());
    assert_eq!(ledger.ref_count(MistyResourceId::wrap(1)), 0);
}

#[test]
fn a_harvest_holds_one_action_for_each_pending_id() {
    let mut ledger = MistyResourceManager::new();
    let a = ledger.insert(vec![1]);
    let b = ledger.insert(vec![2]);
    let c = ledger.insert(vec![3]);
    let (a_id, b_id, c_id) = (a.id(), b.id(), c.id());
    ledger.release(b);
    let first = ledger.take_all_actions();
    assert_eq!(first.len(), 2);
    assert_eq!(find(&first, a_id).len(), 1);
    assert_eq!(find(&first, b_id).len(), 0);
    assert_eq!(find(&first, c_id).len(), 1);
    ledger.release(a);
    let d = ledger.insert(vec![4]);
    let second = ledger.take_all_actions();
    assert_eq!(second.len(), 2);
    assert!(!find(&second, a_id)[0].is_insert());
    match find(&second, d.id())[0] {
        ResourceUpdateAction::Insert(_, bytes) => assert_eq!(bytes, &vec![4u8]),
        ResourceUpdateAction::Remove(_) => panic!("expected an insert"),
    }
    ledger.release(c);
    ledger.release(d);
}

#[test]
fn the_invalid_id_is_zero_and_the_default() {
    assert_eq!(MistyResourceId::invalid().value(), 0);
    assert_eq!(MistyResourceId::default(), MistyResourceId::invalid());
    assert!(!MistyResourceId::invalid().is_valid());
    assert!(MistyResourceId::wrap(5).is_valid());
    assert_eq!(MistyResourceId::wrap(5).value(), 5);
}

fn apply(host: &mut std::collections::HashMap<u64, Vec<u8>>, actions: Vec<ResourceUpdateAction>) {
    for action in actions {
        match action {
            ResourceUpdateAction::Insert(id, bytes) => {
                host.insert(id.value(), bytes);
            }
            ResourceUpdateAction::Remove(id) => {
                host.remove(&id.value());
            }
        }
    }
}

#[test]
fn a_host_that_applies_every_harvest_holds_the_live_resources() {
    let mut ledger = MistyResourceManager::new();
    let mut host = std::collections::HashMap::new();
    let a = ledger.insert(vec![1]);
    let b = ledger.insert(vec![2, 2]);
    apply(&mut host, ledger.take_all_actions());
    assert_eq!(host.len(), 2);
    assert_eq!(host[&1], vec![1]);
    assert_eq!(host[&2], vec![2, 2]);

    let c = ledger.insert(vec![3]);
    ledger.release(a);
    let d = ledger.insert(vec![4]);
    ledger.release(d);
    let b_again = ledger.get_handle(b.id()).unwrap();
    ledger.release(b);
    apply(&mut host, ledger.take_all_actions());
    assert_eq!(host.len(), 2);
    assert_eq!(host[&2], vec![2, 2]);
    assert_eq!(host[&3], vec![3]);

    ledger.release(b_again);
    ledger.release(c);
    apply(&mut host, ledger.take_all_actions());
    assert!(host.is_empty());
    apply(&mut host, ledger.take_all_actions());
    assert!(host.is_empty());
}
