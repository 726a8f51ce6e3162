use std::sync::atomic::AtomicU32;
use std::sync::atomic::Ordering;
use std::sync::Arc;

use misty_vm::states::MistyStateId;
use misty_vm::states::MistyStateManager;
use misty_vm::states::States;
use misty_vm::views::BoxedMistyViewModel;
use misty_vm::views::MistyViewModel;
use misty_vm::views::MistyViewModelManager;

const A: MistyStateId = MistyStateId(1);
const B: MistyStateId = MistyStateId(2);

#[derive(Debug, Default, Clone, PartialEq)]
struct Root {
    a: i64,
    b: i64,
    log: Vec<&'static str>,
}

struct CopyA {
    runs: Arc<AtomicU32>,
}

impl MistyViewModel<Root, i64> for CopyA {
    fn update(&self, states: &Vec<&i64>, s: &mut Root) {
        self.runs.fetch_add(1, Ordering::SeqCst);
        assert_eq!(states.len(), 1);
        s.a = *states[0];
        s.log.push("a");
    }
}

struct CopyB {
    runs: Arc<AtomicU32>,
}

impl MistyViewModel<Root, i64> for CopyB {
    fn update(&self, states: &Vec<&i64>, s: &mut Root) {
        self.runs.fetch_add(1, Ordering::SeqCst);
        s.b = *states[0];
        s.log.push("b");
    }
}

struct SumOfBoth;

impl MistyViewModel<Root, i64> for SumOfBoth {
    fn update(&self, states: &Vec<&i64>, s: &mut Root) {
        assert_eq!(states.len(), 2);
        s.b = s.a * 100 + *states[0] + *states[1];
        s.log.push("sum");
    }
}

fn manager() -> MistyStateManager<i64> {
    let mut states = States::new();
    states.register(A, 3);
    states.register(B, 4);
    MistyStateManager::new(states)
}

#[test]
fn a_binding_over_a_is_not_run_when_only_b_was_written() {
    let a_runs = Arc::new(AtomicU32::new(0));
    let b_runs = Arc::new(AtomicU32::new(0));
    let views = MistyViewModelManager::builder()
        .register(vec![A], CopyA { runs: a_runs.clone() })
        .register(vec![B], CopyB { runs: b_runs.clone() })
        .build();
    let mut sm = manager();
    sm.enter_mut_span();
    sm.update(B, |v| *v = 40);
    let view: Root = views.build_view(&sm);
    assert_eq!(a_runs.load(Ordering::SeqCst), 0);
    assert_eq!(b_runs.load(Ordering::SeqCst), 1);
    assert_eq!(view, Root { a: 0, b: 40, log: vec!["b"] });
}

#[test]
fn nothing_written_gives_the_default_view() {
    let a_runs = Arc::new(AtomicU32::new(0));
    let views = MistyViewModelManager::builder()
        .register(vec![A], CopyA { runs: a_runs.clone() })
        .register(vec![A, B], SumOfBoth)
        .build();
    let sm = manager();
    let view: Root = views.build_view(&sm);
    assert_eq!(view, Root::default());
    assert_eq!(a_runs.load(Ordering::SeqCst), 0);
}

#[test]
fn bindings_run_in_the_order_of_registration_on_one_view() {
    let a_runs = Arc::new(AtomicU32::new(0));
    let views = MistyViewModelManager::builder()
        .register(vec![A], CopyA { runs: a_runs.clone() })
        .register(vec![A, B], SumOfBoth)
        .build();
    assert_eq!(views.len(), 2);
    let mut sm = manager();
    sm.enter_mut_span();
    sm.update(A, |v| *v = 5);
    let view: Root = views.build_view(&sm);
    assert_eq!(view.a, 5);
    assert_eq!(view.b, 5 * 100 + 5 + 4);
    assert_eq!(view.log, vec!["a", "sum"]);
    assert_eq!(a_runs.load(Ordering::SeqCst), 1);
}

#[test]
fn a_binding_is_due_when_any_of_its_dependencies_was_written() {
    let binding: BoxedMistyViewModel<Root, i64> = BoxedMistyViewModel::new(vec![A, B], SumOfBoth);
    assert_eq!(binding.state_ids(), &vec![A, B]);
    let mut sm = manager();
    assert!(!binding.should_update(&sm));
    sm.enter_mut_span();
    sm.update(B, |v| *v += 1);
    assert!(binding.should_update(&sm));
    let mut root = Root { a: 1, b: 0, log: vec![] };
    binding.update(&sm, &mut root);
    assert_eq!(root.b, 100 + 3 + 5);
    sm.clear_updated_states();
    assert!(!binding.should_update(&sm));
}

#[test]
fn a_projector_knows_whether_its_states_are_registered() {
    let views: MistyViewModelManager<Root, i64> = MistyViewModelManager::builder()
        .register(vec![A], SumOfBoth)
        .register(vec![B, MistyStateId(3)], SumOfBoth)
        .build();
    assert!(!views.is_covered_by(&manager()));
    let mut states = States::new();
    states.register(A, 0);
    states.register(B, 0);
    states.register(MistyStateId(3), 0);
    assert!(views.is_covered_by(&MistyStateManager::new(states)));
    let empty: MistyViewModelManager<Root, i64> = MistyViewModelManager::builder().build();
    assert_eq!(empty.len(), 0);
    assert!(empty.is_covered_by(&manager()));
    assert_eq!(empty.build_view(&manager()), Root::default());
}
