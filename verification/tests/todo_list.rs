use std::cell::RefCell;
use std::collections::HashMap;
use std::collections::HashSet;
use std::convert::Infallible;
use std::rc::Rc;

use misty_vm::async_task::IAsyncTaskRuntimeAdapter;
use misty_vm::client::MistyClientId;
use misty_vm::client::MistyClientInner;
use misty_vm::client::SingletonMistyClientPod;
use misty_vm::controllers::ControllerRet;
use misty_vm::resources::MistyResourceId;
use misty_vm::resources::ResourceUpdateAction;
use misty_vm::services::MistyServiceManager;
use misty_vm::states::MistyStateId;
use misty_vm::states::MistyStateManager;
use misty_vm::states::States;
use misty_vm::views::MistyViewModel;
use misty_vm::views::MistyViewModelManager;

#[derive(Debug, Clone)]
struct TodolistItem {
    id: i32,
    title: String,
    done: bool,
}

#[derive(Debug, Clone, Default)]
struct TodolistState {
    map: HashMap<i32, TodolistItem>,
}

#[derive(Debug, Clone, Default)]
struct CheckedState {
    set: HashSet<i32>,
}

#[derive(Debug, Clone)]
struct TodolistAllocState {
    alloc: i32,
}

impl Default for TodolistAllocState {
    fn default() -> Self {
        Self { alloc: 1 }
    }
}

#[derive(Debug, Clone)]
enum AppState {
    Todolist(TodolistState),
    Checked(CheckedState),
    Alloc(TodolistAllocState),
}

const TODOLIST: MistyStateId = MistyStateId(1);
const CHECKED: MistyStateId = MistyStateId(2);
const ALLOC: MistyStateId = MistyStateId(3);

#[derive(Debug, Clone)]
struct ViewTodolistItem {
    id: i32,
    checked: bool,
    title: String,
    done: bool,
}

#[derive(Debug, Clone, Default)]
struct ViewTodolist {
    list: Vec<ViewTodolistItem>,
}

#[derive(Debug, Clone, Default)]
struct Root {
    todolist: ViewTodolist,
}

struct NoRuntime;

impl IAsyncTaskRuntimeAdapter for NoRuntime {
    type Job = ();
    type LocalJob = ();

    fn spawn(&self, _job: ()) -> u64 {
        0
    }

    fn spawn_local(&self, _job: ()) -> u64 {
        0
    }

    fn try_abort(&self, _handle: u64) {}
}

type Client = MistyClientInner<Root, AppState, (), NoRuntime, ()>;

struct ArgAddTodolistItem {
    title: String,
}

fn controller_add_todolist_item(
    ctx: &mut Client,
    arg: ArgAddTodolistItem,
) -> Result<(), Infallible> {
    let alloc_id = ctx.update_state(ALLOC, |slot| match slot {
        AppState::Alloc(alloc_state) => {
            let id = alloc_state.alloc;
            alloc_state.alloc += 1;
            id
        }
        _ => unreachable!(),
    });

    ctx.update_state(TODOLIST, |slot| match slot {
        AppState::Todolist(state) => {
            state.map.insert(
                alloc_id,
                TodolistItem {
                    id: alloc_id,
                    title: arg.title,
                    done: false,
                },
            );
        }
        _ => unreachable!(),
    });
    Ok(())
}

fn controller_check_todolist_item(ctx: &mut Client, id: i32) -> Result<(), Infallible> {
    ctx.update_state(CHECKED, move |slot| match slot {
        AppState::Checked(state) => {
            if state.set.contains(&id) {
                state.set.remove(&id);
            } else {
                state.set.insert(id);
            }
        }
        _ => unreachable!(),
    });
    Ok(())
}

fn controller_remove_checked(ctx: &mut Client, _arg: ()) -> Result<(), Infallible> {
    let checked = ctx.update_state(CHECKED, |slot| match slot {
        AppState::Checked(state) => {
            let ret = state.set.clone();
            state.set.clear();
            ret
        }
        _ => unreachable!(),
    });
    ctx.update_state(TODOLIST, |slot| match slot {
        AppState::Todolist(state) => {
            for id in checked.into_iter() {
                state.map.remove(&id);
            }
        }
        _ => unreachable!(),
    });
    Ok(())
}

struct TodolistViewModel;

impl MistyViewModel<Root, AppState> for TodolistViewModel {
    fn update(&self, states: &Vec<&AppState>, root: &mut Root) {
        let (list, checked) = match (states[0], states[1]) {
            (AppState::Todolist(list), AppState::Checked(checked)) => (list, checked),
            _ => unreachable!(),
        };
        let mut vlist = ViewTodolist::default();
        for (id, item) in list.map.clone().into_iter() {
            vlist.list.push(ViewTodolistItem {
                id,
                title: item.title,
                done: false,
                checked: checked.set.contains(&id),
            });
        }
        root.todolist = vlist;
    }
}

struct TestApp {
    pod: SingletonMistyClientPod<Root, AppState, (), NoRuntime, ()>,
    state: Rc<RefCell<Root>>,
    resources: HashMap<MistyResourceId, Vec<u8>>,
}

impl TestApp {
    fn call_controller<C, Arg>(&mut self, controller: C, arg: Arg)
    where
        C: FnOnce(&mut Client, Arg) -> Result<(), Infallible>,
    {
        let ret = self.pod.call_controller(controller, arg).unwrap();
        self.apply(ret);
    }

    fn apply(&mut self, ret: ControllerRet<Root>) {
        if let Some(changed_view) = ret.changed_view {
            *self.state.borrow_mut() = changed_view;
        }
        for resource in ret.changed_resources.into_iter() {
            match resource {
                ResourceUpdateAction::Insert(id, buf) => {
                    self.resources.insert(id, buf);
                }
                ResourceUpdateAction::Remove(id) => {
                    self.resources.remove(&id);
                }
            }
        }
    }

    fn state(&self) -> Root {
        self.state.borrow().clone()
    }
}

fn build_app() -> TestApp {
    let view_manager = MistyViewModelManager::builder()
        .register(vec![TODOLIST, CHECKED], TodolistViewModel)
        .build();
    let mut states = States::new();
    states.register(CHECKED, AppState::Checked(CheckedState::default()));
    states.register(ALLOC, AppState::Alloc(TodolistAllocState::default()));
    states.register(TODOLIST, AppState::Todolist(TodolistState::default()));
    let state_manager = MistyStateManager::new(states);
    let service_manager = MistyServiceManager::builder().build();

    let mut pod = SingletonMistyClientPod::new();
    assert!(view_manager.is_covered_by(&state_manager));
    pod.create(
        MistyClientId::new(1),
        view_manager,
        state_manager,
        service_manager,
        NoRuntime,
    );
    TestApp {
        pod,
        state: Default::default(),
        resources: Default::default(),
    }
}

#[test]
fn test_add() {
    let mut app = build_app();
    app.call_controller(
        controller_add_todolist_item,
        ArgAddTodolistItem {
            title: "Math".to_string(),
        },
    );

    let view = app.state();
    assert_eq!(view.todolist.list.len(), 1);
    assert_eq!(view.todolist.list[0].id, 1);
    assert_eq!(view.todolist.list[0].title, "Math");
    assert_eq!(view.todolist.list[0].checked, false);
}

#[test]
fn test_add_check() {
    let mut app = build_app();
    app.call_controller(
        controller_add_todolist_item,
        ArgAddTodolistItem {
            title: "Math".to_string(),
        },
    );
    app.call_controller(controller_check_todolist_item, 1);

    let view = app.state();
    assert_eq!(view.todolist.list.len(), 1);
    assert_eq!(view.todolist.list[0].id, 1);
    assert_eq!(view.todolist.list[0].title, "Math");
    assert_eq!(view.todolist.list[0].checked, true);
}

#[test]
fn test_add_check_remove() {
    let mut app = build_app();
    app.call_controller(
        controller_add_todolist_item,
        ArgAddTodolistItem {
            title: "Math".to_string(),
        },
    );
    app.call_controller(
        controller_add_todolist_item,
        ArgAddTodolistItem {
            title: "English".to_string(),
        },
    );
    app.call_controller(controller_check_todolist_item, 1);
    app.call_controller(controller_remove_checked, ());

    let view = app.state();
    assert_eq!(view.todolist.list.len(), 1);
    assert_eq!(view.todolist.list[0].id, 2);
    assert_eq!(view.todolist.list[0].title, "English");
    assert_eq!(view.todolist.list[0].checked, false);
}

#[test]
fn items_keep_their_fields_in_the_view() {
    let mut app = build_app();
    app.call_controller(
        controller_add_todolist_item,
        ArgAddTodolistItem {
            title: "Math".to_string(),
        },
    );
    let view = app.state();
    assert_eq!(view.todolist.list[0].done, false);
    let client = app.pod.inner();
    match client.state(TODOLIST) {
        AppState::Todolist(state) => {
            assert_eq!(state.map[&1].id, 1);
            assert_eq!(state.map[&1].done, false);
        }
        _ => panic!("wrong slot"),
    }
    assert!(app.resources.is_empty());
}
