use oxirast::signal::{use_effect, use_memo, use_state, Signal, SignalStore};
use std::cell::RefCell;
use std::rc::Rc;

#[test]
fn get_returns_initial_value() {
    let s = use_state(5);
    assert_eq!(s.get(), 5);
}

#[test]
fn set_then_get_gives_new_value() {
    let mut s = Signal::new("a".to_string());
    let notify = s.set("b".to_string());
    assert!(notify.is_empty());
    assert_eq!(s.get(), "b");
}

#[test]
fn set_notifies_subscribers_in_order() {
    let mut s = Signal::new(0u32);
    s.subscribe(10);
    s.subscribe(20);
    s.subscribe(10);
    let notify = s.set(1);
    assert_eq!(notify, vec![10, 20, 10]);
    assert_eq!(s.get(), 1);
    assert_eq!(s.set(2), vec![10, 20, 10]);
}

#[test]
fn with_key_keeps_key_across_updates() {
    let mut s = Signal::with_key(42, String::from("x"));
    assert_eq!(s.key(), Some(42));
    s.subscribe(7);
    assert_eq!(s.set(String::from("y")), vec![7]);
    assert_eq!(s.key(), Some(42));
    assert_eq!(use_state(1u8).key(), None);
}

#[test]
fn memo_starts_from_dependency_and_subscribes() {
    let mut count = Signal::new(3i32);
    count.subscribe(1);
    let double = use_memo(&mut count, |c: &i32| format!("Double: {}", c * 2), 9);
    assert_eq!(double.get(), "Double: 6");
    assert_eq!(double.key(), None);
    assert_eq!(count.get(), 3);
    assert_eq!(count.set(4), vec![1, 9]);
}

#[test]
fn effect_runs_once_and_subscribes() {
    let seen = RefCell::new(Vec::new());
    let mut name = Signal::new(String::from("ox"));
    use_effect(&mut name, |v: &String| seen.borrow_mut().push(v.clone()), 5);
    assert_eq!(*seen.borrow(), vec![String::from("ox")]);
    assert_eq!(name.get(), "ox");
    assert_eq!(name.set(String::from("ir")), vec![5]);
}

type Calc<T> = Box<dyn Fn(&T) -> T>;

#[test]
fn store_write_is_seen_through_every_handle() {
    let mut st: SignalStore<String, Calc<String>> = SignalStore::new();
    let a = st.create(String::from("x"));
    let b = st.create(String::from("y"));
    assert_eq!((a, b, st.len()), (0, 1, 2));
    st.subscribe(a, 1);
    st.subscribe(a, 2);
    let (h1, h2) = (a, a);
    assert_eq!(st.set(h1, String::from("z")), (vec![1, 2], vec![]));
    assert_eq!(st.get(h2), "z");
    assert_eq!(st.get(b), "y");
    assert_eq!(st.listeners(a), vec![1, 2]);
    let snap = st.signal(a);
    assert_eq!((snap.key(), snap.get()), (Some(0), String::from("z")));
    assert_eq!(st.set(b, String::from("w")), (Vec::<u64>::new(), vec![]));
}

#[test]
fn store_derived_cell_follows_every_write() {
    let mut st: SignalStore<i32, Calc<i32>> = SignalStore::new();
    let dep = st.create(3);
    let other = st.create(100);
    let memo = st.derive(dep, Box::new(|v: &i32| v * 2));
    let plus = st.derive(dep, Box::new(|v: &i32| v + 1));
    assert_eq!((st.get(memo), st.get(plus)), (6, 4));
    st.subscribe(memo, 9);
    assert_eq!(st.set(dep, 5), (vec![], vec![memo, plus]));
    assert_eq!((st.get(dep), st.get(memo), st.get(plus), st.get(other)), (5, 10, 6, 100));
    assert_eq!(st.listeners(memo), vec![9]);
    assert_eq!(st.set(dep, -1), (vec![], vec![memo, plus]));
    assert_eq!((st.get(memo), st.get(plus)), (-2, 0));
    // Writing a cell that nothing derives from touches nothing else.
    assert_eq!(st.set(other, 7), (vec![], vec![]));
    assert_eq!(st.get(memo), -2);
}

#[test]
fn store_effect_runs_once_per_write() {
    let runs: Rc<RefCell<Vec<i32>>> = Rc::new(RefCell::new(Vec::new()));
    let seen = runs.clone();
    let mut st: SignalStore<i32, Calc<i32>> = SignalStore::new();
    let dep = st.create(1);
    st.derive(dep, Box::new(move |v: &i32| {
        seen.borrow_mut().push(*v);
        0
    }));
    st.set(dep, 2);
    st.set(dep, 2);
    assert_eq!(*runs.borrow(), vec![1, 2, 2]);
}

#[test]
fn store_recomputes_chains_of_derived_cells() {
    let mut st: SignalStore<i32, Calc<i32>> = SignalStore::new();
    let dep = st.create(1);
    let double = st.derive(dep, Box::new(|v: &i32| v * 2));
    let next = st.derive(double, Box::new(|v: &i32| v + 1));
    assert_eq!(st.get(next), 3);
    assert_eq!(st.set(dep, 10), (vec![], vec![double, next]));
    assert_eq!((st.get(double), st.get(next)), (20, 21));
    // Writing the middle cell recomputes only what depends on it.
    assert_eq!(st.set(double, 0), (vec![], vec![next]));
    assert_eq!((st.get(dep), st.get(next)), (10, 1));
}

#[test]
fn signal_made_alone_has_no_key() {
    assert_eq!(Signal::new(0u8).key(), None);
    assert_eq!(Signal::with_key(0, 0u8).key(), Some(0));
}
