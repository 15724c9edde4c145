use std::sync::{Arc, Mutex};
use vscode_atomic_tauri::disposable::{DisposableStore, DisposeFn};

#[test]
fn dispose_reverse_order() {
    let order = Arc::new(Mutex::new(Vec::<usize>::new()));
    let mut store = DisposableStore::new();

    for i in 0..3usize {
        let o = order.clone();
        store.add(DisposeFn::new(move || {
            o.lock().unwrap().push(i);
        }));
    }

    store.dispose();

    assert_eq!(*order.lock().unwrap(), vec![2, 1, 0]);
}

#[test]
fn handle_early_dispose() {
    let fired = Arc::new(Mutex::new(false));
    let f = fired.clone();
    let mut store = DisposableStore::new();
    let handle = store.add(DisposeFn::new(move || {
        *f.lock().unwrap() = true;
    }));

    handle.dispose(&mut store);
    assert!(*fired.lock().unwrap(), "should fire immediately on handle dispose");

    let fired2 = fired.clone();
    store.dispose();
    assert!(*fired2.lock().unwrap());
}

#[test]
fn clear_then_add_then_dispose() {
    let count = Arc::new(Mutex::new(0u32));
    let mut store = DisposableStore::new();

    store.add(adder(&count, 1));
    store.clear();
    assert_eq!(*count.lock().unwrap(), 1);

    assert!(!store.is_disposed(), "clear does not mark disposed");

    store.add(adder(&count, 10));
    store.dispose();
    assert_eq!(*count.lock().unwrap(), 11);
    assert!(store.is_disposed());
}

fn adder(total: &Arc<Mutex<u32>>, amount: u32) -> DisposeFn<impl Fn()> {
    let total = total.clone();
    DisposeFn::new(move || {
        *total.lock().unwrap() += amount;
    })
}

#[test]
fn handle_disposes_its_item_once() {
    let count = Arc::new(Mutex::new(0u32));
    let mut store = DisposableStore::new();
    let handle = store.add(adder(&count, 1));
    store.add(adder(&count, 100));
    handle.dispose(&mut store);
    assert_eq!(*count.lock().unwrap(), 1);
    store.dispose();
    assert_eq!(*count.lock().unwrap(), 101);
}

#[test]
fn adding_to_a_disposed_store_disposes_at_once() {
    let count = Arc::new(Mutex::new(0u32));
    let mut store = DisposableStore::new();
    store.dispose();
    let handle = store.add(adder(&count, 5));
    assert_eq!(*count.lock().unwrap(), 5);
    handle.dispose(&mut store);
    store.clear();
    store.dispose();
    assert_eq!(*count.lock().unwrap(), 5);
}

#[test]
fn disposing_twice_disposes_nothing_more() {
    let count = Arc::new(Mutex::new(0u32));
    let mut store = DisposableStore::new();
    store.add(adder(&count, 1));
    store.dispose();
    store.dispose();
    assert_eq!(*count.lock().unwrap(), 1);
}
