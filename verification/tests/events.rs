use vscode_atomic_tauri::events::{DerivedState, EventEmitter, ListenerRegistry, Observable};

#[test]
fn event_emitter_fires_to_listeners() {
    let mut emitter = EventEmitter::new();
    let mut results: Vec<i32> = vec![];
    let index = emitter.on();
    let listeners: Vec<Box<dyn Fn(&i32, &mut Vec<i32>)>> = vec![Box::new(|v, out| out.push(*v))];
    assert_eq!(index, 0);
    for value in [42, 7] {
        for i in emitter.fire() {
            listeners[i](&value, &mut results);
        }
    }
    assert_eq!(results, vec![42, 7]);
}

#[test]
fn event_emitter_multiple_listeners() {
    let mut emitter = EventEmitter::new();
    let mut a = 0u8;
    let mut b = 0u8;
    emitter.on();
    emitter.on();
    for i in emitter.fire() {
        match i {
            0 => a = 5,
            1 => b = 5 + 10,
            _ => unreachable!(),
        }
    }
    assert_eq!(a, 5);
    assert_eq!(b, 15);
}

#[test]
fn observer_notified_on_set() {
    let mut obs_val = Observable::new(0i32);
    let mut notifications = 0u32;
    let id = obs_val.add_observer();

    notifications += obs_val.set(42).iter().filter(|k| **k == id).count() as u32;
    assert_eq!(notifications, 1);
    notifications += obs_val.set(99).iter().filter(|k| **k == id).count() as u32;
    assert_eq!(notifications, 2);
    assert_eq!(*obs_val.get(), 99);
}

#[test]
fn derived_recomputes_on_upstream_change() {
    let mut source = Observable::new(5i32);
    let mut derived: DerivedState<i32> = DerivedState::new();
    let compute = |s: &Observable<i32>| *s.get() * 2;
    let mut read = |d: &mut DerivedState<i32>, s: &Observable<i32>| -> i32 {
        if d.needs_compute() {
            d.store(compute(s));
        }
        *d.current().expect("computed")
    };

    assert_eq!(read(&mut derived, &source), 10);

    let observer = source.add_observer();
    for key in source.set(7) {
        if key == observer {
            derived.handle_change();
        }
    }
    assert_eq!(read(&mut derived, &source), 14);
}

#[test]
fn remove_observer_stops_notifications() {
    let mut obs_val = Observable::new(0i32);
    let mut count = 0u32;
    let id = obs_val.add_observer();

    count += obs_val.set(1).iter().filter(|k| **k == id).count() as u32;
    assert_eq!(count, 1);

    obs_val.remove_observer(id);
    count += obs_val.set(2).iter().filter(|k| **k == id).count() as u32;
    assert_eq!(count, 1);
}

#[test]
fn registry_keys_are_never_reused() {
    let mut registry = ListenerRegistry::new();
    let a = registry.add();
    let b = registry.add();
    registry.remove(a);
    let c = registry.add();
    assert_eq!((a, b, c), (0, 1, 2));
    assert_eq!(registry.notify(), vec![1, 2]);
    assert_eq!(registry.len(), 2);
}

#[test]
fn derived_value_is_not_computed_again_until_stale() {
    let mut derived: DerivedState<u8> = DerivedState::new();
    assert!(derived.needs_compute());
    assert_eq!(derived.current(), None);
    derived.store(3);
    assert!(!derived.needs_compute());
    assert_eq!(derived.current(), Some(&3));
    let downstream = derived.add_observer();
    assert_eq!(derived.handle_change(), vec![downstream]);
    assert!(derived.needs_compute());
}
