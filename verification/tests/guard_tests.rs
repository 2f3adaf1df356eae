use resource_guard::ResourceGuard;

#[test]
fn new_then_access_returns_action_result() {
    let mut g = ResourceGuard::new(41u64);
    let seen = g.with_resource(|t: u64| (t + 1, t));
    assert_eq!(seen, 41);
    let now = g.with_resource(|t: u64| (t, t));
    assert_eq!(now, 42);
}

#[test]
fn single_resource_identity() {
    // Every action observes the one resource instance: the second action
    // sees exactly the state the first one left behind.
    let mut g = ResourceGuard::new(Vec::<u64>::new());
    g.with_resource(|mut v: Vec<u64>| {
        v.push(1);
        (v, ())
    });
    let seen_by_second = g.with_resource(|mut v: Vec<u64>| {
        let snapshot = v.clone();
        v.push(2);
        (v, snapshot)
    });
    assert_eq!(seen_by_second, vec![1]);
    let final_state = g.with_resource(|v: Vec<u64>| {
        let snapshot = v.clone();
        (v, snapshot)
    });
    assert_eq!(final_state, vec![1, 2]);
}

#[test]
fn release_on_failure() {
    // A failing action propagates its error, but the token is released:
    // the next access still succeeds and the resource is intact.
    let mut g = ResourceGuard::new(7u64);
    let failed: Result<u64, String> =
        g.try_with_resource(|t: u64| (t, Err(String::from("write error"))));
    assert_eq!(failed, Err(String::from("write error")));
    let ok: Result<u64, String> = g.try_with_resource(|t: u64| (t, Ok(t)));
    assert_eq!(ok, Ok(7));
    let seen = g.with_resource(|t: u64| (t, t));
    assert_eq!(seen, 7);
}

#[test]
fn failure_keeps_partial_mutation() {
    // The guard does not roll back: the state the failing action left is
    // the state the next action observes.
    let mut g = ResourceGuard::new(Vec::<u8>::new());
    let r: Result<(), u32> = g.try_with_resource(|mut v: Vec<u8>| {
        v.push(9);
        (v, Err(5))
    });
    assert_eq!(r, Err(5));
    let seen = g.with_resource(|v: Vec<u8>| {
        let snapshot = v.clone();
        (v, snapshot)
    });
    assert_eq!(seen, vec![9]);
}
