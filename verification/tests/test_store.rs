use ubiblk::archive::test_store::{ObjectMap, TestObjectStore};

fn name(text: &str) -> String {
    String::from(text)
}

#[test]
fn hold_release_puts() {
    let mut objects = ObjectMap::new();
    let mut store = TestObjectStore::new();
    store.hold_puts = true;

    store.start_put_object(&mut objects, &name("dev/1"), b"one".to_vec(), 0);
    assert!(store.poll_puts().is_empty());
    assert!(objects.entries.is_empty());

    store.release_puts(&mut objects);
    let finished = store.poll_puts();
    assert_eq!(finished.len(), 1);
    assert_eq!(finished[0].0, "dev/1");
    assert!(finished[0].1);
    assert_eq!(objects.get(&name("dev/1")), Some(b"one".to_vec()));
}

#[test]
fn hold_release_gets() {
    let mut objects = ObjectMap::new();
    objects.insert(name("dev/1"), b"one".to_vec());
    let mut store = TestObjectStore::new();
    store.hold_gets = true;

    store.start_get_object(&objects, &name("dev/1"));
    store.start_get_object(&objects, &name("dev/2"));
    assert!(store.poll_gets().is_empty());

    store.release_gets(&objects);
    let finished = store.poll_gets();
    assert_eq!(finished.len(), 2);
    assert_eq!(finished[0].1.as_ref().unwrap(), b"one");
    assert!(finished[1].1.is_none(), "dev/2 does not exist");
}

#[test]
fn fail_next_put() {
    let mut objects = ObjectMap::new();
    let mut store = TestObjectStore::new();
    store.fail_puts.push_back(name("dev/1"));

    store.start_put_object(&mut objects, &name("dev/1"), b"one".to_vec(), 0);
    let finished = store.poll_puts();
    assert!(!finished[0].1);
    assert!(objects.entries.is_empty());

    // The failure was consumed: the retry succeeds.
    store.start_put_object(&mut objects, &name("dev/1"), b"one".to_vec(), 0);
    assert!(store.poll_puts()[0].1);
    assert_eq!(objects.entries.len(), 1);

    // Other names are unaffected by a pending failure.
    store.fail_puts.push_back(name("dev/9"));
    store.start_put_object(&mut objects, &name("dev/2"), b"two".to_vec(), 0);
    assert!(store.poll_puts()[0].1);
}

#[test]
fn fail_next_get() {
    let mut objects = ObjectMap::new();
    let mut store = TestObjectStore::new();
    store.start_put_object(&mut objects, &name("dev/1"), b"one".to_vec(), 0);
    store.poll_puts();
    store.fail_gets.push_back(name("dev/1"));

    store.start_get_object(&objects, &name("dev/1"));
    assert!(store.poll_gets()[0].1.is_none());
    store.start_get_object(&objects, &name("dev/1"));
    assert_eq!(store.poll_gets()[0].1.as_ref().unwrap(), b"one");
}

#[test]
fn put_order_recorded() {
    let mut objects = ObjectMap::new();
    let mut store = TestObjectStore::new();
    store.hold_puts = true;
    let before = 10;
    store.start_put_object(&mut objects, &name("dev/3"), vec![], 10);
    store.start_put_object(&mut objects, &name("dev/1"), vec![], 11);
    store.start_put_object(&mut objects, &name("dev/2"), vec![], 12);

    assert_eq!(store.put_order, vec!["dev/3", "dev/1", "dev/2"]);
    assert_eq!(store.put_started_at.len(), 3);
    assert!(store.put_started_at.iter().all(|at| *at >= before));

    store.release_puts(&mut objects);
    let finished: Vec<String> = store.poll_puts().into_iter().map(|(name, _)| name).collect();
    assert_eq!(finished, vec!["dev/3", "dev/1", "dev/2"]);
}

#[test]
fn shared_objects_are_visible_across_stores() {
    let mut objects = ObjectMap::new();
    let mut put_store = TestObjectStore::new();
    let mut get_store = TestObjectStore::new();
    put_store.start_put_object(&mut objects, &name("dev/1"), b"one".to_vec(), 0);
    assert!(put_store.poll_puts()[0].1);
    get_store.start_get_object(&objects, &name("dev/1"));
    assert_eq!(get_store.poll_gets()[0].1.as_ref().unwrap(), b"one");
}

#[test]
fn a_second_put_replaces_the_first() {
    let mut objects = ObjectMap::new();
    objects.insert(name("a"), vec![1]);
    objects.insert(name("b"), vec![2]);
    objects.insert(name("a"), vec![3]);
    assert_eq!(objects.entries.len(), 2);
    assert_eq!(objects.get(&name("a")), Some(vec![3]));
    assert!(objects.contains(&name("b")));
    assert!(!objects.contains(&name("c")));
}
