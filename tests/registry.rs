use multipong::registry::Registry;

#[test]
fn register_and_deregister() {
    let mut r: Registry<&str> = Registry::new();
    r.register(4, "four");
    r.register(2, "two");
    assert_eq!(r.len(), 2);
    assert_eq!(r.targets(), vec![4, 2]);
    assert_eq!(r.find(2), Some(1));
    assert_eq!(*r.handle_at(0), "four");
    assert_eq!(r.deregister(4), Some("four"));
    assert_eq!(r.deregister(4), None);
    assert_eq!(r.targets(), vec![2]);
    assert_eq!(r.find(4), None);
}
