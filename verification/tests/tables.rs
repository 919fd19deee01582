//! The tables that peers, requests and transfers are kept in, and the clock.

use chat_core::clock::{elapsed, Clock};
use chat_core::table::Table;

#[test]
fn a_key_stands_once() {
    let mut t: Table<String, String> = Table::new();
    let s = |x: &str| x.to_string();
    t.insert(s("a"), s("1"));
    t.insert(s("b"), s("2"));
    t.insert(s("a"), s("3"));
    assert_eq!(t.len(), 2);
    assert_eq!(t.get(&s("a")).map(|v| v.as_str()), Some("3"));
    assert!(t.has(&s("b")) && !t.has(&s("c")));
    assert_eq!(t.key_at(0).as_str(), "a");
    assert_eq!(t.remove(&s("a")).as_deref(), Some("3"));
    assert_eq!(t.remove(&s("a")), None);
    assert_eq!(t.at(0).as_str(), "2");
    *t.at_mut(0) = s("4");
    assert_eq!(t.find(&s("b")), Some(0));
    t.clear();
    assert_eq!(t.len(), 0);
}

#[test]
fn the_clock_does_not_go_back() {
    let c = Clock::start();
    let mut last = c.now();
    for _ in 0..1000 {
        let now = c.now();
        assert!(now >= last);
        last = now;
    }
    assert!(last > 0);
    assert_eq!(elapsed(7, 5), 2);
    assert_eq!(elapsed(5, 7), 0);
}
