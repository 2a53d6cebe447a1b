use std::cell::RefCell;

use rustchat::registry::{EndpointId, Registry};

fn ep(port: u16) -> EndpointId {
    EndpointId { addr: 0xffff_7f00_0001, port }
}

#[test]
fn new_registry_is_empty() {
    let reg: Registry<usize> = Registry::new();
    assert_eq!(reg.len(), 0);
    assert!(!reg.contains(ep(1)));
}

#[test]
fn register_adds_one_entry_each() {
    let mut reg: Registry<usize> = Registry::new();
    reg.register(ep(1), "alice".to_string(), 0);
    reg.register(ep(2), "alice".to_string(), 1);
    assert_eq!(reg.len(), 2);
    assert!(reg.contains(ep(1)));
    assert!(reg.contains(ep(2)));
    assert!(!reg.contains(ep(3)));
}

#[test]
fn unregister_returns_the_name() {
    let mut reg: Registry<usize> = Registry::new();
    reg.register(ep(1), "alice".to_string(), 0);
    reg.register(ep(2), "bob".to_string(), 1);
    assert_eq!(reg.unregister(ep(2)), Some("bob".to_string()));
    assert_eq!(reg.len(), 1);
    assert!(reg.contains(ep(1)));
    assert!(!reg.contains(ep(2)));
}

#[test]
fn unregister_absent_is_not_found_and_changes_nothing() {
    let mut reg: Registry<usize> = Registry::new();
    reg.register(ep(1), "alice".to_string(), 0);
    assert_eq!(reg.unregister(ep(2)), None);
    assert_eq!(reg.len(), 1);
    assert!(reg.contains(ep(1)));
    assert!(!reg.contains(ep(2)));
    assert_eq!(reg.snapshot_others(ep(2)), vec![ep(1)]);
    assert_eq!(reg.unregister(ep(1)), Some("alice".to_string()));
    assert_eq!(reg.unregister(ep(1)), None);
    assert_eq!(reg.len(), 0);
}

#[test]
fn same_port_other_address_is_another_identity() {
    let mut reg: Registry<usize> = Registry::new();
    reg.register(ep(9), "a".to_string(), 0);
    let other = EndpointId { addr: 0xffff_0a00_0002, port: 9 };
    assert!(!reg.contains(other));
    reg.register(other, "b".to_string(), 1);
    assert_eq!(reg.len(), 2);
}

#[test]
fn snapshot_others_leaves_out_the_excluded() {
    let mut reg: Registry<usize> = Registry::new();
    for p in 1..=4u16 {
        reg.register(ep(p), format!("c{}", p), p as usize);
    }
    let mut others = reg.snapshot_others(ep(3));
    others.sort_by_key(|i| i.port);
    assert_eq!(others, vec![ep(1), ep(2), ep(4)]);
    assert_eq!(reg.snapshot_others(ep(7)).len(), 4);
}

#[test]
fn broadcast_reaches_good_recipients_past_failing_ones() {
    let mut reg: Registry<usize> = Registry::new();
    for p in 0..4u16 {
        reg.register(ep(p), format!("c{}", p), p as usize);
    }
    let broken = [false, true, true, false];
    let inbox: RefCell<Vec<Vec<String>>> = RefCell::new(vec![Vec::new(); 4]);
    let send = |h: &usize, m: &str| {
        if broken[*h] {
            false
        } else {
            inbox.borrow_mut()[*h].push(m.to_string());
            true
        }
    };
    let report = reg.broadcast("<c0>: hi", ep(0), send);
    assert_eq!(report.len(), 3);
    let mut seen: Vec<(u16, bool)> = report.iter().map(|d| (d.id.port, d.delivered)).collect();
    seen.sort();
    assert_eq!(seen, vec![(1, false), (2, false), (3, true)]);
    let inbox = inbox.into_inner();
    assert!(inbox[0].is_empty());
    assert_eq!(inbox[3], vec!["<c0>: hi".to_string()]);
    // failed recipients stay registered
    assert_eq!(reg.len(), 4);
    assert!(reg.contains(ep(1)) && reg.contains(ep(2)));
}

#[test]
fn broadcast_with_every_other_recipient_failing_but_one() {
    let mut reg: Registry<usize> = Registry::new();
    for p in 0..6u16 {
        reg.register(ep(p), format!("c{}", p), p as usize);
    }
    let inbox: RefCell<Vec<Vec<String>>> = RefCell::new(vec![Vec::new(); 6]);
    let send = |h: &usize, m: &str| {
        if *h != 5 {
            false
        } else {
            inbox.borrow_mut()[*h].push(m.to_string());
            true
        }
    };
    let report = reg.broadcast("x", ep(2), send);
    assert_eq!(report.len(), 5);
    assert_eq!(report.iter().filter(|d| d.delivered).count(), 1);
    assert_eq!(inbox.into_inner()[5], vec!["x".to_string()]);
}

#[test]
fn broadcast_alone_sends_nothing() {
    let mut reg: Registry<usize> = Registry::new();
    reg.register(ep(1), "solo".to_string(), 0);
    let calls = RefCell::new(0usize);
    let report = reg.broadcast("x", ep(1), |_h: &usize, _m: &str| {
        *calls.borrow_mut() += 1;
        true
    });
    assert!(report.is_empty());
    assert_eq!(calls.into_inner(), 0);
}
