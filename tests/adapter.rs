use std::time::Duration;

use socketio_server::adapter::{BroadcastFlags, BroadcastOptions, LocalAdapter};

fn rooms(names: &[&str]) -> Vec<String> {
    names.iter().map(|n| n.to_string()).collect()
}

fn sorted(mut v: Vec<String>) -> Vec<String> {
    v.sort();
    v
}

fn sample() -> LocalAdapter {
    let mut a = LocalAdapter::new();
    for sid in [1, 2, 3] {
        a.add_all(sid, rooms(&["r1"]));
    }
    for sid in [3, 4] {
        a.add_all(sid, rooms(&["r2"]));
    }
    a.add_all(3, rooms(&["e"]));
    a
}

#[test]
fn room_membership() {
    let mut a = LocalAdapter::new();
    a.add_all(7, rooms(&["a", "b"]));
    assert_eq!(sorted(a.socket_rooms(7)), rooms(&["a", "b"]));
    a.del(7, rooms(&["a"]));
    assert_eq!(a.socket_rooms(7), rooms(&["b"]));
    a.del_all(7);
    assert!(a.socket_rooms(7).is_empty());
}

#[test]
fn add_twice_is_one_membership() {
    let mut a = LocalAdapter::new();
    a.add_all(1, rooms(&["a", "a"]));
    a.add_all(1, rooms(&["a"]));
    assert_eq!(a.socket_rooms(1), rooms(&["a"]));
    a.del(1, rooms(&["a", "missing"]));
    assert!(a.socket_rooms(1).is_empty());
}

#[test]
fn del_all_keeps_other_sockets() {
    let mut a = sample();
    a.del_all(3);
    assert!(a.socket_rooms(3).is_empty());
    assert_eq!(a.socket_rooms(4), rooms(&["r2"]));
}

#[test]
fn rooms_with_exclusion() {
    let a = sample();
    let opts = BroadcastOptions { rooms: rooms(&["r1", "r2"]), except: rooms(&["e"]), ..Default::default() };
    assert_eq!(a.apply_opts(opts, &vec![1, 2, 3, 4]), vec![1, 2, 4]);
    let opts = BroadcastOptions { rooms: rooms(&["r1", "r2"]), except: rooms(&["e"]), ..Default::default() };
    assert_eq!(a.apply_opts(opts, &vec![1, 3, 4]), vec![1, 4]);
}

#[test]
fn self_exclusion_needs_broadcast_flag() {
    let a = sample();
    let opts = BroadcastOptions { rooms: rooms(&["r1"]), sid: 2, ..Default::default() };
    assert_eq!(a.apply_opts(opts, &vec![1, 2, 3, 4]), vec![1, 2, 3]);
    let opts = BroadcastOptions {
        rooms: rooms(&["r1"]),
        sid: 2,
        flags: vec![BroadcastFlags::Broadcast],
        ..Default::default()
    };
    assert_eq!(a.apply_opts(opts, &vec![1, 2, 3, 4]), vec![1, 3]);
}

#[test]
fn namespace_wide_broadcast() {
    let a = sample();
    let opts = BroadcastOptions { flags: vec![BroadcastFlags::Broadcast], except: rooms(&["e"]), ..Default::default() };
    assert_eq!(a.apply_opts(opts, &vec![1, 2, 3, 4, 9]), vec![1, 2, 4, 9]);
}

#[test]
fn single_socket_target() {
    let a = sample();
    let opts = BroadcastOptions { sid: 9, ..Default::default() };
    assert_eq!(a.apply_opts(opts, &vec![1, 9]), vec![9]);
    let opts = BroadcastOptions { sid: 8, ..Default::default() };
    assert!(a.apply_opts(opts, &vec![1, 9]).is_empty());
}

#[test]
fn missing_rooms_match_nothing() {
    let a = sample();
    let opts = BroadcastOptions { rooms: rooms(&["nowhere"]), except: rooms(&["gone"]), ..Default::default() };
    assert!(a.fetch_sockets(opts, &vec![1, 2, 3, 4]).is_empty());
}

#[test]
fn sockets_of_rooms() {
    let a = sample();
    assert_eq!(a.sockets(rooms(&["r2"]), &vec![1, 2, 3, 4]), vec![3, 4]);
    assert!(a.sockets(vec![], &vec![1, 2]).is_empty());
}

#[test]
fn except_sids() {
    let a = sample();
    let mut e = a.get_except_sids(&rooms(&["r2", "e", "x"]));
    e.sort();
    assert_eq!(e, vec![3, 4]);
}

#[test]
fn add_and_del_sockets() {
    let mut a = sample();
    let opts = BroadcastOptions { rooms: rooms(&["r2"]), ..Default::default() };
    a.add_sockets(opts, rooms(&["new"]), &vec![1, 2, 3, 4]);
    assert_eq!(a.sockets(rooms(&["new"]), &vec![1, 2, 3, 4]), vec![3, 4]);
    let opts = BroadcastOptions { rooms: rooms(&["r1"]), ..Default::default() };
    a.del_sockets(opts, rooms(&["new"]), &vec![1, 2, 3, 4]);
    assert_eq!(a.sockets(rooms(&["new"]), &vec![1, 2, 3, 4]), vec![4]);
}

#[test]
fn options_flags() {
    let opts = BroadcastOptions::default();
    assert_eq!(opts.sid, -1);
    assert!(!opts.is_broadcast());
    assert_eq!(opts.ack_timeout(), None);
    let opts = BroadcastOptions {
        flags: vec![
            BroadcastFlags::Local,
            BroadcastFlags::Timeout(Duration::from_millis(50)),
            BroadcastFlags::Broadcast,
        ],
        ..Default::default()
    };
    assert!(opts.is_broadcast());
    assert_eq!(opts.ack_timeout(), Some(Duration::from_millis(50)));
}

#[test]
fn single_server() {
    let a = LocalAdapter::new();
    a.init();
    a.close();
    assert_eq!(a.server_count(), 1);
}
