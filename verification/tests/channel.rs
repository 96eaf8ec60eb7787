use vessels::channel::{ChannelError, ForkState, IdChannel, RouteError};
use vessels::wire::{ChannelItem, ForkRef, Payload, Prim, WireKind};

#[test]
fn the_active_peer_allocates_even_ids() {
    let mut a = IdChannel::new_with(WireKind::U64, WireKind::Unit);
    let f1 = a.fork(WireKind::Bool, WireKind::Unit);
    let f2 = a.fork(WireKind::Text, WireKind::Unit);
    let f3 = a.fork(WireKind::U64, WireKind::Unit);
    assert_eq!(f1, ForkRef(2));
    assert_eq!(f2, ForkRef(4));
    assert_eq!(f3, ForkRef(6));
}

#[test]
fn the_passive_peer_allocates_odd_ids() {
    let mut b = IdChannel::new(true);
    let f1 = b.fork(WireKind::U64, WireKind::Unit);
    let f2 = b.fork(WireKind::U64, WireKind::Unit);
    let f3 = b.fork(WireKind::U64, WireKind::Unit);
    assert_eq!(f1, ForkRef(1));
    assert_eq!(f2, ForkRef(3));
    assert_eq!(f3, ForkRef(5));
}

#[test]
fn frames_are_delivered_per_fork_in_arrival_order() {
    let mut b = IdChannel::new(true);
    b.value(WireKind::U64, WireKind::Unit).expect("the root consumer installs");
    b.route(ChannelItem(0, Payload::Prim(Prim::U64(1)))).expect("routes");
    b.route(ChannelItem(0, Payload::Prim(Prim::U64(2)))).expect("routes");
    b.route(ChannelItem(0, Payload::Prim(Prim::U64(3)))).expect("routes");
    assert_eq!(b.recv_on(0), Some(Payload::Prim(Prim::U64(1))));
    assert_eq!(b.recv_on(0), Some(Payload::Prim(Prim::U64(2))));
    assert_eq!(b.recv_on(0), Some(Payload::Prim(Prim::U64(3))));
    assert_eq!(b.recv_on(0), None);
}

#[test]
fn orphaned_frames_are_drained_in_order_on_installation() {
    let mut b = IdChannel::new(true);
    // three frames arrive for fork 2 before any consumer exists
    b.route(ChannelItem(2, Payload::Prim(Prim::U64(10)))).expect("buffers");
    b.route(ChannelItem(2, Payload::Prim(Prim::U64(11)))).expect("buffers");
    b.route(ChannelItem(2, Payload::Prim(Prim::U64(12)))).expect("buffers");
    b.get_fork(ForkRef(2), WireKind::U64, WireKind::Unit).expect("installs and drains");
    assert_eq!(b.recv_on(2), Some(Payload::Prim(Prim::U64(10))));
    assert_eq!(b.recv_on(2), Some(Payload::Prim(Prim::U64(11))));
    assert_eq!(b.recv_on(2), Some(Payload::Prim(Prim::U64(12))));
    assert_eq!(b.recv_on(2), None);
}

#[test]
fn a_frame_for_an_unallocated_local_fork_is_a_routing_error() {
    let mut b = IdChannel::new(true);
    // id 3 is odd: it would be b's own, but b never allocated it
    let r = b.route(ChannelItem(3, Payload::Prim(Prim::U64(1))));
    assert_eq!(r, Err(RouteError::UnknownFork));
}

#[test]
fn a_frame_of_the_wrong_kind_is_refused() {
    let mut b = IdChannel::new(true);
    b.value(WireKind::U64, WireKind::Unit).expect("installs");
    let r = b.route(ChannelItem(0, Payload::Prim(Prim::Bool(true))));
    assert_eq!(r, Err(RouteError::KindMismatch));
}

#[test]
fn a_closed_channel_routes_nothing() {
    let mut b = IdChannel::new(true);
    b.value(WireKind::U64, WireKind::Unit).expect("installs");
    b.close();
    let r = b.route(ChannelItem(0, Payload::Prim(Prim::U64(1))));
    assert_eq!(r, Err(RouteError::ChannelClosed));
}

#[test]
fn a_half_closed_fork_accepts_no_more_frames() {
    let mut b = IdChannel::new(true);
    b.value(WireKind::U64, WireKind::Unit).expect("installs");
    b.half_close_fork(0);
    let r = b.route(ChannelItem(0, Payload::Prim(Prim::U64(1))));
    assert_eq!(r, Err(RouteError::ClosedFork));
}

#[test]
fn installing_a_consumer_twice_is_refused() {
    let mut b = IdChannel::new(true);
    b.get_fork(ForkRef(2), WireKind::U64, WireKind::Unit).expect("installs");
    let r = b.get_fork(ForkRef(2), WireKind::U64, WireKind::Unit);
    assert_eq!(r, Err(ChannelError::DuplicateFork));
}

#[test]
fn a_locally_owned_reference_cannot_be_constructed() {
    let mut b = IdChannel::new(true);
    let r = b.get_fork(ForkRef(1), WireKind::U64, WireKind::Unit);
    assert_eq!(r, Err(ChannelError::UnknownFork));
}

#[test]
fn buffered_frames_of_the_wrong_kind_refuse_installation() {
    let mut b = IdChannel::new(true);
    b.route(ChannelItem(2, Payload::Prim(Prim::Bool(true)))).expect("buffers");
    let r = b.get_fork(ForkRef(2), WireKind::U64, WireKind::Unit);
    assert_eq!(r, Err(ChannelError::KindMismatch));
}

#[test]
fn closing_the_channel_closes_every_fork() {
    let mut a = IdChannel::new_with(WireKind::U64, WireKind::Unit);
    a.fork(WireKind::Bool, WireKind::Unit);
    a.close();
    assert!(a.closed);
    for f in &a.forks {
        assert_eq!(f.state, ForkState::Closed);
    }
}

#[test]
fn outbound_frames_leave_in_send_order() {
    let mut a = IdChannel::new_with(WireKind::U64, WireKind::Unit);
    a.send_on(0, Payload::Prim(Prim::U64(1)));
    a.send_on(0, Payload::Prim(Prim::U64(2)));
    assert_eq!(a.next_outbound(), Some(ChannelItem(0, Payload::Prim(Prim::U64(1)))));
    assert_eq!(a.next_outbound(), Some(ChannelItem(0, Payload::Prim(Prim::U64(2)))));
    assert_eq!(a.next_outbound(), None);
}
