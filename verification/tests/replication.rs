use std::collections::VecDeque;
use std::sync::atomic::{AtomicUsize, Ordering};
use std::sync::mpsc;
use std::sync::Arc;

use replica::{
    FollowError, Follower, Leader, Receiver, RecvError, SendError, SendMap, Sender, Sequenced,
    Signal, Status, TryRecvError,
};

struct Tx<U>(mpsc::Sender<U>);

struct Rx<U>(mpsc::Receiver<U>);

impl<U> Sender for Tx<U> {
    type Message = U;
    type Error = mpsc::SendError<U>;

    fn send(&mut self, message: U) -> Result<(), SendError<U, Self::Error>> {
        self.0.send(message).map_err(SendError::from)
    }
}

impl<U> Receiver<U> for Rx<U> {
    type TryRecvError = mpsc::TryRecvError;
    type RecvError = mpsc::RecvError;

    fn try_recv(&mut self) -> Result<U, TryRecvError<Self::TryRecvError>> {
        self.0.try_recv().map_err(TryRecvError::from)
    }

    fn recv(&mut self) -> Result<U, RecvError<Self::RecvError>> {
        self.0.recv().map_err(RecvError::from)
    }
}

fn channel<U>() -> (Tx<U>, Rx<U>) {
    let (tx, rx) = mpsc::channel();
    (Tx(tx), Rx(rx))
}

/// Counts how often it was raised.
struct Count(Arc<AtomicUsize>);

impl Signal for Count {
    fn raise(&mut self) {
        self.0.fetch_add(1, Ordering::SeqCst);
    }
}

fn counter() -> (Count, Arc<AtomicUsize>) {
    let raised = Arc::new(AtomicUsize::new(0));
    (Count(raised.clone()), raised)
}

/// A sender that fails every send with a transport error.
struct Broken;

impl Sender for Broken {
    type Message = i32;
    type Error = &'static str;

    fn send(&mut self, _message: i32) -> Result<(), SendError<i32, &'static str>> {
        Err(SendError::Inner("broken pipe"))
    }
}

/// A sender that does as it is told, one outcome for each send.
struct Moody {
    moods: VecDeque<Mood>,
    taken: Vec<i32>,
}

enum Mood {
    Take,
    Gone,
    Fail,
}

impl Sender for Moody {
    type Message = i32;
    type Error = &'static str;

    fn send(&mut self, message: i32) -> Result<(), SendError<i32, &'static str>> {
        match self.moods.pop_front() {
            Some(Mood::Take) | None => {
                self.taken.push(message);
                Ok(())
            }
            Some(Mood::Gone) => Err(SendError::Disconnected(message)),
            Some(Mood::Fail) => Err(SendError::Inner("moody")),
        }
    }
}

/// A receiver that hands out what its script says.
struct Script<U> {
    polled: VecDeque<Result<U, TryRecvError<&'static str>>>,
    awaited: VecDeque<Result<U, RecvError<&'static str>>>,
}

impl<U> Receiver<U> for Script<U> {
    type TryRecvError = &'static str;
    type RecvError = &'static str;

    fn try_recv(&mut self) -> Result<U, TryRecvError<&'static str>> {
        self.polled.pop_front().unwrap_or(Err(TryRecvError::Empty))
    }

    fn recv(&mut self) -> Result<U, RecvError<&'static str>> {
        self.awaited.pop_front().unwrap_or(Err(RecvError::Disconnected))
    }
}

type Plain = Follower<i32, i32, Rx<i32>, Tx<i32>, Count>;

type Numbered = Follower<Sequenced<i32>, Sequenced<i32>, Rx<Sequenced<i32>>, Tx<Sequenced<i32>>, Count>;

fn plain_pair(state: i32) -> (Leader<i32, i32, Tx<i32>>, Plain) {
    let mut leader = Leader::new(state);
    let (tx, rx) = channel();
    let follower = leader.follow(tx, rx);
    (leader, follower)
}

fn numbered_pair(
    state: i32,
) -> (Leader<Sequenced<i32>, Sequenced<i32>, Tx<Sequenced<i32>>>, Numbered) {
    let mut leader = Leader::new(Sequenced::new(state));
    let (tx, rx) = channel();
    let follower = leader.follow(tx, rx);
    (leader, follower)
}

fn add_two(x: &i32) -> i32 {
    x + 2
}

#[test]
fn test() {
    let mut leader: Leader<
        i32,
        i32,
        SendMap<i32, i32, fn(&i32) -> i32, SendMap<i32, i32, fn(&i32) -> i32, Tx<i32>>>,
    > = Leader::new(420);
    leader.map(add_two).map(add_two);

    let (mut leader, mut follower) = plain_pair(420);

    assert_eq!(*follower.read(), 420);

    leader.update(69).unwrap();

    assert_eq!(*follower.read(), 69);
}

#[test]
fn test_seq() {
    let (mut leader, mut follower) = numbered_pair(420);

    assert_eq!(leader.seq(), 0);

    leader.sequenced_update(69).unwrap();

    assert_eq!(leader.seq(), 1);
    assert_eq!(follower.seq(), 0);

    assert_eq!(*follower.sequenced_read(), 69);

    assert_eq!(follower.seq(), 1);
}

#[test]
fn sequenced_read_at_returns_the_update_it_waited_for() {
    let (mut leader, mut follower) = numbered_pair(420);

    assert_eq!(leader.seq(), 0);

    leader.sequenced_update(69).unwrap();

    assert_eq!(*follower.sequenced_read_at(1).unwrap(), 69);
    assert_eq!(follower.seq(), 1);
}

#[test]
fn follower_keeps_old_state_until_it_refreshes() {
    let (mut leader, mut follower) = plain_pair(420);
    assert_eq!(*follower.state(), 420);

    leader.update(69).unwrap();

    assert_eq!(*leader.state(), 69);
    assert_eq!(*follower.state(), 420);
    assert_eq!(follower.refresh().unwrap(), Status::CaughtUp);
    assert_eq!(*follower.state(), 69);
}

#[test]
fn leader_starts_without_subscribers() {
    let mut leader: Leader<i32, i32, Tx<i32>> = Leader::new(420);
    assert_eq!(leader.subscriber_count(), 0);
    assert_eq!(*leader.state(), 420);
    leader.update(69).unwrap();
    assert_eq!(*leader.state(), 69);
    assert_eq!(leader.subscriber_count(), 0);
}

#[test]
fn leader_lead_registers_the_sender() {
    let mut leader: Leader<i32, i32, Tx<i32>> = Leader::new(1);
    let (tx, rx) = channel();
    leader.lead(tx);
    assert_eq!(leader.subscriber_count(), 1);
    leader.update(2).unwrap();
    leader.update(3).unwrap();
    assert_eq!(rx.0.try_recv(), Ok(2));
    assert_eq!(rx.0.try_recv(), Ok(3));
    assert_eq!(rx.0.try_recv(), Err(mpsc::TryRecvError::Empty));
}

#[test]
fn follower_refreshing_after_every_update_tracks_the_leader() {
    let (mut leader, mut follower) = numbered_pair(0);
    for value in [5, -3, 8, 13, 21] {
        let seq = leader.sequenced_update(value).unwrap();
        assert_eq!(follower.refresh().unwrap(), Status::CaughtUp);
        assert_eq!(follower.state().value, leader.state().value);
        assert_eq!(follower.seq(), leader.seq());
        assert_eq!(follower.seq(), seq);
        assert_eq!(*follower.sequenced_read(), value);
    }
    assert_eq!(leader.seq(), 5);
}

#[test]
fn refresh_drains_everything_that_is_ready() {
    let (mut leader, mut follower) = numbered_pair(0);
    for value in 1..=10 {
        leader.sequenced_update(value).unwrap();
    }
    assert_eq!(follower.seq(), 0);
    assert_eq!(follower.refresh().unwrap(), Status::CaughtUp);
    assert_eq!(follower.seq(), 10);
    assert_eq!(follower.state().value, 10);
    assert_eq!(follower.refresh().unwrap(), Status::CaughtUp);
    assert_eq!(follower.seq(), 10);
}

#[test]
fn follower_sequence_never_goes_back_nor_ahead_of_the_leader() {
    let (mut leader, mut follower) = numbered_pair(0);
    let mut last = follower.seq();
    for round in 0..6 {
        for value in 0..round {
            leader.sequenced_update(value).unwrap();
        }
        follower.refresh().unwrap();
        assert!(follower.seq() >= last);
        assert!(follower.seq() <= leader.seq());
        last = follower.seq();
    }
    assert_eq!(last, 15);
}

#[test]
fn follow_starts_from_the_state_of_the_moment() {
    let mut leader: Leader<Sequenced<i32>, Sequenced<i32>, Tx<Sequenced<i32>>> =
        Leader::new(Sequenced::new(420));
    leader.sequenced_update(1).unwrap();
    leader.sequenced_update(2).unwrap();

    let (tx, rx) = channel();
    let mut late: Numbered = leader.follow(tx, rx);
    assert_eq!(late.seq(), 2);
    assert_eq!(late.state().value, 2);
    assert_eq!(late.refresh().unwrap(), Status::CaughtUp);
    assert_eq!(late.seq(), 2);

    leader.sequenced_update(3).unwrap();
    assert_eq!(*late.sequenced_read(), 3);
    assert_eq!(late.seq(), 3);
}

#[test]
fn every_subscriber_sees_every_update_in_order() {
    let mut leader: Leader<i32, i32, Tx<i32>> = Leader::new(0);
    let (tx_a, rx_a) = channel();
    let (tx_b, rx_b) = channel();
    leader.lead(tx_a);
    leader.lead(tx_b);
    for value in [7, 8, 9] {
        leader.update(value).unwrap();
    }
    for rx in [rx_a, rx_b] {
        assert_eq!(rx.0.try_recv(), Ok(7));
        assert_eq!(rx.0.try_recv(), Ok(8));
        assert_eq!(rx.0.try_recv(), Ok(9));
        assert_eq!(rx.0.try_recv(), Err(mpsc::TryRecvError::Empty));
    }
}

#[test]
fn leader_prunes_a_disconnected_subscriber() {
    let (mut leader, follower) = plain_pair(420);
    assert_eq!(leader.subscriber_count(), 1);
    drop(follower);
    assert_eq!(leader.update(69), Ok(()));
    assert_eq!(leader.subscriber_count(), 0);
    assert_eq!(*leader.state(), 69);
}

#[test]
fn leader_prunes_several_subscribers_in_one_pass() {
    let mut leader: Leader<i32, i32, Tx<i32>> = Leader::new(0);
    let mut kept = Vec::new();
    for index in 0..6 {
        let (tx, rx) = channel();
        leader.lead(tx);
        if index % 3 == 1 {
            kept.push(rx);
        }
    }
    assert_eq!(leader.subscriber_count(), 6);
    leader.update(5).unwrap();
    assert_eq!(leader.subscriber_count(), 2);
    leader.update(6).unwrap();
    assert_eq!(leader.subscriber_count(), 2);
    for rx in kept {
        assert_eq!(rx.0.try_recv(), Ok(5));
        assert_eq!(rx.0.try_recv(), Ok(6));
    }
}

#[test]
fn leader_reports_a_transport_failure_and_keeps_the_update() {
    let mut leader: Leader<i32, i32, Broken> = Leader::new(420);
    leader.lead(Broken);
    assert_eq!(leader.update(69), Err("broken pipe"));
    assert_eq!(*leader.state(), 69);
    assert_eq!(leader.subscriber_count(), 1);
}

#[test]
fn leader_tries_every_subscriber_whatever_happens_to_the_others() {
    let mut leader: Leader<i32, i32, Moody> = Leader::new(0);
    leader.lead(Moody { moods: VecDeque::from([Mood::Fail, Mood::Take]), taken: Vec::new() });
    leader.lead(Moody { moods: VecDeque::from([Mood::Gone]), taken: Vec::new() });
    leader.lead(Moody { moods: VecDeque::from([Mood::Take, Mood::Fail]), taken: Vec::new() });
    leader.lead(Moody { moods: VecDeque::from([Mood::Fail, Mood::Gone]), taken: Vec::new() });

    assert_eq!(leader.update(1), Err("moody"));
    assert_eq!(*leader.state(), 1);
    assert_eq!(leader.subscriber_count(), 3);

    assert_eq!(leader.update(2), Err("moody"));
    assert_eq!(*leader.state(), 2);
    assert_eq!(leader.subscriber_count(), 2);

    assert_eq!(leader.update(3), Ok(()));
    assert_eq!(leader.subscriber_count(), 2);
}

#[test]
fn sequenced_update_returns_the_new_number() {
    let mut leader: Leader<Sequenced<i32>, Sequenced<i32>, Tx<Sequenced<i32>>> =
        Leader::new(Sequenced::new(0));
    assert_eq!(leader.sequenced_update(10).unwrap(), 1);
    assert_eq!(leader.sequenced_update(20).unwrap(), 2);
    assert_eq!(leader.sequenced_update(30).unwrap(), 3);
    assert_eq!(leader.seq(), 3);
    assert_eq!(leader.state().value, 30);
}

#[test]
fn sequenced_update_stamps_what_it_sends() {
    let mut leader: Leader<Sequenced<i32>, Sequenced<i32>, Tx<Sequenced<i32>>> =
        Leader::new(Sequenced { value: 0, seq: 40 });
    let (tx, rx) = channel();
    leader.lead(tx);
    assert_eq!(leader.sequenced_update(7).unwrap(), 41);
    let sent = rx.0.try_recv().unwrap();
    assert_eq!(sent.value, 7);
    assert_eq!(sent.seq, 41);
}

#[test]
fn sequenced_update_counts_even_when_sending_fails() {
    let mut leader: Leader<Sequenced<i32>, Sequenced<i32>, Snapped> =
        Leader::new(Sequenced::new(0));
    leader.lead(Snapped);
    assert_eq!(leader.sequenced_update(7), Err("snapped"));
    assert_eq!(leader.seq(), 1);
    assert_eq!(leader.state().value, 7);
}

/// A sender of sequenced updates that fails every send.
struct Snapped;

impl Sender for Snapped {
    type Message = Sequenced<i32>;
    type Error = &'static str;

    fn send(
        &mut self,
        _message: Sequenced<i32>,
    ) -> Result<(), SendError<Sequenced<i32>, &'static str>> {
        Err(SendError::Inner("snapped"))
    }
}

#[test]
fn refresh_reports_a_disconnected_upstream_from_then_on() {
    let (leader, mut follower) = plain_pair(420);
    assert!(!follower.is_disconnected());
    drop(leader);
    assert_eq!(follower.refresh().unwrap(), Status::Disconnected);
    assert!(follower.is_disconnected());
    assert_eq!(follower.refresh().unwrap(), Status::Disconnected);
    assert!(matches!(follower.refresh_blocking(), Err(FollowError::Disconnected)));
    assert_eq!(*follower.read(), 420);
}

#[test]
fn refresh_takes_in_what_was_sent_before_the_disconnect() {
    let (mut leader, mut follower) = numbered_pair(0);
    leader.sequenced_update(1).unwrap();
    leader.sequenced_update(2).unwrap();
    drop(leader);
    assert_eq!(follower.refresh().unwrap(), Status::Disconnected);
    assert_eq!(follower.seq(), 2);
    assert_eq!(follower.state().value, 2);
}

#[test]
fn refresh_reports_an_upstream_failure() {
    let script = Script {
        polled: VecDeque::from([Ok(1), Ok(2), Err(TryRecvError::Inner("static")), Ok(3)]),
        awaited: VecDeque::new(),
    };
    let mut follower: Follower<i32, i32, Script<i32>, Tx<i32>, Count> = Follower::new(0, script);
    assert!(matches!(follower.refresh(), Err(FollowError::TryRecv("static"))));
    assert_eq!(*follower.state(), 2);
    assert!(!follower.is_disconnected());
    assert_eq!(follower.refresh().unwrap(), Status::CaughtUp);
    assert_eq!(*follower.state(), 3);
}

#[test]
fn refresh_reports_a_relay_failure_after_applying_the_update() {
    let script = Script { polled: VecDeque::from([Ok(1), Ok(2)]), awaited: VecDeque::new() };
    let mut follower: Follower<i32, i32, Script<i32>, Broken, Count> = Follower::new(0, script);
    let child: Follower<i32, i32, Script<i32>, Broken, Count> = follower.follow(
        Broken,
        Script { polled: VecDeque::new(), awaited: VecDeque::new() },
    );
    assert_eq!(*child.state(), 0);
    assert!(matches!(follower.refresh(), Err(FollowError::Relay("broken pipe"))));
    assert_eq!(*follower.state(), 1);
    assert!(matches!(follower.refresh(), Err(FollowError::Relay("broken pipe"))));
    assert_eq!(*follower.state(), 2);
    assert_eq!(follower.refresh().unwrap(), Status::CaughtUp);
}

#[test]
fn read_keeps_the_failure_that_ended_the_drain() {
    let script = Script {
        polled: VecDeque::from([Ok(1), Ok(2), Err(TryRecvError::Inner("static")), Ok(3)]),
        awaited: VecDeque::new(),
    };
    let mut follower: Follower<i32, i32, Script<i32>, Tx<i32>, Count> = Follower::new(0, script);
    assert!(follower.take_failure().is_none());
    assert_eq!(*follower.read(), 2);
    assert!(matches!(follower.take_failure(), Some(FollowError::TryRecv("static"))));
    assert!(follower.take_failure().is_none());
    assert_eq!(*follower.state(), 2);
    assert_eq!(*follower.read(), 3);
    assert!(follower.take_failure().is_none());
}

#[test]
fn read_forgets_an_old_failure_when_it_succeeds() {
    let script = Script {
        polled: VecDeque::from([Err(TryRecvError::Inner("static")), Ok(1)]),
        awaited: VecDeque::new(),
    };
    let mut follower: Follower<i32, i32, Script<i32>, Tx<i32>, Count> = Follower::new(0, script);
    assert_eq!(*follower.read(), 0);
    assert_eq!(*follower.read(), 1);
    assert!(follower.take_failure().is_none());
}

#[test]
fn read_keeps_a_relay_failure() {
    let script = Script { polled: VecDeque::from([Ok(1)]), awaited: VecDeque::new() };
    let mut follower: Follower<i32, i32, Script<i32>, Broken, Count> = Follower::new(0, script);
    let _child = follower.follow(Broken, Script { polled: VecDeque::new(), awaited: VecDeque::new() });
    assert_eq!(*follower.read(), 1);
    assert!(matches!(follower.take_failure(), Some(FollowError::Relay("broken pipe"))));
}

#[test]
fn refresh_leaves_a_kept_failure_alone() {
    let script = Script {
        polled: VecDeque::from([Err(TryRecvError::Inner("static")), Ok(1)]),
        awaited: VecDeque::new(),
    };
    let mut follower: Follower<i32, i32, Script<i32>, Tx<i32>, Count> = Follower::new(0, script);
    assert_eq!(*follower.read(), 0);
    assert_eq!(follower.refresh().unwrap(), Status::CaughtUp);
    assert_eq!(*follower.state(), 1);
    assert!(matches!(follower.take_failure(), Some(FollowError::TryRecv("static"))));
}

#[test]
fn one_read_takes_in_all_that_is_queued() {
    let (mut leader, mut follower) = plain_pair(420);
    leader.update(1).unwrap();
    leader.update(2).unwrap();
    leader.update(3).unwrap();
    assert_eq!(*follower.read(), 3);
    assert!(follower.take_failure().is_none());
}

#[test]
fn sequenced_read_takes_in_what_sequenced_read_at_left() {
    let (mut leader, mut follower) = numbered_pair(420);
    leader.sequenced_update(69).unwrap();
    leader.sequenced_update(70).unwrap();
    assert_eq!(*follower.sequenced_read_at(1).unwrap(), 69);
    assert_eq!(follower.seq(), 1);
    assert_eq!(*follower.sequenced_read(), 70);
    assert_eq!(follower.seq(), 2);
}

#[test]
fn follower_number_moves_exactly_when_an_update_was_queued() {
    let (mut leader, mut follower) = numbered_pair(0);
    follower.read();
    assert_eq!(follower.seq(), 0);
    leader.sequenced_update(1).unwrap();
    follower.read();
    assert_eq!(follower.seq(), 1);
    follower.read();
    assert_eq!(follower.seq(), 1);
    leader.sequenced_update(2).unwrap();
    leader.sequenced_update(3).unwrap();
    follower.read();
    assert_eq!(follower.seq(), 3);
}

#[test]
fn read_returns_the_state_whatever_the_transport_says() {
    let script = Script {
        polled: VecDeque::from([Ok(1), Err(TryRecvError::Inner("static")), Ok(2)]),
        awaited: VecDeque::new(),
    };
    let mut follower: Follower<i32, i32, Script<i32>, Tx<i32>, Count> = Follower::new(0, script);
    assert_eq!(*follower.read(), 1);
    assert_eq!(*follower.read(), 2);
    assert_eq!(*follower.read(), 2);
}

#[test]
fn refresh_blocking_takes_one_update_and_then_all_that_is_ready() {
    let (mut leader, mut follower) = numbered_pair(0);
    for value in [4, 5, 6] {
        leader.sequenced_update(value).unwrap();
    }
    assert_eq!(follower.refresh_blocking().unwrap(), Status::CaughtUp);
    assert_eq!(follower.seq(), 3);
    assert_eq!(follower.state().value, 6);
}

#[test]
fn refresh_blocking_waits_for_the_first_update() {
    let script = Script {
        polled: VecDeque::from([Ok(2), Ok(3)]),
        awaited: VecDeque::from([Ok(1)]),
    };
    let mut follower: Follower<i32, i32, Script<i32>, Tx<i32>, Count> = Follower::new(0, script);
    assert_eq!(follower.refresh_blocking().unwrap(), Status::CaughtUp);
    assert_eq!(*follower.state(), 3);
    assert!(matches!(follower.refresh_blocking(), Err(FollowError::Disconnected)));
    assert!(follower.is_disconnected());
    assert_eq!(follower.refresh().unwrap(), Status::Disconnected);
}

#[test]
fn refresh_blocking_succeeds_when_the_upstream_goes_after_the_update() {
    let (mut leader, mut follower) = plain_pair(0);
    leader.update(9).unwrap();
    drop(leader);
    assert_eq!(follower.refresh_blocking().unwrap(), Status::Disconnected);
    assert_eq!(*follower.state(), 9);
    assert!(matches!(follower.refresh_blocking(), Err(FollowError::Disconnected)));
}

#[test]
fn refresh_blocking_reports_a_receive_failure() {
    let script = Script {
        polled: VecDeque::new(),
        awaited: VecDeque::from([Err(RecvError::Inner("noise")), Ok(1)]),
    };
    let mut follower: Follower<i32, i32, Script<i32>, Tx<i32>, Count> = Follower::new(0, script);
    assert!(matches!(follower.refresh_blocking(), Err(FollowError::Recv("noise"))));
    assert_eq!(*follower.state(), 0);
    assert!(!follower.is_disconnected());
    assert_eq!(follower.refresh_blocking().unwrap(), Status::CaughtUp);
    assert_eq!(*follower.state(), 1);
}

#[test]
fn absorb_applies_and_relays_one_update() {
    let (_leader, mut follower) = plain_pair(0);
    let (tx, rx) = channel();
    let mut child = follower.follow(tx, rx);
    follower.absorb(5).unwrap();
    assert_eq!(*follower.state(), 5);
    assert_eq!(*child.state(), 0);
    assert_eq!(*child.read(), 5);
}

#[test]
fn relay_child_converges_on_the_leader() {
    let (mut leader, mut near) = numbered_pair(420);
    let (tx, rx) = channel();
    let mut far = near.follow(tx, rx);
    assert_eq!(near.subscriber_count(), 1);
    assert_eq!(far.state().value, 420);
    assert_eq!(far.seq(), 0);

    leader.sequenced_update(69).unwrap();
    near.refresh().unwrap();
    far.refresh().unwrap();

    assert_eq!(near.state().value, 69);
    assert_eq!(far.state().value, 69);
    assert_eq!(near.seq(), 1);
    assert_eq!(far.seq(), 1);
}

#[test]
fn relay_converges_in_whatever_order_the_followers_refresh() {
    let (mut leader, mut near) = numbered_pair(0);
    let (tx, rx) = channel();
    let mut far = near.follow(tx, rx);

    leader.sequenced_update(1).unwrap();
    leader.sequenced_update(2).unwrap();

    assert_eq!(far.refresh().unwrap(), Status::CaughtUp);
    assert_eq!(far.seq(), 0);
    near.refresh().unwrap();
    assert_eq!(far.seq(), 0);
    far.refresh().unwrap();
    assert_eq!(far.seq(), 2);

    leader.sequenced_update(3).unwrap();
    near.refresh().unwrap();
    far.refresh().unwrap();
    far.refresh().unwrap();
    near.refresh().unwrap();

    assert_eq!(near.state().value, leader.state().value);
    assert_eq!(far.state().value, leader.state().value);
    assert_eq!(near.seq(), 3);
    assert_eq!(far.seq(), 3);
}

#[test]
fn relay_tree_three_deep_converges() {
    let (mut leader, mut first) = plain_pair(0);
    let (tx, rx) = channel();
    let mut second = first.follow(tx, rx);
    let (tx, rx) = channel();
    let mut third = second.follow(tx, rx);
    let (tx, rx) = channel();
    let mut sibling = first.follow(tx, rx);

    for value in [3, 1, 4, 1, 5] {
        leader.update(value).unwrap();
    }
    first.refresh().unwrap();
    second.refresh().unwrap();
    third.refresh().unwrap();
    sibling.refresh().unwrap();
    for follower in [&first, &second, &third, &sibling] {
        assert_eq!(*follower.state(), 5);
    }
}

#[test]
fn relay_prunes_a_child_that_is_gone() {
    let (mut leader, mut near) = plain_pair(0);
    let (tx, rx) = channel();
    let far = near.follow(tx, rx);
    let (tx, rx) = channel();
    let mut other = near.follow(tx, rx);
    assert_eq!(near.subscriber_count(), 2);
    drop(far);
    leader.update(1).unwrap();
    assert_eq!(near.refresh().unwrap(), Status::CaughtUp);
    assert_eq!(near.subscriber_count(), 1);
    assert_eq!(*other.read(), 1);
}

#[test]
fn child_learns_of_the_disconnect_when_its_parent_goes() {
    let (mut leader, mut near) = plain_pair(0);
    let (tx, rx) = channel();
    let mut far = near.follow(tx, rx);
    leader.update(1).unwrap();
    near.refresh().unwrap();
    drop(near);
    assert_eq!(far.refresh().unwrap(), Status::Disconnected);
    assert_eq!(*far.state(), 1);
}

#[test]
fn sequenced_read_at_returns_at_once_when_the_number_is_reached() {
    let (mut leader, mut follower) = numbered_pair(420);
    assert_eq!(*follower.sequenced_read_at(0).unwrap(), 420);
    leader.sequenced_update(1).unwrap();
    assert_eq!(*follower.sequenced_read_at(0).unwrap(), 420);
    assert_eq!(follower.seq(), 0);
}

#[test]
fn sequenced_read_at_takes_no_more_than_it_needs() {
    let (mut leader, mut follower) = numbered_pair(0);
    for value in [10, 20, 30] {
        leader.sequenced_update(value).unwrap();
    }
    assert_eq!(*follower.sequenced_read_at(2).unwrap(), 20);
    assert_eq!(follower.seq(), 2);
    assert_eq!(*follower.sequenced_read_at(1).unwrap(), 20);
    assert_eq!(follower.seq(), 2);
    assert_eq!(*follower.sequenced_read_at(3).unwrap(), 30);
    assert_eq!(follower.seq(), 3);
}

#[test]
fn sequenced_read_at_fails_when_the_upstream_goes_first() {
    let (mut leader, mut follower) = numbered_pair(0);
    leader.sequenced_update(10).unwrap();
    drop(leader);
    assert!(matches!(follower.sequenced_read_at(2), Err(FollowError::Disconnected)));
    assert_eq!(follower.seq(), 1);
    assert!(follower.is_disconnected());
    assert!(matches!(follower.sequenced_read_at(2), Err(FollowError::Disconnected)));
    assert_eq!(*follower.sequenced_read_at(1).unwrap(), 10);
}

#[test]
fn sequenced_read_at_reports_a_receive_failure() {
    let script = Script {
        polled: VecDeque::new(),
        awaited: VecDeque::from([
            Ok(Sequenced { value: 1, seq: 1 }),
            Err(RecvError::Inner("noise")),
            Ok(Sequenced { value: 2, seq: 2 }),
        ]),
    };
    let mut follower: Follower<
        Sequenced<i32>,
        Sequenced<i32>,
        Script<Sequenced<i32>>,
        Tx<Sequenced<i32>>,
        Count,
    > = Follower::new(Sequenced::new(0), script);
    assert!(matches!(follower.sequenced_read_at(2), Err(FollowError::Recv("noise"))));
    assert_eq!(follower.seq(), 1);
    assert_eq!(*follower.sequenced_read_at(2).unwrap(), 2);
}

#[test]
fn signal_is_raised_at_once_when_the_target_is_reached_already() {
    let (mut leader, mut follower) = numbered_pair(0);
    leader.sequenced_update(1).unwrap();
    follower.refresh().unwrap();

    let (signal, raised) = counter();
    assert!(follower.signal_at(1, signal));
    assert_eq!(raised.load(Ordering::SeqCst), 1);
    assert_eq!(follower.waiter_count(), 0);

    let (signal, raised) = counter();
    assert!(follower.signal_at(0, signal));
    assert_eq!(raised.load(Ordering::SeqCst), 1);
    assert_eq!(follower.waiter_count(), 0);
}

#[test]
fn signal_is_raised_once_when_the_target_is_applied_and_not_before() {
    let (mut leader, mut follower) = numbered_pair(0);
    let (signal, raised) = counter();
    assert!(!follower.signal_at(2, signal));
    assert_eq!(follower.waiter_count(), 1);
    assert_eq!(raised.load(Ordering::SeqCst), 0);

    follower.refresh().unwrap();
    assert_eq!(raised.load(Ordering::SeqCst), 0);

    leader.sequenced_update(10).unwrap();
    assert_eq!(raised.load(Ordering::SeqCst), 0);
    follower.refresh().unwrap();
    assert_eq!(follower.seq(), 1);
    assert_eq!(raised.load(Ordering::SeqCst), 0);
    assert_eq!(follower.waiter_count(), 1);

    leader.sequenced_update(20).unwrap();
    assert_eq!(raised.load(Ordering::SeqCst), 0);
    follower.refresh().unwrap();
    assert_eq!(follower.seq(), 2);
    assert_eq!(raised.load(Ordering::SeqCst), 1);
    assert_eq!(follower.waiter_count(), 0);

    leader.sequenced_update(30).unwrap();
    leader.sequenced_update(40).unwrap();
    follower.refresh().unwrap();
    assert_eq!(raised.load(Ordering::SeqCst), 1);
}

#[test]
fn signals_are_raised_each_at_its_own_target() {
    let (mut leader, mut follower) = numbered_pair(0);
    let (third, third_raised) = counter();
    let (first, first_raised) = counter();
    let (fifth, fifth_raised) = counter();
    let (again, again_raised) = counter();
    follower.signal_at(3, third);
    follower.signal_at(1, first);
    follower.signal_at(5, fifth);
    follower.signal_at(3, again);
    assert_eq!(follower.waiter_count(), 4);

    let raised = |counts: [&Arc<AtomicUsize>; 4]| counts.map(|count| count.load(Ordering::SeqCst));
    let all = [&first_raised, &third_raised, &again_raised, &fifth_raised];

    leader.sequenced_update(0).unwrap();
    follower.refresh().unwrap();
    assert_eq!(raised(all), [1, 0, 0, 0]);
    assert_eq!(follower.waiter_count(), 3);

    leader.sequenced_update(0).unwrap();
    leader.sequenced_update(0).unwrap();
    leader.sequenced_update(0).unwrap();
    follower.refresh().unwrap();
    assert_eq!(follower.seq(), 4);
    assert_eq!(raised(all), [1, 1, 1, 0]);
    assert_eq!(follower.waiter_count(), 1);

    leader.sequenced_update(0).unwrap();
    follower.sequenced_read_at(5).unwrap();
    assert_eq!(raised(all), [1, 1, 1, 1]);
    assert_eq!(follower.waiter_count(), 0);
}

#[test]
fn signal_is_raised_by_a_number_beyond_its_target() {
    let script = Script {
        polled: VecDeque::from([Ok(Sequenced { value: 1, seq: 7 })]),
        awaited: VecDeque::new(),
    };
    let mut follower: Follower<
        Sequenced<i32>,
        Sequenced<i32>,
        Script<Sequenced<i32>>,
        Tx<Sequenced<i32>>,
        Count,
    > = Follower::new(Sequenced::new(0), script);
    let (signal, raised) = counter();
    follower.signal_at(3, signal);
    follower.refresh().unwrap();
    assert_eq!(follower.seq(), 7);
    assert_eq!(raised.load(Ordering::SeqCst), 1);
}

#[test]
fn signal_is_raised_even_when_the_relay_fails() {
    let script = Script {
        polled: VecDeque::from([Ok(Sequenced { value: 1, seq: 1 })]),
        awaited: VecDeque::new(),
    };
    let mut follower: Follower<
        Sequenced<i32>,
        Sequenced<i32>,
        Script<Sequenced<i32>>,
        Snapped,
        Count,
    > = Follower::new(Sequenced::new(0), script);
    let _child = follower.follow(Snapped, Script { polled: VecDeque::new(), awaited: VecDeque::new() });
    let (signal, raised) = counter();
    follower.signal_at(1, signal);
    assert!(matches!(follower.refresh(), Err(FollowError::Relay("snapped"))));
    assert_eq!(follower.seq(), 1);
    assert_eq!(raised.load(Ordering::SeqCst), 1);
}
