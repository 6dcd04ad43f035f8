use openportal::board::{Board, Error, Waiter};
use openportal::job::{Job, Status};

fn job(id: u128, version: u64) -> Job {
    Job::from_parts(
        id,
        100,
        100 + version as i64,
        version,
        "S add_user alice.proj.portal",
        if version == 1 { Status::Pending } else { Status::Running },
        None,
    )
    .unwrap()
}

fn ended(id: u128, version: u64) -> Job {
    Job::from_parts(
        id,
        100,
        100 + version as i64,
        version,
        "S add_user alice.proj.portal",
        Status::Complete,
        Some("\"done\"".to_string()),
    )
    .unwrap()
}

#[test]
fn board_add_follows_the_version() {
    let mut board = Board::new();
    assert_eq!(board.len(), 0);
    assert_eq!(board.add(&job(1, 2)), Ok(vec![]));
    assert_eq!(board.len(), 1);
    // equal version: nothing changes
    assert_eq!(board.add(&job(1, 2)), Ok(vec![]));
    assert_eq!(board.get(1).unwrap(), job(1, 2));
    // lower version: out of order
    assert!(matches!(board.add(&job(1, 1)), Err(Error::OutOfOrder(_))));
    assert_eq!(board.get(1).unwrap(), job(1, 2));
    // higher version: taken
    assert_eq!(board.add(&job(1, 3)), Ok(vec![]));
    assert_eq!(board.get(1).unwrap(), job(1, 3));
    assert_eq!(board.len(), 1);
}

#[test]
fn board_higher_version_releases_the_waiters() {
    let mut board = Board::new();
    board.add(&job(1, 1)).unwrap();
    let first = board.wait_for(1).unwrap();
    let other = board.wait_for(2).unwrap();
    let second = board.wait_for(1).unwrap();
    assert_eq!(first, Waiter::Pending(0));
    assert_eq!(other, Waiter::Pending(1));
    assert_eq!(second, Waiter::Pending(2));
    // a version that has not ended releases nobody
    assert_eq!(board.add(&job(1, 2)), Ok(vec![]));
    // the version that has ended releases those who wait for it, in order
    assert_eq!(board.add(&ended(1, 3)), Ok(vec![0, 2]));
    // and only once
    assert_eq!(board.add(&ended(1, 3)), Ok(vec![]));
    // who waits now gets the job at once
    assert_eq!(board.wait_for(1).unwrap(), Waiter::Ready(ended(1, 3)));
    // the waiter for the unknown job is still there
    assert_eq!(board.add(&ended(2, 1)), Ok(vec![1]));
}

#[test]
fn board_ended_job_gives_way_to_none() {
    let mut board = Board::new();
    board.add(&ended(1, 2)).unwrap();
    assert!(matches!(board.add(&job(1, 3)), Err(Error::InvalidState(_))));
    assert!(matches!(board.add(&ended(1, 5)), Err(Error::InvalidState(_))));
    assert!(matches!(board.add(&job(1, 1)), Err(Error::OutOfOrder(_))));
    assert_eq!(board.get(1).unwrap(), ended(1, 2));
}

#[test]
fn board_stale_replay_changes_nothing() {
    let mut board = Board::new();
    board.add(&job(1, 1)).unwrap();
    let waiter = board.wait_for(1).unwrap();
    assert_eq!(waiter, Waiter::Pending(0));
    board.add(&job(1, 3)).unwrap();
    let before = board.snapshot();
    assert!(matches!(board.add(&job(1, 1)), Err(Error::OutOfOrder(_))));
    assert_eq!(board.snapshot(), before);
    // the waiter was not released: it is released when the job ends
    assert_eq!(board.add(&ended(1, 4)), Ok(vec![0]));
}

#[test]
fn board_get_and_remove() {
    let mut board = Board::new();
    assert!(matches!(board.get(9), Err(Error::NotFound(_))));
    board.add(&job(9, 1)).unwrap();
    board.add(&job(3, 1)).unwrap();
    assert!(board.contains(9));
    assert_eq!(board.get(9).unwrap(), job(9, 1));
    board.remove(9);
    assert!(!board.contains(9));
    assert!(matches!(board.get(9), Err(Error::NotFound(_))));
    board.remove(9);
    assert_eq!(board.len(), 1);
    // a job that was removed may come back at any version
    assert_eq!(board.add(&job(9, 1)), Ok(vec![]));
}

#[test]
fn board_snapshot_is_in_the_order_of_identifiers() {
    let mut board = Board::new();
    for id in [5u128, 1, 9, 3] {
        board.add(&job(id, 1)).unwrap();
    }
    let ids: Vec<u128> = board.snapshot().iter().map(|j| j.id()).collect();
    assert_eq!(ids, vec![1, 3, 5, 9]);
}

#[test]
fn board_cancel_takes_the_waiter_away() {
    let mut board = Board::new();
    board.add(&job(1, 1)).unwrap();
    assert_eq!(board.wait_for(1).unwrap(), Waiter::Pending(0));
    assert_eq!(board.wait_for(1).unwrap(), Waiter::Pending(1));
    assert!(board.cancel(0));
    assert!(!board.cancel(0));
    assert!(!board.cancel(7));
    assert_eq!(board.add(&ended(1, 2)), Ok(vec![1]));
}

#[test]
fn board_holds_back_for_a_peer_that_is_away() {
    let mut board = Board::new();
    let posted = board.put(&job(1, 1), false).unwrap();
    assert_eq!(posted.send, None);
    let posted = board.put(&job(2, 1), false).unwrap();
    assert_eq!(posted.send, None);
    let posted = board.put(&job(3, 1), true).unwrap();
    assert_eq!(posted.send, Some(job(3, 1)));
    assert!(matches!(board.put(&job(3, 0 + 1), true), Ok(_)));
    board.put(&job(2, 2), true).unwrap();
    assert!(matches!(board.put(&job(2, 1), false), Err(Error::OutOfOrder(_))));
    let resumed = board.resume();
    assert_eq!(resumed.queued, vec![job(1, 1), job(2, 1)]);
    assert_eq!(resumed.snapshot, vec![job(1, 1), job(2, 2), job(3, 1)]);
    let again = board.resume();
    assert!(again.queued.is_empty());
    assert_eq!(again.snapshot.len(), 3);
}

#[test]
fn board_queue_keeps_its_order() {
    let mut board = Board::new();
    board.queue_for_send(&job(2, 1));
    board.queue_for_send(&job(1, 1));
    board.queue_for_send(&job(2, 1));
    assert_eq!(board.drain_queued(), vec![job(2, 1), job(1, 1), job(2, 1)]);
    assert!(board.drain_queued().is_empty());
    assert_eq!(board.len(), 0);
}

#[test]
fn boards_converge_when_they_exchange_snapshots() {
    let mut a = Board::new();
    let mut b = Board::new();
    a.add(&job(1, 1)).unwrap();
    a.add(&job(2, 3)).unwrap();
    a.add(&ended(4, 2)).unwrap();
    b.add(&ended(1, 2)).unwrap();
    b.add(&job(2, 2)).unwrap();
    b.add(&job(3, 1)).unwrap();
    b.add(&job(4, 1)).unwrap();
    let waiter = a.wait_for(1).unwrap();
    assert_eq!(waiter, Waiter::Pending(0));
    let of_a = a.snapshot();
    let of_b = b.snapshot();
    assert_eq!(a.sync(&of_b), vec![0]);
    assert_eq!(b.sync(&of_a), Vec::<u64>::new());
    assert_eq!(a.snapshot(), b.snapshot());
    assert_eq!(
        a.snapshot(),
        vec![ended(1, 2), job(2, 3), job(3, 1), ended(4, 2)]
    );
    // once more changes nothing
    let settled = a.snapshot();
    assert!(b.sync(&settled).is_empty());
    assert_eq!(b.snapshot(), settled);
}
