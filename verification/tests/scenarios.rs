use openportal::board::{Board, Waiter};
use openportal::destination::Route;
use openportal::job::{Job, Status};

/// What an agent does with a job that a peer has sent: it notes the job on
/// the board it keeps for that peer, and runs it or passes it on.
fn arrive(board: &mut Board, job: &Job) -> Vec<u64> {
    board.add(job).unwrap_or_default()
}

#[test]
fn two_agents_add_a_user() {
    // the portal keeps a board for the cluster, the cluster one for the portal
    let mut at_portal = Board::new();
    let mut at_cluster = Board::new();

    let job = Job::parse("S add_user alice.proj.portal").unwrap();
    assert_eq!(job.destination().route("P"), Route::Forward("S".to_string()));

    // the portal puts the job to the cluster and waits for it
    let posted = at_portal.put(&job, true).unwrap();
    let sent = posted.send.unwrap();
    let waiter = at_portal.wait_for(job.id()).unwrap();
    assert_eq!(waiter, Waiter::Pending(0));

    // the cluster takes it in, finds itself addressed, and runs it
    assert!(arrive(&mut at_cluster, &sent).is_empty());
    assert_eq!(sent.destination().route("S"), Route::Deliver);
    let done = sent.execute().unwrap();
    at_cluster.put(&done, true).unwrap();

    // the update reaches the portal and releases the waiter
    assert_eq!(arrive(&mut at_portal, &done), vec![0]);

    let held = at_portal.get(job.id()).unwrap();
    assert_eq!(held.state(), Status::Complete);
    assert_eq!(at_cluster.get(job.id()).unwrap(), held);
    assert_eq!(held.version(), 2);
    assert!(!held.result().unwrap().unwrap().is_empty());
}

#[test]
fn three_hops_carry_a_job_there_and_back() {
    let job = Job::parse("P.S.A add_user alice.proj.portal").unwrap();
    let id = job.id();
    let mut bridge_to_portal = Board::new();
    let mut portal_to_cluster = Board::new();
    let mut cluster_to_account = Board::new();
    let mut at_account = Board::new();

    // there
    assert_eq!(job.destination().route("bridge"), Route::Forward("P".to_string()));
    bridge_to_portal.put(&job, true).unwrap();
    assert_eq!(job.destination().route("P"), Route::Forward("S".to_string()));
    portal_to_cluster.put(&job, true).unwrap();
    assert_eq!(job.destination().route("S"), Route::Forward("A".to_string()));
    cluster_to_account.put(&job, true).unwrap();
    assert_eq!(job.destination().route("A"), Route::Deliver);
    arrive(&mut at_account, &job);

    // the account agent settles the job
    let mut done = job.clone();
    done.completed("alice is in").unwrap();
    at_account.put(&done, true).unwrap();

    // and back
    arrive(&mut cluster_to_account, &done);
    arrive(&mut portal_to_cluster, &done);
    arrive(&mut bridge_to_portal, &done);

    for board in [&bridge_to_portal, &portal_to_cluster, &cluster_to_account, &at_account] {
        let held = board.get(id).unwrap();
        assert_eq!(held, done);
        assert_eq!(held.version(), 2);
        assert_eq!(held.state(), Status::Complete);
    }
}

#[test]
fn boards_agree_again_after_a_lost_connection() {
    let mut at_portal = Board::new();
    let mut at_cluster = Board::new();
    let job = Job::parse("S add_user alice.proj.portal").unwrap();
    at_portal.put(&job, true).unwrap();
    let waiter = at_portal.wait_for(job.id()).unwrap();
    assert_eq!(waiter, Waiter::Pending(0));
    arrive(&mut at_cluster, &job);

    // the connection is lost while the cluster works on the job
    let mut done = job.clone();
    done.running().unwrap();
    done.completed("alice is in").unwrap();
    let posted = at_cluster.put(&done, false).unwrap();
    assert_eq!(posted.send, None);
    // meanwhile the portal holds back another job
    let other = Job::parse("S remove_user bob.proj.portal").unwrap();
    assert_eq!(at_portal.put(&other, false).unwrap().send, None);
    assert_eq!(at_portal.get(job.id()).unwrap().state(), Status::Pending);

    // the two meet again: each sends its snapshot, then what it held back
    let from_cluster = at_cluster.resume();
    let from_portal = at_portal.resume();
    let mut released = at_portal.sync(&from_cluster.snapshot);
    released.extend(at_portal.sync(&from_cluster.queued));
    at_cluster.sync(&from_portal.snapshot);
    at_cluster.sync(&from_portal.queued);

    // the waiter of the portal is released, and the boards agree
    assert_eq!(released, vec![0]);
    assert_eq!(at_portal.snapshot(), at_cluster.snapshot());
    assert_eq!(at_portal.get(job.id()).unwrap(), done);
    assert_eq!(at_portal.get(job.id()).unwrap().version(), 3);
    assert_eq!(at_cluster.get(other.id()).unwrap(), other);
}
