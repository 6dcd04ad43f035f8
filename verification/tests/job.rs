use openportal::destination::{Destination, Route};
use openportal::grammar::{Instruction, UserIdentifier};
use openportal::job::{Command, Error, Job, Status};

#[test]
fn destination_reads_a_dotted_chain() {
    let destination = Destination::new("portal.slurm.account");
    assert!(destination.is_valid());
    assert_eq!(destination.len(), 3);
    assert_eq!(destination.first(), "portal");
    assert_eq!(destination.last(), "account");
    assert_eq!(destination.agent(1), "slurm");
    assert_eq!(destination.to_string(), "portal.slurm.account");
    assert_eq!(Destination::new(&destination.to_string()), destination);
}

#[test]
fn destination_with_a_missing_name_is_not_valid() {
    assert!(!Destination::new("").is_valid());
    assert!(!Destination::new("a..b").is_valid());
    assert!(!Destination::new(".a").is_valid());
    assert!(Destination::new("a").is_valid());
    assert_eq!(Destination::new("a..b").len(), 3);
    assert_eq!(Destination::new("a..b").to_string(), "a..b");
}

#[test]
fn destination_routes_hop_by_hop() {
    let destination = Destination::new("P.S.A");
    assert_eq!(destination.route("bridge"), Route::Forward("P".to_string()));
    assert_eq!(destination.route("P"), Route::Forward("S".to_string()));
    assert_eq!(destination.route("S"), Route::Forward("A".to_string()));
    assert_eq!(destination.route("A"), Route::Deliver);
    let single = Destination::new("S");
    assert_eq!(single.route("P"), Route::Forward("S".to_string()));
    assert_eq!(single.route("S"), Route::Deliver);
}

#[test]
fn command_reads_destination_and_instruction() {
    let command = Command::new("  P.S.A   add_user \t alice.proj.portal ");
    assert!(command.is_valid());
    assert_eq!(command.destination(), Destination::new("P.S.A"));
    assert_eq!(
        command.instruction(),
        Instruction::AddUser(UserIdentifier::parse("alice.proj.portal").unwrap())
    );
    assert_eq!(command.to_string(), "P.S.A add_user alice.proj.portal");
    assert!(!Command::new("").is_valid());
    assert!(!Command::new("P.S.A").is_valid());
    assert!(!Command::new("P..A add_user alice.proj.portal").is_valid());
    assert!(!Command::new("add_user alice.proj.portal").is_valid());
}

#[test]
fn new_job_is_pending_at_version_one() {
    let job = Job::new("S add_user alice.proj.portal");
    assert_eq!(job.version(), 1);
    assert_eq!(job.state(), Status::Pending);
    assert_eq!(job.created(), job.updated());
    assert_eq!(job.result_text(), None);
    assert_eq!(job.result(), Ok(None));
    assert_eq!(job.command(), "S add_user alice.proj.portal");
    let other = Job::new("S add_user alice.proj.portal");
    assert_ne!(job.id(), other.id());
    assert!(job.created() > 1_600_000_000);
}

#[test]
fn job_parse_refuses_invalid_commands() {
    assert!(Job::parse("S add_user alice.proj.portal").is_ok());
    assert!(matches!(Job::parse("S add_user alice.proj"), Err(Error::Parse(_))));
    assert!(matches!(Job::parse(""), Err(Error::Parse(_))));
    assert!(matches!(Job::parse("S launch_missiles"), Err(Error::Parse(_))));
}

#[test]
fn job_create_is_exact() {
    let job = Job::create(7, 1000, "S remove_user alice.proj.portal");
    assert_eq!(job.id(), 7);
    assert_eq!(job.created(), 1000);
    assert_eq!(job.updated(), 1000);
    assert_eq!(job.version(), 1);
    assert_eq!(job.state(), Status::Pending);
    assert_eq!(job.destination(), Destination::new("S"));
    assert_eq!(
        job.instruction(),
        Instruction::RemoveUser(UserIdentifier::parse("alice.proj.portal").unwrap())
    );
}

#[test]
fn completed_job_carries_json_and_gains_a_version() {
    let mut job = Job::create(7, 1000, "S add_user alice.proj.portal");
    assert_eq!(job.running_at(1001), Ok(()));
    assert_eq!(job.state(), Status::Running);
    assert_eq!(job.version(), 2);
    assert_eq!(job.result_text(), None);
    assert_eq!(job.completed_at("say \"hi\"", 1005), Ok(()));
    assert_eq!(job.state(), Status::Complete);
    assert_eq!(job.version(), 3);
    assert_eq!(job.updated(), 1005);
    assert_eq!(job.result_text(), Some("\"say \\\"hi\\\"\"".to_string()));
    assert_eq!(job.result(), Ok(Some("say \"hi\"".to_string())));
    assert!(!job.is_error());
}

#[test]
fn ended_job_accepts_no_change() {
    let mut job = Job::create(7, 1000, "S add_user alice.proj.portal");
    assert_eq!(job.errored_at("no such account", 1002), Ok(()));
    assert_eq!(job.state(), Status::Error);
    assert!(job.is_error());
    assert_eq!(job.version(), 2);
    assert_eq!(job.result(), Err(Error::RunError("no such account".to_string())));
    let before = job.clone();
    assert!(matches!(job.completed_at("x", 1003), Err(Error::InvalidState(_))));
    assert!(matches!(job.errored_at("x", 1003), Err(Error::InvalidState(_))));
    assert!(matches!(job.running_at(1003), Err(Error::InvalidState(_))));
    assert!(matches!(job.completed_json_at("1", 1003), Err(Error::InvalidState(_))));
    assert!(matches!(job.completed("x"), Err(Error::InvalidState(_))));
    assert!(matches!(job.errored("x"), Err(Error::InvalidState(_))));
    assert!(matches!(job.running(), Err(Error::InvalidState(_))));
    assert!(matches!(job.execute(), Err(Error::InvalidState(_))));
    assert_eq!(job, before);
    let again = job.restarted(8, 2000);
    assert_eq!(again.id(), 8);
    assert_eq!(again.version(), 1);
    assert_eq!(again.state(), Status::Pending);
    assert_eq!(again.result_text(), None);
    assert_eq!(again.command(), job.command());
}

#[test]
fn job_is_never_updated_before_it_was() {
    let mut job = Job::create(7, 1000, "S add_user alice.proj.portal");
    assert_eq!(job.running_at(900), Ok(()));
    assert_eq!(job.updated(), 1000);
    assert_eq!(job.completed_json_at("[1,2]", 950), Ok(()));
    assert_eq!(job.updated(), 1000);
    assert_eq!(job.created(), 1000);
    assert_eq!(job.result_text(), Some("[1,2]".to_string()));
    assert!(matches!(job.result(), Err(Error::SerdeJson(_))));
}

#[test]
fn job_without_versions_left_accepts_no_change() {
    let mut job = Job::from_parts(
        1,
        10,
        10,
        u64::MAX,
        "S add_user alice.proj.portal",
        Status::Pending,
        None,
    )
    .unwrap();
    assert!(matches!(job.running_at(11), Err(Error::InvalidState(_))));
    assert_eq!(job.version(), u64::MAX);
}

#[test]
fn job_from_parts_checks_the_parts() {
    let command = "S add_user alice.proj.portal";
    assert!(Job::from_parts(1, 10, 20, 3, command, Status::Complete, Some("1".to_string())).is_ok());
    assert!(matches!(
        Job::from_parts(1, 10, 20, 0, command, Status::Pending, None),
        Err(Error::InvalidState(_))
    ));
    assert!(matches!(
        Job::from_parts(1, 20, 10, 1, command, Status::Pending, None),
        Err(Error::InvalidState(_))
    ));
    assert!(matches!(
        Job::from_parts(1, 10, 20, 1, command, Status::Pending, Some("1".to_string())),
        Err(Error::InvalidState(_))
    ));
    assert!(matches!(
        Job::from_parts(1, 10, 20, 1, command, Status::Error, None),
        Err(Error::InvalidState(_))
    ));
    assert!(matches!(
        Job::from_parts(1, 10, 20, 1, command, Status::Running, Some("1".to_string())),
        Err(Error::InvalidState(_))
    ));
}

#[test]
fn result_that_could_not_be_written_is_refused() {
    let command = "S add_user alice.proj.portal";
    let mut job = Job::create(7, 1000, command);
    let before = job.clone();
    assert_eq!(
        job.completed_with_at(Err("key must be a string".to_string()), 1001),
        Err(Error::SerdeJson("key must be a string".to_string()))
    );
    assert_eq!(job, before);
    assert_eq!(job.result_text(), None);
    assert_eq!(job.state(), Status::Pending);
    // also at the last version
    let mut last = Job::from_parts(1, 10, 10, u64::MAX, command, Status::Pending, None).unwrap();
    assert_eq!(
        last.completed_with_at(Err("no".to_string()), 11),
        Err(Error::SerdeJson("no".to_string()))
    );
    assert!(matches!(
        last.completed_with_at(Ok("1".to_string()), 11),
        Err(Error::InvalidState(_))
    ));
    assert_eq!(last.version(), u64::MAX);
    assert_eq!(last.result_text(), None);
    // one that could be written ends the job
    assert_eq!(job.completed_with_at(Ok("{\"a\":1}".to_string()), 1001), Ok(()));
    assert_eq!(job.state(), Status::Complete);
    assert_eq!(job.version(), 2);
    assert_eq!(job.result_text(), Some("{\"a\":1}".to_string()));
    // and a job that has ended is refused, whatever the result
    assert!(matches!(
        job.completed_with_at(Err("no".to_string()), 1002),
        Err(Error::InvalidState(_))
    ));
}

#[test]
fn job_parse_at_is_exact() {
    assert_eq!(
        Job::parse_at(9, 50, "S add_user alice.proj.portal"),
        Ok(Job::create(9, 50, "S add_user alice.proj.portal"))
    );
    assert!(matches!(Job::parse_at(9, 50, "S add_user alice"), Err(Error::Parse(_))));
}

#[test]
fn executed_job_greets() {
    let job = Job::new("S remove_user alice.proj.portal");
    let done = job.execute().unwrap();
    assert_eq!(done.id(), job.id());
    assert_eq!(done.state(), Status::Complete);
    assert_eq!(done.version(), 2);
    assert_eq!(done.result(), Ok(Some("Hello, World! - we have run!".to_string())));
    assert_eq!(job.state(), Status::Pending);
    assert!(Status::Complete.is_terminal());
    assert!(Status::Error.is_terminal());
    assert!(!Status::Pending.is_terminal());
    assert!(!Status::Running.is_terminal());
}
