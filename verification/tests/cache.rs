use openportal::cache::{
    DailyProjectUsageReport, Database, Date, ProjectIdentifier, SlurmNodes, Table, UsageDatabase,
};
use openportal::error::Error;
use openportal::message::{frame, unframe, Kind, Message, WireError};

fn report(seconds: u64) -> DailyProjectUsageReport {
    DailyProjectUsageReport { seconds, complete: true }
}

fn project(name: &str) -> ProjectIdentifier {
    ProjectIdentifier { project: name.to_string(), portal: "portal".to_string() }
}

#[test]
fn cluster_is_linux_unless_set() {
    let mut cache = Database::new();
    assert_eq!(cache.get_option_cluster(), None);
    assert_eq!(cache.get_cluster(), "linux");
    cache.set_cluster("aip1");
    assert_eq!(cache.get_option_cluster(), Some("aip1".to_string()));
    assert_eq!(cache.get_cluster(), "aip1");
}

#[test]
fn accounts_and_users_are_kept_by_name() {
    let mut cache = Database::new();
    assert_eq!(cache.get_account("proj"), None);
    cache.add_account("proj", "first");
    cache.add_account("other", "second");
    cache.add_account("proj", "third");
    cache.add_user("alice", "proj");
    assert_eq!(cache.get_account("proj"), Some("third".to_string()));
    assert_eq!(cache.get_account("other"), Some("second".to_string()));
    assert_eq!(cache.get_user("alice"), Some("proj".to_string()));
    assert_eq!(cache.get_user("proj"), None);
    cache.set_cluster("c");
    cache.clear();
    assert_eq!(cache.get_account("proj"), None);
    assert_eq!(cache.get_user("alice"), None);
    assert_eq!(cache.get_cluster(), "c");
    let mut table = Table::new();
    table.put("a", "1");
    table.put("a", "2");
    assert_eq!(table.get("a"), Some("2".to_string()));
    table.clear();
    assert_eq!(table.get("a"), None);
}

#[test]
fn nodes_fall_back_on_the_default() {
    let mut cache = Database::new();
    assert!(matches!(cache.get_node("n1"), Err(Error::Bug(_))));
    cache.set_node("n1", "big");
    assert_eq!(cache.get_node("n1"), Ok("big".to_string()));
    assert_eq!(cache.get_node("n2"), Ok("big".to_string()));
    cache.set_default_node("small");
    assert_eq!(cache.get_node("n1"), Ok("big".to_string()));
    assert_eq!(cache.get_node("n2"), Ok("small".to_string()));
    let mut nodes = SlurmNodes::new("small");
    nodes.set("n1", "big");
    nodes.set_default("tiny");
    assert_eq!(nodes.get("n1"), "big");
    assert_eq!(nodes.get("n9"), "tiny");
}

#[test]
fn reports_of_the_future_and_of_half_a_day_are_refused() {
    let mut cache = Database::new();
    let today = Date { day: 100 };
    assert!(matches!(
        cache.set_report(&project("p"), &Date { day: 101 }, &report(1), &today),
        Err(Error::Bug(_))
    ));
    let half = DailyProjectUsageReport { seconds: 1, complete: false };
    assert!(!half.is_complete());
    assert!(matches!(
        cache.set_report(&project("p"), &Date { day: 99 }, &half, &today),
        Err(Error::Bug(_))
    ));
    assert_eq!(cache.get_report(&project("p"), &Date { day: 99 }), None);
    assert_eq!(cache.set_report(&project("p"), &today, &report(7), &today), Ok(()));
    assert_eq!(cache.get_report(&project("p"), &today), Some(report(7)));
    assert_eq!(cache.get_report(&project("q"), &today), None);
    assert_eq!(cache.get_report(&project("p"), &Date { day: 99 }), None);
}

#[test]
fn at_most_thirty_reports_are_kept_of_a_project() {
    let mut cache = Database::new();
    let today = Date { day: 1000 };
    // days 1 to 40, out of order
    for day in (1..=40).rev() {
        assert_eq!(
            cache.set_report(&project("p"), &Date { day }, &report(day as u64), &today),
            Ok(())
        );
    }
    cache.set_report(&project("q"), &Date { day: 1 }, &report(1), &today).unwrap();
    // counting down, each new day is the oldest: it takes the place of
    // the oldest that was kept
    let kept: Vec<i64> = (1..=40)
        .filter(|day| cache.get_report(&project("p"), &Date { day: *day }).is_some())
        .collect();
    assert_eq!(kept.len(), 30);
    assert_eq!(kept[0], 1);
    assert_eq!(kept[1], 12);
    assert_eq!(kept[29], 40);
    assert_eq!(cache.get_report(&project("q"), &Date { day: 1 }), Some(report(1)));
    // a newer day drives out the oldest
    cache.set_report(&project("p"), &Date { day: 41 }, &report(41), &today).unwrap();
    assert_eq!(cache.get_report(&project("p"), &Date { day: 1 }), None);
    assert_eq!(cache.get_report(&project("p"), &Date { day: 12 }), Some(report(12)));
    assert_eq!(cache.get_report(&project("p"), &Date { day: 41 }), Some(report(41)));
}

#[test]
fn reports_stay_in_the_order_of_their_days() {
    let mut cache = Database::new();
    let today = Date { day: 1000 };
    for day in [7, 3, 9, 1, 5, 3] {
        cache.set_report(&project("p"), &Date { day }, &report(day as u64), &today).unwrap();
    }
    cache.sound();
    let kept: Vec<i64> = (0..=10)
        .filter(|day| cache.get_report(&project("p"), &Date { day: *day }).is_some())
        .collect();
    assert_eq!(kept, vec![1, 3, 5, 7, 9]);
}

#[test]
fn recording_a_day_again_replaces_its_report() {
    let mut usage = UsageDatabase::new();
    usage.record(Date { day: 5 }, report(1));
    usage.record(Date { day: 3 }, report(2));
    usage.record(Date { day: 5 }, report(3));
    assert_eq!(usage.len(), 2);
    assert_eq!(usage.get_report(&Date { day: 5 }), Some(report(3)));
    assert_eq!(usage.get_report(&Date { day: 3 }), Some(report(2)));
    assert_eq!(usage.get_report(&Date { day: 4 }), None);
    for day in 10..60 {
        usage.record(Date { day }, report(0));
        assert!(usage.len() <= 30);
    }
    assert_eq!(usage.len(), 30);
    assert_eq!(usage.get_report(&Date { day: 29 }), None);
    assert_eq!(usage.get_report(&Date { day: 30 }), Some(report(0)));
}

#[test]
fn frames_carry_their_length_in_front() {
    assert_eq!(frame(&[]), Ok(vec![0, 0, 0, 0]));
    assert_eq!(frame(&[7, 8, 9]), Ok(vec![0, 0, 0, 3, 7, 8, 9]));
    let long = vec![1u8; 258];
    let framed = frame(&long).unwrap();
    assert_eq!(&framed[..4], &[0, 0, 1, 2]);
    assert_eq!(unframe(&framed, 0), Some((long, 262)));
    assert_eq!(unframe(&framed[..261], 0), None);
    assert_eq!(unframe(&[0, 0, 0], 0), None);
    // two frames, one behind the other
    let mut two = frame(&[1]).unwrap();
    two.extend(frame(&[2, 3]).unwrap());
    assert_eq!(unframe(&two, 0), Some((vec![1], 5)));
    assert_eq!(unframe(&two, 5), Some((vec![2, 3], 11)));
    assert_eq!(unframe(&two, 11), None);
}

#[test]
fn messages_are_read_as_they_were_written() {
    let message = Message {
        kind: Kind::Data,
        sender: "portal".to_string(),
        recipient: "sl\u{00fc}rm".to_string(),
        payload: vec![0, 255, 7],
    };
    let bytes = message.encode().unwrap();
    assert_eq!(
        bytes,
        vec![
            1, 0, 0, 0, 6, b'p', b'o', b'r', b't', b'a', b'l', 0, 0, 0, 6, b's', b'l', 0xc3, 0xbc,
            b'r', b'm', 0, 255, 7
        ]
    );
    assert_eq!(Message::decode(&bytes), Ok(message));
    let control = Message {
        kind: Kind::Control,
        sender: String::new(),
        recipient: String::new(),
        payload: vec![],
    };
    assert_eq!(control.encode(), Ok(vec![0, 0, 0, 0, 0, 0, 0, 0, 0]));
    assert_eq!(Message::decode(&[0, 0, 0, 0, 0, 0, 0, 0, 0]), Ok(control));
    assert_eq!(Message::decode(&[]), Err(WireError::Incomplete));
    assert_eq!(Message::decode(&[2, 0, 0, 0, 0, 0, 0, 0, 0]), Err(WireError::UnknownKind));
    assert_eq!(Message::decode(&[1, 0, 0, 0, 1]), Err(WireError::Incomplete));
    assert_eq!(Message::decode(&[1, 0, 0, 0, 0, 0, 0, 0, 2, 65]), Err(WireError::Incomplete));
    assert_eq!(Message::decode(&[1, 0, 0, 0, 1, 0xff, 0, 0, 0, 0]), Err(WireError::BadText));
}
