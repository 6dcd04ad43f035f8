//! What the agent of a batch cluster remembers between jobs: the name of
//! the cluster, the accounts and users it has seen, and for each project
//! the daily usage reports of the last thirty days on record.

use vstd::prelude::*;
use crate::error::Error;
use crate::text::same_text;

verus! {

/// The most reports kept for one project.
pub const MAX_REPORTS: usize = 30;

/// A civil date, as the number of its day.
#[derive(Debug, Clone, Copy, PartialEq, Eq, Structural)]
pub struct Date {
    pub day: i64,
}

/// The usage of a project on one day.
#[derive(Debug, Clone, Copy, PartialEq, Eq, Structural)]
pub struct DailyProjectUsageReport {
    /// The seconds used.
    pub seconds: u64,
    /// Whether the day is over and all of its usage is counted.
    pub complete: bool,
}

impl DailyProjectUsageReport {
    pub fn is_complete(&self) -> (r: bool)
        ensures
            r == self.complete,
    {
        self.complete
    }
}

/// Reports by day: in the order of their days, one for each day.
pub open spec fn in_order(reports: Seq<(Date, DailyProjectUsageReport)>) -> bool {
    forall|i: int, j: int| 0 <= i < j < reports.len() ==> reports[i].0.day < reports[j].0.day
}

/// The number of reports with a day before `date`.
pub open spec fn rank(reports: Seq<(Date, DailyProjectUsageReport)>, date: Date) -> int
    decreases reports.len(),
{
    if reports.len() == 0 {
        0
    } else if reports[0].0.day < date.day {
        1 + rank(reports.drop_first(), date)
    } else {
        0
    }
}

/// The newest reports, as many as leave room for one more.
pub open spec fn newest(reports: Seq<(Date, DailyProjectUsageReport)>) -> Seq<
    (Date, DailyProjectUsageReport),
> {
    if reports.len() >= MAX_REPORTS {
        reports.skip(reports.len() - MAX_REPORTS + 1)
    } else {
        reports
    }
}

/// `reports` with the report of `date` set to `report`: in the place of
/// the report of that day, if there is one, else where the order of days
/// puts it.
pub open spec fn with_report(
    reports: Seq<(Date, DailyProjectUsageReport)>,
    date: Date,
    report: DailyProjectUsageReport,
) -> Seq<(Date, DailyProjectUsageReport)> {
    let p = rank(reports, date);
    if p < reports.len() && reports[p].0 == date {
        reports.update(p, (date, report))
    } else {
        reports.insert(p, (date, report))
    }
}

/// The reports after one more was recorded: the oldest give way so that
/// at most thirty are kept.
pub open spec fn recorded(
    reports: Seq<(Date, DailyProjectUsageReport)>,
    date: Date,
    report: DailyProjectUsageReport,
) -> Seq<(Date, DailyProjectUsageReport)> {
    with_report(newest(reports), date, report)
}

/// The report of `date` among `reports`.
pub open spec fn report_of(reports: Seq<(Date, DailyProjectUsageReport)>, date: Date) -> Option<
    DailyProjectUsageReport,
>
    decreases reports.len(),
{
    if reports.len() == 0 {
        None
    } else if reports[0].0 == date {
        Some(reports[0].1)
    } else {
        report_of(reports.drop_first(), date)
    }
}

/// The rank of a date parts the reports into those before the date and
/// those on or after it.
pub proof fn lemma_rank(reports: Seq<(Date, DailyProjectUsageReport)>, date: Date)
    requires
        in_order(reports),
    ensures
        0 <= rank(reports, date) <= reports.len(),
        forall|i: int| 0 <= i < rank(reports, date) ==> (#[trigger] reports[i]).0.day < date.day,
        forall|i: int|
            rank(reports, date) <= i < reports.len() ==> (#[trigger] reports[i]).0.day >= date.day,
    decreases reports.len(),
{
    if reports.len() > 0 {
        let rest = reports.drop_first();
        assert(in_order(rest)) by {
            assert forall|i: int, j: int| 0 <= i < j < rest.len() implies rest[i].0.day
                < rest[j].0.day by {
                assert(reports[i + 1].0.day < reports[j + 1].0.day);
            }
        }
        if reports[0].0.day < date.day {
            lemma_rank(rest, date);
            assert forall|i: int| 0 <= i < rank(reports, date) implies (
            #[trigger] reports[i]).0.day < date.day by {
                if i > 0 {
                    assert(reports[i] == rest[i - 1]);
                }
            }
            assert forall|i: int| rank(reports, date) <= i < reports.len() implies (
            #[trigger] reports[i]).0.day >= date.day by {
                assert(reports[i] == rest[i - 1]);
            }
        } else {
            assert forall|i: int| 0 <= i < reports.len() implies (#[trigger] reports[i]).0.day
                >= date.day by {
                if i > 0 {
                    assert(reports[0].0.day < reports[i].0.day);
                }
            }
        }
    }
}

/// Recording a report keeps the reports in order, keeps at most thirty of
/// them, and puts the report where its day is looked up.
pub proof fn law_recorded(
    reports: Seq<(Date, DailyProjectUsageReport)>,
    date: Date,
    report: DailyProjectUsageReport,
)
    requires
        in_order(reports),
    ensures
        in_order(recorded(reports, date, report)),
        recorded(reports, date, report).len() <= MAX_REPORTS,
        recorded(reports, date, report).len() <= reports.len() + 1,
        recorded(reports, date, report).contains((date, report)),
{
    let kept = newest(reports);
    assert(in_order(kept)) by {
        if reports.len() >= MAX_REPORTS {
            let off = reports.len() - MAX_REPORTS + 1;
            assert forall|i: int, j: int| 0 <= i < j < kept.len() implies kept[i].0.day
                < kept[j].0.day by {
                assert(reports[i + off].0.day < reports[j + off].0.day);
            }
        }
    }
    lemma_rank(kept, date);
    let p = rank(kept, date);
    let after = with_report(kept, date, report);
    assert(after[p] == (date, report));
    assert forall|i: int, j: int| 0 <= i < j < after.len() implies after[i].0.day
        < after[j].0.day by {
        if p < kept.len() && kept[p].0 == date {
            assert(kept[i].0.day < kept[j].0.day);
        } else {
            let oi = if i < p { i } else { i - 1 };
            let oj = if j < p { j } else { j - 1 };
            if i != p && j != p {
                assert(kept[oi].0.day < kept[oj].0.day);
            } else if i == p {
                assert(kept[oj].0.day >= date.day);
                if p < kept.len() {
                    assert(kept[p].0.day >= date.day);
                    assert(oj > p ==> kept[p].0.day < kept[oj].0.day);
                }
            } else {
                assert(kept[oi].0.day < date.day);
            }
        }
    }
}

/// More than thirty reports give way from the oldest: those that stay are
/// the newest, each later than every one that goes; and what is kept after
/// a report was recorded is that report and reports that stayed.
pub proof fn law_oldest_give_way(
    reports: Seq<(Date, DailyProjectUsageReport)>,
    date: Date,
    report: DailyProjectUsageReport,
)
    requires
        in_order(reports),
    ensures
        newest(reports).len() < MAX_REPORTS,
        forall|i: int, j: int|
            0 <= i < reports.len() - newest(reports).len() && 0 <= j < newest(reports).len()
                ==> (#[trigger] reports[i]).0.day < (#[trigger] newest(reports)[j]).0.day,
        forall|k: int|
            0 <= k < recorded(reports, date, report).len() ==> (#[trigger] recorded(
                reports,
                date,
                report,
            )[k]) == (date, report) || newest(reports).contains(recorded(reports, date, report)[k]),
{
    let kept = newest(reports);
    let off = reports.len() - kept.len();
    assert forall|i: int, j: int| 0 <= i < off && 0 <= j < kept.len() implies (
    #[trigger] reports[i]).0.day < (#[trigger] kept[j]).0.day by {
        assert(kept[j] == reports[j + off]);
    }
    assert(in_order(kept)) by {
        assert forall|i: int, j: int| 0 <= i < j < kept.len() implies kept[i].0.day
            < kept[j].0.day by {
            assert(reports[i + off].0.day < reports[j + off].0.day);
        }
    }
    lemma_rank(kept, date);
    let p = rank(kept, date);
    let after = recorded(reports, date, report);
    assert forall|k: int| 0 <= k < after.len() implies (#[trigger] after[k]) == (date, report)
        || kept.contains(after[k]) by {
        if k != p {
            if p < kept.len() && kept[p].0 == date {
                assert(after[k] == kept[k]);
            } else {
                let o = if k < p { k } else { k - 1 };
                assert(after[k] == kept[o]);
            }
        }
    }
}

/// The reports of one project.
#[derive(Debug, PartialEq, Eq)]
pub struct UsageDatabase {
    reports: Vec<(Date, DailyProjectUsageReport)>,
}

impl View for UsageDatabase {
    type V = Seq<(Date, DailyProjectUsageReport)>;

    closed spec fn view(&self) -> Seq<(Date, DailyProjectUsageReport)> {
        self.reports@
    }
}

impl UsageDatabase {
    #[verifier::type_invariant]
    spec fn inv(self) -> bool {
        in_order(self.reports@) && self.reports@.len() <= MAX_REPORTS
    }

    /// No reports.
    pub fn new() -> (r: Self)
        ensures
            r@.len() == 0,
    {
        UsageDatabase { reports: Vec::new() }
    }

    /// The number of reports kept: never more than thirty.
    pub fn len(&self) -> (n: usize)
        ensures
            n == self@.len(),
            n <= MAX_REPORTS,
            in_order(self@),
    {
        proof {
            use_type_invariant(self);
        }
        self.reports.len()
    }

    /// The report of `date`, if it is kept.
    pub fn get_report(&self, date: &Date) -> (r: Option<DailyProjectUsageReport>)
        ensures
            r == report_of(self@, *date),
    {
        let mut i: usize = 0;
        proof {
            assert(self@.skip(0) =~= self@);
        }
        while i < self.reports.len()
            invariant
                i <= self.reports.len(),
                report_of(self@, *date) == report_of(self@.skip(i as int), *date),
            decreases self.reports.len() - i,
        {
            proof {
                assert(self@.skip(i as int)[0] == self.reports@[i as int]);
                assert(self@.skip(i as int).drop_first() =~= self@.skip(i + 1));
            }
            if self.reports[i].0.day == date.day {
                return Some(self.reports[i].1);
            }
            i += 1;
        }
        None
    }

    /// Records the report of `date`. The oldest reports give way so that
    /// at most thirty are kept.
    pub fn record(&mut self, date: Date, report: DailyProjectUsageReport)
        ensures
            final(self)@ == recorded(old(self)@, date, report),
            in_order(final(self)@),
            final(self)@.len() <= MAX_REPORTS,
    {
        proof {
            use_type_invariant(&*self);
            law_recorded(self@, date, report);
        }
        let mut reports: Vec<(Date, DailyProjectUsageReport)> = Vec::new();
        let n = self.reports.len();
        let from: usize = if n >= MAX_REPORTS {
            n - MAX_REPORTS + 1
        } else {
            0
        };
        let ghost kept = newest(self@);
        proof {
            assert(self@.skip(0) =~= self@);
            assert(kept == self@.skip(from as int));
        }
        // the reports that stay, up to the place of the new one
        let mut i: usize = from;
        let mut placed = false;
        proof {
            assert(kept.skip(0) =~= kept);
        }
        while i < n
            invariant
                from <= i <= n,
                n == self.reports.len(),
                kept == self.reports@.skip(from as int),
                in_order(kept),
                !placed ==> reports@ == kept.take(i - from) && rank(kept, date) == (i - from)
                    + rank(kept.skip(i - from), date),
                placed ==> reports@ == with_report(kept, date, report).take(reports@.len() as int)
                    && reports@.len() - (i - from) == with_report(kept, date, report).len()
                    - kept.len() && rank(kept, date) < reports@.len(),
            decreases n - i,
        {
            let entry = self.reports[i];
            let ghost k = i - from;
            let ghost rest = kept.skip(k);
            let ghost target = with_report(kept, date, report);
            proof {
                lemma_rank(kept, date);
                assert(rest[0] == kept[k]);
                assert(kept[k] == entry);
                assert(rest.drop_first() =~= kept.skip(k + 1));
            }
            if !placed && entry.0.day >= date.day {
                proof {
                    assert(rank(kept, date) == k);
                }
                reports.push((date, report));
                placed = true;
                if entry.0.day != date.day {
                    reports.push(entry);
                    proof {
                        assert(target == kept.insert(k, (date, report)));
                        assert(reports@ =~= target.take(k + 2));
                    }
                } else {
                    proof {
                        assert(kept[k].0 == date);
                        assert(target == kept.update(k, (date, report)));
                        assert(reports@ =~= target.take(k + 1));
                    }
                }
            } else {
                let ghost before = reports@;
                reports.push(entry);
                proof {
                    if placed {
                        let m = before.len() as int;
                        let p = rank(kept, date);
                        if p < kept.len() && kept[p].0 == date {
                            assert(target == kept.update(p, (date, report)));
                            assert(m == k);
                        } else {
                            assert(target == kept.insert(p, (date, report)));
                            assert(m == k + 1);
                        }
                        assert(target[m] == entry);
                        assert(reports@ =~= target.take(m + 1));
                    } else {
                        assert(reports@ =~= kept.take(k + 1));
                    }
                }
            }
            i += 1;
        }
        if !placed {
            proof {
                lemma_rank(kept, date);
                assert(kept.skip(kept.len() as int) =~= Seq::empty());
                assert(rank(kept, date) == kept.len());
                assert(kept.take(kept.len() as int) =~= kept);
            }
            reports.push((date, report));
            proof {
                assert(reports@ =~= with_report(kept, date, report));
            }
        } else {
            proof {
                let target = with_report(kept, date, report);
                assert(target.take(target.len() as int) =~= target);
            }
        }
        self.reports = reports;
    }
}

/// What the agent remembers of the usage of a project: the project, by
/// name and portal, and its reports.
#[derive(Debug, PartialEq, Eq)]
pub struct ProjectUsage {
    project: String,
    portal: String,
    usage: UsageDatabase,
}

/// The usage of a project as a value.
pub struct ProjectUsageView {
    pub project: Seq<char>,
    pub portal: Seq<char>,
    pub reports: Seq<(Date, DailyProjectUsageReport)>,
}

impl View for ProjectUsage {
    type V = ProjectUsageView;

    closed spec fn view(&self) -> ProjectUsageView {
        ProjectUsageView { project: self.project@, portal: self.portal@, reports: self.usage@ }
    }
}

/// A project: its name, and the portal it belongs to.
#[derive(Debug, PartialEq, Eq)]
pub struct ProjectIdentifier {
    pub project: String,
    pub portal: String,
}

impl Clone for ProjectIdentifier {
    fn clone(&self) -> (r: Self)
        ensures
            r.project@ == self.project@,
            r.portal@ == self.portal@,
    {
        ProjectIdentifier { project: self.project.clone(), portal: self.portal.clone() }
    }
}

/// The views of the usage records.
pub open spec fn usage_views(usage: Seq<ProjectUsage>) -> Seq<ProjectUsageView> {
    Seq::new(usage.len(), |i: int| usage[i]@)
}

/// Where the reports of the project stand among `usage`, or the length of
/// `usage` if it has none.
pub open spec fn place_of(usage: Seq<ProjectUsageView>, project: Seq<char>, portal: Seq<char>) -> int
    decreases usage.len(),
{
    if usage.len() == 0 {
        0
    } else if usage[0].project == project && usage[0].portal == portal {
        0
    } else {
        1 + place_of(usage.drop_first(), project, portal)
    }
}

/// The reports kept of the project: none where it is not known.
pub open spec fn reports_of(usage: Seq<ProjectUsageView>, project: Seq<char>, portal: Seq<char>) -> Seq<
    (Date, DailyProjectUsageReport),
> {
    let p = place_of(usage, project, portal);
    if 0 <= p < usage.len() {
        usage[p].reports
    } else {
        Seq::empty()
    }
}

/// The usage records after a report of the project was recorded: the
/// project's reports gain it; a project not known before stands behind
/// the others.
pub open spec fn usage_recorded(
    usage: Seq<ProjectUsageView>,
    project: Seq<char>,
    portal: Seq<char>,
    date: Date,
    report: DailyProjectUsageReport,
) -> Seq<ProjectUsageView> {
    let p = place_of(usage, project, portal);
    if 0 <= p < usage.len() {
        usage.update(
            p,
            ProjectUsageView { project, portal, reports: recorded(usage[p].reports, date, report) },
        )
    } else {
        usage.push(
            ProjectUsageView { project, portal, reports: recorded(Seq::empty(), date, report) },
        )
    }
}

/// The place of a project lies among the records, and the record there is
/// that of the project.
pub proof fn lemma_place_of(usage: Seq<ProjectUsageView>, project: Seq<char>, portal: Seq<char>)
    ensures
        0 <= place_of(usage, project, portal) <= usage.len(),
        place_of(usage, project, portal) < usage.len() ==> usage[place_of(
            usage,
            project,
            portal,
        )].project == project && usage[place_of(usage, project, portal)].portal == portal,
    decreases usage.len(),
{
    if usage.len() > 0 && !(usage[0].project == project && usage[0].portal == portal) {
        lemma_place_of(usage.drop_first(), project, portal);
    }
}

/// Where the record of `name` stands among `entries`, or their number if
/// it has none.
pub open spec fn entry_place(entries: Seq<(Seq<char>, Seq<char>)>, name: Seq<char>) -> int
    decreases entries.len(),
{
    if entries.len() == 0 {
        0
    } else if entries[0].0 == name {
        0
    } else {
        1 + entry_place(entries.drop_first(), name)
    }
}

/// The record kept under `name`.
pub open spec fn lookup(entries: Seq<(Seq<char>, Seq<char>)>, name: Seq<char>) -> Option<
    Seq<char>,
> {
    let p = entry_place(entries, name);
    if 0 <= p < entries.len() {
        Some(entries[p].1)
    } else {
        None
    }
}

/// The entries after `record` was stored under `name`: in the place of the
/// record kept under that name, or behind all others.
pub open spec fn stored(
    entries: Seq<(Seq<char>, Seq<char>)>,
    name: Seq<char>,
    record: Seq<char>,
) -> Seq<(Seq<char>, Seq<char>)> {
    let p = entry_place(entries, name);
    if 0 <= p < entries.len() {
        entries.update(p, (name, record))
    } else {
        entries.push((name, record))
    }
}

/// The place of a name lies among the entries, no entry before it bears
/// the name, and the entry there does.
pub proof fn lemma_entry_place(entries: Seq<(Seq<char>, Seq<char>)>, name: Seq<char>)
    ensures
        0 <= entry_place(entries, name) <= entries.len(),
        forall|i: int| 0 <= i < entry_place(entries, name) ==> (#[trigger] entries[i]).0 != name,
        entry_place(entries, name) < entries.len() ==> entries[entry_place(entries, name)].0
            == name,
    decreases entries.len(),
{
    if entries.len() > 0 && entries[0].0 != name {
        let rest = entries.drop_first();
        lemma_entry_place(rest, name);
        assert forall|i: int| 0 <= i < entry_place(entries, name) implies (
        #[trigger] entries[i]).0 != name by {
            if i > 0 {
                assert(entries[i] == rest[i - 1]);
            }
        }
    }
}

/// The first entry of a name below a place is where the name stands.
pub proof fn lemma_entry_place_is(entries: Seq<(Seq<char>, Seq<char>)>, name: Seq<char>, p: int)
    requires
        0 <= p <= entries.len(),
        forall|i: int| 0 <= i < p ==> (#[trigger] entries[i]).0 != name,
        p < entries.len() ==> entries[p].0 == name,
    ensures
        entry_place(entries, name) == p,
    decreases entries.len(),
{
    if entries.len() > 0 && p > 0 {
        let rest = entries.drop_first();
        assert(entries[0].0 != name);
        assert forall|i: int| 0 <= i < p - 1 implies (#[trigger] rest[i]).0 != name by {
            assert(rest[i] == entries[i + 1]);
        }
        lemma_entry_place_is(rest, name, p - 1);
    }
}

/// What was stored under a name is what is looked up under it, and what
/// is kept under other names stays.
pub proof fn law_stored_is_looked_up(
    entries: Seq<(Seq<char>, Seq<char>)>,
    name: Seq<char>,
    record: Seq<char>,
    other: Seq<char>,
)
    ensures
        lookup(stored(entries, name, record), name) == Some(record),
        other != name ==> lookup(stored(entries, name, record), other) == lookup(entries, other),
{
    lemma_entry_place(entries, name);
    lemma_entry_place(entries, other);
    let after = stored(entries, name, record);
    let p = entry_place(entries, name);
    assert forall|i: int| 0 <= i < p implies (#[trigger] after[i]).0 != name by {
        assert(entries[i].0 != name);
    }
    lemma_entry_place_is(after, name, p);
    if other != name {
        let q = entry_place(entries, other);
        assert forall|i: int| 0 <= i < q implies (#[trigger] after[i]).0 != other by {
            assert(entries[i].0 != other);
        }
        if q < entries.len() {
            lemma_entry_place_is(after, other, q);
        } else {
            lemma_entry_place_is(after, other, after.len() as int);
        }
    }
}

/// The views of the entries of a table.
pub open spec fn entry_views(entries: Seq<(String, String)>) -> Seq<(Seq<char>, Seq<char>)> {
    Seq::new(entries.len(), |i: int| (entries[i].0@, entries[i].1@))
}

/// Records by name: one record for each name.
#[derive(Debug, PartialEq, Eq)]
pub struct Table {
    entries: Vec<(String, String)>,
}

impl View for Table {
    type V = Seq<(Seq<char>, Seq<char>)>;

    closed spec fn view(&self) -> Seq<(Seq<char>, Seq<char>)> {
        entry_views(self.entries@)
    }
}

impl Clone for Table {
    fn clone(&self) -> (r: Self)
        ensures
            r@ == self@,
    {
        let mut entries: Vec<(String, String)> = Vec::new();
        let mut i: usize = 0;
        while i < self.entries.len()
            invariant
                i <= self.entries.len(),
                entry_views(entries@) == self@.take(i as int),
            decreases self.entries.len() - i,
        {
            let ghost before = entry_views(entries@);
            entries.push((self.entries[i].0.clone(), self.entries[i].1.clone()));
            proof {
                assert(entry_views(entries@) =~= before.push(self@[i as int]));
                assert(self@.take(i + 1) =~= self@.take(i as int).push(self@[i as int]));
            }
            i += 1;
        }
        proof {
            assert(self@.take(self.entries.len() as int) =~= self@);
        }
        Table { entries }
    }
}

impl Table {
    /// A table without records.
    pub fn new() -> (r: Self)
        ensures
            r@.len() == 0,
    {
        Table { entries: Vec::new() }
    }

    /// Where the record of `name` stands, or the number of records.
    fn place(&self, name: &str) -> (p: usize)
        ensures
            p == entry_place(self@, name@),
            p <= self.entries.len(),
    {
        let mut i: usize = 0;
        let ghost all = self@;
        proof {
            assert(all.skip(0) =~= all);
        }
        while i < self.entries.len()
            invariant
                i <= self.entries.len(),
                all == entry_views(self.entries@),
                entry_place(all, name@) == i + entry_place(all.skip(i as int), name@),
            decreases self.entries.len() - i,
        {
            proof {
                assert(all.skip(i as int)[0] == (self.entries[i as int].0@, self.entries[i as int].1@));
                assert(all.skip(i as int).drop_first() =~= all.skip(i + 1));
            }
            if same_text(self.entries[i].0.as_str(), name) {
                return i;
            }
            i += 1;
        }
        i
    }

    /// The record kept under `name`.
    pub fn get(&self, name: &str) -> (r: Option<String>)
        ensures
            match lookup(self@, name@) {
                Some(record) => r matches Some(s) && s@ == record,
                None => r is None,
            },
    {
        let p = self.place(name);
        if p < self.entries.len() {
            Some(self.entries[p].1.clone())
        } else {
            None
        }
    }

    /// Stores `record` under `name`, in the place of what was kept there.
    pub fn put(&mut self, name: &str, record: &str)
        ensures
            final(self)@ == stored(old(self)@, name@, record@),
    {
        let p = self.place(name);
        let ghost before = self@;
        if p < self.entries.len() {
            self.entries.set(p, (name.to_owned(), record.to_owned()));
            proof {
                assert(self@ =~= before.update(p as int, (name@, record@)));
            }
        } else {
            self.entries.push((name.to_owned(), record.to_owned()));
            proof {
                assert(self@ =~= before.push((name@, record@)));
            }
        }
    }

    /// Forgets every record.
    pub fn clear(&mut self)
        ensures
            final(self)@.len() == 0,
    {
        self.entries = Vec::new();
    }
}

/// The nodes of the cluster as a value: the kind of node that is assumed
/// where nothing else is said, and the kinds of the nodes that are named.
pub struct NodesView {
    pub default: Seq<char>,
    pub named: Seq<(Seq<char>, Seq<char>)>,
}

/// The nodes of the cluster.
#[derive(Debug, PartialEq, Eq)]
pub struct SlurmNodes {
    default: String,
    named: Table,
}

impl View for SlurmNodes {
    type V = NodesView;

    closed spec fn view(&self) -> NodesView {
        NodesView { default: self.default@, named: self.named@ }
    }
}

impl Clone for SlurmNodes {
    fn clone(&self) -> (r: Self)
        ensures
            r@ == self@,
    {
        SlurmNodes { default: self.default.clone(), named: self.named.clone() }
    }
}

impl SlurmNodes {
    /// Nodes that are all of the kind `node`.
    pub fn new(node: &str) -> (r: Self)
        ensures
            r@.default == node@,
            r@.named.len() == 0,
    {
        SlurmNodes { default: node.to_owned(), named: Table::new() }
    }

    pub fn set_default(&mut self, node: &str)
        ensures
            final(self)@ == (NodesView { default: node@, ..old(self)@ }),
    {
        self.default = node.to_owned();
    }

    pub fn set(&mut self, name: &str, node: &str)
        ensures
            final(self)@ == (NodesView {
                named: stored(old(self)@.named, name@, node@),
                ..old(self)@
            }),
    {
        self.named.put(name, node);
    }

    /// The kind of the node `name`: the default where the node is not named.
    pub fn get(&self, name: &str) -> (r: String)
        ensures
            r@ == match lookup(self@.named, name@) {
                Some(node) => node,
                None => self@.default,
            },
    {
        match self.named.get(name) {
            Some(node) => node,
            None => self.default.clone(),
        }
    }
}

/// What the agent remembers.
#[derive(Debug, PartialEq, Eq)]
pub struct Database {
    cluster: Option<String>,
    accounts: Table,
    users: Table,
    nodes: Option<SlurmNodes>,
    usage: Vec<ProjectUsage>,
}

/// The memory of the agent as a value.
pub struct DatabaseView {
    pub cluster: Option<Seq<char>>,
    pub accounts: Seq<(Seq<char>, Seq<char>)>,
    pub users: Seq<(Seq<char>, Seq<char>)>,
    pub nodes: Option<NodesView>,
    pub usage: Seq<ProjectUsageView>,
}

impl DatabaseView {
    /// What holds of every memory: of each project the reports are kept in
    /// the order of their days, one for each day, and at most thirty.
    pub open spec fn wf(self) -> bool {
        forall|i: int|
            0 <= i < self.usage.len() ==> in_order((#[trigger] self.usage[i]).reports)
                && self.usage[i].reports.len() <= MAX_REPORTS
    }
}

impl View for Database {
    type V = DatabaseView;

    closed spec fn view(&self) -> DatabaseView {
        DatabaseView {
            cluster: match self.cluster {
                Some(c) => Some(c@),
                None => None,
            },
            accounts: self.accounts@,
            users: self.users@,
            nodes: match self.nodes {
                Some(n) => Some(n@),
                None => None,
            },
            usage: usage_views(self.usage@),
        }
    }
}

impl Database {
    #[verifier::type_invariant]
    spec fn inv(self) -> bool {
        self@.wf()
    }

    /// What holds of every memory holds of this one. Costs nothing to call.
    pub fn sound(&self)
        ensures
            self@.wf(),
    {
        proof {
            use_type_invariant(self);
        }
    }

    /// Takes the memory out, to put it back changed; what is left behind
    /// holds nothing.
    fn take(&mut self) -> (r: Database)
        ensures
            r == *old(self),
            r@.wf(),
    {
        proof {
            use_type_invariant(&*self);
        }
        let mut taken = Database::new();
        std::mem::swap(self, &mut taken);
        taken
    }

    /// A memory that holds nothing.
    pub fn new() -> (r: Self)
        ensures
            r@.cluster is None,
            r@.accounts.len() == 0,
            r@.users.len() == 0,
            r@.nodes is None,
            r@.usage.len() == 0,
    {
        Database {
            cluster: None,
            accounts: Table::new(),
            users: Table::new(),
            nodes: None,
            usage: Vec::new(),
        }
    }

    /// The record of the account `name`, if it is kept.
    pub fn get_account(&self, name: &str) -> (r: Option<String>)
        ensures
            match lookup(self@.accounts, name@) {
                Some(record) => r matches Some(s) && s@ == record,
                None => r is None,
            },
    {
        self.accounts.get(name)
    }

    /// Keeps the record of the account `name`.
    pub fn add_account(&mut self, name: &str, account: &str)
        ensures
            final(self)@ == (DatabaseView {
                accounts: stored(old(self)@.accounts, name@, account@),
                ..old(self)@
            }),
    {
        let Database { cluster, accounts, users, nodes, usage } = self.take();
        let mut accounts = accounts;
        accounts.put(name, account);
        *self = Database { cluster, accounts, users, nodes, usage };
    }

    /// The record of the user `name`, if it is kept.
    pub fn get_user(&self, name: &str) -> (r: Option<String>)
        ensures
            match lookup(self@.users, name@) {
                Some(record) => r matches Some(s) && s@ == record,
                None => r is None,
            },
    {
        self.users.get(name)
    }

    /// Keeps the record of the user `name`.
    pub fn add_user(&mut self, name: &str, user: &str)
        ensures
            final(self)@ == (DatabaseView {
                users: stored(old(self)@.users, name@, user@),
                ..old(self)@
            }),
    {
        let Database { cluster, accounts, users, nodes, usage } = self.take();
        let mut users = users;
        users.put(name, user);
        *self = Database { cluster, accounts, users, nodes, usage };
    }

    /// Sets the kind of node that is assumed where nothing else is said.
    pub fn set_default_node(&mut self, node: &str)
        ensures
            final(self)@ == (DatabaseView {
                nodes: Some(
                    match old(self)@.nodes {
                        Some(nodes) => NodesView { default: node@, ..nodes },
                        None => NodesView { default: node@, named: Seq::empty() },
                    },
                ),
                ..old(self)@
            }),
    {
        let Database { cluster, accounts, users, nodes, usage } = self.take();
        let next = match nodes {
            Some(found) => {
                let mut found = found;
                found.set_default(node);
                found
            },
            None => {
                let made = SlurmNodes::new(node);
                proof {
                    assert(made@.named =~= Seq::empty());
                }
                made
            },
        };
        *self = Database { cluster, accounts, users, nodes: Some(next), usage };
    }

    /// Sets the kind of the node `name`. Where no nodes were known, that
    /// kind is also what is assumed of the others.
    pub fn set_node(&mut self, name: &str, node: &str)
        ensures
            final(self)@ == (DatabaseView {
                nodes: Some(
                    match old(self)@.nodes {
                        Some(nodes) => NodesView {
                            named: stored(nodes.named, name@, node@),
                            ..nodes
                        },
                        None => NodesView {
                            default: node@,
                            named: stored(Seq::empty(), name@, node@),
                        },
                    },
                ),
                ..old(self)@
            }),
    {
        let Database { cluster, accounts, users, nodes, usage } = self.take();
        let mut next = match nodes {
            Some(found) => found,
            None => {
                let made = SlurmNodes::new(node);
                proof {
                    assert(made@.named =~= Seq::empty());
                }
                made
            },
        };
        next.set(name, node);
        *self = Database { cluster, accounts, users, nodes: Some(next), usage };
    }

    /// The nodes of the cluster. Refused with `Bug` where none have been
    /// set.
    pub fn get_nodes(&self) -> (r: Result<SlurmNodes, Error>)
        ensures
            match self@.nodes {
                Some(nodes) => r matches Ok(n) && n@ == nodes,
                None => r matches Err(Error::Bug(_)),
            },
    {
        match &self.nodes {
            Some(nodes) => Ok(nodes.clone()),
            None => Err(Error::Bug("No nodes have been set in the cache".to_owned())),
        }
    }

    /// The kind of the node `name`. Refused with `Bug` where no nodes
    /// have been set.
    pub fn get_node(&self, name: &str) -> (r: Result<String, Error>)
        ensures
            match self@.nodes {
                Some(nodes) => r matches Ok(s) && s@ == (match lookup(nodes.named, name@) {
                    Some(node) => node,
                    None => nodes.default,
                }),
                None => r matches Err(Error::Bug(_)),
            },
    {
        match &self.nodes {
            Some(nodes) => Ok(nodes.get(name)),
            None => Err(Error::Bug("No nodes have been set in the cache".to_owned())),
        }
    }

    /// The name of the cluster, if it was set.
    pub fn get_option_cluster(&self) -> (r: Option<String>)
        ensures
            r is Some <==> self@.cluster is Some,
            r matches Some(c) ==> Some(c@) == self@.cluster,
    {
        match &self.cluster {
            Some(c) => Some(c.clone()),
            None => None,
        }
    }

    /// The name of the cluster: `linux` where none was set.
    pub fn get_cluster(&self) -> (r: String)
        ensures
            r@ == match self@.cluster {
                Some(c) => c,
                None => "linux"@,
            },
    {
        match &self.cluster {
            Some(c) => c.clone(),
            None => "linux".to_owned(),
        }
    }

    pub fn set_cluster(&mut self, cluster: &str)
        ensures
            final(self)@ == (DatabaseView { cluster: Some(cluster@), ..old(self)@ }),
    {
        let Database { cluster: _, accounts, users, nodes, usage } = self.take();
        *self = Database { cluster: Some(cluster.to_owned()), accounts, users, nodes, usage };
    }

    /// Where the reports of the project stand, or the number of projects.
    fn place(&self, project: &ProjectIdentifier) -> (p: usize)
        ensures
            p == place_of(self@.usage, project.project@, project.portal@),
            p <= self.usage.len(),
    {
        let mut i: usize = 0;
        let ghost all = self@.usage;
        proof {
            assert(all.skip(0) =~= all);
        }
        while i < self.usage.len()
            invariant
                i <= self.usage.len(),
                all == usage_views(self.usage@),
                place_of(all, project.project@, project.portal@) == i + place_of(
                    all.skip(i as int),
                    project.project@,
                    project.portal@,
                ),
            decreases self.usage.len() - i,
        {
            proof {
                assert(all.skip(i as int)[0] == self.usage[i as int]@);
                assert(all.skip(i as int).drop_first() =~= all.skip(i + 1));
            }
            if same_text(self.usage[i].project.as_str(), project.project.as_str()) && same_text(
                self.usage[i].portal.as_str(),
                project.portal.as_str(),
            ) {
                return i;
            }
            i += 1;
        }
        i
    }

    /// The report of the project for `date`, if it is kept.
    pub fn get_report(&self, project: &ProjectIdentifier, date: &Date) -> (r: Option<
        DailyProjectUsageReport,
    >)
        ensures
            r == report_of(reports_of(self@.usage, project.project@, project.portal@), *date),
    {
        let p = self.place(project);
        if p < self.usage.len() {
            self.usage[p].usage.get_report(date)
        } else {
            None
        }
    }

    /// Records the report of the project for `date`, `today` being the
    /// day of the call. Refused with `Bug`, nothing changed, where the date
    /// lies after today or the report is not complete. Of each project at
    /// most thirty reports are kept: the oldest give way.
    pub fn set_report(
        &mut self,
        project: &ProjectIdentifier,
        date: &Date,
        report: &DailyProjectUsageReport,
        today: &Date,
    ) -> (r: Result<(), Error>)
        ensures
            old(self)@.wf(),
            final(self)@.wf(),
            date.day > today.day || !report.complete ==> r matches Err(Error::Bug(_)),
            date.day > today.day || !report.complete ==> final(self)@ == old(self)@,
            date.day <= today.day && report.complete ==> (r is Ok && final(self)@ == (DatabaseView {
                usage: usage_recorded(
                    old(self)@.usage,
                    project.project@,
                    project.portal@,
                    *date,
                    *report,
                ),
                ..old(self)@
            })),
    {
        proof {
            use_type_invariant(&*self);
        }
        if date.day > today.day {
            return Err(Error::Bug("Cannot cache a report for a future date".to_owned()));
        }
        if !report.is_complete() {
            return Err(Error::Bug("Cannot cache an incomplete report".to_owned()));
        }
        let p = self.place(project);
        let ghost before = self@.usage;
        let ghost target = usage_recorded(
            before,
            project.project@,
            project.portal@,
            *date,
            *report,
        );
        proof {
            use_type_invariant(&*self);
            lemma_place_of(before, project.project@, project.portal@);
        }
        let Database { cluster, accounts, users, nodes, usage } = self.take();
        let mut all = usage;
        let ghost entries = all@;
        if p < all.len() {
            let entry = all.remove(p);
            let ProjectUsage { project: name, portal, usage } = entry;
            let mut usage = usage;
            usage.record(*date, *report);
            let done = ProjectUsage { project: name, portal, usage };
            all.insert(p, done);
            proof {
                assert(before[p as int] == entries[p as int]@);
                assert(all@ =~= entries.update(p as int, done));
                assert(usage_views(all@).len() == target.len());
                assert forall|i: int| 0 <= i < target.len() implies usage_views(all@)[i]
                    == target[i] by {
                    if i != p {
                        assert(before[i] == entries[i]@);
                    }
                }
                assert(usage_views(all@) =~= target);
            }
        } else {
            let mut usage = UsageDatabase::new();
            proof {
                assert(usage@ =~= Seq::empty());
            }
            usage.record(*date, *report);
            let entry = ProjectUsage {
                project: project.project.clone(),
                portal: project.portal.clone(),
                usage,
            };
            all.push(entry);
            proof {
                assert forall|i: int| 0 <= i < before.len() implies usage_views(all@)[i]
                    == before[i] by {
                    assert(before[i] == entries[i]@);
                }
                assert(usage_views(all@) =~= target);
            }
        }
        proof {
            assert forall|i: int| 0 <= i < target.len() implies in_order(
                (#[trigger] target[i]).reports,
            ) && target[i].reports.len() <= MAX_REPORTS by {
                if i != p {
                    assert(target[i] == before[i]);
                }
            }
        }
        *self = Database { cluster, accounts, users, nodes, usage: all };
        Ok(())
    }

    /// Forgets the accounts and the users, as when the cluster was changed
    /// behind the back of the agent; the rest stays.
    pub fn clear(&mut self)
        ensures
            final(self)@ == (DatabaseView {
                accounts: Seq::empty(),
                users: Seq::empty(),
                ..old(self)@
            }),
    {
        let Database { cluster, accounts: _, users: _, nodes, usage } = self.take();
        let accounts = Table::new();
        let users = Table::new();
        proof {
            assert(accounts@ =~= Seq::empty());
            assert(users@ =~= Seq::empty());
        }
        *self = Database { cluster, accounts, users, nodes, usage };
    }
}

} // verus!
