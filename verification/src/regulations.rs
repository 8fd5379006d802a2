//! The rulebook and its evaluation: a record is held against every category
//! that the rulebook declares, and every violated constraint is reported.

use vstd::prelude::*;
use vstd::string::*;
use crate::number::{decimal_text, nat_text, push_nat, Decimal};
use crate::regulations::chassis::Chassis;
use crate::regulations::drivetrain::Drivetrain;
use crate::regulations::engine::Engine;
use crate::regulations::others::Others;
use crate::regulations::stats::{
    blank_scores, blank_verdicts, declared_groups, failed_keys, lemma_fault_depends_on_keys,
    reduce, reduced, Rules, Stats,
};
use crate::regulations::wheels::Wheels;
use crate::specs::Car;
use crate::text::{contains, is_infix, lowercase, same_text, texts, to_lower, trim, trimmed};

pub mod chassis;
pub mod drivetrain;
pub mod engine;
pub mod others;
pub mod stats;
pub mod wheels;

verus! {

/// One rule domain of the rulebook.
#[derive(Debug, Clone, Copy, PartialEq, Eq, Structural)]
pub enum Category {
    Stats,
    Engine,
    Wheels,
    Chassis,
    Drivetrain,
    Others,
}

/// What a check reports.
#[derive(Debug)]
pub enum CheckError {
    /// The failures of one record, one entry for each category that failed.
    Regulations(Vec<CheckError>),
    ErrStats(Vec<String>),
    ErrEngine(Vec<String>),
    ErrWheels(Vec<String>),
    ErrChassis(Vec<String>),
    ErrDrivetrain(Vec<String>),
    ErrOthers(Vec<String>),
    /// The rulebook itself is at fault: the OR-group at this position is
    /// empty or names a key that is not scored when its turn comes.
    ErrRules(usize),
}

/// The failure of one category: its tag and the reasons, in order.
pub struct Failure {
    pub category: Category,
    pub reasons: Seq<Seq<char>>,
}

impl CheckError {
    /// The category failure that this value reports, if it reports one.
    pub open spec fn failure(self) -> Option<Failure> {
        match self {
            CheckError::ErrStats(v) => Some(
                Failure { category: Category::Stats, reasons: texts(v@) },
            ),
            CheckError::ErrEngine(v) => Some(
                Failure { category: Category::Engine, reasons: texts(v@) },
            ),
            CheckError::ErrWheels(v) => Some(
                Failure { category: Category::Wheels, reasons: texts(v@) },
            ),
            CheckError::ErrChassis(v) => Some(
                Failure { category: Category::Chassis, reasons: texts(v@) },
            ),
            CheckError::ErrDrivetrain(v) => Some(
                Failure { category: Category::Drivetrain, reasons: texts(v@) },
            ),
            CheckError::ErrOthers(v) => Some(
                Failure { category: Category::Others, reasons: texts(v@) },
            ),
            CheckError::Regulations(_) => None,
            CheckError::ErrRules(_) => None,
        }
    }
}

/// What a category's check returns for the reasons it found: success when
/// there are none, else the category's failure with exactly these reasons.
pub open spec fn reports(
    r: Result<(), CheckError>,
    category: Category,
    reasons: Seq<Seq<char>>,
) -> bool {
    match r {
        Ok(_) => reasons.len() == 0,
        Err(e) => reasons.len() > 0 && e.failure() == Some(Failure { category, reasons }),
    }
}

/// How a name listed in the rulebook is compared with a field of the record.
#[derive(Debug, Clone, Copy, PartialEq, Eq, Structural)]
pub enum Matching {
    /// Equal once both are trimmed.
    Trimmed,
    /// The trimmed entry equals the field as it stands.
    TrimmedEntry,
    /// Equal once both are trimmed and put in lower case.
    AnyCase,
    /// The trimmed entry occurs inside the field, both in lower case.
    Within,
}

/// Whether the listed `entry` matches `field` under `how`.
pub open spec fn matches(how: Matching, entry: Seq<char>, field: Seq<char>) -> bool {
    match how {
        Matching::Trimmed => trimmed(entry) == trimmed(field),
        Matching::TrimmedEntry => trimmed(entry) == field,
        Matching::AnyCase => lowercase(trimmed(entry)) == lowercase(trimmed(field)),
        Matching::Within => is_infix(lowercase(trimmed(entry)), lowercase(field)),
    }
}

/// How many entries of `list` match `field`.
pub open spec fn match_count(list: Seq<Seq<char>>, how: Matching, field: Seq<char>) -> nat
    decreases list.len(),
{
    if list.len() == 0 {
        0
    } else {
        match_count(list.drop_last(), how, field) + if matches(how, list.last(), field) {
            1nat
        } else {
            0nat
        }
    }
}

/// The reason once if `failed`, else nothing.
pub open spec fn reason_if(failed: bool, reason: Seq<char>) -> Seq<Seq<char>> {
    if failed {
        seq![reason]
    } else {
        Seq::empty()
    }
}

/// The reason `n` times over.
pub open spec fn repeated(reason: Seq<char>, n: nat) -> Seq<Seq<char>> {
    Seq::new(n, |i: int| reason)
}

/// One reason for each entry of an optional list that matches `field`.
pub open spec fn banned(
    list: Option<Vec<String>>,
    how: Matching,
    field: Seq<char>,
    reason: Seq<char>,
) -> Seq<Seq<char>> {
    match list {
        Some(v) => repeated(reason, match_count(texts(v@), how, field)),
        None => Seq::empty(),
    }
}

/// Whether `value` lies above an optional ceiling.
pub open spec fn above(value: int, max: Option<usize>) -> bool {
    max matches Some(m) && value > m
}

/// Whether `value` lies below an optional floor.
pub open spec fn below(value: int, min: Option<usize>) -> bool {
    min matches Some(m) && value < m
}

/// Whether a quantity lies above an optional ceiling.
pub open spec fn exceeds(value: Decimal, max: Option<Decimal>) -> bool {
    max matches Some(m) && value.units() > m.units()
}

/// Whether a quantity lies below an optional floor.
pub open spec fn falls_short(value: Decimal, min: Option<Decimal>) -> bool {
    min matches Some(m) && value.units() < m.units()
}

/// Decides `above`.
pub fn is_above(value: u128, max: Option<usize>) -> (r: bool)
    ensures
        r == above(value as int, max),
{
    match max {
        Some(m) => value > m as u128,
        None => false,
    }
}

/// Decides `below`.
pub fn is_below(value: usize, min: Option<usize>) -> (r: bool)
    ensures
        r == below(value as int, min),
{
    match min {
        Some(m) => value < m,
        None => false,
    }
}

/// Decides `exceeds`.
pub fn is_over(value: Decimal, max: Option<Decimal>) -> (r: bool)
    ensures
        r == exceeds(value, max),
{
    match max {
        Some(m) => value.units > m.units,
        None => false,
    }
}

/// Decides `falls_short`.
pub fn is_under(value: Decimal, min: Option<Decimal>) -> (r: bool)
    ensures
        r == falls_short(value, min),
{
    match min {
        Some(m) => value.units < m.units,
        None => false,
    }
}

/// Decides `matches`.
pub fn name_matches(how: Matching, entry: &str, field: &str) -> (r: bool)
    ensures
        r == matches(how, entry@, field@),
{
    let e = trim(entry);
    match how {
        Matching::Trimmed => {
            let f = trim(field);
            same_text(e.as_str(), f.as_str())
        },
        Matching::TrimmedEntry => same_text(e.as_str(), field),
        Matching::AnyCase => {
            let f = trim(field);
            let le = to_lower(e.as_str());
            let lf = to_lower(f.as_str());
            same_text(le.as_str(), lf.as_str())
        },
        Matching::Within => {
            let le = to_lower(e.as_str());
            let lf = to_lower(field);
            contains(lf.as_str(), le.as_str())
        },
    }
}

/// Counts the entries of `list` that match `field`.
pub fn count_matches(list: &Vec<String>, how: Matching, field: &str) -> (n: usize)
    ensures
        n == match_count(texts(list@), how, field@),
{
    let mut n: usize = 0;
    let mut i: usize = 0;
    while i < list.len()
        invariant
            i <= list.len(),
            n <= i,
            n == match_count(texts(list@).take(i as int), how, field@),
        decreases list.len() - i,
    {
        proof {
            let next = texts(list@).take(i + 1);
            assert(next.drop_last() =~= texts(list@).take(i as int));
            assert(next.last() == list@[i as int]@);
        }
        if name_matches(how, list[i].as_str(), field) {
            n += 1;
        }
        i += 1;
    }
    assert(texts(list@).take(list.len() as int) =~= texts(list@));
    n
}

/// `label` followed by `detail`.
pub fn labelled(label: &str, detail: &str) -> (r: String)
    ensures
        r@ == label@ + detail@,
{
    let mut r = String::from_str(label);
    r.append(detail);
    r
}

/// `label` followed by the digits of `n`.
pub fn labelled_count(label: &str, n: u128) -> (r: String)
    ensures
        r@ == label@ + nat_text(n as nat),
{
    let mut r = String::from_str(label);
    push_nat(&mut r, n);
    r
}

/// `label` followed by the decimal writing of `d`.
pub fn labelled_decimal(label: &str, d: Decimal) -> (r: String)
    ensures
        r@ == label@ + decimal_text(d.units()),
{
    let mut r = String::from_str(label);
    let t = d.to_text();
    r.append(t.as_str());
    r
}

/// Adds `reason` to `errs` if `failed`.
pub fn push_when(errs: &mut Vec<String>, failed: bool, reason: String)
    ensures
        texts(final(errs)@) == texts(old(errs)@) + reason_if(failed, reason@),
{
    if failed {
        errs.push(reason);
    }
    assert(texts(errs@) =~= texts(old(errs)@) + reason_if(failed, reason@));
}

/// Adds `reason` to `errs` once for each entry of `list` that matches
/// `field`.
pub fn push_banned(
    errs: &mut Vec<String>,
    list: &Option<Vec<String>>,
    how: Matching,
    field: &str,
    reason: String,
)
    ensures
        texts(final(errs)@) == texts(old(errs)@) + banned(*list, how, field@, reason@),
{
    match list {
        Some(v) => {
            let n = count_matches(v, how, field);
            let mut i: usize = 0;
            while i < n
                invariant
                    i <= n,
                    texts(errs@) == texts(old(errs)@) + repeated(reason@, i as nat),
                decreases n - i,
            {
                let ghost before = errs@;
                let copy = reason.clone();
                errs.push(copy);
                assert(texts(errs@) =~= texts(before).push(reason@));
                assert(repeated(reason@, (i + 1) as nat) =~= repeated(reason@, i as nat).push(
                    reason@,
                ));
                i += 1;
            }
        },
        None => {
            assert(texts(errs@) =~= texts(old(errs)@) + Seq::<Seq<char>>::empty());
        },
    }
}

/// Wraps the reasons of one category: success when there are none.
pub fn conclude(category: Category, errs: Vec<String>) -> (r: Result<(), CheckError>)
    ensures
        reports(r, category, texts(errs@)),
{
    if errs.len() == 0 {
        return Ok(());
    }
    Err(
        match category {
            Category::Stats => CheckError::ErrStats(errs),
            Category::Engine => CheckError::ErrEngine(errs),
            Category::Wheels => CheckError::ErrWheels(errs),
            Category::Chassis => CheckError::ErrChassis(errs),
            Category::Drivetrain => CheckError::ErrDrivetrain(errs),
            Category::Others => CheckError::ErrOthers(errs),
        },
    )
}

/// The rulebook: one optional set of rules for each category, and the
/// OR-groups that go with the statistics. A category left out is not
/// checked.
#[derive(Debug)]
pub struct Regulations {
    pub stats: Option<Stats>,
    pub rules: Option<Rules>,
    pub engine: Option<Engine>,
    pub wheels: Option<Wheels>,
    pub chassis: Option<Chassis>,
    pub drivetrain: Option<Drivetrain>,
    pub other: Option<Others>,
}

/// The failure of a category with these reasons; nothing when there are
/// none.
pub open spec fn tagged(category: Category, reasons: Seq<Seq<char>>) -> Seq<Failure> {
    if reasons.len() > 0 {
        seq![Failure { category, reasons }]
    } else {
        Seq::empty()
    }
}

/// What each entry of a list reports.
pub open spec fn failures_of(list: Seq<CheckError>) -> Seq<Option<Failure>> {
    list.map_values(|c: CheckError| c.failure())
}

/// A list of failures, each as an entry that reports it.
pub open spec fn each_reported(failures: Seq<Failure>) -> Seq<Option<Failure>> {
    failures.map_values(|f: Failure| Some(f))
}

/// Whether two results of a check report the same: both pass, both name
/// the same faulty OR-group, or both list the same failures in the same
/// order.
pub open spec fn same_report(a: Result<(), CheckError>, b: Result<(), CheckError>) -> bool {
    match (a, b) {
        (Ok(_), Ok(_)) => true,
        (Err(CheckError::ErrRules(i)), Err(CheckError::ErrRules(j))) => i == j,
        (Err(CheckError::Regulations(x)), Err(CheckError::Regulations(y))) => failures_of(x@)
            == failures_of(y@),
        _ => false,
    }
}

/// A rulebook that declares no category finds every record compliant.
pub proof fn lemma_empty_rulebook_accepts(
    rulebook: Regulations,
    car: Car,
    r: Result<(), CheckError>,
)
    requires
        rulebook.stats is None,
        rulebook.engine is None,
        rulebook.wheels is None,
        rulebook.chassis is None,
        rulebook.drivetrain is None,
        rulebook.other is None,
        rulebook.outcome(&car, r),
    ensures
        r is Ok,
        rulebook.failures(&car) == Seq::<Failure>::empty(),
{
    assert(rulebook.failures(&car) =~= Seq::<Failure>::empty());
}

/// Checking the same record against the same rulebook twice reports the
/// same: any two results that a check may return agree.
pub proof fn lemma_check_is_repeatable(
    rulebook: Regulations,
    car: Car,
    first: Result<(), CheckError>,
    second: Result<(), CheckError>,
)
    requires
        rulebook.outcome(&car, first),
        rulebook.outcome(&car, second),
    ensures
        same_report(first, second),
{
}

/// A rulebook found sound before any record is checked stays so for every
/// record: no check of it reports a fault of the rulebook, only success or
/// the failures of the record.
pub proof fn lemma_sound_rulebook_reports_records(
    rulebook: Regulations,
    car: Car,
    r: Result<(), CheckError>,
)
    requires
        rulebook.fault() is None,
        rulebook.outcome(&car, r),
    ensures
        r is Ok || r matches Err(CheckError::Regulations(_)),
        r is Ok <==> rulebook.failures(&car).len() == 0,
{
}

/// Adds the failure that `r` holds, if it holds one, to `errs`.
fn collect(errs: &mut Vec<CheckError>, r: Result<(), CheckError>)
    ensures
        failures_of(final(errs)@) == failures_of(old(errs)@) + match r {
            Ok(_) => Seq::empty(),
            Err(e) => seq![e.failure()],
        },
{
    match r {
        Ok(_) => {
            assert(failures_of(errs@) =~= failures_of(old(errs)@) + Seq::empty());
        },
        Err(e) => {
            errs.push(e);
            assert(failures_of(errs@) =~= failures_of(old(errs)@) + seq![e.failure()]);
        },
    }
}

impl Regulations {
    /// The position of the first OR-group that cannot be applied to the
    /// statistics, if there is one. Without statistics rules the groups
    /// are not consulted.
    pub open spec fn fault(&self) -> Option<int> {
        match self.stats {
            Some(_) => match reduced(blank_scores(), declared_groups(self.rules), 0) {
                Ok(_) => None,
                Err(at) => Some(at),
            },
            None => None,
        }
    }

    /// The failure of the statistics category, if it is declared and
    /// fails.
    pub open spec fn stats_failures(&self, car: &Car) -> Seq<Failure> {
        match self.stats {
            Some(stats) => match stats.verdicts(car, &self.rules) {
                Ok(scores) => tagged(Category::Stats, failed_keys(scores)),
                Err(_) => Seq::empty(),
            },
            None => Seq::empty(),
        }
    }

    /// The failure of the engine category, if it is declared and fails.
    pub open spec fn engine_failures(&self, car: &Car) -> Seq<Failure> {
        match self.engine {
            Some(engine) => tagged(Category::Engine, engine.reasons(car)),
            None => Seq::empty(),
        }
    }

    /// The failure of the wheels category, if it is declared and fails.
    pub open spec fn wheels_failures(&self, car: &Car) -> Seq<Failure> {
        match self.wheels {
            Some(wheels) => tagged(Category::Wheels, wheels.reasons(car)),
            None => Seq::empty(),
        }
    }

    /// The failure of the chassis category, if it is declared and fails.
    pub open spec fn chassis_failures(&self, car: &Car) -> Seq<Failure> {
        match self.chassis {
            Some(chassis) => tagged(Category::Chassis, chassis.reasons(car)),
            None => Seq::empty(),
        }
    }

    /// The failure of the drivetrain category, if it is declared and
    /// fails.
    pub open spec fn drivetrain_failures(&self, car: &Car) -> Seq<Failure> {
        match self.drivetrain {
            Some(drivetrain) => tagged(Category::Drivetrain, drivetrain.reasons(car)),
            None => Seq::empty(),
        }
    }

    /// The failure of the category of the raw fields, if it is declared
    /// and fails.
    pub open spec fn other_failures(&self, car: &Car) -> Seq<Failure> {
        match self.other {
            Some(other) => tagged(Category::Others, other.reasons(car)),
            None => Seq::empty(),
        }
    }

    /// The failures of a record: one for each declared category that the
    /// record violates, in the order statistics, engine, wheels, chassis,
    /// drivetrain, raw fields.
    pub open spec fn failures(&self, car: &Car) -> Seq<Failure> {
        self.stats_failures(car) + self.engine_failures(car) + self.wheels_failures(car)
            + self.chassis_failures(car) + self.drivetrain_failures(car) + self.other_failures(car)
    }

    /// What a check of the record returns. A faulty rulebook is reported
    /// alone, by the position of the OR-group at fault. Else the result is
    /// success when no category fails, and the list of every failure when
    /// one does.
    pub open spec fn outcome(&self, car: &Car, r: Result<(), CheckError>) -> bool {
        match self.fault() {
            Some(at) => r matches Err(CheckError::ErrRules(k)) && k == at,
            None => match r {
                Ok(_) => self.failures(car).len() == 0,
                Err(e) => {
                    &&& self.failures(car).len() > 0
                    &&& e matches CheckError::Regulations(list)
                    &&& failures_of(list@) == each_reported(self.failures(car))
                },
            },
        }
    }

    /// Whether the rulebook can be applied: says so before any record is
    /// checked. Fails with the position of the first OR-group that is empty
    /// or names a key that is not scored when its turn comes.
    pub fn validate(&self) -> (r: Result<(), CheckError>)
        ensures
            match self.fault() {
                Some(at) => r matches Err(CheckError::ErrRules(k)) && k == at,
                None => r is Ok,
            },
    {
        match (&self.stats, &self.rules) {
            (Some(_), Some(Rules { or: Some(groups) })) => {
                match reduce(blank_verdicts(), groups) {
                    Ok(_) => Ok(()),
                    Err(at) => Err(CheckError::ErrRules(at)),
                }
            },
            _ => Ok(()),
        }
    }

    /// Checks the statistics and adds their failure to `errs`. Returns the
    /// position of the OR-group at fault, if the rulebook has one.
    fn collect_stats(&self, car: &Car, errs: &mut Vec<CheckError>) -> (fault: Option<usize>)
        ensures
            match self.fault() {
                Some(at) => fault matches Some(k) && k == at,
                None => fault is None && failures_of(final(errs)@) == failures_of(old(errs)@)
                    + each_reported(self.stats_failures(car)),
            },
    {
        match &self.stats {
            Some(stats) => {
                proof {
                    stats.lemma_scored_keys(car);
                    lemma_fault_depends_on_keys(
                        stats.scores(car),
                        blank_scores(),
                        declared_groups(self.rules),
                        0,
                    );
                }
                match stats.check_car(car, &self.rules) {
                    Err(CheckError::ErrRules(at)) => Some(at),
                    r => {
                        collect(errs, r);
                        assert(failures_of(errs@) =~= failures_of(old(errs)@) + each_reported(
                            self.stats_failures(car),
                        ));
                        None
                    },
                }
            },
            None => {
                assert(failures_of(errs@) =~= failures_of(old(errs)@) + each_reported(
                    self.stats_failures(car),
                ));
                None
            },
        }
    }

    /// Checks the engine and adds its failure to `errs`.
    fn collect_engine(&self, car: &Car, errs: &mut Vec<CheckError>)
        ensures
            failures_of(final(errs)@) == failures_of(old(errs)@) + each_reported(
                self.engine_failures(car),
            ),
    {
        match &self.engine {
            Some(engine) => collect(errs, engine.check_car(car)),
            None => {},
        }
        assert(failures_of(errs@) =~= failures_of(old(errs)@) + each_reported(
            self.engine_failures(car),
        ));
    }

    /// Checks the wheels and adds their failure to `errs`.
    fn collect_wheels(&self, car: &Car, errs: &mut Vec<CheckError>)
        ensures
            failures_of(final(errs)@) == failures_of(old(errs)@) + each_reported(
                self.wheels_failures(car),
            ),
    {
        match &self.wheels {
            Some(wheels) => collect(errs, wheels.check_car(car)),
            None => {},
        }
        assert(failures_of(errs@) =~= failures_of(old(errs)@) + each_reported(
            self.wheels_failures(car),
        ));
    }

    /// Checks the chassis and adds its failure to `errs`.
    fn collect_chassis(&self, car: &Car, errs: &mut Vec<CheckError>)
        ensures
            failures_of(final(errs)@) == failures_of(old(errs)@) + each_reported(
                self.chassis_failures(car),
            ),
    {
        match &self.chassis {
            Some(chassis) => collect(errs, chassis.check_car(car)),
            None => {},
        }
        assert(failures_of(errs@) =~= failures_of(old(errs)@) + each_reported(
            self.chassis_failures(car),
        ));
    }

    /// Checks the drivetrain and adds its failure to `errs`.
    fn collect_drivetrain(&self, car: &Car, errs: &mut Vec<CheckError>)
        ensures
            failures_of(final(errs)@) == failures_of(old(errs)@) + each_reported(
                self.drivetrain_failures(car),
            ),
    {
        match &self.drivetrain {
            Some(drivetrain) => collect(errs, drivetrain.check_car(car)),
            None => {},
        }
        assert(failures_of(errs@) =~= failures_of(old(errs)@) + each_reported(
            self.drivetrain_failures(car),
        ));
    }

    /// Checks the raw fields and adds their failure to `errs`.
    fn collect_other(&self, car: &Car, errs: &mut Vec<CheckError>)
        ensures
            failures_of(final(errs)@) == failures_of(old(errs)@) + each_reported(
                self.other_failures(car),
            ),
    {
        match &self.other {
            Some(other) => collect(errs, other.check_car(car)),
            None => {},
        }
        assert(failures_of(errs@) =~= failures_of(old(errs)@) + each_reported(
            self.other_failures(car),
        ));
    }

    /// Holds the record against every declared category and reports every
    /// failure: no category is skipped because an earlier one failed.
    pub fn check_car(&self, car: &Car) -> (r: Result<(), CheckError>)
        ensures
            self.outcome(car, r),
    {
        let mut errs: Vec<CheckError> = Vec::new();
        assert(failures_of(errs@) =~= Seq::empty());
        if let Some(at) = self.collect_stats(car, &mut errs) {
            return Err(CheckError::ErrRules(at));
        }
        self.collect_engine(car, &mut errs);
        self.collect_wheels(car, &mut errs);
        self.collect_chassis(car, &mut errs);
        self.collect_drivetrain(car, &mut errs);
        self.collect_other(car, &mut errs);
        assert(failures_of(errs@) =~= each_reported(self.failures(car)));
        assert(errs@.len() == failures_of(errs@).len());
        if errs.len() > 0 {
            return Err(CheckError::Regulations(errs));
        }
        Ok(())
    }
}

} // verus!
