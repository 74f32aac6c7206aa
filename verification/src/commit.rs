//! The commit coordinator: a state machine that turns an ingest plan into the next
//! version of a table under optimistic concurrency, and a driver that runs it on
//! a log held in memory.
//!
//! The machine decides; its caller acts. Each step takes what happened outside
//! (the log was read again, an append went through or was refused) and answers
//! with what to do next.

use crate::error::TableError;
use crate::ingest::IngestPlan;
use crate::log::{
    actions_view, after_append, append_outcome, apply_action, apply_commit, duplicate_actions,
    lemma_apply_commit_concat, lemma_replay_prefix, replay, state_at, ActionSpec, AppendOutcome,
    DataFileRef, LogAction, LogStore, TableSpec, TableState,
};
use crate::schema::{
    compatible, grown, lemma_grown_twice, merged, ColumnSpec, Schema,
};
use vstd::prelude::*;

verus! {
/// Why a commit was given up.
#[derive(Clone, Copy, Debug, PartialEq, Eq, Structural)]
pub enum AbortReason {
    /// The table's schema no longer admits the plan's target schema.
    Conflict,
    /// The version slot was taken on the first attempt and on every retry.
    Exhausted,
}

/// Where a commit stands.
#[derive(Clone, Copy, Debug, PartialEq, Eq, Structural)]
pub enum Phase {
    Preparing,
    Validating,
    Appending,
    Committed,
    Aborted(AbortReason),
}

/// What a successful commit reports: the new version, the number of files it
/// added, and how many refused appends came before it.
#[derive(Clone, Copy, Debug, PartialEq, Eq, Structural)]
pub struct CommitReceipt {
    pub version: u64,
    pub adds: u64,
    pub retries: u64,
}

/// What happened outside since the last step.
#[derive(Debug)]
pub enum CommitEvent {
    /// Nothing yet: the commit begins.
    Start,
    /// The log was read again; this is the table as of its latest version.
    Observed(TableState),
    /// The candidate actions are now the version asked for.
    Appended,
    /// The version asked for was taken by another writer.
    Rejected,
}

/// What a commit event is.
pub enum EventSpec {
    Start,
    Observed(TableSpec),
    Appended,
    Rejected,
}

impl View for CommitEvent {
    type V = EventSpec;

    open spec fn view(&self) -> EventSpec {
        match self {
            CommitEvent::Start => EventSpec::Start,
            CommitEvent::Observed(t) => EventSpec::Observed(t@),
            CommitEvent::Appended => EventSpec::Appended,
            CommitEvent::Rejected => EventSpec::Rejected,
        }
    }
}

/// What the caller is to do next.
#[derive(Debug)]
pub enum Directive {
    /// Step with `Start`.
    Begin,
    /// Read the log's latest version again and step with `Observed`.
    Observe,
    /// Record `actions` as `version` if that version is not taken, and step with
    /// `Appended` or `Rejected`.
    Append { version: u64, actions: Vec<LogAction> },
    /// The commit is durable.
    Done(CommitReceipt),
    /// The commit was given up; nothing of it is in the log.
    Failed(AbortReason),
}

/// What a directive is.
pub enum DirectiveSpec {
    Begin,
    Observe,
    Append { version: int, actions: Seq<ActionSpec> },
    Done(CommitReceipt),
    Failed(AbortReason),
}

impl View for Directive {
    type V = DirectiveSpec;

    open spec fn view(&self) -> DirectiveSpec {
        match self {
            Directive::Begin => DirectiveSpec::Begin,
            Directive::Observe => DirectiveSpec::Observe,
            Directive::Append { version, actions } => DirectiveSpec::Append {
                version: *version as int,
                actions: actions_view(actions@),
            },
            Directive::Done(r) => DirectiveSpec::Done(*r),
            Directive::Failed(why) => DirectiveSpec::Failed(*why),
        }
    }
}

/// The state of a commit.
pub struct CoordinatorSpec {
    pub phase: Phase,
    /// The schema the plan targets.
    pub target: Seq<ColumnSpec>,
    /// The files the plan adds.
    pub files: Seq<DataFileRef>,
    /// The version the candidate was derived against.
    pub observed_version: int,
    /// The table's schema as of that version.
    pub current: Seq<ColumnSpec>,
    /// The actions to record as the next version.
    pub candidate: Seq<ActionSpec>,
    /// The refused appends so far.
    pub rejections: int,
    /// The most refused appends after which the commit is tried again.
    pub max_retries: int,
}

/// One `AddFile` for each file, in their order.
pub open spec fn file_actions(files: Seq<DataFileRef>) -> Seq<ActionSpec> {
    Seq::new(files.len(), |i: int| ActionSpec::AddFile(files[i]))
}

/// The actions that write a plan into a table of schema `now`: the merged schema
/// if it differs from `now`, then the plan's files.
pub open spec fn candidate_actions(
    now: Seq<ColumnSpec>,
    target: Seq<ColumnSpec>,
    files: Seq<DataFileRef>,
) -> Seq<ActionSpec> {
    if merged(now, target) == now {
        file_actions(files)
    } else {
        seq![ActionSpec::SetSchema(merged(now, target))] + file_actions(files)
    }
}

/// The commit re-derived against the table `seen`: given up where the table's
/// schema does not admit the target, else ready to append.
pub open spec fn rederived(c: CoordinatorSpec, seen: TableSpec) -> CoordinatorSpec {
    if compatible(seen.schema, c.target) {
        CoordinatorSpec {
            phase: Phase::Appending,
            observed_version: seen.version,
            current: seen.schema,
            candidate: candidate_actions(seen.schema, c.target, c.files),
            ..c
        }
    } else {
        CoordinatorSpec { phase: Phase::Aborted(AbortReason::Conflict), ..c }
    }
}

/// The transition function of the commit state machine.
///
/// - `Preparing`, on `Start`: the candidate is built against the table the caller
///   observed; the commit is given up where that table does not admit the target.
/// - `Validating`, on `Observed`: where the log still ends at the version the
///   candidate was derived against, the candidate stands; else it is re-derived
///   against the table observed.
/// - `Appending`, on `Appended`: committed. On `Rejected`: back to `Validating`
///   while retries are left, else given up.
/// - Any other event changes nothing.
pub open spec fn next(c: CoordinatorSpec, e: EventSpec) -> CoordinatorSpec {
    match (c.phase, e) {
        (Phase::Preparing, EventSpec::Start) => if compatible(c.current, c.target) {
            CoordinatorSpec {
                phase: Phase::Validating,
                candidate: candidate_actions(c.current, c.target, c.files),
                ..c
            }
        } else {
            CoordinatorSpec { phase: Phase::Aborted(AbortReason::Conflict), ..c }
        },
        (Phase::Validating, EventSpec::Observed(seen)) => if seen.version == c.observed_version {
            CoordinatorSpec { phase: Phase::Appending, ..c }
        } else {
            rederived(c, seen)
        },
        (Phase::Appending, EventSpec::Appended) => CoordinatorSpec { phase: Phase::Committed, ..c },
        (Phase::Appending, EventSpec::Rejected) => if c.rejections < c.max_retries {
            CoordinatorSpec { phase: Phase::Validating, rejections: c.rejections + 1, ..c }
        } else {
            CoordinatorSpec { phase: Phase::Aborted(AbortReason::Exhausted), ..c }
        },
        _ => c,
    }
}

/// What a successful commit of `c` reports.
pub open spec fn receipt_of(c: CoordinatorSpec) -> CommitReceipt {
    CommitReceipt {
        version: (c.observed_version + 1) as u64,
        adds: c.files.len() as u64,
        retries: c.rejections as u64,
    }
}

/// What the caller is to do in each state.
pub open spec fn directive_of(c: CoordinatorSpec) -> DirectiveSpec {
    match c.phase {
        Phase::Preparing => DirectiveSpec::Begin,
        Phase::Validating => DirectiveSpec::Observe,
        Phase::Appending => DirectiveSpec::Append {
            version: c.observed_version + 1,
            actions: c.candidate,
        },
        Phase::Committed => DirectiveSpec::Done(receipt_of(c)),
        Phase::Aborted(why) => DirectiveSpec::Failed(why),
    }
}

/// The actions that write `files` under the schema `target` into a table of schema
/// `now`, if `now` admits `target`.
fn derive_candidate(now: &Schema, target: &Schema, files: &Vec<DataFileRef>) -> (r: Option<
    Vec<LogAction>,
>)
    ensures
        match r {
            Some(actions) => compatible(now@, target@) && actions_view(actions@)
                == candidate_actions(now@, target@, files@),
            None => !compatible(now@, target@),
        },
{
    let merged_schema = match now.merge(target) {
        Ok(m) => m,
        Err(_) => {
            return None;
        },
    };
    let mut out: Vec<LogAction> = Vec::new();
    if !merged_schema.same_as(now) {
        out.push(LogAction::SetSchema(merged_schema));
    }
    let ghost head = actions_view(out@);
    let n = files.len();
    let mut i: usize = 0;
    assert(actions_view(out@) =~= head + file_actions(files@).take(0));
    while i < n
        invariant
            i <= n == files.len(),
            actions_view(out@) == head + file_actions(files@).take(i as int),
        decreases n - i,
    {
        let ghost before = actions_view(out@);
        out.push(LogAction::AddFile(files[i]));
        assert(actions_view(out@) =~= before.push(ActionSpec::AddFile(files[i as int])));
        assert(actions_view(out@) =~= head + file_actions(files@).take(i + 1));
        i += 1;
    }
    assert(file_actions(files@).take(n as int) =~= file_actions(files@));
    assert(head + file_actions(files@) =~= candidate_actions(now@, target@, files@));
    Some(out)
}

/// One commit in progress.
#[derive(Debug)]
pub struct CommitCoordinator {
    phase: Phase,
    target: Schema,
    files: Vec<DataFileRef>,
    observed_version: u64,
    current: Schema,
    candidate: Vec<LogAction>,
    rejections: u64,
    max_retries: u64,
}

impl View for CommitCoordinator {
    type V = CoordinatorSpec;

    closed spec fn view(&self) -> CoordinatorSpec {
        CoordinatorSpec {
            phase: self.phase,
            target: self.target@,
            files: self.files@,
            observed_version: self.observed_version as int,
            current: self.current@,
            candidate: actions_view(self.candidate@),
            rejections: self.rejections as int,
            max_retries: self.max_retries as int,
        }
    }
}

impl CommitCoordinator {
    /// What holds of every commit: the version it observed has a successor, and it
    /// was refused no more often than it may retry.
    #[verifier::type_invariant]
    pub open spec fn inv(self) -> bool {
        &&& 0 <= self@.observed_version < u64::MAX
        &&& 0 <= self@.rejections <= self@.max_retries <= u64::MAX
    }

    /// A commit of `plan` by a writer that last saw the table as `observed`, with at
    /// most `max_retries` retries after refused appends.
    pub fn new(plan: IngestPlan, observed: &TableState, max_retries: u64) -> (c: CommitCoordinator)
        ensures
            c@ == (CoordinatorSpec {
                phase: Phase::Preparing,
                target: plan@.target_schema,
                files: plan@.new_files,
                observed_version: observed@.version,
                current: observed@.schema,
                candidate: Seq::<ActionSpec>::empty(),
                rejections: 0,
                max_retries: max_retries as int,
            }),
    {
        let c = CommitCoordinator {
            phase: Phase::Preparing,
            target: plan.target_schema,
            files: plan.new_files,
            observed_version: observed.version(),
            current: observed.schema().duplicate(),
            candidate: Vec::new(),
            rejections: 0,
            max_retries,
        };
        assert(c@.candidate =~= Seq::<ActionSpec>::empty());
        c
    }

    /// Where the commit stands.
    pub fn phase(&self) -> (p: Phase)
        ensures
            p == self@.phase,
    {
        self.phase
    }

    /// What the caller is to do now.
    pub fn directive(&self) -> (d: Directive)
        ensures
            d@ == directive_of(self@),
    {
        proof {
            use_type_invariant(self);
        }
        match self.phase {
            Phase::Preparing => Directive::Begin,
            Phase::Validating => Directive::Observe,
            Phase::Appending => Directive::Append {
                version: self.observed_version + 1,
                actions: duplicate_actions(&self.candidate),
            },
            Phase::Committed => Directive::Done(
                CommitReceipt {
                    version: self.observed_version + 1,
                    adds: self.files.len() as u64,
                    retries: self.rejections,
                },
            ),
            Phase::Aborted(why) => Directive::Failed(why),
        }
    }

    /// Takes what happened outside, moves the commit on, and says what to do next.
    pub fn step(&mut self, event: CommitEvent) -> (d: Directive)
        ensures
            final(self)@ == next(old(self)@, event@),
            d@ == directive_of(final(self)@),
    {
        proof {
            use_type_invariant(&*self);
        }
        match (self.phase, event) {
            (Phase::Preparing, CommitEvent::Start) => {
                match derive_candidate(&self.current, &self.target, &self.files) {
                    Some(actions) => {
                        self.candidate = actions;
                        self.phase = Phase::Validating;
                    },
                    None => {
                        self.phase = Phase::Aborted(AbortReason::Conflict);
                    },
                }
            },
            (Phase::Validating, CommitEvent::Observed(seen)) => {
                if seen.version() == self.observed_version {
                    self.phase = Phase::Appending;
                } else {
                    match derive_candidate(seen.schema(), &self.target, &self.files) {
                        Some(actions) => {
                            self.candidate = actions;
                            self.current = seen.schema().duplicate();
                            self.observed_version = seen.version();
                            self.phase = Phase::Appending;
                        },
                        None => {
                            self.phase = Phase::Aborted(AbortReason::Conflict);
                        },
                    }
                }
            },
            (Phase::Appending, CommitEvent::Appended) => {
                self.phase = Phase::Committed;
            },
            (Phase::Appending, CommitEvent::Rejected) => {
                if self.rejections < self.max_retries {
                    self.rejections = self.rejections + 1;
                    self.phase = Phase::Validating;
                } else {
                    self.phase = Phase::Aborted(AbortReason::Exhausted);
                }
            },
            _ => {},
        }
        self.directive()
    }
}

/// How far a commit is from its end.
pub open spec fn steps_left(p: Phase) -> nat {
    match p {
        Phase::Preparing => 3,
        Phase::Validating => 2,
        Phase::Appending => 1,
        Phase::Committed => 0,
        Phase::Aborted(_) => 0,
    }
}

/// The schema a commit is derived against when its writer last saw the table as
/// `observed` and the log now gives `latest`: the schema the writer saw where the
/// log still ends at the version it saw, the latest schema otherwise.
pub open spec fn basis(latest: TableSpec, observed: TableSpec) -> Seq<ColumnSpec> {
    if latest.version == observed.version {
        observed.schema
    } else {
        latest.schema
    }
}

/// The table admits the target schema, as the writer saw it and as the commit
/// finds it.
pub open spec fn admitted(latest: TableSpec, observed: TableSpec, target: Seq<ColumnSpec>) -> bool {
    compatible(observed.schema, target) && compatible(basis(latest, observed), target)
}

/// The error that stands for a reason to give a commit up.
pub fn error_of(why: AbortReason, retries: u64) -> (e: TableError)
    ensures
        match why {
            AbortReason::Conflict => e matches TableError::ConflictError,
            AbortReason::Exhausted => e matches TableError::CommitExhaustedError { retries: n }
                && n == retries,
        },
{
    match why {
        AbortReason::Conflict => TableError::ConflictError,
        AbortReason::Exhausted => TableError::CommitExhaustedError { retries },
    }
}

/// Commits `plan` to a log held in memory, for a writer that last saw the table as
/// `observed`: runs the coordinator to its end, reading the log and appending to it
/// as the coordinator directs.
///
/// On success the log has exactly one version more, numbered one above the latest
/// before, which holds the candidate actions; the receipt names it. On failure
/// the log is as it was. The commit fails with `ConflictError` where the table
/// does not admit the plan's target schema, and with `TableLocationError` where
/// the log records no table at all.
pub fn commit(
    log: &mut LogStore,
    plan: IngestPlan,
    observed: &TableState,
    max_retries: u64,
) -> (r: Result<CommitReceipt, TableError>)
    ensures
        match r {
            Ok(receipt) => {
                let before = old(log)@.commits;
                let latest = state_at(before, before.len() - 1);
                &&& before.len() > 0
                &&& admitted(latest, observed@, plan@.target_schema)
                &&& receipt.version == before.len()
                &&& receipt.adds == plan@.new_files.len()
                &&& receipt.retries == 0
                &&& final(log)@.commits == before.push(
                    candidate_actions(
                        basis(latest, observed@),
                        plan@.target_schema,
                        plan@.new_files,
                    ),
                )
                &&& final(log)@.checkpoints == old(log)@.checkpoints
            },
            Err(TableError::ConflictError) => {
                let before = old(log)@.commits;
                &&& final(log)@ == old(log)@
                &&& !compatible(observed@.schema, plan@.target_schema) || (before.len() > 0
                    && !admitted(
                    state_at(before, before.len() - 1),
                    observed@,
                    plan@.target_schema,
                ))
            },
            Err(TableError::TableLocationError) => {
                &&& final(log)@ == old(log)@
                &&& old(log)@.commits.len() == 0
                &&& compatible(observed@.schema, plan@.target_schema)
            },
            Err(_) => false,
        },
{
    let ghost before = log@.commits;
    let ghost latest = state_at(before, before.len() - 1);
    let ghost target = plan@.target_schema;
    let ghost files = plan@.new_files;
    let versions = log.version_count();
    let adds = plan.new_files.len();
    let mut c = CommitCoordinator::new(plan, observed, max_retries);
    let mut d = c.step(CommitEvent::Start);
    loop
        invariant
            d@ == directive_of(c@),
            target == plan@.target_schema,
            files == plan@.new_files,
            files.len() == adds,
            before.len() == versions,
            c@.target == target,
            c@.files == files,
            c@.rejections == 0,
            before == old(log)@.commits,
            latest == state_at(before, before.len() - 1),
            log@.checkpoints == old(log)@.checkpoints,
            match c@.phase {
                Phase::Preparing => false,
                Phase::Validating => {
                    &&& log@ == old(log)@
                    &&& compatible(observed@.schema, target)
                    &&& c@.current == observed@.schema
                    &&& c@.observed_version == observed@.version
                    &&& c@.candidate == candidate_actions(observed@.schema, target, files)
                },
                Phase::Appending => {
                    &&& log@ == old(log)@
                    &&& before.len() > 0
                    &&& admitted(latest, observed@, target)
                    &&& c@.observed_version == before.len() - 1
                    &&& c@.candidate == candidate_actions(basis(latest, observed@), target, files)
                },
                Phase::Committed => {
                    &&& before.len() > 0
                    &&& admitted(latest, observed@, target)
                    &&& c@.observed_version == before.len() - 1
                    &&& log@.commits == before.push(
                        candidate_actions(basis(latest, observed@), target, files),
                    )
                },
                Phase::Aborted(why) => {
                    &&& log@ == old(log)@
                    &&& why == AbortReason::Conflict
                    &&& !compatible(observed@.schema, target) || (before.len() > 0 && !admitted(
                        latest,
                        observed@,
                        target,
                    ))
                },
            },
        decreases steps_left(c@.phase),
    {
        match d {
            Directive::Begin => {
                d = c.step(CommitEvent::Start);
            },
            Directive::Observe => {
                match log.state() {
                    Some(seen) => {
                        d = c.step(CommitEvent::Observed(seen));
                    },
                    None => {
                        return Err(TableError::TableLocationError);
                    },
                }
            },
            Directive::Append { version, actions } => {
                match log.try_append(version, actions) {
                    AppendOutcome::Appended => {
                        d = c.step(CommitEvent::Appended);
                    },
                    _ => {
                        d = c.step(CommitEvent::Rejected);
                    },
                }
            },
            Directive::Done(receipt) => {
                return Ok(receipt);
            },
            Directive::Failed(why) => {
                return Err(error_of(why, max_retries));
            },
        }
    }
}

/// Only an accepted append commits: a commit reaches `Committed` from `Appending`,
/// on `Appended`, and in no other way.
pub proof fn lemma_committed_only_by_append(c: CoordinatorSpec, e: EventSpec)
    requires
        c.phase != Phase::Committed,
        next(c, e).phase == Phase::Committed,
    ensures
        c.phase == Phase::Appending,
        e == EventSpec::Appended,
{
}

/// A commit asks for an append only in `Appending`, only as the version after the
/// one it observed, and a commit that has ended asks for nothing more: whatever
/// happens afterwards changes neither its state nor its answer.
pub proof fn lemma_ended_stays_ended(c: CoordinatorSpec, e: EventSpec)
    ensures
        directive_of(c) is Append ==> c.phase == Phase::Appending && directive_of(c)->version
            == c.observed_version + 1,
        c.phase == Phase::Committed || c.phase is Aborted ==> next(c, e) == c,
{
}

/// Every refused append is either retried or ends the commit: from `Appending`, a
/// refusal leads back to `Validating` with one retry more on the count while the
/// bound allows, and to `Aborted(Exhausted)` once it does not.
pub proof fn lemma_retries_are_bounded(c: CoordinatorSpec)
    requires
        c.phase == Phase::Appending,
        0 <= c.rejections <= c.max_retries,
    ensures
        c.rejections < c.max_retries ==> next(c, EventSpec::Rejected).phase == Phase::Validating
            && next(c, EventSpec::Rejected).rejections == c.rejections + 1,
        c.rejections == c.max_retries ==> next(c, EventSpec::Rejected).phase == Phase::Aborted(
            AbortReason::Exhausted,
        ),
        next(c, EventSpec::Rejected).rejections <= c.max_retries,
{
}

/// Adding files to a table changes neither its version nor its schema, keeps its
/// live files where they are, and makes every file added a live file.
pub proof fn lemma_files_join(s: TableSpec, files: Seq<DataFileRef>)
    ensures
        ({
            let t = apply_commit(s, file_actions(files));
            &&& t.version == s.version
            &&& t.schema == s.schema
            &&& s.files.is_prefix_of(t.files)
            &&& forall|i: int| 0 <= i < files.len() ==> t.files.contains(#[trigger] files[i])
            &&& forall|f: DataFileRef|
                #[trigger] t.files.contains(f) ==> s.files.contains(f) || files.contains(f)
        }),
    decreases files.len(),
{
    if files.len() > 0 {
        let head = files.drop_last();
        let last = files.last();
        assert(file_actions(files).drop_last() =~= file_actions(head));
        assert(file_actions(files).last() == ActionSpec::AddFile(last));
        lemma_files_join(s, head);
        let mid = apply_commit(s, file_actions(head));
        let t = apply_action(mid, ActionSpec::AddFile(last));
        assert(t == apply_commit(s, file_actions(files)));
        assert forall|i: int| 0 <= i < files.len() implies t.files.contains(
            #[trigger] files[i],
        ) by {
            if i < head.len() {
                assert(head[i] == files[i]);
                let w = choose|w: int| 0 <= w < mid.files.len() && mid.files[w] == files[i];
                assert(t.files[w] == files[i]);
            } else if !mid.files.contains(last) {
                assert(t.files[mid.files.len() as int] == last);
            }
        }
        assert forall|f: DataFileRef| #[trigger] t.files.contains(f) implies s.files.contains(f)
            || files.contains(f) by {
            let w = choose|w: int| 0 <= w < t.files.len() && t.files[w] == f;
            if w < mid.files.len() {
                assert(mid.files[w] == f);
                assert(mid.files.contains(f));
                if !s.files.contains(f) {
                    let v = choose|v: int| 0 <= v < head.len() && head[v] == f;
                    assert(files[v] == f);
                }
            } else {
                assert(files[files.len() - 1] == f);
            }
        }
    }
}

/// What a commit does to a table: the schema becomes the table's schema with the
/// target merged into it, which keeps every column as it was and adds nullable
/// ones; the files the table had stay live, in their places, and the files of the
/// plan join them. Nothing is ever removed or narrowed.
pub proof fn lemma_commit_only_adds(s: TableSpec, target: Seq<ColumnSpec>, files: Seq<DataFileRef>)
    ensures
        ({
            let t = apply_commit(s, candidate_actions(s.schema, target, files));
            &&& t.version == s.version
            &&& t.schema == merged(s.schema, target)
            &&& grown(s.schema, t.schema)
            &&& s.files.is_prefix_of(t.files)
            &&& forall|i: int| 0 <= i < files.len() ==> t.files.contains(#[trigger] files[i])
            &&& forall|f: DataFileRef|
                #[trigger] t.files.contains(f) ==> s.files.contains(f) || files.contains(f)
        }),
{
    let m = merged(s.schema, target);
    if m == s.schema {
        lemma_files_join(s, files);
    } else {
        let set = seq![ActionSpec::SetSchema(m)];
        let with_schema = TableSpec { version: s.version, schema: m, files: s.files };
        assert(set.drop_last() =~= Seq::<ActionSpec>::empty());
        assert(apply_commit(s, set) == with_schema) by {
            reveal_with_fuel(apply_commit, 2);
        }
        lemma_apply_commit_concat(s, set, file_actions(files));
        lemma_files_join(with_schema, files);
    }
}

/// Two writers race for one version. Both are about to append the version after
/// the last one recorded. The first append goes through; the second is refused,
/// and changes nothing. The writer that lost is sent back to validate, finds the
/// table one version on, and, if that table admits its target and a retry is
/// left, appends its re-derived candidate as the version after the winner's,
/// which is free. Its receipt counts the retry.
pub proof fn lemma_race_for_a_version(
    commits: Seq<Seq<ActionSpec>>,
    winner: CoordinatorSpec,
    loser: CoordinatorSpec,
)
    requires
        winner.phase == Phase::Appending,
        loser.phase == Phase::Appending,
        winner.observed_version == commits.len() - 1,
        loser.observed_version == commits.len() - 1,
        0 <= loser.rejections < loser.max_retries,
        compatible(
            state_at(commits.push(winner.candidate), commits.len() as int).schema,
            loser.target,
        ),
    ensures
        ({
            let claimed = commits.len() as int;
            let won = after_append(commits, claimed, winner.candidate);
            let seen = state_at(won, claimed);
            let back = next(loser, EventSpec::Rejected);
            let again = next(back, EventSpec::Observed(seen));
            let lost = after_append(won, claimed, loser.candidate);
            &&& directive_of(winner) == (DirectiveSpec::Append {
                version: claimed,
                actions: winner.candidate,
            })
            &&& directive_of(loser)->version == claimed
            &&& append_outcome(commits, claimed) == AppendOutcome::Appended
            &&& append_outcome(won, claimed) == AppendOutcome::Occupied
            &&& lost == won
            &&& back.phase == Phase::Validating
            &&& directive_of(again) == (DirectiveSpec::Append {
                version: claimed + 1,
                actions: candidate_actions(seen.schema, loser.target, loser.files),
            })
            &&& append_outcome(won, claimed + 1) == AppendOutcome::Appended
            &&& next(again, EventSpec::Appended).phase == Phase::Committed
            &&& directive_of(next(again, EventSpec::Appended)) == DirectiveSpec::Done(
                receipt_of(again),
            )
            &&& again.observed_version == claimed
            &&& again.rejections == loser.rejections + 1
        }),
{
}

/// One turn of a writer that does what its coordinator directs, on a log of the
/// versions `commits`: the versions afterwards, and the coordinator after it was
/// told what happened.
pub open spec fn turn(commits: Seq<Seq<ActionSpec>>, c: CoordinatorSpec) -> (
    Seq<Seq<ActionSpec>>,
    CoordinatorSpec,
) {
    match directive_of(c) {
        DirectiveSpec::Begin => (commits, next(c, EventSpec::Start)),
        DirectiveSpec::Observe => if commits.len() > 0 {
            (commits, next(c, EventSpec::Observed(state_at(commits, commits.len() - 1))))
        } else {
            (commits, c)
        },
        DirectiveSpec::Append { version, actions } => (
            after_append(commits, version, actions),
            next(
                c,
                if append_outcome(commits, version) == AppendOutcome::Appended {
                    EventSpec::Appended
                } else {
                    EventSpec::Rejected
                },
            ),
        ),
        DirectiveSpec::Done(_) => (commits, c),
        DirectiveSpec::Failed(_) => (commits, c),
    }
}

/// `n` turns, one after the other.
pub open spec fn turns(commits: Seq<Seq<ActionSpec>>, c: CoordinatorSpec, n: nat) -> (
    Seq<Seq<ActionSpec>>,
    CoordinatorSpec,
)
    decreases n,
{
    if n == 0 {
        (commits, c)
    } else {
        let (before, d) = turns(commits, c, (n - 1) as nat);
        turn(before, d)
    }
}

/// A turn changes the log only by committing: if the versions differ afterwards,
/// the candidate was appended as the one version after the last, and the commit
/// is `Committed`.
pub proof fn lemma_a_turn_changes_the_log_only_by_committing(
    commits: Seq<Seq<ActionSpec>>,
    c: CoordinatorSpec,
)
    ensures
        ({
            let (after, d) = turn(commits, c);
            after != commits ==> c.phase == Phase::Appending && d.phase == Phase::Committed
                && c.observed_version + 1 == commits.len() && after == commits.push(c.candidate)
        }),
{
}

/// No partial visibility: however many turns a commit takes, as long as it has
/// not reached `Committed` the log is exactly as it was before the commit began.
/// A commit that is given up at any point has left no trace.
pub proof fn lemma_uncommitted_turns_change_nothing(
    commits: Seq<Seq<ActionSpec>>,
    c: CoordinatorSpec,
    n: nat,
)
    requires
        c.phase != Phase::Committed,
    ensures
        turns(commits, c, n).1.phase != Phase::Committed ==> turns(commits, c, n).0 == commits,
        turns(commits, c, n).1.phase == Phase::Committed ==> turns(commits, c, n).0.len()
            == commits.len() + 1 && turns(commits, c, n).0.drop_last() == commits,
    decreases n,
{
    if n > 0 {
        let (before, d) = turns(commits, c, (n - 1) as nat);
        lemma_uncommitted_turns_change_nothing(commits, c, (n - 1) as nat);
        lemma_a_turn_changes_the_log_only_by_committing(before, d);
        if d.phase != Phase::Committed {
            let (after, e) = turn(before, d);
            if after != before {
                assert(after.drop_last() =~= before);
            }
        }
    }
}

/// From version `v - 1` to version `v` the schema grew.
pub open spec fn grew_at(commits: Seq<Seq<ActionSpec>>, v: int) -> bool {
    grown(state_at(commits, v - 1).schema, state_at(commits, v).schema)
}

/// The schema of the table only ever grew: from each version to the next, every
/// column stayed as it was, and what was added is nullable.
pub open spec fn orderly(commits: Seq<Seq<ActionSpec>>) -> bool {
    forall|v: int| 1 <= v < commits.len() ==> #[trigger] grew_at(commits, v)
}

/// In an orderly log the schema as of a later version has grown from the schema
/// as of any earlier one.
pub proof fn lemma_orderly_schemas_grow(commits: Seq<Seq<ActionSpec>>, earlier: int, later: int)
    requires
        orderly(commits),
        0 <= earlier <= later < commits.len(),
    ensures
        grown(state_at(commits, earlier).schema, state_at(commits, later).schema),
    decreases later - earlier,
{
    if earlier < later {
        lemma_orderly_schemas_grow(commits, earlier, later - 1);
        assert(grew_at(commits, later));
        lemma_grown_twice(
            state_at(commits, earlier).schema,
            state_at(commits, later - 1).schema,
            state_at(commits, later).schema,
        );
    }
}

/// A log that records a table just created is orderly.
pub proof fn lemma_new_table_is_orderly(commits: Seq<Seq<ActionSpec>>)
    requires
        commits.len() <= 1,
    ensures
        orderly(commits),
{
}

/// Commits keep a log orderly: an orderly log with the candidate of a commit,
/// derived against its latest version, appended to it is orderly again.
pub proof fn lemma_commits_keep_order(
    commits: Seq<Seq<ActionSpec>>,
    target: Seq<ColumnSpec>,
    files: Seq<DataFileRef>,
)
    requires
        commits.len() > 0,
        orderly(commits),
    ensures
        orderly(
            commits.push(
                candidate_actions(state_at(commits, commits.len() - 1).schema, target, files),
            ),
        ),
{
    let last = commits.len() - 1;
    let latest = state_at(commits, last);
    let more = commits.push(candidate_actions(latest.schema, target, files));
    assert forall|v: int| 1 <= v < more.len() implies #[trigger] grew_at(more, v) by {
        lemma_replay_prefix(commits, more, v as nat);
        if v < commits.len() {
            lemma_replay_prefix(commits, more, (v + 1) as nat);
            assert(grew_at(commits, v));
        } else {
            lemma_commit_only_adds(replay(commits, v as nat), target, files);
        }
    }
}

} // verus!
