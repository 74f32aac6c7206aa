//! The append-only, versioned action log, and the table state that replaying it
//! gives.

use crate::error::TableError;
use crate::schema::{ColumnSpec, Schema};
use vstd::prelude::*;

verus! {
/// A handle to one persisted, immutable chunk of rows: the writer that made it and
/// the number it gave it, with the chunk's row count and size in bytes.
#[derive(Clone, Copy, Debug, PartialEq, Eq, Structural)]
pub struct DataFileRef {
    pub writer: u64,
    pub part: u64,
    pub row_count: u64,
    pub byte_size: u64,
}

/// What a table looks like as of one version.
pub struct TableSpec {
    pub version: int,
    pub schema: Seq<ColumnSpec>,
    pub files: Seq<DataFileRef>,
}

/// The table as of one version: its schema and its live data files.
#[derive(Debug)]
pub struct TableState {
    version: u64,
    schema: Schema,
    files: Vec<DataFileRef>,
}

impl View for TableState {
    type V = TableSpec;

    closed spec fn view(&self) -> TableSpec {
        TableSpec { version: self.version as int, schema: self.schema@, files: self.files@ }
    }
}

/// One recorded change to a table.
#[derive(Debug)]
pub enum LogAction {
    /// A data file joins the table.
    AddFile(DataFileRef),
    /// The table's schema becomes this one.
    SetSchema(Schema),
    /// A summary of the table as of the version it names. It changes nothing.
    Checkpoint(TableState),
}

/// What a recorded change is.
pub enum ActionSpec {
    AddFile(DataFileRef),
    SetSchema(Seq<ColumnSpec>),
    Checkpoint(TableSpec),
}

impl View for LogAction {
    type V = ActionSpec;

    open spec fn view(&self) -> ActionSpec {
        match self {
            LogAction::AddFile(f) => ActionSpec::AddFile(*f),
            LogAction::SetSchema(s) => ActionSpec::SetSchema(s@),
            LogAction::Checkpoint(t) => ActionSpec::Checkpoint(t@),
        }
    }
}

/// The actions of `v`, each by its view.
pub open spec fn actions_view(v: Seq<LogAction>) -> Seq<ActionSpec> {
    Seq::new(v.len(), |i: int| v[i]@)
}

/// The action sets of `v`, each by its view.
pub open spec fn commits_view(v: Seq<Vec<LogAction>>) -> Seq<Seq<ActionSpec>> {
    Seq::new(v.len(), |i: int| actions_view(v[i]@))
}

/// The states of `v`, each by its view.
pub open spec fn states_view(v: Seq<TableState>) -> Seq<TableSpec> {
    Seq::new(v.len(), |i: int| v[i]@)
}

/// The table before anything was recorded: no columns, no files.
pub open spec fn blank() -> TableSpec {
    TableSpec { version: 0, schema: Seq::empty(), files: Seq::empty() }
}

/// `s` with the version number `v`.
pub open spec fn at_version(s: TableSpec, v: int) -> TableSpec {
    TableSpec { version: v, schema: s.schema, files: s.files }
}

/// The table after one more action: a schema replaces the schema, a file joins the
/// live files unless it is one of them already, a checkpoint changes nothing.
pub open spec fn apply_action(s: TableSpec, a: ActionSpec) -> TableSpec {
    match a {
        ActionSpec::AddFile(f) => if s.files.contains(f) {
            s
        } else {
            TableSpec { version: s.version, schema: s.schema, files: s.files.push(f) }
        },
        ActionSpec::SetSchema(schema) => TableSpec {
            version: s.version,
            schema,
            files: s.files,
        },
        ActionSpec::Checkpoint(_) => s,
    }
}

/// The table after the actions of one version, applied in their order.
pub open spec fn apply_commit(s: TableSpec, actions: Seq<ActionSpec>) -> TableSpec
    decreases actions.len(),
{
    if actions.len() == 0 {
        s
    } else {
        apply_action(apply_commit(s, actions.drop_last()), actions.last())
    }
}

/// The table after the first `n` versions, replayed from the blank table.
pub open spec fn replay(commits: Seq<Seq<ActionSpec>>, n: nat) -> TableSpec
    decreases n,
{
    if n == 0 {
        blank()
    } else {
        apply_commit(replay(commits, (n - 1) as nat), commits[n - 1])
    }
}

/// The table as of version `v`: the full replay of the versions 0 to `v`.
pub open spec fn state_at(commits: Seq<Seq<ActionSpec>>, v: int) -> TableSpec {
    at_version(replay(commits, (v + 1) as nat), v)
}

/// A checkpoint says of an existing version exactly what the full replay gives.
pub open spec fn faithful(commits: Seq<Seq<ActionSpec>>, cp: TableSpec) -> bool {
    0 <= cp.version < commits.len() && cp == state_at(commits, cp.version)
}

/// Versions later than the ones replayed do not change what the replay gives.
pub proof fn lemma_replay_prefix(commits: Seq<Seq<ActionSpec>>, longer: Seq<Seq<ActionSpec>>, n: nat)
    requires
        n <= commits.len() <= longer.len(),
        forall|i: int| 0 <= i < commits.len() ==> commits[i] == longer[i],
    ensures
        replay(longer, n) == replay(commits, n),
    decreases n,
{
    if n > 0 {
        lemma_replay_prefix(commits, longer, (n - 1) as nat);
    }
}

/// Applying two runs of actions one after the other is applying them as one.
pub proof fn lemma_apply_commit_concat(s: TableSpec, first: Seq<ActionSpec>, second: Seq<ActionSpec>)
    ensures
        apply_commit(s, first + second) == apply_commit(apply_commit(s, first), second),
    decreases second.len(),
{
    if second.len() == 0 {
        assert(first + second =~= first);
    } else {
        assert((first + second).drop_last() =~= first + second.drop_last());
        lemma_apply_commit_concat(s, first, second.drop_last());
    }
}

/// The table after the versions `from` up to, not including, `to`, applied to `start`.
pub open spec fn replay_from(
    start: TableSpec,
    commits: Seq<Seq<ActionSpec>>,
    from: nat,
    to: nat,
) -> TableSpec
    decreases to,
{
    if to <= from {
        start
    } else {
        apply_commit(replay_from(start, commits, from, (to - 1) as nat), commits[to - 1])
    }
}

/// The table as of version `v`, derived from the checkpoint `cp` of an earlier
/// version and the versions recorded after it.
pub open spec fn state_via_checkpoint(
    commits: Seq<Seq<ActionSpec>>,
    cp: TableSpec,
    v: int,
) -> TableSpec {
    at_version(replay_from(cp, commits, (cp.version + 1) as nat, (v + 1) as nat), v)
}

/// The version number of a state has no part in what an action set does to it.
pub proof fn lemma_apply_commit_version(s: TableSpec, actions: Seq<ActionSpec>, v: int)
    ensures
        apply_commit(at_version(s, v), actions) == at_version(apply_commit(s, actions), v),
    decreases actions.len(),
{
    if actions.len() > 0 {
        lemma_apply_commit_version(s, actions.drop_last(), v);
    }
}

/// The version number of a state has no part in what later versions do to it.
pub proof fn lemma_replay_from_version(
    s: TableSpec,
    commits: Seq<Seq<ActionSpec>>,
    from: nat,
    to: nat,
    v: int,
)
    ensures
        replay_from(at_version(s, v), commits, from, to) == at_version(
            replay_from(s, commits, from, to),
            v,
        ),
    decreases to,
{
    if to > from {
        lemma_replay_from_version(s, commits, from, (to - 1) as nat, v);
        lemma_apply_commit_version(
            replay_from(s, commits, from, (to - 1) as nat),
            commits[to - 1],
            v,
        );
    }
}

/// Replaying the first `k` versions and then the versions up to `n` is replaying
/// the first `n` versions.
pub proof fn lemma_replay_split(commits: Seq<Seq<ActionSpec>>, k: nat, n: nat)
    requires
        k <= n,
    ensures
        replay_from(replay(commits, k), commits, k, n) == replay(commits, n),
    decreases n,
{
    if n > k {
        lemma_replay_split(commits, k, (n - 1) as nat);
    }
}

/// Checkpoint compaction preserves the table: the state derived from a faithful
/// checkpoint and the versions after it equals the state that the full replay
/// from version 0 gives.
pub proof fn lemma_checkpoint_preserves_state(
    commits: Seq<Seq<ActionSpec>>,
    cp: TableSpec,
    v: int,
)
    requires
        faithful(commits, cp),
        cp.version <= v,
    ensures
        state_via_checkpoint(commits, cp, v) == state_at(commits, v),
{
    let k = (cp.version + 1) as nat;
    let n = (v + 1) as nat;
    lemma_replay_split(commits, k, n);
    lemma_replay_from_version(replay(commits, k), commits, k, n, cp.version);
}

impl TableState {
    /// What holds of every table state: its version has a successor.
    #[verifier::type_invariant]
    pub open spec fn inv(self) -> bool {
        self@.version < u64::MAX
    }

    /// The version this state is the table as of.
    pub fn version(&self) -> (v: u64)
        ensures
            v == self@.version,
            v < u64::MAX,
    {
        proof {
            use_type_invariant(self);
        }
        self.version
    }

    /// The schema as of this version.
    pub fn schema(&self) -> (s: &Schema)
        ensures
            s@ == self@.schema,
    {
        &self.schema
    }

    /// The live data files as of this version, in the order in which they joined.
    pub fn files(&self) -> (f: &Vec<DataFileRef>)
        ensures
            f@ == self@.files,
    {
        &self.files
    }

    /// A copy of this state.
    pub fn duplicate(&self) -> (t: TableState)
        ensures
            t@ == self@,
    {
        proof {
            use_type_invariant(self);
        }
        TableState {
            version: self.version,
            schema: self.schema.duplicate(),
            files: self.files.clone(),
        }
    }

    /// Whether both states are the same table as of the same version.
    pub fn same_as(&self, other: &TableState) -> (b: bool)
        ensures
            b == (self@ == other@),
    {
        if self.version != other.version || !self.schema.same_as(&other.schema) {
            return false;
        }
        let n = self.files.len();
        if n != other.files.len() {
            return false;
        }
        let mut i: usize = 0;
        while i < n
            invariant
                i <= n == self.files.len() == other.files.len(),
                forall|k: int| 0 <= k < i ==> self.files[k] == other.files[k],
            decreases n - i,
        {
            if self.files[i] != other.files[i] {
                return false;
            }
            i += 1;
        }
        assert(self@.files =~= other@.files);
        true
    }

    /// The table state of these parts, if the version has a successor.
    pub fn restore(version: u64, schema: Schema, files: Vec<DataFileRef>) -> (r: Option<TableState>)
        ensures
            match r {
                Some(t) => version < u64::MAX && t@ == (TableSpec {
                    version: version as int,
                    schema: schema@,
                    files: files@,
                }),
                None => version == u64::MAX,
            },
    {
        if version == u64::MAX {
            None
        } else {
            Some(TableState { version, schema, files })
        }
    }

    /// The blank table, numbered 0.
    fn blank() -> (t: TableState)
        ensures
            t@ == blank(),
    {
        TableState { version: 0, schema: Schema::empty(), files: Vec::new() }
    }

    /// This state with the version number `v`.
    fn numbered(self, v: u64) -> (t: TableState)
        requires
            v < u64::MAX,
        ensures
            t@ == at_version(self@, v as int),
    {
        TableState { version: v, schema: self.schema, files: self.files }
    }

    /// This state after one more action.
    fn apply(self, action: &LogAction) -> (t: TableState)
        ensures
            t@ == apply_action(self@, action@),
    {
        proof {
            use_type_invariant(&self);
        }
        match action {
            LogAction::AddFile(f) => {
                let n = self.files.len();
                let mut i: usize = 0;
                while i < n
                    invariant
                        i <= n == self.files.len(),
                        action@ == ActionSpec::AddFile(*f),
                        forall|k: int| 0 <= k < i ==> self.files[k] != *f,
                    decreases n - i,
                {
                    if self.files[i] == *f {
                        return self;
                    }
                    i += 1;
                }
                let mut files = self.files;
                files.push(*f);
                TableState { version: self.version, schema: self.schema, files }
            },
            LogAction::SetSchema(s) => TableState {
                version: self.version,
                schema: s.duplicate(),
                files: self.files,
            },
            LogAction::Checkpoint(_) => self,
        }
    }

    /// This state after the actions of one version.
    fn apply_all(self, actions: &Vec<LogAction>) -> (t: TableState)
        ensures
            t@ == apply_commit(self@, actions_view(actions@)),
    {
        let ghost start = self@;
        let ghost all = actions_view(actions@);
        let mut cur = self;
        let n = actions.len();
        let mut i: usize = 0;
        while i < n
            invariant
                i <= n == actions.len(),
                all == actions_view(actions@),
                cur@ == apply_commit(start, all.take(i as int)),
            decreases n - i,
        {
            proof {
                let next = all.take(i + 1);
                assert(next.drop_last() =~= all.take(i as int));
            }
            cur = cur.apply(&actions[i]);
            i += 1;
        }
        assert(all.take(n as int) =~= all);
        cur
    }
}

impl LogAction {
    /// A copy of this action.
    pub fn duplicate(&self) -> (a: LogAction)
        ensures
            a@ == self@,
    {
        match self {
            LogAction::AddFile(f) => LogAction::AddFile(*f),
            LogAction::SetSchema(s) => LogAction::SetSchema(s.duplicate()),
            LogAction::Checkpoint(t) => LogAction::Checkpoint(t.duplicate()),
        }
    }
}

/// What a log holds: the action set of each version, and the checkpoints written.
pub struct LogSpec {
    pub commits: Seq<Seq<ActionSpec>>,
    pub checkpoints: Seq<TableSpec>,
}

/// How an attempt to record a version ended.
#[derive(Clone, Copy, Debug, PartialEq, Eq, Structural)]
pub enum AppendOutcome {
    /// The action set is now the version asked for.
    Appended,
    /// The version was recorded before, by this or another writer.
    Occupied,
    /// The version before the one asked for is not recorded yet.
    Gap,
}

impl AppendOutcome {
    /// The error a refused attempt stands for: a taken version is a conflict with
    /// another writer, a gap means the writer is ahead of the log it writes to.
    pub fn error(self) -> (e: Option<TableError>)
        ensures
            match self {
                AppendOutcome::Appended => e is None,
                AppendOutcome::Occupied => e matches Some(TableError::ConflictError),
                AppendOutcome::Gap => e matches Some(TableError::TableLocationError),
            },
    {
        match self {
            AppendOutcome::Appended => None,
            AppendOutcome::Occupied => Some(TableError::ConflictError),
            AppendOutcome::Gap => Some(TableError::TableLocationError),
        }
    }
}

/// How an attempt to record `version` ends on a log of these versions: only the
/// first version not recorded yet can be recorded.
pub open spec fn append_outcome(commits: Seq<Seq<ActionSpec>>, version: int) -> AppendOutcome {
    if version < commits.len() {
        AppendOutcome::Occupied
    } else if version > commits.len() {
        AppendOutcome::Gap
    } else {
        AppendOutcome::Appended
    }
}

/// The versions recorded after an attempt to record `actions` as `version`.
pub open spec fn after_append(
    commits: Seq<Seq<ActionSpec>>,
    version: int,
    actions: Seq<ActionSpec>,
) -> Seq<Seq<ActionSpec>> {
    if version == commits.len() {
        commits.push(actions)
    } else {
        commits
    }
}

/// The copies of `actions`, in their order.
pub fn duplicate_actions(actions: &Vec<LogAction>) -> (out: Vec<LogAction>)
    ensures
        actions_view(out@) == actions_view(actions@),
{
    let mut out: Vec<LogAction> = Vec::new();
    let n = actions.len();
    let mut i: usize = 0;
    while i < n
        invariant
            i <= n == actions.len(),
            out.len() == i,
            forall|k: int| 0 <= k < i ==> (#[trigger] out[k])@ == actions[k]@,
        decreases n - i,
    {
        out.push(actions[i].duplicate());
        i += 1;
    }
    out
}

/// The versioned record of a table's actions. Version `v` is the `v`-th action set
/// recorded, counting from 0; a recorded version never changes. Checkpoints stand
/// beside the versions they summarise.
#[derive(Debug)]
pub struct LogStore {
    commits: Vec<Vec<LogAction>>,
    checkpoints: Vec<TableState>,
}

impl View for LogStore {
    type V = LogSpec;

    closed spec fn view(&self) -> LogSpec {
        LogSpec {
            commits: commits_view(self.commits@),
            checkpoints: states_view(self.checkpoints@),
        }
    }
}

impl LogStore {
    /// What holds of every log: each checkpoint is faithful to the versions recorded.
    #[verifier::type_invariant]
    pub open spec fn inv(self) -> bool {
        forall|i: int|
            0 <= i < self@.checkpoints.len() ==> faithful(
                self@.commits,
                #[trigger] self@.checkpoints[i],
            )
    }

    /// The log of a location that holds nothing yet.
    pub fn new() -> (log: LogStore)
        ensures
            log@.commits.len() == 0,
            log@.checkpoints.len() == 0,
    {
        LogStore { commits: Vec::new(), checkpoints: Vec::new() }
    }

    /// The number of versions recorded.
    pub fn version_count(&self) -> (n: usize)
        ensures
            n == self@.commits.len(),
    {
        self.commits.len()
    }

    /// The latest version recorded, if any.
    pub fn latest_version(&self) -> (v: Option<u64>)
        ensures
            match v {
                Some(v) => v == self@.commits.len() - 1,
                None => self@.commits.len() == 0,
            },
    {
        let n = self.commits.len();
        if n == 0 {
            None
        } else {
            Some((n - 1) as u64)
        }
    }

    /// The action set recorded as `version`, if that version is recorded.
    pub fn actions_at(&self, version: u64) -> (r: Option<&Vec<LogAction>>)
        ensures
            match r {
                Some(actions) => version < self@.commits.len() && actions_view(actions@)
                    == self@.commits[version as int],
                None => version >= self@.commits.len(),
            },
    {
        if version < self.commits.len() as u64 {
            Some(&self.commits[version as usize])
        } else {
            None
        }
    }

    /// Records `actions` as `version` if that is the first version not recorded
    /// yet, and changes nothing otherwise.
    pub fn try_append(&mut self, version: u64, actions: Vec<LogAction>) -> (r: AppendOutcome)
        ensures
            r == append_outcome(old(self)@.commits, version as int),
            final(self)@.commits == after_append(
                old(self)@.commits,
                version as int,
                actions_view(actions@),
            ),
            final(self)@.checkpoints == old(self)@.checkpoints,
    {
        proof {
            use_type_invariant(&*self);
        }
        let n = self.commits.len() as u64;
        if version < n {
            AppendOutcome::Occupied
        } else if version > n {
            AppendOutcome::Gap
        } else {
            let ghost before = self@.commits;
            let ghost after = before.push(actions_view(actions@));
            proof {
                assert forall|i: int| 0 <= i < self@.checkpoints.len() implies faithful(
                    after,
                    #[trigger] self@.checkpoints[i],
                ) by {
                    let cp = self@.checkpoints[i];
                    lemma_replay_prefix(before, after, (cp.version + 1) as nat);
                }
            }
            // The log is taken apart and put back whole, so that it is never seen
            // with a checkpoint that its versions do not bear out.
            let mut taken = LogStore::new();
            std::mem::swap(self, &mut taken);
            let LogStore { commits, checkpoints } = taken;
            let mut commits = commits;
            commits.push(actions);
            proof {
                assert(commits_view(commits@) =~= after);
            }
            *self = LogStore { commits, checkpoints };
            AppendOutcome::Appended
        }
    }

    /// The checkpoint of the latest version not after `version`, if any was written.
    pub fn last_checkpoint(&self, version: u64) -> (r: Option<&TableState>)
        ensures
            match r {
                Some(cp) => self@.checkpoints.contains(cp@) && cp@.version <= version
                    && faithful(self@.commits, cp@) && forall|i: int|
                    0 <= i < self@.checkpoints.len() && (#[trigger] self@.checkpoints[i]).version
                        <= version ==> self@.checkpoints[i].version <= cp@.version,
                None => forall|i: int|
                    0 <= i < self@.checkpoints.len() ==> (#[trigger] self@.checkpoints[i]).version
                        > version,
            },
    {
        proof {
            use_type_invariant(self);
        }
        let n = self.checkpoints.len();
        let mut best: Option<usize> = None;
        let mut i: usize = 0;
        while i < n
            invariant
                i <= n == self.checkpoints.len(),
                self@.checkpoints == states_view(self.checkpoints@),
                match best {
                    Some(b) => b < i && self@.checkpoints[b as int].version <= version
                        && forall|k: int|
                        0 <= k < i && (#[trigger] self@.checkpoints[k]).version <= version
                            ==> self@.checkpoints[k].version <= self@.checkpoints[b as int].version,
                    None => forall|k: int|
                        0 <= k < i ==> (#[trigger] self@.checkpoints[k]).version > version,
                },
            decreases n - i,
        {
            let v = self.checkpoints[i].version();
            if v <= version {
                let better = match best {
                    Some(b) => self.checkpoints[b].version() <= v,
                    None => true,
                };
                if better {
                    best = Some(i);
                }
            }
            i += 1;
        }
        match best {
            Some(b) => {
                Some(&self.checkpoints[b])
            },
            None => None,
        }
    }

    /// The table as of `version`, replayed from version 0 without regard to any
    /// checkpoint; `None` where that version is not recorded.
    pub fn replay_from_start(&self, version: u64) -> (r: Option<TableState>)
        ensures
            match r {
                Some(t) => version < self@.commits.len() && t@ == state_at(
                    self@.commits,
                    version as int,
                ),
                None => version >= self@.commits.len(),
            },
    {
        if version >= self.commits.len() as u64 {
            return None;
        }
        proof {
            lemma_replay_split(self@.commits, 0, (version + 1) as nat);
        }
        let t = self.replay_range(TableState::blank(), 0, version as usize + 1);
        Some(t.numbered(version))
    }

    /// The table as of `version`, derived from the last checkpoint not after it and
    /// the versions recorded since; `None` where that version is not recorded.
    pub fn state_as_of(&self, version: u64) -> (r: Option<TableState>)
        ensures
            match r {
                Some(t) => version < self@.commits.len() && t@ == state_at(
                    self@.commits,
                    version as int,
                ),
                None => version >= self@.commits.len(),
            },
    {
        if version >= self.commits.len() as u64 {
            return None;
        }
        let t = match self.last_checkpoint(version) {
            Some(cp) => {
                proof {
                    lemma_checkpoint_preserves_state(self@.commits, cp@, version as int);
                }
                self.replay_range(cp.duplicate(), cp.version() as usize + 1, version as usize + 1)
            },
            None => {
                proof {
                    lemma_replay_split(self@.commits, 0, (version + 1) as nat);
                }
                self.replay_range(TableState::blank(), 0, version as usize + 1)
            },
        };
        Some(t.numbered(version))
    }

    /// The table as of the latest version; `None` where nothing is recorded.
    pub fn state(&self) -> (r: Option<TableState>)
        ensures
            match r {
                Some(t) => self@.commits.len() > 0 && t@ == state_at(
                    self@.commits,
                    self@.commits.len() - 1,
                ),
                None => self@.commits.len() == 0,
            },
    {
        match self.latest_version() {
            Some(v) => self.state_as_of(v),
            None => None,
        }
    }

    /// `start` after the versions `from` up to, not including, `to`.
    fn replay_range(&self, start: TableState, from: usize, to: usize) -> (t: TableState)
        requires
            from <= to <= self@.commits.len(),
        ensures
            t@ == replay_from(start@, self@.commits, from as nat, to as nat),
    {
        let ghost begin = start@;
        let mut cur = start;
        let mut k: usize = from;
        while k < to
            invariant
                from <= k <= to <= self.commits.len(),
                self@.commits == commits_view(self.commits@),
                cur@ == replay_from(begin, self@.commits, from as nat, k as nat),
            decreases to - k,
        {
            cur = cur.apply_all(&self.commits[k]);
            k += 1;
        }
        cur
    }

    /// Takes a checkpoint that was written elsewhere, if it is faithful to the
    /// versions recorded here: it is held to the full state of the version it names
    /// before it is kept. One that is not faithful is refused and changes nothing.
    pub fn adopt_checkpoint(&mut self, cp: &TableState) -> (ok: bool)
        ensures
            ok == faithful(old(self)@.commits, cp@),
            final(self)@.commits == old(self)@.commits,
            ok ==> final(self)@.checkpoints.contains(cp@) && (final(self)@.checkpoints == old(
                self,
            )@.checkpoints || final(self)@.checkpoints == old(self)@.checkpoints.push(cp@)),
            !ok ==> final(self)@ == old(self)@,
    {
        let version = cp.version();
        match self.state_as_of(version) {
            Some(state) => {
                if state.same_as(cp) {
                    self.checkpoint(version);
                    true
                } else {
                    false
                }
            },
            None => false,
        }
    }

    /// Writes the checkpoint of `version`: the table's schema and live files as of
    /// that version. Where that checkpoint was written before, nothing is written;
    /// where the version is not recorded, nothing is written and `None` returned.
    /// Either way the versions recorded stay as they are.
    pub fn checkpoint(&mut self, version: u64) -> (r: Option<TableState>)
        ensures
            final(self)@.commits == old(self)@.commits,
            match r {
                Some(cp) => version < old(self)@.commits.len() && cp@ == state_at(
                    old(self)@.commits,
                    version as int,
                ) && final(self)@.checkpoints.contains(cp@) && (final(self)@.checkpoints == old(
                    self,
                )@.checkpoints || final(self)@.checkpoints == old(self)@.checkpoints.push(cp@)),
                None => version >= old(self)@.commits.len() && final(self)@ == old(self)@,
            },
            old(self)@.checkpoints.contains(state_at(old(self)@.commits, version as int))
                ==> final(self)@ == old(self)@,
    {
        proof {
            use_type_invariant(&*self);
        }
        let cp = match self.state_as_of(version) {
            Some(cp) => cp,
            None => {
                return None;
            },
        };
        let n = self.checkpoints.len();
        let mut i: usize = 0;
        while i < n
            invariant
                i <= n == self.checkpoints.len(),
                self@.checkpoints == states_view(self.checkpoints@),
                self@ == old(self)@,
                version < self@.commits.len(),
                cp@ == state_at(self@.commits, version as int),
                forall|k: int| 0 <= k < i ==> (#[trigger] self@.checkpoints[k]) != cp@,
            decreases n - i,
        {
            if self.checkpoints[i].same_as(&cp) {
                assert(self@.checkpoints[i as int] == cp@);
                return Some(cp);
            }
            i += 1;
        }
        let ghost before = self@.checkpoints;
        let kept = cp.duplicate();
        let mut taken = LogStore::new();
        std::mem::swap(self, &mut taken);
        let LogStore { commits, checkpoints } = taken;
        let mut checkpoints = checkpoints;
        checkpoints.push(kept);
        proof {
            assert(states_view(checkpoints@) =~= before.push(cp@));
            assert(before.push(cp@)[before.len() as int] == cp@);
        }
        *self = LogStore { commits, checkpoints };
        Some(cp)
    }
}

/// Exactly one writer's actions occupy a version: once a version is recorded, every
/// later attempt to record it is refused and leaves it as it is, however many
/// versions were recorded in between.
pub proof fn lemma_version_claimed_once(
    commits: Seq<Seq<ActionSpec>>,
    version: int,
    first: Seq<ActionSpec>,
    later: Seq<Seq<ActionSpec>>,
    second: Seq<ActionSpec>,
)
    requires
        append_outcome(commits, version) == AppendOutcome::Appended,
    ensures
        append_outcome(after_append(commits, version, first) + later, version)
            == AppendOutcome::Occupied,
        after_append(after_append(commits, version, first) + later, version, second)[version]
            == first,
{
}

/// A recorded version never changes: an attempt to record anything, as any
/// version, leaves every version recorded before as it was.
pub proof fn lemma_recorded_versions_stay(
    commits: Seq<Seq<ActionSpec>>,
    version: int,
    actions: Seq<ActionSpec>,
    v: int,
)
    requires
        0 <= v < commits.len(),
    ensures
        after_append(commits, version, actions)[v] == commits[v],
        state_at(after_append(commits, version, actions), v) == state_at(commits, v),
{
    lemma_replay_prefix(commits, after_append(commits, version, actions), (v + 1) as nat);
}

} // verus!
