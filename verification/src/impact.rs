//! Dependency impact: the categories, supervisor levels and counts that an
//! impact score is built from, and the text that explains a score.
//!
//! Missing data is never read as "no dependencies": the components record
//! which sources were unavailable, and the explanation says so.
use crate::text::{decimal, join_with, push_decimal, push_joined};
use std::collections::HashMap;
use vstd::prelude::*;

verus! {

broadcast use vstd::std_specs::hash::group_hash_axioms;

/// Category of a critical file that a process holds open for writing.
#[derive(Debug, Clone, Copy, PartialEq, Eq, Hash, Structural)]
pub enum CriticalFileCategory {
    /// SQLite write-ahead log or journal.
    SqliteWal,
    /// Other database file open for writing.
    DatabaseWrite,
    /// Git index or ref lock.
    GitLock,
    /// Git rebase or merge in progress.
    GitRebase,
    /// System package manager lock.
    SystemPackageLock,
    /// Node package manager lock.
    NodePackageLock,
    /// Cargo build or registry lock.
    CargoLock,
    /// Application lock file.
    AppLock,
    /// Any other file open for writing.
    OpenWrite,
}

/// Category of a detected supervisor.
#[derive(Debug, Clone, Copy, PartialEq, Eq, Hash, Structural)]
pub enum SupervisorCategory {
    /// AI coding agent.
    Agent,
    /// IDE or editor.
    Ide,
    /// CI/CD runner.
    Ci,
    /// System orchestrator (systemd, launchd, container runtime).
    Orchestrator,
    /// Terminal multiplexer.
    Terminal,
    /// Detected but unclassified.
    Other,
}

/// Simplified critical write category for output.
#[derive(Debug, Clone, Copy, PartialEq, Eq, Hash, Structural)]
pub enum CriticalWriteCategory {
    /// SQLite WAL/journal files.
    Database,
    /// Git locks and objects.
    Git,
    /// Package manager locks.
    PackageManager,
    /// Application lock files.
    AppLock,
    /// Other open writes.
    Other,
}

/// Position of a write category in declaration order.
pub open spec fn write_category_rank(c: CriticalWriteCategory) -> nat {
    match c {
        CriticalWriteCategory::Database => 0,
        CriticalWriteCategory::Git => 1,
        CriticalWriteCategory::PackageManager => 2,
        CriticalWriteCategory::AppLock => 3,
        CriticalWriteCategory::Other => 4,
    }
}

/// The output category of a critical file category.
pub open spec fn write_category_of(cat: CriticalFileCategory) -> CriticalWriteCategory {
    match cat {
        CriticalFileCategory::SqliteWal | CriticalFileCategory::DatabaseWrite => {
            CriticalWriteCategory::Database
        },
        CriticalFileCategory::GitLock | CriticalFileCategory::GitRebase => {
            CriticalWriteCategory::Git
        },
        CriticalFileCategory::SystemPackageLock
        | CriticalFileCategory::NodePackageLock
        | CriticalFileCategory::CargoLock => CriticalWriteCategory::PackageManager,
        CriticalFileCategory::AppLock => CriticalWriteCategory::AppLock,
        CriticalFileCategory::OpenWrite => CriticalWriteCategory::Other,
    }
}

impl From<CriticalFileCategory> for CriticalWriteCategory {
    fn from(cat: CriticalFileCategory) -> (r: Self) {
        match cat {
            CriticalFileCategory::SqliteWal | CriticalFileCategory::DatabaseWrite => {
                CriticalWriteCategory::Database
            },
            CriticalFileCategory::GitLock | CriticalFileCategory::GitRebase => {
                CriticalWriteCategory::Git
            },
            CriticalFileCategory::SystemPackageLock
            | CriticalFileCategory::NodePackageLock
            | CriticalFileCategory::CargoLock => CriticalWriteCategory::PackageManager,
            CriticalFileCategory::AppLock => CriticalWriteCategory::AppLock,
            CriticalFileCategory::OpenWrite => CriticalWriteCategory::Other,
        }
    }
}

impl vstd::std_specs::convert::FromSpecImpl<CriticalFileCategory> for CriticalWriteCategory {
    open spec fn obeys_from_spec() -> bool {
        true
    }

    open spec fn from_spec(v: CriticalFileCategory) -> Self {
        write_category_of(v)
    }
}

/// Each write category collects the file categories of one kind of critical
/// write: database writes (SQLite WAL and other database files), Git
/// operations (lock and rebase), package-manager locks (system, Node and
/// Cargo), application locks, and any other open write.
pub proof fn lemma_write_category_kinds(cat: CriticalFileCategory)
    ensures
        (write_category_of(cat) == CriticalWriteCategory::Database) <==> (cat
            == CriticalFileCategory::SqliteWal || cat == CriticalFileCategory::DatabaseWrite),
        (write_category_of(cat) == CriticalWriteCategory::Git) <==> (cat
            == CriticalFileCategory::GitLock || cat == CriticalFileCategory::GitRebase),
        (write_category_of(cat) == CriticalWriteCategory::PackageManager) <==> (cat
            == CriticalFileCategory::SystemPackageLock || cat == CriticalFileCategory::NodePackageLock
            || cat == CriticalFileCategory::CargoLock),
        (write_category_of(cat) == CriticalWriteCategory::AppLock) <==> (cat
            == CriticalFileCategory::AppLock),
        (write_category_of(cat) == CriticalWriteCategory::Other) <==> (cat
            == CriticalFileCategory::OpenWrite),
{
}

/// Supervisor level for impact scoring.
#[derive(Debug, Clone, Copy, PartialEq, Eq, Hash, Structural)]
pub enum SupervisorLevel {
    /// No supervisor detected (shown as `None`).
    NoSupervisor,
    /// Terminal multiplexer (tmux, screen).
    Terminal,
    /// IDE (VS Code, JetBrains).
    Ide,
    /// CI/CD system (GitHub Actions, Jenkins).
    Ci,
    /// System orchestrator (systemd, launchd).
    Orchestrator,
    /// AI agent - highest protection.
    Agent,
    /// Unknown supervisor (detected but unclassified).
    Unknown,
}

/// The supervisor level of an optional supervisor category.
pub open spec fn supervisor_level_of(cat: Option<SupervisorCategory>) -> SupervisorLevel {
    match cat {
        Option::None => SupervisorLevel::NoSupervisor,
        Option::Some(SupervisorCategory::Agent) => SupervisorLevel::Agent,
        Option::Some(SupervisorCategory::Ide) => SupervisorLevel::Ide,
        Option::Some(SupervisorCategory::Ci) => SupervisorLevel::Ci,
        Option::Some(SupervisorCategory::Orchestrator) => SupervisorLevel::Orchestrator,
        Option::Some(SupervisorCategory::Terminal) => SupervisorLevel::Terminal,
        Option::Some(SupervisorCategory::Other) => SupervisorLevel::Unknown,
    }
}

/// Each supervisor category has the level of the same kind (agent, IDE, CI,
/// orchestrator, terminal); an unclassified supervisor is of unknown level,
/// and no supervisor gives no level.  Distinct categories give distinct
/// levels.
pub proof fn lemma_supervisor_levels(a: Option<SupervisorCategory>, b: Option<SupervisorCategory>)
    ensures
        supervisor_level_of(None) == SupervisorLevel::NoSupervisor,
        supervisor_level_of(Some(SupervisorCategory::Agent)) == SupervisorLevel::Agent,
        supervisor_level_of(Some(SupervisorCategory::Ide)) == SupervisorLevel::Ide,
        supervisor_level_of(Some(SupervisorCategory::Ci)) == SupervisorLevel::Ci,
        supervisor_level_of(Some(SupervisorCategory::Orchestrator)) == SupervisorLevel::Orchestrator,
        supervisor_level_of(Some(SupervisorCategory::Terminal)) == SupervisorLevel::Terminal,
        supervisor_level_of(Some(SupervisorCategory::Other)) == SupervisorLevel::Unknown,
        a != b ==> supervisor_level_of(a) != supervisor_level_of(b),
{
}

/// The name under which a supervisor level is shown.
pub open spec fn supervisor_level_name(level: SupervisorLevel) -> Seq<char> {
    match level {
        SupervisorLevel::NoSupervisor => "None"@,
        SupervisorLevel::Terminal => "Terminal"@,
        SupervisorLevel::Ide => "Ide"@,
        SupervisorLevel::Ci => "Ci"@,
        SupervisorLevel::Orchestrator => "Orchestrator"@,
        SupervisorLevel::Agent => "Agent"@,
        SupervisorLevel::Unknown => "Unknown"@,
    }
}

impl Default for SupervisorLevel {
    fn default() -> (r: Self)
        ensures
            r == SupervisorLevel::NoSupervisor,
    {
        SupervisorLevel::NoSupervisor
    }
}

impl From<Option<SupervisorCategory>> for SupervisorLevel {
    fn from(cat: Option<SupervisorCategory>) -> (r: Self) {
        match cat {
            None => SupervisorLevel::NoSupervisor,
            Some(SupervisorCategory::Agent) => SupervisorLevel::Agent,
            Some(SupervisorCategory::Ide) => SupervisorLevel::Ide,
            Some(SupervisorCategory::Ci) => SupervisorLevel::Ci,
            Some(SupervisorCategory::Orchestrator) => SupervisorLevel::Orchestrator,
            Some(SupervisorCategory::Terminal) => SupervisorLevel::Terminal,
            Some(SupervisorCategory::Other) => SupervisorLevel::Unknown,
        }
    }
}

impl vstd::std_specs::convert::FromSpecImpl<Option<SupervisorCategory>> for SupervisorLevel {
    open spec fn obeys_from_spec() -> bool {
        true
    }

    open spec fn from_spec(v: Option<SupervisorCategory>) -> Self {
        supervisor_level_of(v)
    }
}

impl SupervisorLevel {
    /// The name under which this level is shown in explanations.
    pub fn debug_name(&self) -> (s: &'static str)
        ensures
            s@ == supervisor_level_name(*self),
    {
        match self {
            SupervisorLevel::NoSupervisor => "None",
            SupervisorLevel::Terminal => "Terminal",
            SupervisorLevel::Ide => "Ide",
            SupervisorLevel::Ci => "Ci",
            SupervisorLevel::Orchestrator => "Orchestrator",
            SupervisorLevel::Agent => "Agent",
            SupervisorLevel::Unknown => "Unknown",
        }
    }
}

/// Data sources that were unavailable during scoring.
#[derive(Debug, Clone, Copy, PartialEq, Eq, Hash, Structural)]
pub enum MissingDataSource {
    /// Network information unavailable.
    Network,
    /// File descriptor information unavailable.
    FileDescriptors,
    /// File descriptor inspection truncated (too many FDs).
    TruncatedFileDescriptors,
    /// Supervision detection failed.
    Supervision,
    /// Process tree information unavailable.
    ProcessTree,
}

/// Severity classification of an impact score.
#[derive(Debug, Clone, Copy, PartialEq, Eq, Hash, Structural)]
pub enum ImpactSeverity {
    /// Low impact (0.0-0.25) - safe to kill with normal caution.
    Low,
    /// Medium impact (0.25-0.5) - inspect before killing.
    Medium,
    /// High impact (0.5-0.75) - significant dependencies, careful inspection required.
    High,
    /// Critical impact (0.75-1.0) - should not be auto-killed.
    Critical,
}

/// Display text of a severity.
pub open spec fn severity_text(s: ImpactSeverity) -> Seq<char> {
    match s {
        ImpactSeverity::Low => "low"@,
        ImpactSeverity::Medium => "medium"@,
        ImpactSeverity::High => "high"@,
        ImpactSeverity::Critical => "critical"@,
    }
}

impl ImpactSeverity {
    /// Display text of this severity.
    pub fn to_string(&self) -> (s: String)
        ensures
            s@ == severity_text(*self),
    {
        let t = match self {
            ImpactSeverity::Low => "low",
            ImpactSeverity::Medium => "medium",
            ImpactSeverity::High => "high",
            ImpactSeverity::Critical => "critical",
        };
        t.to_owned()
    }
}

/// Errors from impact score computation.
#[derive(Debug, Clone, Copy, PartialEq, Eq, Structural)]
pub enum ImpactError {
    /// The process does not exist.
    ProcessNotFound(u32),
    /// The process could not be inspected.
    PermissionDenied(u32),
}

/// Display text of an impact error.
pub open spec fn impact_error_text(e: ImpactError) -> Seq<char> {
    match e {
        ImpactError::ProcessNotFound(pid) => "Process "@ + decimal(pid as nat) + " not found"@,
        ImpactError::PermissionDenied(pid) => "Permission denied for process "@ + decimal(
            pid as nat,
        ),
    }
}

impl ImpactError {
    /// Display text of this error.
    pub fn to_string(&self) -> (s: String)
        ensures
            s@ == impact_error_text(*self),
    {
        let mut s = String::new();
        match self {
            ImpactError::ProcessNotFound(pid) => {
                s.append("Process ");
                push_decimal(&mut s, *pid as u64);
                s.append(" not found");
            },
            ImpactError::PermissionDenied(pid) => {
                s.append("Permission denied for process ");
                push_decimal(&mut s, *pid as u64);
            },
        }
        s
    }
}

/// A list holding `x` when `present` holds, else empty.
pub open spec fn source_if(present: bool, x: MissingDataSource) -> Seq<MissingDataSource> {
    if present {
        seq![x]
    } else {
        Seq::empty()
    }
}

/// The data sources a score had to do without, in the order they are
/// reported: network, file descriptors (missing, or inspected only in part),
/// supervision, process tree.
pub open spec fn missing_sources_spec(
    network: bool,
    fds: bool,
    fds_truncated: bool,
    supervision: bool,
    process_tree: bool,
) -> Seq<MissingDataSource> {
    source_if(!network, MissingDataSource::Network) + source_if(
        !fds,
        MissingDataSource::FileDescriptors,
    ) + source_if(fds && fds_truncated, MissingDataSource::TruncatedFileDescriptors)
        + source_if(!supervision, MissingDataSource::Supervision) + source_if(
        !process_tree,
        MissingDataSource::ProcessTree,
    )
}

/// Law: a source is reported missing exactly when it was unavailable; file
/// descriptors are reported truncated exactly when they were available but
/// their listing was cut short, so never both ways; nothing is reported
/// twice, and the sources come in the reporting order.
pub proof fn lemma_missing_sources(
    network: bool,
    fds: bool,
    fds_truncated: bool,
    supervision: bool,
    process_tree: bool,
)
    ensures
        ({
            let m = missing_sources_spec(network, fds, fds_truncated, supervision, process_tree);
            &&& m.contains(MissingDataSource::Network) <==> !network
            &&& m.contains(MissingDataSource::FileDescriptors) <==> !fds
            &&& m.contains(MissingDataSource::TruncatedFileDescriptors) <==> (fds && fds_truncated)
            &&& m.contains(MissingDataSource::Supervision) <==> !supervision
            &&& m.contains(MissingDataSource::ProcessTree) <==> !process_tree
            &&& m.no_duplicates()
            &&& forall|i: int, j: int|
                0 <= i < j < m.len() ==> source_rank(m[i]) < source_rank(m[j])
            &&& !network ==> m[0] == MissingDataSource::Network
            &&& (network && fds && !fds_truncated && supervision && process_tree) <==> m.len() == 0
        }),
{
    let a = source_if(!network, MissingDataSource::Network);
    let b = source_if(!fds, MissingDataSource::FileDescriptors);
    let c = source_if(fds && fds_truncated, MissingDataSource::TruncatedFileDescriptors);
    let d = source_if(!supervision, MissingDataSource::Supervision);
    let e = source_if(!process_tree, MissingDataSource::ProcessTree);
    let m = missing_sources_spec(network, fds, fds_truncated, supervision, process_tree);
    assert(m == a + b + c + d + e);
    assert forall|x: MissingDataSource| #[trigger] m.contains(x) <==> (a.contains(x) || b.contains(x)
        || c.contains(x) || d.contains(x) || e.contains(x)) by {
        if m.contains(x) {
            let i = m.index_of(x);
            if i < a.len() {
                assert(a[i] == x);
            } else if i < a.len() + b.len() {
                assert(b[i - a.len()] == x);
            } else if i < a.len() + b.len() + c.len() {
                assert(c[i - a.len() - b.len()] == x);
            } else if i < a.len() + b.len() + c.len() + d.len() {
                assert(d[i - a.len() - b.len() - c.len()] == x);
            } else {
                assert(e[i - a.len() - b.len() - c.len() - d.len()] == x);
            }
        }
        if a.contains(x) {
            assert(m[a.index_of(x)] == x);
        } else if b.contains(x) {
            assert(m[a.len() + b.index_of(x)] == x);
        } else if c.contains(x) {
            assert(m[a.len() + b.len() + c.index_of(x)] == x);
        } else if d.contains(x) {
            assert(m[a.len() + b.len() + c.len() + d.index_of(x)] == x);
        } else if e.contains(x) {
            assert(m[a.len() + b.len() + c.len() + d.len() + e.index_of(x)] == x);
        }
    }
    assert forall|x: MissingDataSource, present: bool| #[trigger] source_if(present, x).contains(x) <==> present by {
        if present {
            assert(source_if(present, x)[0] == x);
        }
    }
    assert forall|x: MissingDataSource, y: MissingDataSource, present: bool|
        x != y implies !#[trigger] source_if(present, y).contains(x) by {
        if present {
            assert(source_if(present, y) =~= seq![y]);
        }
    }
    assert(m.contains(MissingDataSource::Network) == (a.contains(MissingDataSource::Network)
        || b.contains(MissingDataSource::Network) || c.contains(MissingDataSource::Network)
        || d.contains(MissingDataSource::Network) || e.contains(MissingDataSource::Network)));
    assert(m.contains(MissingDataSource::FileDescriptors) == (a.contains(MissingDataSource::FileDescriptors)
        || b.contains(MissingDataSource::FileDescriptors) || c.contains(MissingDataSource::FileDescriptors)
        || d.contains(MissingDataSource::FileDescriptors) || e.contains(MissingDataSource::FileDescriptors)));
    assert(m.contains(MissingDataSource::TruncatedFileDescriptors) == (a.contains(
        MissingDataSource::TruncatedFileDescriptors,
    ) || b.contains(MissingDataSource::TruncatedFileDescriptors) || c.contains(
        MissingDataSource::TruncatedFileDescriptors,
    ) || d.contains(MissingDataSource::TruncatedFileDescriptors) || e.contains(
        MissingDataSource::TruncatedFileDescriptors,
    )));
    assert(m.contains(MissingDataSource::Supervision) == (a.contains(MissingDataSource::Supervision)
        || b.contains(MissingDataSource::Supervision) || c.contains(MissingDataSource::Supervision)
        || d.contains(MissingDataSource::Supervision) || e.contains(MissingDataSource::Supervision)));
    assert(m.contains(MissingDataSource::ProcessTree) == (a.contains(MissingDataSource::ProcessTree)
        || b.contains(MissingDataSource::ProcessTree) || c.contains(MissingDataSource::ProcessTree)
        || d.contains(MissingDataSource::ProcessTree) || e.contains(MissingDataSource::ProcessTree)));
    lemma_ranked_append(a, b);
    lemma_ranked_append(a + b, c);
    lemma_ranked_append(a + b + c, d);
    lemma_ranked_append(a + b + c + d, e);
    assert forall|i: int, j: int| 0 <= i < j < m.len() implies m[i] != m[j] by {
        assert(source_rank(m[i]) < source_rank(m[j]));
    }
}

/// Position of a source in the reporting order: network, file descriptors
/// (missing or truncated), supervision, process tree.
pub open spec fn source_rank(x: MissingDataSource) -> int {
    match x {
        MissingDataSource::Network => 0,
        MissingDataSource::FileDescriptors => 1,
        MissingDataSource::TruncatedFileDescriptors => 2,
        MissingDataSource::Supervision => 3,
        MissingDataSource::ProcessTree => 4,
    }
}

/// The sources of `s` come in strictly increasing reporting order.
spec fn ranked(s: Seq<MissingDataSource>) -> bool {
    forall|i: int, j: int| 0 <= i < j < s.len() ==> source_rank(s[i]) < source_rank(s[j])
}

/// Appending at most one source that comes after all of `s` keeps the order;
/// every piece of the report holds at most one source, of a fixed rank.
proof fn lemma_ranked_append(s: Seq<MissingDataSource>, t: Seq<MissingDataSource>)
    requires
        ranked(s),
        t.len() <= 1,
        t.len() == 1 ==> forall|i: int| 0 <= i < s.len() ==> source_rank(s[i]) < source_rank(t[0]),
    ensures
        ranked(s + t),
{
}

/// The missing data sources of a score, given which sources were available
/// and whether the file descriptor listing was truncated.
pub fn missing_data_sources(
    network: bool,
    fds: bool,
    fds_truncated: bool,
    supervision: bool,
    process_tree: bool,
) -> (m: Vec<MissingDataSource>)
    ensures
        m@ == missing_sources_spec(network, fds, fds_truncated, supervision, process_tree),
{
    let mut m: Vec<MissingDataSource> = Vec::new();
    if !network {
        m.push(MissingDataSource::Network);
    }
    let ghost m1 = m@;
    if !fds {
        m.push(MissingDataSource::FileDescriptors);
    } else if fds_truncated {
        m.push(MissingDataSource::TruncatedFileDescriptors);
    }
    let ghost m2 = m@;
    if !supervision {
        m.push(MissingDataSource::Supervision);
    }
    let ghost m3 = m@;
    if !process_tree {
        m.push(MissingDataSource::ProcessTree);
    }
    proof {
        let a = source_if(!network, MissingDataSource::Network);
        let b = source_if(!fds, MissingDataSource::FileDescriptors) + source_if(
            fds && fds_truncated,
            MissingDataSource::TruncatedFileDescriptors,
        );
        let c = source_if(!supervision, MissingDataSource::Supervision);
        let d = source_if(!process_tree, MissingDataSource::ProcessTree);
        assert(m1 =~= a);
        assert(m2 =~= a + b);
        assert(m3 =~= a + b + c);
        assert(m@ =~= a + b + c + d);
        assert(m@ =~= missing_sources_spec(network, fds, fds_truncated, supervision, process_tree));
    }
    m
}

/// Individual components contributing to the impact score.
#[derive(Debug, Clone)]
pub struct ImpactComponents {
    /// Number of listening ports (TCP + UDP).
    pub listen_ports_count: usize,
    /// Number of established/active connections.
    pub established_conns_count: usize,
    /// Total open file descriptors.
    pub open_fds_count: usize,
    /// File descriptors open for writing.
    pub open_write_fds_count: usize,
    /// Critical write handles (databases, locks, etc.).
    pub critical_writes_count: usize,
    /// Critical write categories detected.
    pub critical_write_categories: Vec<CriticalWriteCategory>,
    /// Number of direct child processes.
    pub child_count: usize,
    /// Supervisor level (none, terminal, orchestrator, agent, etc.).
    pub supervisor_level: SupervisorLevel,
    /// Name of detected supervisor (if any).
    pub supervisor_name: Option<String>,
    /// Data sources that were unavailable (for transparency).
    pub missing_data: Vec<MissingDataSource>,
}

impl Default for ImpactComponents {
    fn default() -> (c: Self)
        ensures
            c.listen_ports_count == 0,
            c.established_conns_count == 0,
            c.open_fds_count == 0,
            c.open_write_fds_count == 0,
            c.critical_writes_count == 0,
            c.critical_write_categories@ == Seq::<CriticalWriteCategory>::empty(),
            c.child_count == 0,
            c.supervisor_level == SupervisorLevel::NoSupervisor,
            c.supervisor_name.is_none(),
            c.missing_data@ == Seq::<MissingDataSource>::empty(),
    {
        ImpactComponents {
            listen_ports_count: 0,
            established_conns_count: 0,
            open_fds_count: 0,
            open_write_fds_count: 0,
            critical_writes_count: 0,
            critical_write_categories: Vec::new(),
            child_count: 0,
            supervisor_level: SupervisorLevel::NoSupervisor,
            supervisor_name: None,
            missing_data: Vec::new(),
        }
    }
}

/// Whether some critical file in `cats` falls under output category `c`.
pub open spec fn has_write_category(cats: Seq<CriticalFileCategory>, c: CriticalWriteCategory) -> bool {
    exists|k: int| 0 <= k < cats.len() && write_category_of(#[trigger] cats[k]) == c
}

/// The write category at a rank (below 5).
pub open spec fn write_category_at(r: nat) -> CriticalWriteCategory {
    if r == 0 {
        CriticalWriteCategory::Database
    } else if r == 1 {
        CriticalWriteCategory::Git
    } else if r == 2 {
        CriticalWriteCategory::PackageManager
    } else if r == 3 {
        CriticalWriteCategory::AppLock
    } else {
        CriticalWriteCategory::Other
    }
}

/// Whether some critical file in `cats` falls under category `c`.
fn any_in_category(cats: &[CriticalFileCategory], c: CriticalWriteCategory) -> (b: bool)
    ensures
        b == has_write_category(cats@, c),
{
    let mut k: usize = 0;
    while k < cats.len()
        invariant
            k <= cats.len(),
            forall|j: int| 0 <= j < k ==> write_category_of(#[trigger] cats@[j]) != c,
        decreases cats.len() - k,
    {
        let w = CriticalWriteCategory::from(cats[k]);
        if w == c {
            return true;
        }
        k = k + 1;
    }
    false
}

/// The distinct output categories of the given critical writes, in category
/// order, each once.
pub fn unique_write_categories(cats: &[CriticalFileCategory]) -> (out: Vec<CriticalWriteCategory>)
    ensures
        forall|i: int, j: int|
            0 <= i < j < out.len() ==> write_category_rank(out@[i]) < write_category_rank(
                out@[j],
            ),
        forall|c: CriticalWriteCategory| #[trigger]
            out@.contains(c) <==> has_write_category(cats@, c),
{
    let order = [
        CriticalWriteCategory::Database,
        CriticalWriteCategory::Git,
        CriticalWriteCategory::PackageManager,
        CriticalWriteCategory::AppLock,
        CriticalWriteCategory::Other,
    ];
    assert(forall|r: int| 0 <= r < 5 ==> order@[r] == write_category_at(r as nat));
    let mut out: Vec<CriticalWriteCategory> = Vec::new();
    let mut r: usize = 0;
    while r < 5
        invariant
            r <= 5,
            forall|q: int| 0 <= q < 5 ==> order@[q] == write_category_at(q as nat),
            forall|i: int, j: int|
                0 <= i < j < out.len() ==> write_category_rank(out@[i]) < write_category_rank(
                    out@[j],
                ),
            forall|i: int| 0 <= i < out.len() ==> write_category_rank(#[trigger] out@[i]) < r,
            forall|c: CriticalWriteCategory|
                write_category_rank(c) < r ==> (#[trigger] out@.contains(c)
                    <==> has_write_category(cats@, c)),
            forall|c: CriticalWriteCategory|
                #[trigger] out@.contains(c) ==> write_category_rank(c) < r,
        decreases 5 - r,
    {
        let c = order[r];
        assert(write_category_rank(c) == r);
        let ghost prev = out@;
        let found = any_in_category(cats, c);
        if found {
            out.push(c);
        }
        assert forall|d: CriticalWriteCategory| #[trigger]
            out@.contains(d) <==> (prev.contains(d) || (found && d == c)) by {
            if out@.contains(d) {
                let i = choose|i: int| 0 <= i < out@.len() && out@[i] == d;
                if i < prev.len() {
                    assert(prev[i] == d);
                }
            }
            if prev.contains(d) {
                let i = choose|i: int| 0 <= i < prev.len() && prev[i] == d;
                assert(out@[i] == d);
            }
            if found && d == c {
                assert(out@[out@.len() - 1] == d);
            }
        }
        assert forall|d: CriticalWriteCategory|
            write_category_rank(d) < r + 1 implies (#[trigger] out@.contains(d)
                <==> has_write_category(cats@, d)) by {
            if write_category_rank(d) == r {
                assert(d == c);
            }
        }
        r = r + 1;
    }
    out
}

/// Number of entries of `s` equal to `x`.
pub open spec fn count_in(s: Seq<u32>, x: u32) -> nat
    decreases s.len(),
{
    if s.len() == 0 {
        0
    } else {
        count_in(s.drop_last(), x) + (if s.last() == x {
            1nat
        } else {
            0nat
        })
    }
}

proof fn lemma_count_in_bound(s: Seq<u32>, x: u32)
    ensures
        count_in(s, x) <= s.len(),
    decreases s.len(),
{
    if s.len() > 0 {
        lemma_count_in_bound(s.drop_last(), x);
    }
}

proof fn lemma_count_in_step(s: Seq<u32>, i: int, x: u32)
    requires
        0 <= i < s.len(),
    ensures
        count_in(s.take(i + 1), x) == count_in(s.take(i), x) + (if s[i] == x {
            1nat
        } else {
            0nat
        }),
{
    assert(s.take(i + 1).drop_last() =~= s.take(i));
}

/// Number of processes whose parent is `pid`, given the parent pid of every
/// process (a scan over the whole table).
pub fn count_children_of(parents: &[u32], pid: u32) -> (n: usize)
    ensures
        n == count_in(parents@, pid),
{
    let mut n: usize = 0;
    let mut i: usize = 0;
    while i < parents.len()
        invariant
            i <= parents.len(),
            n == count_in(parents@.take(i as int), pid),
        decreases parents.len() - i,
    {
        proof {
            lemma_count_in_step(parents@, i as int, pid);
            lemma_count_in_bound(parents@.take(i as int), pid);
        }
        if parents[i] == pid {
            n = n + 1;
        }
        i = i + 1;
    }
    assert(parents@.take(parents.len() as int) =~= parents@);
    n
}

/// Cached child counts for batch scoring: for each pid, how many processes
/// name it as their parent.
pub struct ChildCountCache {
    counts: HashMap<u32, usize>,
}

impl ChildCountCache {
    /// Child count held for `pid` (zero where none is recorded).
    pub closed spec fn count_of(&self, pid: u32) -> nat {
        if self.counts@.contains_key(pid) {
            self.counts@[pid] as nat
        } else {
            0
        }
    }

    /// An empty cache: every count is zero.
    pub fn new() -> (c: Self)
        ensures
            forall|pid: u32| #[trigger] c.count_of(pid) == 0,
    {
        ChildCountCache { counts: HashMap::new() }
    }

    /// Replace the cached counts by those of a process table, given the
    /// parent pid of every process in it.
    pub fn populate(&mut self, parents: &[u32])
        ensures
            forall|pid: u32| #[trigger] final(self).count_of(pid) == count_in(parents@, pid),
    {
        self.counts.clear();
        let mut i: usize = 0;
        while i < parents.len()
            invariant
                i <= parents.len(),
                forall|pid: u32| #[trigger]
                    self.count_of(pid) == count_in(parents@.take(i as int), pid),
            decreases parents.len() - i,
        {
            let p = parents[i];
            proof {
                lemma_count_in_bound(parents@.take(i as int), p);
                assert(self.count_of(p) == count_in(parents@.take(i as int), p));
            }
            let ghost before = self.counts@;
            let ghost take_i = parents@.take(i as int);
            assert forall|pid: u32|
                (if before.contains_key(pid) {
                    before[pid] as nat
                } else {
                    0
                }) == #[trigger] count_in(take_i, pid) by {
                assert(self.count_of(pid) == count_in(take_i, pid));
            }
            let prev: usize = match self.counts.get(&p) {
                Some(v) => *v,
                None => 0,
            };
            self.counts.insert(p, prev + 1);
            proof {
                assert(self.counts@ == before.insert(p, (prev + 1) as usize));
                assert forall|pid: u32| #[trigger]
                    self.count_of(pid) == count_in(parents@.take(i + 1), pid) by {
                    lemma_count_in_step(parents@, i as int, pid);
                }
            }
            i = i + 1;
        }
        assert(parents@.take(parents.len() as int) =~= parents@);
    }

    /// Cached child count of `pid`.
    pub fn get(&self, pid: u32) -> (n: usize)
        ensures
            n == self.count_of(pid),
    {
        match self.counts.get(&pid) {
            Some(v) => *v,
            None => 0,
        }
    }
}

/// `n` and a noun, with the plural ending unless `n` is one.
pub open spec fn count_phrase(n: nat, noun: Seq<char>, plural: Seq<char>) -> Seq<char> {
    decimal(n) + " "@ + noun + (if n == 1 {
        Seq::<char>::empty()
    } else {
        plural
    })
}

/// The factor that names the supervisor of a process.
pub open spec fn supervision_phrase(level: SupervisorLevel, name: Option<String>) -> Seq<char> {
    "supervised by "@ + supervisor_level_name(level) + match name {
        Option::Some(n) => " ("@ + n@ + ")"@,
        Option::None => Seq::<char>::empty(),
    }
}

/// A factor list with `part` added when `present` holds.
pub open spec fn factor_if(present: bool, part: Seq<char>) -> Seq<Seq<char>> {
    if present {
        seq![part]
    } else {
        Seq::empty()
    }
}

/// The factors an explanation lists, in order: listening ports, active
/// connections, critical write handles, children, supervisor.
pub open spec fn impact_factors(c: ImpactComponents) -> Seq<Seq<char>> {
    factor_if(
        c.listen_ports_count > 0,
        count_phrase(c.listen_ports_count as nat, "listening port"@, "s"@),
    ) + factor_if(
        c.established_conns_count > 0,
        count_phrase(c.established_conns_count as nat, "active connection"@, "s"@),
    ) + factor_if(
        c.critical_writes_count > 0,
        count_phrase(c.critical_writes_count as nat, "critical write handle"@, "s"@),
    ) + factor_if(
        c.child_count > 0,
        count_phrase(c.child_count as nat, "child process"@, "es"@),
    ) + factor_if(
        c.supervisor_level != SupervisorLevel::NoSupervisor,
        supervision_phrase(c.supervisor_level, c.supervisor_name),
    )
}

/// An explanation lists no dependency factor exactly when the process has
/// no listening ports, active connections, critical write handles or
/// children, and no supervisor; the factors are then replaced by "no
/// significant dependencies detected".
pub proof fn lemma_no_dependency_factors(c: ImpactComponents)
    ensures
        impact_factors(c).len() == 0 <==> {
            &&& c.listen_ports_count == 0
            &&& c.established_conns_count == 0
            &&& c.critical_writes_count == 0
            &&& c.child_count == 0
            &&& c.supervisor_level == SupervisorLevel::NoSupervisor
        },
{
}

/// The factor part of an explanation.
pub open spec fn factors_text(c: ImpactComponents) -> Seq<char> {
    if impact_factors(c).len() == 0 {
        "no significant dependencies detected"@
    } else {
        join_with(impact_factors(c), ", "@)
    }
}

/// The explanation of an impact score, given the score as already
/// formatted text and its severity.
pub open spec fn explanation_text(
    pid: u32,
    score_text: Seq<char>,
    severity: ImpactSeverity,
    elevated: bool,
    c: ImpactComponents,
) -> Seq<char> {
    "PID "@ + decimal(pid as nat) + ": impact="@ + score_text + " ("@ + severity_text(severity)
        + ")"@ + (if elevated {
        " (elevated due to missing data)"@
    } else {
        Seq::<char>::empty()
    }) + "; "@ + factors_text(c)
}

fn count_phrase_string(n: usize, noun: &str, plural: &str) -> (s: String)
    ensures
        s@ == count_phrase(n as nat, noun@, plural@),
{
    let mut s = String::new();
    push_decimal(&mut s, n as u64);
    s.append(" ");
    s.append(noun);
    if n != 1 {
        s.append(plural);
    }
    proof {
        if n == 1 {
            assert(s@ =~= count_phrase(n as nat, noun@, plural@));
        }
    }
    s
}

/// Human-readable explanation of an impact score. `score_text` is the score
/// as it is to be shown and `severity` its classification.
pub fn generate_explanation(
    pid: u32,
    score_text: &str,
    severity: ImpactSeverity,
    elevated: bool,
    components: &ImpactComponents,
) -> (s: String)
    ensures
        s@ == explanation_text(pid, score_text@, severity, elevated, *components),
{
    let c = components;
    let mut factors = String::new();
    let ghost mut parts: Seq<Seq<char>> = Seq::empty();
    let mut first = true;
    if c.listen_ports_count > 0 {
        let p = count_phrase_string(c.listen_ports_count, "listening port", "s");
        push_joined(&mut factors, first, ", ", p.as_str(), Ghost(parts));
        proof {
            parts = parts.push(p@);
        }
        first = false;
    }
    let ghost parts1 = parts;
    if c.established_conns_count > 0 {
        let p = count_phrase_string(c.established_conns_count, "active connection", "s");
        push_joined(&mut factors, first, ", ", p.as_str(), Ghost(parts));
        proof {
            parts = parts.push(p@);
        }
        first = false;
    }
    let ghost parts2 = parts;
    if c.critical_writes_count > 0 {
        let p = count_phrase_string(c.critical_writes_count, "critical write handle", "s");
        push_joined(&mut factors, first, ", ", p.as_str(), Ghost(parts));
        proof {
            parts = parts.push(p@);
        }
        first = false;
    }
    let ghost parts3 = parts;
    if c.child_count > 0 {
        let p = count_phrase_string(c.child_count, "child process", "es");
        push_joined(&mut factors, first, ", ", p.as_str(), Ghost(parts));
        proof {
            parts = parts.push(p@);
        }
        first = false;
    }
    let ghost parts4 = parts;
    if c.supervisor_level != SupervisorLevel::NoSupervisor {
        let mut p = String::new();
        p.append("supervised by ");
        p.append(c.supervisor_level.debug_name());
        match &c.supervisor_name {
            Some(n) => {
                p.append(" (");
                p.append(n.as_str());
                p.append(")");
            },
            None => {},
        }
        proof {
            assert(p@ =~= supervision_phrase(c.supervisor_level, c.supervisor_name));
        }
        push_joined(&mut factors, first, ", ", p.as_str(), Ghost(parts));
        proof {
            parts = parts.push(p@);
        }
        first = false;
    }
    proof {
        let f0 = factor_if(
            c.listen_ports_count > 0,
            count_phrase(c.listen_ports_count as nat, "listening port"@, "s"@),
        );
        let f1 = factor_if(
            c.established_conns_count > 0,
            count_phrase(c.established_conns_count as nat, "active connection"@, "s"@),
        );
        let f2 = factor_if(
            c.critical_writes_count > 0,
            count_phrase(c.critical_writes_count as nat, "critical write handle"@, "s"@),
        );
        let f3 = factor_if(
            c.child_count > 0,
            count_phrase(c.child_count as nat, "child process"@, "es"@),
        );
        let f4 = factor_if(
            c.supervisor_level != SupervisorLevel::NoSupervisor,
            supervision_phrase(c.supervisor_level, c.supervisor_name),
        );
        assert(parts1 =~= f0);
        assert(parts2 =~= f0 + f1);
        assert(parts3 =~= f0 + f1 + f2);
        assert(parts4 =~= f0 + f1 + f2 + f3);
        assert(parts =~= f0 + f1 + f2 + f3 + f4);
        assert(parts =~= impact_factors(*c));
    }
    let mut s = String::new();
    s.append("PID ");
    push_decimal(&mut s, pid as u64);
    s.append(": impact=");
    s.append(score_text);
    s.append(" (");
    let sev = severity.to_string();
    s.append(sev.as_str());
    s.append(")");
    if elevated {
        s.append(" (elevated due to missing data)");
    }
    s.append("; ");
    if first {
        s.append("no significant dependencies detected");
    } else {
        s.append(factors.as_str());
    }
    proof {
        assert(s@ =~= explanation_text(pid, score_text@, severity, elevated, *c));
    }
    s
}

} // verus!
