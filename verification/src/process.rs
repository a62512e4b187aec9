//! The registry of supervised background processes.
//!
//! The registry decides; its caller acts. It knows every process by a name
//! that is unique among those it tracks, says what a launch has to write
//! and where, records a launch once the child runs, and names the children
//! to kill at teardown. Spawning, waiting and killing are the caller's part.

use crate::text::{decimal, decimal_text, from_chars, push_all, push_str, views_of};
use vstd::prelude::*;

verus! {

/// The text that `{:?}` gives for a string slice.
pub uninterp spec fn debug_form(s: Seq<char>) -> Seq<char>;

/// `format!` with `{:?}` on a string slice: the result is the `Debug` form of
/// the slice, which this crate names and does not spell out.
#[verifier::external_body]
fn debug_text(s: &str) -> (shown: String)
    ensures
        shown@ == debug_form(s@),
{
    format!("{:?}", s)
}

/// A background process that the registry tracks.
#[derive(Debug)]
pub struct ProcessInfo {
    /// The name the process is known by.
    pub name: String,
    /// The shell command that was run.
    pub command: String,
    /// The process id.
    pub pid: u32,
    /// The file that takes the process's output and errors.
    pub log_file: String,
    /// When the process was started, in seconds since the Unix epoch.
    pub started_at: u64,
    /// The directory the command was run in.
    pub working_dir: String,
}

/// A `ProcessInfo` as contracts see it.
pub struct ProcessRecord {
    pub name: Seq<char>,
    pub command: Seq<char>,
    pub pid: u32,
    pub log_file: Seq<char>,
    pub started_at: u64,
    pub working_dir: Seq<char>,
}

impl View for ProcessInfo {
    type V = ProcessRecord;

    open spec fn view(&self) -> ProcessRecord {
        ProcessRecord {
            name: self.name@,
            command: self.command@,
            pid: self.pid,
            log_file: self.log_file@,
            started_at: self.started_at,
            working_dir: self.working_dir@,
        }
    }
}

impl Clone for ProcessInfo {
    fn clone(&self) -> (copy: Self)
        ensures
            copy@ == self@,
    {
        ProcessInfo {
            name: self.name.clone(),
            command: self.command.clone(),
            pid: self.pid,
            log_file: self.log_file.clone(),
            started_at: self.started_at,
            working_dir: self.working_dir.clone(),
        }
    }
}

/// Why a process was not started.
#[derive(Debug)]
pub enum StartError {
    /// A process of that name is tracked already.
    DuplicateName { name: String },
    /// The log file could not be created.
    LogFile { detail: String },
    /// The handle of the log file could not be shared between output and errors.
    LogHandle { detail: String },
    /// The child could not be spawned.
    Spawn { detail: String },
}

/// The text of a `StartError`.
pub open spec fn start_error_text(error: StartError) -> Seq<char> {
    match error {
        StartError::DuplicateName { name } => "A process named '"@ + name@
            + "' is already running. Stop it first or use a different name."@,
        StartError::LogFile { detail } => "Failed to create log file: "@ + detail@,
        StartError::LogHandle { detail } => "Failed to clone log file handle: "@ + detail@,
        StartError::Spawn { detail } => "Failed to spawn process: "@ + detail@,
    }
}

impl StartError {
    /// The error in words.
    pub fn message(&self) -> (text: String)
        ensures
            text@ == start_error_text(*self),
    {
        let mut out: Vec<char> = Vec::new();
        match self {
            StartError::DuplicateName { name } => {
                push_str(&mut out, "A process named '");
                push_str(&mut out, name.as_str());
                push_str(
                    &mut out,
                    "' is already running. Stop it first or use a different name.",
                );
            },
            StartError::LogFile { detail } => {
                push_str(&mut out, "Failed to create log file: ");
                push_str(&mut out, detail.as_str());
            },
            StartError::LogHandle { detail } => {
                push_str(&mut out, "Failed to clone log file handle: ");
                push_str(&mut out, detail.as_str());
            },
            StartError::Spawn { detail } => {
                push_str(&mut out, "Failed to spawn process: ");
                push_str(&mut out, detail.as_str());
            },
        }
        from_chars(&out)
    }
}

/// What waiting on a child without blocking found.
#[derive(Clone, Copy, Debug, PartialEq, Eq, Structural)]
pub enum WaitOutcome {
    /// The child has exited.
    Exited,
    /// The child has not exited yet.
    StillRunning,
    /// The wait itself failed.
    Failed,
}

/// The name of the log file of a process: the process's name, an underscore,
/// the start time in seconds and `.log`.
pub open spec fn log_file_name_text(name: Seq<char>, started_at: u64) -> Seq<char> {
    name + "_"@ + decimal(started_at as nat) + ".log"@
}

/// The block that opens a log file: a title, the name, the command, the
/// working directory as it is to be shown, the start time, a rule and an
/// empty line.
pub open spec fn log_header_text(
    name: Seq<char>,
    command: Seq<char>,
    shown_dir: Seq<char>,
    started_at: u64,
) -> Seq<char> {
    "=== Background Process Log ===\n"@ + "Name: "@ + name + "\n"@ + "Command: "@ + command
        + "\n"@ + "Working Directory: "@ + shown_dir + "\n"@ + "Started: "@ + decimal(
        started_at as nat,
    ) + "\n"@ + "================================\n\n"@
}

/// The name of the log file of a process.
pub fn log_file_name(name: &str, started_at: u64) -> (file_name: String)
    ensures
        file_name@ == log_file_name_text(name@, started_at),
{
    let mut out: Vec<char> = Vec::new();
    push_str(&mut out, name);
    push_str(&mut out, "_");
    let stamp = decimal_text(started_at as u128);
    push_all(&mut out, &stamp);
    push_str(&mut out, ".log");
    from_chars(&out)
}

/// The block that opens the log file of a process. `shown_dir` is the working
/// directory in the form in which the log shows it.
pub fn log_header(name: &str, command: &str, shown_dir: &str, started_at: u64) -> (header: String)
    ensures
        header@ == log_header_text(name@, command@, shown_dir@, started_at),
{
    let mut out: Vec<char> = Vec::new();
    push_str(&mut out, "=== Background Process Log ===\n");
    push_str(&mut out, "Name: ");
    push_str(&mut out, name);
    push_str(&mut out, "\n");
    push_str(&mut out, "Command: ");
    push_str(&mut out, command);
    push_str(&mut out, "\n");
    push_str(&mut out, "Working Directory: ");
    push_str(&mut out, shown_dir);
    push_str(&mut out, "\n");
    push_str(&mut out, "Started: ");
    let stamp = decimal_text(started_at as u128);
    push_all(&mut out, &stamp);
    push_str(&mut out, "\n");
    push_str(&mut out, "================================\n\n");
    from_chars(&out)
}

/// What a launch has to do before the child runs.
#[derive(Debug)]
pub struct LaunchPlan {
    /// The name of the log file to create, empty, in the log directory.
    pub log_file_name: String,
    /// The text to write at the beginning of the log file.
    pub header: String,
}

/// The names of `records`, in their order.
pub open spec fn record_names(records: Seq<ProcessRecord>) -> Seq<Seq<char>> {
    Seq::new(records.len(), |i: int| records[i].name)
}

/// The records after a process was started: those before and the new one,
/// unless a process of its name was tracked already; then the start is
/// refused.
pub open spec fn with_started(records: Seq<ProcessRecord>, started: ProcessRecord) -> Option<
    Seq<ProcessRecord>,
> {
    if record_names(records).contains(started.name) {
        None
    } else {
        Some(records.push(started))
    }
}

/// Of two starts under one name, whichever comes first, exactly one succeeds:
/// where the name is not tracked, the first start is accepted, and the second
/// is refused whatever else it asks for.
pub proof fn lemma_one_start_per_name(
    records: Seq<ProcessRecord>,
    first: ProcessRecord,
    second: ProcessRecord,
)
    requires
        first.name == second.name,
        !record_names(records).contains(first.name),
    ensures
        with_started(records, first) == Some(records.push(first)),
        with_started(records.push(first), second) is None,
{
    let after = records.push(first);
    assert(record_names(after)[after.len() - 1] == second.name);
}

/// The records of a vector of process informations.
pub open spec fn records_of(infos: Seq<ProcessInfo>) -> Seq<ProcessRecord> {
    Seq::new(infos.len(), |i: int| infos[i]@)
}

/// The registry of background processes.
pub struct BackgroundProcessManager {
    processes: Vec<ProcessInfo>,
    children: Vec<String>,
    log_dir: String,
}

impl BackgroundProcessManager {
    /// The processes tracked, in the order in which they were started.
    pub closed spec fn records(&self) -> Seq<ProcessRecord> {
        records_of(self.processes@)
    }

    /// The names of the processes whose child the caller still holds, in the
    /// order in which they were started.
    pub closed spec fn children(&self) -> Seq<Seq<char>> {
        views_of(self.children@)
    }

    /// The directory that takes the log files.
    pub closed spec fn log_directory(&self) -> Seq<char> {
        self.log_dir@
    }

    /// The names of the processes tracked, in the order in which they were
    /// started.
    pub open spec fn names(&self) -> Seq<Seq<char>> {
        record_names(self.records())
    }

    /// Whether a process of the name `name` is tracked.
    pub open spec fn tracks(&self, name: Seq<char>) -> bool {
        self.names().contains(name)
    }

    /// The registry is in order: no two tracked processes share a name, no
    /// child is held twice, and every child held belongs to a tracked process.
    pub open spec fn wf(&self) -> bool {
        &&& self.names().no_duplicates()
        &&& self.children().no_duplicates()
        &&& forall|k: int|
            0 <= k < self.children().len() ==> self.names().contains(
                #[trigger] self.children()[k],
            )
    }

    /// A registry that tracks nothing and logs to `log_dir`.
    pub fn new(log_dir: String) -> (manager: Self)
        ensures
            manager.wf(),
            manager.records() == Seq::<ProcessRecord>::empty(),
            manager.children() == Seq::<Seq<char>>::empty(),
            manager.log_directory() == log_dir@,
    {
        let manager = BackgroundProcessManager {
            processes: Vec::new(),
            children: Vec::new(),
            log_dir,
        };
        proof {
            assert(manager.records() =~= Seq::<ProcessRecord>::empty());
            assert(manager.children() =~= Seq::<Seq<char>>::empty());
        }
        manager
    }

    /// The directory that takes the log files.
    pub fn log_dir(&self) -> (dir: &str)
        ensures
            dir@ == self.log_directory(),
    {
        self.log_dir.as_str()
    }

    /// The position of the record of the name `name`, if there is one.
    fn position(&self, name: &str) -> (found: Option<usize>)
        ensures
            match found {
                Some(i) => i < self.names().len() && self.names()[i as int] == name@,
                None => !self.tracks(name@),
            },
    {
        let wanted = name.to_owned();
        let mut i: usize = 0;
        while i < self.processes.len()
            invariant
                i <= self.processes.len(),
                wanted@ == name@,
                forall|k: int| 0 <= k < i ==> self.names()[k] != name@,
            decreases self.processes.len() - i,
        {
            if self.processes[i].name == wanted {
                return Some(i);
            }
            i += 1;
        }
        None
    }

    /// The position of `name` among the children held, if it is there.
    fn child_position(&self, name: &str) -> (found: Option<usize>)
        ensures
            match found {
                Some(i) => i < self.children().len() && self.children()[i as int] == name@,
                None => !self.children().contains(name@),
            },
    {
        let wanted = name.to_owned();
        let mut i: usize = 0;
        while i < self.children.len()
            invariant
                i <= self.children.len(),
                wanted@ == name@,
                forall|k: int| 0 <= k < i ==> self.children()[k] != name@,
            decreases self.children.len() - i,
        {
            if self.children[i] == wanted {
                return Some(i);
            }
            i += 1;
        }
        None
    }

    /// The first step of a launch. A name that is tracked already is refused;
    /// for any other the plan gives the name of the log file and the header to
    /// write to it before the child is spawned.
    pub fn plan_start(&self, name: &str, command: &str, working_dir: &str, started_at: u64) -> (plan:
        Result<LaunchPlan, StartError>)
        requires
            self.wf(),
        ensures
            match plan {
                Ok(plan) => {
                    &&& !self.tracks(name@)
                    &&& plan.log_file_name@ == log_file_name_text(name@, started_at)
                    &&& plan.header@ == log_header_text(
                        name@,
                        command@,
                        debug_form(working_dir@),
                        started_at,
                    )
                },
                Err(error) => {
                    &&& self.tracks(name@)
                    &&& error matches StartError::DuplicateName { name: refused }
                    &&& refused@ == name@
                },
            },
    {
        if self.position(name).is_some() {
            return Err(StartError::DuplicateName { name: name.to_owned() });
        }
        let shown_dir = debug_text(working_dir);
        Ok(
            LaunchPlan {
                log_file_name: log_file_name(name, started_at),
                header: log_header(name, command, shown_dir.as_str(), started_at),
            },
        )
    }

    /// The last step of a launch: tracks the process whose child now runs with
    /// the process id `pid` and logs to `log_file`. A name that is tracked
    /// already is refused and nothing changes.
    pub fn start(
        &mut self,
        name: &str,
        command: &str,
        working_dir: &str,
        log_file: &str,
        started_at: u64,
        pid: u32,
    ) -> (started: Result<ProcessInfo, StartError>)
        requires
            old(self).wf(),
        ensures
            final(self).wf(),
            final(self).log_directory() == old(self).log_directory(),
            match started {
                Ok(info) => {
                    &&& info@ == (ProcessRecord {
                        name: name@,
                        command: command@,
                        pid,
                        log_file: log_file@,
                        started_at,
                        working_dir: working_dir@,
                    })
                    &&& with_started(old(self).records(), info@) == Some(final(self).records())
                    &&& final(self).children() == old(self).children().push(name@)
                },
                Err(error) => {
                    &&& old(self).tracks(name@)
                    &&& error matches StartError::DuplicateName { name: refused }
                    &&& refused@ == name@
                    &&& final(self).records() == old(self).records()
                    &&& final(self).children() == old(self).children()
                },
            },
    {
        if self.position(name).is_some() {
            return Err(StartError::DuplicateName { name: name.to_owned() });
        }
        let info = ProcessInfo {
            name: name.to_owned(),
            command: command.to_owned(),
            pid,
            log_file: log_file.to_owned(),
            started_at,
            working_dir: working_dir.to_owned(),
        };
        let copy = info.clone();
        let child = name.to_owned();
        proof {
            assert(!old(self).children().contains(name@)) by {
                if old(self).children().contains(name@) {
                    let k = choose|k: int|
                        0 <= k < old(self).children().len() && old(self).children()[k] == name@;
                    assert(old(self).names().contains(old(self).children()[k]));
                }
            }
        }
        self.processes.push(info);
        self.children.push(child);
        proof {
            assert(self.records() =~= old(self).records().push(copy@));
            assert(self.children() =~= old(self).children().push(name@));
            assert(self.names() =~= old(self).names().push(name@));
            assert forall|k: int| 0 <= k < self.children().len() implies self.names().contains(
                #[trigger] self.children()[k],
            ) by {
                if k < old(self).children().len() {
                    let c = old(self).children()[k];
                    assert(old(self).names().contains(c));
                    let i = choose|i: int|
                        0 <= i < old(self).names().len() && old(self).names()[i] == c;
                    assert(self.names()[i] == c);
                } else {
                    assert(self.names()[self.names().len() - 1] == name@);
                }
            }
        }
        Ok(copy)
    }

    /// The processes tracked, in the order in which they were started.
    pub fn list(&self) -> (all: Vec<ProcessInfo>)
        ensures
            records_of(all@) == self.records(),
    {
        let mut all: Vec<ProcessInfo> = Vec::new();
        let mut i: usize = 0;
        while i < self.processes.len()
            invariant
                i <= self.processes.len(),
                records_of(all@) == self.records().take(i as int),
            decreases self.processes.len() - i,
        {
            let copy = self.processes[i].clone();
            let ghost before = all@;
            all.push(copy);
            proof {
                assert(records_of(all@) =~= records_of(before).push(copy@));
                assert(self.records().take(i + 1) =~= self.records().take(i as int).push(
                    self.records()[i as int],
                ));
            }
            i += 1;
        }
        proof {
            assert(self.records().take(self.processes.len() as int) =~= self.records());
        }
        all
    }

    /// The process of the name `name`, if it is tracked.
    pub fn get(&self, name: &str) -> (found: Option<ProcessInfo>)
        ensures
            match found {
                Some(info) => info@.name == name@ && self.records().contains(info@),
                None => !self.tracks(name@),
            },
    {
        match self.position(name) {
            Some(i) => {
                let copy = self.processes[i].clone();
                proof {
                    assert(self.records()[i as int] == copy@);
                    assert(self.names()[i as int] == self.records()[i as int].name);
                }
                Some(copy)
            },
            None => None,
        }
    }

    /// Whether the caller still holds the child of the process `name`, and so
    /// can wait on it.
    pub fn holds_child(&self, name: &str) -> (held: bool)
        ensures
            held == self.children().contains(name@),
    {
        self.child_position(name).is_some()
    }

    /// Whether the process `name` still runs, given what a wait on its child
    /// without blocking found: it runs if its child is held and has not
    /// exited. For a name whose child is not held `probe` is not looked at.
    pub fn is_running(&self, name: &str, probe: WaitOutcome) -> (running: bool)
        ensures
            running == (self.children().contains(name@) && probe == WaitOutcome::StillRunning),
    {
        self.holds_child(name) && probe == WaitOutcome::StillRunning
    }

    /// Stops tracking the process `name` and gives up its child without
    /// killing it. Returns what was tracked under that name.
    pub fn remove(&mut self, name: &str) -> (removed: Option<ProcessInfo>)
        requires
            old(self).wf(),
        ensures
            final(self).wf(),
            final(self).log_directory() == old(self).log_directory(),
            !final(self).tracks(name@),
            !final(self).children().contains(name@),
            match removed {
                Some(info) => {
                    let at = old(self).names().index_of(name@);
                    &&& old(self).tracks(name@)
                    &&& info@ == old(self).records()[at]
                    &&& final(self).records() == old(self).records().remove(at)
                },
                None => !old(self).tracks(name@) && final(self).records() == old(self).records(),
            },
            final(self).children() == name_removed(old(self).children(), name@),
    {
        let ghost names = self.names();
        let ghost held = self.children();
        let removed = match self.position(name) {
            Some(i) => {
                let info = self.processes.remove(i);
                proof {
                    assert(names[i as int] == name@);
                    assert(names.index_of(name@) == i);
                    assert(self.records() =~= old(self).records().remove(i as int));
                    assert(self.names() =~= names.remove(i as int));
                }
                Some(info)
            },
            None => None,
        };
        let ghost names_after = self.names();
        proof {
            lemma_removed_name(names, name@);
        }
        match self.child_position(name) {
            Some(k) => {
                let _ = self.children.remove(k);
                proof {
                    assert(held[k as int] == name@);
                    assert(held.index_of(name@) == k);
                    assert(self.children() =~= held.remove(k as int));
                }
            },
            None => {},
        }
        proof {
            assert(self.names() == names_after);
            lemma_removed_name(held, name@);
            assert forall|k: int| 0 <= k < self.children().len() implies self.names().contains(
                #[trigger] self.children()[k],
            ) by {
                let c = self.children()[k];
                assert(self.children().contains(c));
                assert(held.contains(c));
                let j = choose|j: int| 0 <= j < held.len() && held[j] == c;
                assert(names.contains(held[j]));
            }
        }
        removed
    }

    /// Teardown: gives up every child held and returns their names, which are
    /// the children to kill. The processes stay tracked.
    pub fn cleanup(&mut self) -> (to_kill: Vec<String>)
        requires
            old(self).wf(),
        ensures
            final(self).wf(),
            final(self).log_directory() == old(self).log_directory(),
            final(self).records() == old(self).records(),
            final(self).children() == Seq::<Seq<char>>::empty(),
            views_of(to_kill@) == old(self).children(),
    {
        let mut to_kill: Vec<String> = Vec::new();
        let mut i: usize = 0;
        while i < self.children.len()
            invariant
                i <= self.children.len(),
                self.children == old(self).children,
                self.processes == old(self).processes,
                self.log_dir == old(self).log_dir,
                views_of(to_kill@) == self.children().take(i as int),
            decreases self.children.len() - i,
        {
            let name = self.children[i].clone();
            let ghost before = to_kill@;
            to_kill.push(name);
            proof {
                assert(views_of(to_kill@) =~= views_of(before).push(name@));
                assert(self.children().take(i + 1) =~= self.children().take(i as int).push(
                    self.children()[i as int],
                ));
            }
            i += 1;
        }
        proof {
            assert(self.children().take(self.children.len() as int) =~= self.children());
        }
        self.children = Vec::new();
        proof {
            assert(self.children() =~= Seq::<Seq<char>>::empty());
        }
        to_kill
    }
}

/// `names` without `name`, where it holds that name once: the other names
/// stay, in their order.
pub open spec fn name_removed(names: Seq<Seq<char>>, name: Seq<char>) -> Seq<Seq<char>> {
    if names.contains(name) {
        names.remove(names.index_of(name))
    } else {
        names
    }
}

/// Taking a name out of names without duplicates leaves names without
/// duplicates, among which that name is no more and every other name still is.
pub proof fn lemma_removed_name(names: Seq<Seq<char>>, name: Seq<char>)
    requires
        names.no_duplicates(),
    ensures
        name_removed(names, name).no_duplicates(),
        !name_removed(names, name).contains(name),
        forall|other: Seq<char>|
            other != name ==> (#[trigger] name_removed(names, name).contains(other)
                <==> names.contains(other)),
{
    let left = name_removed(names, name);
    if names.contains(name) {
        let at = names.index_of(name);
        assert(0 <= at < names.len() && names[at] == name);
        assert forall|i: int, j: int| 0 <= i < left.len() && 0 <= j < left.len() && i != j implies left[i]
            != left[j] by {
            let a = if i < at { i } else { i + 1 };
            let b = if j < at { j } else { j + 1 };
            assert(left[i] == names[a]);
            assert(left[j] == names[b]);
        }
        assert(!left.contains(name)) by {
            if left.contains(name) {
                let i = choose|i: int| 0 <= i < left.len() && left[i] == name;
                let a = if i < at { i } else { i + 1 };
                assert(left[i] == names[a]);
            }
        }
        assert forall|other: Seq<char>| other != name implies (#[trigger] left.contains(other)
            <==> names.contains(other)) by {
            if left.contains(other) {
                let i = choose|i: int| 0 <= i < left.len() && left[i] == other;
                let a = if i < at { i } else { i + 1 };
                assert(left[i] == names[a]);
            }
            if names.contains(other) {
                let a = choose|a: int| 0 <= a < names.len() && names[a] == other;
                let i = if a < at { a } else { a - 1 };
                assert(left[i] == names[a]);
            }
        }
    }
}

} // verus!
