//! Commands as sessions: a fixed list of steps, and the rule that turns what
//! the caller observed at each step into the next move.
use vstd::prelude::*;

use crate::paths::{
    is_rel_path, is_relative_path, join, joined, resolve, resolved, valid_seg, workspace_root,
    WORKSPACE_DIR,
};

verus! {

/// What went wrong; each kind ends the command with a failure.
#[derive(Clone, Copy, Debug, PartialEq, Eq, Structural)]
pub enum Fault {
    HomeDirectoryUnavailable,
    WorkspaceNotInitialized,
    ParentNotFound,
    TargetNotFound,
    SubdirectoryNotFound,
    CreateFailed,
    RemoveFailed,
    ReadFailed,
    ShellSpawnFailed,
    ShellNonZeroExit,
}

/// A failure: its kind, the path concerned, and the host's own words.
#[derive(Debug)]
pub struct RepoError {
    pub kind: Fault,
    pub path: String,
    pub detail: String,
}

pub type ErrorView = (Fault, Seq<char>, Seq<char>);

impl View for RepoError {
    type V = ErrorView;

    open spec fn view(&self) -> ErrorView {
        (self.kind, self.path@, self.detail@)
    }
}

impl RepoError {
    /// A failure on `path` with no further words from the host.
    pub fn bare(kind: Fault, path: String) -> (r: RepoError)
        ensures
            r@ == (kind, path@, Seq::<char>::empty()),
    {
        RepoError { kind, path, detail: String::new() }
    }
}

/// How a command ended well.
#[derive(Clone, Copy, Debug, PartialEq, Eq, Structural)]
pub enum Finished {
    AlreadyInitialized,
    Initialized,
    Created,
    Listed,
    Removed,
    ShellClosed,
    Usage,
}

/// A successful end: its kind, the path concerned, and for a listing the
/// names of the child directories.
#[derive(Debug)]
pub struct Report {
    pub kind: Finished,
    pub path: String,
    pub names: Vec<String>,
}

pub type ReportView = (Finished, Seq<char>, Seq<Seq<char>>);

pub open spec fn names_view(v: Seq<String>) -> Seq<Seq<char>> {
    v.map_values(|s: String| s@)
}

impl View for Report {
    type V = ReportView;

    open spec fn view(&self) -> ReportView {
        (self.kind, self.path@, names_view(self.names@))
    }
}

pub type OutcomeView = Result<ReportView, ErrorView>;

pub open spec fn outcome_view(o: Result<Report, RepoError>) -> OutcomeView {
    match o {
        Ok(r) => Ok(r@),
        Err(e) => Err(e@),
    }
}

/// Which error a missing directory gives.
#[derive(Clone, Copy, Debug, PartialEq, Eq, Structural)]
pub enum Missing {
    Workspace,
    Parent,
    Target,
    Subdirectory,
}

pub open spec fn missing_fault(m: Missing) -> Fault {
    match m {
        Missing::Workspace => Fault::WorkspaceNotInitialized,
        Missing::Parent => Fault::ParentNotFound,
        Missing::Target => Fault::TargetNotFound,
        Missing::Subdirectory => Fault::SubdirectoryNotFound,
    }
}

/// One piece of outside work.
#[derive(Clone, Copy, Debug, PartialEq, Eq, Structural)]
pub enum Op {
    /// Check that the path exists; stop with the given error if not.
    Require(Missing),
    /// Check that the path exists; stop, successfully, if it does.
    Unless,
    /// Create one directory level.
    Create,
    /// Read the entries of a directory; this ends the command.
    Read,
    /// Remove a directory and everything below it.
    Wipe,
    /// Run an interactive shell in the directory and wait for it.
    Shell,
}

/// One step: an operation on a path.
#[derive(Debug)]
pub struct Step {
    pub op: Op,
    pub path: String,
}

impl View for Step {
    type V = (Op, Seq<char>);

    open spec fn view(&self) -> (Op, Seq<char>) {
        (self.op, self.path@)
    }
}

/// A directory entry as the host enumerated it.
#[derive(Debug)]
pub struct Entry {
    pub name: String,
    pub is_dir: bool,
}

impl View for Entry {
    type V = (Seq<char>, bool);

    open spec fn view(&self) -> (Seq<char>, bool) {
        (self.name@, self.is_dir)
    }
}

pub open spec fn entries_view(v: Seq<Entry>) -> Seq<(Seq<char>, bool)> {
    v.map_values(|e: Entry| e@)
}

/// What the caller observed when it carried out a step.
#[derive(Debug)]
pub enum Event {
    Exists(bool),
    Done,
    Failed(String),
    Entries(Vec<Entry>),
    Exited(bool),
}

pub enum EventView {
    Exists(bool),
    Done,
    Failed(Seq<char>),
    Entries(Seq<(Seq<char>, bool)>),
    Exited(bool),
}

impl View for Event {
    type V = EventView;

    open spec fn view(&self) -> EventView {
        match self {
            Event::Exists(b) => EventView::Exists(*b),
            Event::Done => EventView::Done,
            Event::Failed(m) => EventView::Failed(m@),
            Event::Entries(es) => EventView::Entries(entries_view(es@)),
            Event::Exited(b) => EventView::Exited(*b),
        }
    }
}

/// A parsed command line.
#[derive(Debug)]
pub enum Request {
    Init,
    Add { name: String, parent: Option<String> },
    List { subdir: Option<String> },
    Home,
    Remove { path: String },
    Enter { dir: String },
    Usage,
}

pub open spec fn opt_view(o: Option<String>) -> Option<Seq<char>> {
    match o {
        Some(s) => Some(s@),
        None => None,
    }
}

pub const CLIENT_DIR: &'static str = "client";

pub const TEST_DIR: &'static str = "test";

pub const PRACTICE_DIR: &'static str = "practice";

/// The directories that initialisation creates, in order.
pub open spec fn init_dirs(root: Seq<char>) -> Seq<Seq<char>> {
    seq![
        root,
        joined(root, CLIENT_DIR@),
        joined(root, TEST_DIR@),
        joined(root, PRACTICE_DIR@),
    ]
}

/// Every path segment of the request is a relative path that stays below
/// the directory it is joined to.
pub open spec fn admissible(req: Request) -> bool {
    match req {
        Request::Add { name, parent } => valid_seg(opt_view(parent)) && is_rel_path(name@),
        Request::List { subdir } => valid_seg(opt_view(subdir)),
        Request::Remove { path } => is_rel_path(path@),
        Request::Enter { dir } => is_rel_path(dir@),
        _ => true,
    }
}

/// The operation changes the tree, reads it, or runs a shell in it.
pub open spec fn acts(op: Op) -> bool {
    op is Create || op is Read || op is Wipe || op is Shell
}

/// The steps that carry out a request in the workspace at `root`. A
/// segment that would leave the directory it is joined to is refused
/// after the checks before it, in place of the step that would use it.
pub open spec fn plan(req: Request, root: Seq<char>) -> Seq<(Op, Seq<char>)> {
    let ws = (Op::Require(Missing::Workspace), root);
    match req {
        Request::Init => seq![
            (Op::Unless, root),
            (Op::Create, root),
            (Op::Create, joined(root, CLIENT_DIR@)),
            (Op::Create, joined(root, TEST_DIR@)),
            (Op::Create, joined(root, PRACTICE_DIR@)),
        ],
        Request::Add { name, parent } => {
            let base = resolved(root, opt_view(parent));
            if !valid_seg(opt_view(parent)) {
                seq![ws]
            } else if !is_rel_path(name@) {
                seq![ws, (Op::Require(Missing::Parent), base)]
            } else {
                seq![ws, (Op::Require(Missing::Parent), base), (Op::Create, joined(base, name@))]
            }
        },
        Request::List { subdir } => {
            let t = resolved(root, opt_view(subdir));
            if !valid_seg(opt_view(subdir)) {
                seq![ws]
            } else {
                seq![ws, (Op::Require(Missing::Target), t), (Op::Read, t)]
            }
        },
        Request::Home => seq![ws, (Op::Shell, root)],
        Request::Remove { path } => {
            let t = joined(root, path@);
            if !is_rel_path(path@) {
                seq![ws]
            } else {
                seq![ws, (Op::Require(Missing::Target), t), (Op::Wipe, t)]
            }
        },
        Request::Enter { dir } => {
            let t = joined(root, dir@);
            if !is_rel_path(dir@) {
                seq![ws]
            } else {
                seq![ws, (Op::Require(Missing::Subdirectory), t), (Op::Shell, t)]
            }
        },
        Request::Usage => seq![],
    }
}

/// How a request ends once all its steps went through: its report, or the
/// refusal of a segment that would leave the workspace.
pub open spec fn closing(req: Request, root: Seq<char>) -> OutcomeView {
    let none = Seq::<char>::empty();
    match req {
        Request::Init => Ok((Finished::Initialized, root, seq![])),
        Request::Add { name, parent } => {
            let base = resolved(root, opt_view(parent));
            let target = joined(base, name@);
            if !valid_seg(opt_view(parent)) {
                Err((Fault::ParentNotFound, base, none))
            } else if !is_rel_path(name@) {
                Err((Fault::CreateFailed, target, none))
            } else {
                Ok((Finished::Created, target, seq![]))
            }
        },
        Request::List { subdir } => {
            let t = resolved(root, opt_view(subdir));
            if !valid_seg(opt_view(subdir)) {
                Err((Fault::TargetNotFound, t, none))
            } else {
                Ok((Finished::Listed, t, seq![]))
            }
        },
        Request::Home => Ok((Finished::ShellClosed, root, seq![])),
        Request::Remove { path } => {
            let t = joined(root, path@);
            if !is_rel_path(path@) {
                Err((Fault::TargetNotFound, t, none))
            } else {
                Ok((Finished::Removed, t, seq![]))
            }
        },
        Request::Enter { dir } => {
            let t = joined(root, dir@);
            if !is_rel_path(dir@) {
                Err((Fault::SubdirectoryNotFound, t, none))
            } else {
                Ok((Finished::ShellClosed, t, seq![]))
            }
        },
        Request::Usage => Ok((Finished::Usage, none, seq![])),
    }
}

/// Names of the entries that are directories, in the order given.
pub open spec fn dir_names(es: Seq<(Seq<char>, bool)>) -> Seq<Seq<char>>
    decreases es.len(),
{
    if es.len() == 0 {
        seq![]
    } else {
        let rest = dir_names(es.drop_last());
        if es.last().1 {
            rest.push(es.last().0)
        } else {
            rest
        }
    }
}

/// The host's words carried by a failure event, if any.
pub open spec fn detail_of(ev: EventView) -> Seq<char> {
    match ev {
        EventView::Failed(m) => m,
        _ => Seq::empty(),
    }
}

/// What an observation means for a step: `None` to go on with the next
/// step, or the outcome that ends the command.
pub open spec fn settle(step: (Op, Seq<char>), ev: EventView) -> Option<OutcomeView> {
    let path = step.1;
    match step.0 {
        Op::Require(m) => if ev == EventView::Exists(true) {
            None
        } else {
            Some(Err((missing_fault(m), path, Seq::empty())))
        },
        Op::Unless => if ev == EventView::Exists(true) {
            Some(Ok((Finished::AlreadyInitialized, path, seq![])))
        } else {
            None
        },
        Op::Create => if ev == EventView::Done {
            None
        } else {
            Some(Err((Fault::CreateFailed, path, detail_of(ev))))
        },
        Op::Read => match ev {
            EventView::Entries(es) => Some(Ok((Finished::Listed, path, dir_names(es)))),
            _ => Some(Err((Fault::ReadFailed, path, detail_of(ev)))),
        },
        Op::Wipe => if ev == EventView::Done {
            None
        } else {
            Some(Err((Fault::RemoveFailed, path, detail_of(ev))))
        },
        Op::Shell => match ev {
            EventView::Exited(true) => None,
            EventView::Exited(false) => Some(Err((Fault::ShellNonZeroExit, path, Seq::empty()))),
            _ => Some(Err((Fault::ShellSpawnFailed, path, detail_of(ev)))),
        },
    }
}

/// Names of the directory entries, in the order the host gave them; other
/// entries are left out.
pub fn directory_names(entries: &Vec<Entry>) -> (r: Vec<String>)
    ensures
        names_view(r@) == dir_names(entries_view(entries@)),
{
    let mut r: Vec<String> = Vec::new();
    let mut i: usize = 0;
    while i < entries.len()
        invariant
            i <= entries.len(),
            names_view(r@) == dir_names(entries_view(entries@).take(i as int)),
        decreases entries.len() - i,
    {
        let ghost es = entries_view(entries@);
        assert(es.take(i + 1).drop_last() =~= es.take(i as int));
        if entries[i].is_dir {
            let ghost before = r@;
            r.push(entries[i].name.clone());
            assert(names_view(r@) =~= names_view(before).push(entries[i as int].name@));
        }
        i = i + 1;
    }
    assert(entries_view(entries@).take(entries.len() as int) =~= entries_view(entries@));
    r
}

pub struct SessionView {
    pub steps: Seq<(Op, Seq<char>)>,
    pub pos: nat,
    pub closing: OutcomeView,
    pub verdict: Option<OutcomeView>,
}

impl SessionView {
    /// No step is left to carry out.
    pub open spec fn is_over(self) -> bool {
        self.verdict is Some || self.pos >= self.steps.len()
    }

    /// How the command ends, once it is over.
    pub open spec fn outcome(self) -> OutcomeView {
        match self.verdict {
            Some(o) => o,
            None => self.closing,
        }
    }
}

/// One command in progress: its steps, how far it got, and how it ended.
pub struct Session {
    steps: Vec<Step>,
    pos: usize,
    closing: Result<Report, RepoError>,
    verdict: Option<Result<Report, RepoError>>,
}

impl View for Session {
    type V = SessionView;

    closed spec fn view(&self) -> SessionView {
        SessionView {
            steps: self.steps@.map_values(|st: Step| st@),
            pos: self.pos as nat,
            closing: outcome_view(self.closing),
            verdict: match self.verdict {
                Some(o) => Some(outcome_view(o)),
                None => None,
            },
        }
    }
}

fn step(op: Op, path: String) -> (r: Step)
    ensures
        r@ == (op, path@),
{
    Step { op, path }
}

fn report(kind: Finished, path: String) -> (r: Report)
    ensures
        r@ == (kind, path@, Seq::<Seq<char>>::empty()),
{
    let r = Report { kind, path, names: Vec::new() };
    assert(names_view(r.names@) =~= Seq::<Seq<char>>::empty());
    r
}

impl Session {
    /// Starts `req` in the workspace at `root`.
    pub fn new(req: Request, root: String) -> (r: Session)
        ensures
            r@.steps == plan(req, root@),
            r@.closing == closing(req, root@),
            r@.pos == 0,
            r@.verdict is None,
            !admissible(req) ==> r@.closing is Err && forall|i: int|
                0 <= i < r@.steps.len() ==> !acts(#[trigger] r@.steps[i].0),
    {
        let mut steps: Vec<Step> = Vec::new();
        let end: Result<Report, RepoError>;
        match req {
            Request::Init => {
                steps.push(step(Op::Unless, root.clone()));
                steps.push(step(Op::Create, root.clone()));
                steps.push(step(Op::Create, join(root.as_str(), CLIENT_DIR)));
                steps.push(step(Op::Create, join(root.as_str(), TEST_DIR)));
                steps.push(step(Op::Create, join(root.as_str(), PRACTICE_DIR)));
                end = Ok(report(Finished::Initialized, root));
            },
            Request::Add { name, parent } => {
                let (base, parent_ok) = match &parent {
                    Some(p) => (resolve(root.as_str(), Some(p.as_str())), is_relative_path(p.as_str())),
                    None => (resolve(root.as_str(), None), true),
                };
                let target = join(base.as_str(), name.as_str());
                steps.push(step(Op::Require(Missing::Workspace), root));
                if !parent_ok {
                    end = Err(RepoError::bare(Fault::ParentNotFound, base));
                } else if !is_relative_path(name.as_str()) {
                    steps.push(step(Op::Require(Missing::Parent), base));
                    end = Err(RepoError::bare(Fault::CreateFailed, target));
                } else {
                    steps.push(step(Op::Require(Missing::Parent), base));
                    steps.push(step(Op::Create, target.clone()));
                    end = Ok(report(Finished::Created, target));
                }
            },
            Request::List { subdir } => {
                let (t, ok) = match &subdir {
                    Some(d) => (resolve(root.as_str(), Some(d.as_str())), is_relative_path(d.as_str())),
                    None => (resolve(root.as_str(), None), true),
                };
                steps.push(step(Op::Require(Missing::Workspace), root));
                if !ok {
                    end = Err(RepoError::bare(Fault::TargetNotFound, t));
                } else {
                    steps.push(step(Op::Require(Missing::Target), t.clone()));
                    steps.push(step(Op::Read, t.clone()));
                    end = Ok(report(Finished::Listed, t));
                }
            },
            Request::Home => {
                steps.push(step(Op::Require(Missing::Workspace), root.clone()));
                steps.push(step(Op::Shell, root.clone()));
                end = Ok(report(Finished::ShellClosed, root));
            },
            Request::Remove { path } => {
                let t = join(root.as_str(), path.as_str());
                steps.push(step(Op::Require(Missing::Workspace), root));
                if !is_relative_path(path.as_str()) {
                    end = Err(RepoError::bare(Fault::TargetNotFound, t));
                } else {
                    steps.push(step(Op::Require(Missing::Target), t.clone()));
                    steps.push(step(Op::Wipe, t.clone()));
                    end = Ok(report(Finished::Removed, t));
                }
            },
            Request::Enter { dir } => {
                let t = join(root.as_str(), dir.as_str());
                steps.push(step(Op::Require(Missing::Workspace), root));
                if !is_relative_path(dir.as_str()) {
                    end = Err(RepoError::bare(Fault::SubdirectoryNotFound, t));
                } else {
                    steps.push(step(Op::Require(Missing::Subdirectory), t.clone()));
                    steps.push(step(Op::Shell, t.clone()));
                    end = Ok(report(Finished::ShellClosed, t));
                }
            },
            Request::Usage => {
                end = Ok(report(Finished::Usage, String::new()));
            },
        }
        let r = Session { steps, pos: 0, closing: end, verdict: None };
        assert(r@.steps =~= plan(req, root@));
        r
    }

    /// Whether the command has ended.
    pub fn is_over(&self) -> (r: bool)
        ensures
            r == self@.is_over(),
    {
        self.verdict.is_some() || self.pos >= self.steps.len()
    }

    /// The step that the caller is to carry out next, if any.
    pub fn pending(&self) -> (r: Option<&Step>)
        ensures
            match r {
                Some(st) => !self@.is_over() && st@ == self@.steps[self@.pos as int],
                None => self@.is_over(),
            },
    {
        if self.verdict.is_some() || self.pos >= self.steps.len() {
            None
        } else {
            Some(&self.steps[self.pos])
        }
    }

    /// Takes in what the caller observed while carrying out the pending step.
    pub fn advance(&mut self, ev: Event)
        requires
            !old(self)@.is_over(),
        ensures
            final(self)@.steps == old(self)@.steps,
            final(self)@.closing == old(self)@.closing,
            final(self)@.pos <= final(self)@.steps.len(),
            match settle(old(self)@.steps[old(self)@.pos as int], ev@) {
                Some(o) => final(self)@.verdict == Some(o) && final(self)@.pos == old(self)@.pos,
                None => final(self)@.verdict is None && final(self)@.pos == old(self)@.pos + 1,
            },
    {
        let n: usize = self.steps.len();
        assert(self.pos < n);
        let op = self.steps[self.pos].op;
        let path = self.steps[self.pos].path.clone();
        let verdict: Option<Result<Report, RepoError>> = match op {
            Op::Require(m) => match ev {
                Event::Exists(true) => None,
                _ => Some(Err(RepoError::bare(missing_kind(m), path))),
            },
            Op::Unless => match ev {
                Event::Exists(true) => Some(Ok(report(Finished::AlreadyInitialized, path))),
                _ => None,
            },
            Op::Create => match ev {
                Event::Done => None,
                _ => Some(Err(failure(Fault::CreateFailed, path, ev))),
            },
            Op::Read => match ev {
                Event::Entries(es) => {
                    let names = directory_names(&es);
                    Some(Ok(Report { kind: Finished::Listed, path, names }))
                },
                _ => Some(Err(failure(Fault::ReadFailed, path, ev))),
            },
            Op::Wipe => match ev {
                Event::Done => None,
                _ => Some(Err(failure(Fault::RemoveFailed, path, ev))),
            },
            Op::Shell => match ev {
                Event::Exited(true) => None,
                Event::Exited(false) => Some(Err(RepoError::bare(Fault::ShellNonZeroExit, path))),
                _ => Some(Err(failure(Fault::ShellSpawnFailed, path, ev))),
            },
        };
        match verdict {
            Some(o) => {
                self.verdict = Some(o);
            },
            None => {
                self.pos = self.pos + 1;
            },
        }
    }

    /// How the command ended.
    pub fn into_outcome(self) -> (r: Result<Report, RepoError>)
        requires
            self@.is_over(),
        ensures
            outcome_view(r) == self@.outcome(),
    {
        match self.verdict {
            Some(o) => o,
            None => self.closing,
        }
    }
}

/// The error that a missing directory gives.
pub fn missing_kind(m: Missing) -> (r: Fault)
    ensures
        r == missing_fault(m),
{
    match m {
        Missing::Workspace => Fault::WorkspaceNotInitialized,
        Missing::Parent => Fault::ParentNotFound,
        Missing::Target => Fault::TargetNotFound,
        Missing::Subdirectory => Fault::SubdirectoryNotFound,
    }
}

fn failure(kind: Fault, path: String, ev: Event) -> (r: RepoError)
    ensures
        r@ == (kind, path@, detail_of(ev@)),
{
    match ev {
        Event::Failed(m) => RepoError { kind, path, detail: m },
        _ => RepoError::bare(kind, path),
    }
}

/// The request for a command line: the named subcommand if there is one,
/// else a bare subdirectory to open a shell in, else the usage hint.
pub fn dispatch(sub: Option<Request>, bare: Option<String>) -> (r: Request)
    ensures
        match sub {
            Some(q) => r == q,
            None => match bare {
                Some(d) => r matches Request::Enter { dir } && dir@ == d@,
                None => r is Usage,
            },
        },
{
    match sub {
        Some(q) => q,
        None => match bare {
            Some(d) => Request::Enter { dir: d },
            None => Request::Usage,
        },
    }
}

/// Starts `req` in the workspace under the home directory. Only the usage
/// hint goes ahead when the host supplies no home directory.
pub fn begin(req: Request, home: Option<String>) -> (r: Result<Session, RepoError>)
    ensures
        match home {
            Some(h) => r matches Ok(s) && s@.steps == plan(req, joined(h@, WORKSPACE_DIR@))
                && s@.closing == closing(req, joined(h@, WORKSPACE_DIR@)) && s@.pos == 0
                && s@.verdict is None,
            None => if req is Usage {
                r matches Ok(s) && s@.steps.len() == 0 && s@.closing == closing(
                    req,
                    Seq::empty(),
                ) && s@.pos == 0 && s@.verdict is None
            } else {
                r matches Err(e) && e@ == (
                    Fault::HomeDirectoryUnavailable,
                    Seq::<char>::empty(),
                    Seq::<char>::empty(),
                )
            },
        },
{
    if home.is_none() {
        if let Request::Usage = req {
            return Ok(Session::new(req, String::new()));
        }
    }
    match workspace_root(home) {
        Ok(root) => Ok(Session::new(req, root)),
        Err(e) => Err(e),
    }
}

/// The process exit status for how a command ended.
pub fn exit_code(o: &Result<Report, RepoError>) -> (r: i32)
    ensures
        r == if o is Ok { 0i32 } else { 1i32 },
{
    match o {
        Ok(_) => 0,
        Err(_) => 1,
    }
}

} // verus!
