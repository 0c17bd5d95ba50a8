//! The tree scanner: a depth-first, pre-order walk of a set of roots as a
//! machine that asks its driver for one filesystem operation at a time.
//!
//! The driver calls [`Scanner::step`] with what the last operation gave
//! and carries out the action that comes back. The machine decides which
//! paths are looked at, which become entries of the archive, and what
//! follows a failure; it never touches the filesystem itself.

use crate::path::{
    archive_name, byte_strings, get_name, join, joined, optional_bytes, to_vec, PathStyle,
};
use crate::pattern::{excluded_by, is_excluded, ExclusionPattern};
use crate::retry::{FailurePolicy, RetryDecision};
use crate::tags::{classify_directory, decided, KeepMode, TagRules};
use vstd::prelude::*;

verus! {

/// What tells one file from every other: the storage it lies on and its
/// number there.
#[derive(Clone, Copy, Debug, PartialEq, Eq, Structural)]
pub struct FileIdentity {
    pub storage: u64,
    pub file: u128,
}

/// One entry for the archive: where it lies and how it is named inside
/// the archive.
#[derive(Debug)]
pub struct ScanEntry {
    pub path: Vec<u8>,
    pub name: Vec<u8>,
}

/// The settings of a scan.
pub struct ScanConfig {
    /// The exclusion patterns.
    pub patterns: Vec<ExclusionPattern>,
    /// The tag rules.
    pub tags: TagRules,
    /// Whether a symbolic link is looked through to what it points at.
    pub follow_symlinks: bool,
    /// The identity of the file that the archive is written to.
    pub output: FileIdentity,
    /// How paths are written.
    pub style: PathStyle,
}

/// A path that waits to be scanned.
pub struct Visit {
    pub path: Vec<u8>,
    pub name: Vec<u8>,
    /// Whether the path is held against the exclusion patterns.
    pub recheck: bool,
    /// Whether the path is a configured root, yet to be resolved and named.
    pub root: bool,
    /// The directories that the scan came through to reach the path, from
    /// the root down, each with whether it was held against the patterns.
    pub lineage: Ghost<Seq<(Seq<u8>, bool)>>,
}

/// A [`Visit`] as contracts see it.
pub struct VisitView {
    pub path: Seq<u8>,
    pub name: Seq<u8>,
    pub recheck: bool,
    pub root: bool,
    pub lineage: Seq<(Seq<u8>, bool)>,
}

impl View for Visit {
    type V = VisitView;

    open spec fn view(&self) -> VisitView {
        VisitView {
            path: self.path@,
            name: self.name@,
            recheck: self.recheck,
            root: self.root,
            lineage: self.lineage@,
        }
    }
}

/// Which answer the machine waits for.
#[derive(Clone, Copy, Debug, PartialEq, Eq, Structural)]
pub enum Phase {
    /// Nothing has been asked yet.
    Idle,
    /// The canonical form of a root.
    Resolve,
    /// The kind of the current path.
    Stat,
    /// The identity of the current path.
    Identify,
    /// The children of the current directory.
    List,
    /// The current path being added to the archive.
    Emit,
    /// Nothing: the scan is over.
    Done,
    /// Nothing: the scan was given up because the container could not be
    /// written.
    Broken,
}

/// What the machine asks its driver to do.
#[derive(Debug)]
pub enum ScanAction {
    /// Resolve the root `path` to its canonical form.
    Resolve { path: Vec<u8> },
    /// Say whether `path` is a directory and whether it is a symbolic
    /// link, from the target's metadata if `follow_symlinks` and from the
    /// link's own otherwise.
    Stat { path: Vec<u8>, follow_symlinks: bool },
    /// Say which file `path` is.
    Identify { path: Vec<u8> },
    /// List the names of the children of the directory `path`.
    List { path: Vec<u8> },
    /// Append `entry` to the archive.
    Archive { entry: ScanEntry },
    /// Ask the operator what to do about the failure on `path`.
    Ask { path: Vec<u8> },
    /// Nothing more: the scan is over.
    Finished,
    /// Nothing more: the container is broken, and the run is to end as a
    /// failure.
    Abort,
}

/// A [`ScanAction`] as contracts see it.
pub enum ScanActionView {
    Resolve { path: Seq<u8> },
    Stat { path: Seq<u8>, follow_symlinks: bool },
    Identify { path: Seq<u8> },
    List { path: Seq<u8> },
    Archive { path: Seq<u8>, name: Seq<u8> },
    Ask { path: Seq<u8> },
    Finished,
    Abort,
}

impl View for ScanAction {
    type V = ScanActionView;

    open spec fn view(&self) -> ScanActionView {
        match self {
            ScanAction::Resolve { path } => ScanActionView::Resolve { path: path@ },
            ScanAction::Stat { path, follow_symlinks } => ScanActionView::Stat {
                path: path@,
                follow_symlinks: *follow_symlinks,
            },
            ScanAction::Identify { path } => ScanActionView::Identify { path: path@ },
            ScanAction::List { path } => ScanActionView::List { path: path@ },
            ScanAction::Archive { entry } => ScanActionView::Archive {
                path: entry.path@,
                name: entry.name@,
            },
            ScanAction::Ask { path } => ScanActionView::Ask { path: path@ },
            ScanAction::Finished => ScanActionView::Finished,
            ScanAction::Abort => ScanActionView::Abort,
        }
    }
}

/// What the driver reports back.
#[derive(Debug)]
pub enum ScanEvent {
    /// The scan starts.
    Begin,
    /// The canonical form of the root.
    Resolved { path: Vec<u8> },
    /// The kind of the path.
    Metadata { is_dir: bool, is_symlink: bool },
    /// The identity of the path.
    Identity { id: FileIdentity },
    /// The platform tells no identity for a path of this kind.
    Unidentified,
    /// The names of the directory's children, in filesystem order.
    Listing { names: Vec<Vec<u8>> },
    /// The entry is in the archive.
    Archived,
    /// The operation failed because the path could not be read.
    Failed,
    /// The container could not be written.
    WriteFailed,
    /// The operator's answer.
    Decision { answer: RetryDecision },
}

/// A [`ScanEvent`] as contracts see it.
pub enum ScanEventView {
    Begin,
    Resolved { path: Seq<u8> },
    Metadata { is_dir: bool, is_symlink: bool },
    Identity { id: FileIdentity },
    Unidentified,
    Listing { names: Seq<Seq<u8>> },
    Archived,
    Failed,
    WriteFailed,
    Decision { answer: RetryDecision },
}

impl View for ScanEvent {
    type V = ScanEventView;

    open spec fn view(&self) -> ScanEventView {
        match self {
            ScanEvent::Begin => ScanEventView::Begin,
            ScanEvent::Resolved { path } => ScanEventView::Resolved { path: path@ },
            ScanEvent::Metadata { is_dir, is_symlink } => ScanEventView::Metadata {
                is_dir: *is_dir,
                is_symlink: *is_symlink,
            },
            ScanEvent::Identity { id } => ScanEventView::Identity { id: *id },
            ScanEvent::Unidentified => ScanEventView::Unidentified,
            ScanEvent::WriteFailed => ScanEventView::WriteFailed,
            ScanEvent::Listing { names } => ScanEventView::Listing { names: byte_strings(names@) },
            ScanEvent::Archived => ScanEventView::Archived,
            ScanEvent::Failed => ScanEventView::Failed,
            ScanEvent::Decision { answer } => ScanEventView::Decision { answer: *answer },
        }
    }
}

/// The state of a scan as contracts see it.
pub struct ScannerView {
    /// The paths that wait, the next one first.
    pub pending: Seq<VisitView>,
    /// The path at hand; meaningless in the phases `Idle` and `Done`.
    pub current: VisitView,
    pub phase: Phase,
    /// Whether the path at hand is a directory that is walked into.
    pub directory: bool,
    /// The names of the children that stay.
    pub children: Seq<Seq<u8>>,
    /// Whether the children stay whatever the exclusion patterns say.
    pub forced: bool,
    /// Whether the operator's answer is awaited.
    pub asking: bool,
    /// The identity that was reported for the path at hand, once it was.
    pub identity: Option<FileIdentity>,
    /// What the names of the roots are placed below.
    pub name_start: Option<Seq<u8>>,
}

/// The path at hand when there is none.
pub open spec fn no_visit() -> VisitView {
    VisitView {
        path: Seq::<u8>::empty(),
        name: Seq::<u8>::empty(),
        recheck: false,
        root: false,
        lineage: Seq::<(Seq<u8>, bool)>::empty(),
    }
}

/// The state in which the next waiting path that is let in is at hand: a
/// root to be resolved, or another path to be looked at. A path is let in
/// if no pattern excludes it or if it is held against none; the paths
/// that a pattern excludes are dropped on the way, before anything is
/// asked of the filesystem.
pub open spec fn advanced(
    pending: Seq<VisitView>,
    name_start: Option<Seq<u8>>,
    patterns: Seq<ExclusionPattern>,
) -> ScannerView
    decreases pending.len(),
{
    if pending.len() == 0 {
        ScannerView {
            pending,
            current: no_visit(),
            phase: Phase::Done,
            directory: false,
            children: Seq::<Seq<u8>>::empty(),
            forced: false,
            asking: false,
            identity: None,
            name_start,
        }
    } else {
        let next = pending[0];
        let rest = pending.drop_first();
        if next.recheck && excluded_by(patterns, next.path) {
            advanced(rest, name_start, patterns)
        } else {
            ScannerView {
                pending: rest,
                current: next,
                phase: if next.root {
                    Phase::Resolve
                } else {
                    Phase::Stat
                },
                directory: false,
                children: Seq::<Seq<u8>>::empty(),
                forced: false,
                asking: false,
                identity: None,
                name_start,
            }
        }
    }
}

/// The visits that the children of the path at hand give rise to.
pub open spec fn child_visits(s: ScannerView, sep: u8) -> Seq<VisitView> {
    Seq::new(
        s.children.len(),
        |i: int|
            VisitView {
                path: joined(s.current.path, s.children[i], sep),
                name: joined(s.current.name, s.children[i], sep),
                recheck: !s.forced,
                root: false,
                lineage: s.current.lineage.push((s.current.path, s.current.recheck)),
            },
    )
}

/// The state at the start of a scan of `roots`.
pub open spec fn initial(roots: Seq<Seq<u8>>, name_start: Option<Seq<u8>>) -> ScannerView {
    ScannerView {
        pending: Seq::new(
            roots.len(),
            |i: int|
                VisitView {
                    path: roots[i],
                    name: Seq::<u8>::empty(),
                    recheck: true,
                    root: true,
                    lineage: Seq::<(Seq<u8>, bool)>::empty(),
                },
        ),
        current: no_visit(),
        phase: Phase::Idle,
        directory: false,
        children: Seq::<Seq<u8>>::empty(),
        forced: false,
        asking: false,
        identity: None,
        name_start,
    }
}

/// The state at the start of a scan of the one path `path`, archived
/// under `name`.
pub open spec fn single(path: Seq<u8>, name: Seq<u8>) -> ScannerView {
    ScannerView {
        pending: seq![
            VisitView {
                path,
                name,
                recheck: true,
                root: false,
                lineage: Seq::<(Seq<u8>, bool)>::empty(),
            },
        ],
        current: no_visit(),
        phase: Phase::Idle,
        directory: false,
        children: Seq::<Seq<u8>>::empty(),
        forced: false,
        asking: false,
        identity: None,
        name_start: None,
    }
}

/// The state after a failure to read the path at hand: the path is given
/// up at once where the choice to skip all failures was made, and else
/// the failure is put to the operator.
pub open spec fn failed(s: ScannerView, skip_all: bool, patterns: Seq<ExclusionPattern>) -> (
    ScannerView,
    bool,
) {
    if skip_all {
        (advanced(s.pending, s.name_start, patterns), skip_all)
    } else {
        (ScannerView { asking: true, ..s }, skip_all)
    }
}

/// The state after `event`, and whether failures are skipped without
/// asking from then on.
///
/// A failure to write the container ends the scan for good: nobody is
/// asked, and nothing more is archived. A failure to read a path is
/// skipped at once where that choice was made, and else put to the
/// operator; the answer to retry leaves the same operation to be asked
/// for again, any other answer gives up the path at hand with all below
/// it. A resolved root is named and held against the patterns. A path
/// whose identity is that of the output is dropped; a directory of which
/// the platform tells no identity is not the output, which is a file. A
/// directory is walked into unless it is a symbolic link that is not
/// followed; its children decide by the tag rules what is kept of it. A
/// path that was archived hands its children on, ahead of all that wait.
/// An event that the phase does not expect changes nothing.
pub open spec fn stepped(s: ScannerView, skip_all: bool, event: ScanEventView, cfg: ScanConfig) -> (
    ScannerView,
    bool,
) {
    let patterns = cfg.patterns@;
    if s.phase == Phase::Done || s.phase == Phase::Broken {
        (s, skip_all)
    } else if s.phase == Phase::Idle {
        if event is Begin {
            (advanced(s.pending, s.name_start, patterns), skip_all)
        } else {
            (s, skip_all)
        }
    } else if event is WriteFailed {
        (ScannerView { phase: Phase::Broken, asking: false, ..s }, skip_all)
    } else if s.asking {
        match event {
            ScanEventView::Decision { answer } => if answer == RetryDecision::Retry {
                (ScannerView { asking: false, ..s }, skip_all)
            } else {
                (
                    advanced(s.pending, s.name_start, patterns),
                    skip_all || answer == RetryDecision::SkipAllFuture,
                )
            },
            _ => (s, skip_all),
        }
    } else {
        match event {
            ScanEventView::Failed => failed(s, skip_all, patterns),
            ScanEventView::Unidentified => if s.phase == Phase::Identify {
                if s.directory {
                    (ScannerView { identity: None, phase: Phase::List, ..s }, skip_all)
                } else {
                    failed(s, skip_all, patterns)
                }
            } else {
                (s, skip_all)
            },
            ScanEventView::Resolved { path } => if s.phase == Phase::Resolve {
                if excluded_by(patterns, path) {
                    (advanced(s.pending, s.name_start, patterns), skip_all)
                } else {
                    (
                        ScannerView {
                            current: VisitView {
                                path,
                                name: archive_name(path, s.name_start, cfg.style),
                                recheck: true,
                                root: true,
                                lineage: Seq::<(Seq<u8>, bool)>::empty(),
                            },
                            phase: Phase::Stat,
                            ..s
                        },
                        skip_all,
                    )
                }
            } else {
                (s, skip_all)
            },
            ScanEventView::Metadata { is_dir, is_symlink } => if s.phase == Phase::Stat {
                (
                    ScannerView {
                        directory: is_dir && (cfg.follow_symlinks || !is_symlink),
                        phase: Phase::Identify,
                        ..s
                    },
                    skip_all,
                )
            } else {
                (s, skip_all)
            },
            ScanEventView::Identity { id } => if s.phase == Phase::Identify {
                if id == cfg.output {
                    (advanced(s.pending, s.name_start, patterns), skip_all)
                } else if s.directory {
                    (ScannerView { identity: Some(id), phase: Phase::List, ..s }, skip_all)
                } else {
                    (ScannerView { identity: Some(id), phase: Phase::Emit, ..s }, skip_all)
                }
            } else {
                (s, skip_all)
            },
            ScanEventView::Listing { names } => if s.phase == Phase::List {
                let decision = decided(names, cfg.tags@);
                if decision.1 == KeepMode::Nothing {
                    (advanced(s.pending, s.name_start, patterns), skip_all)
                } else {
                    (
                        ScannerView {
                            children: decision.0,
                            forced: decision.1 == KeepMode::Tag,
                            phase: Phase::Emit,
                            ..s
                        },
                        skip_all,
                    )
                }
            } else {
                (s, skip_all)
            },
            ScanEventView::Archived => if s.phase == Phase::Emit {
                (
                    advanced(child_visits(s, cfg.style.sep()) + s.pending, s.name_start, patterns),
                    skip_all,
                )
            } else {
                (s, skip_all)
            },
            _ => (s, skip_all),
        }
    }
}

/// The action that the state `s` asks for.
pub open spec fn announced(s: ScannerView, follow_symlinks: bool) -> ScanActionView {
    match s.phase {
        Phase::Idle | Phase::Done => ScanActionView::Finished,
        Phase::Broken => ScanActionView::Abort,
        _ => if s.asking {
            ScanActionView::Ask { path: s.current.path }
        } else {
            match s.phase {
                Phase::Resolve => ScanActionView::Resolve { path: s.current.path },
                Phase::Stat => ScanActionView::Stat { path: s.current.path, follow_symlinks },
                Phase::Identify => ScanActionView::Identify { path: s.current.path },
                Phase::List => ScanActionView::List { path: s.current.path },
                _ => ScanActionView::Archive { path: s.current.path, name: s.current.name },
            }
        },
    }
}

/// The waiting paths that a stack holds, the top of the stack first.
pub open spec fn pending_of(stack: Seq<Visit>) -> Seq<VisitView> {
    Seq::new(stack.len(), |i: int| stack[stack.len() - 1 - i]@)
}

/// A scan in progress.
pub struct Scanner {
    stack: Vec<Visit>,
    current: Visit,
    phase: Phase,
    directory: bool,
    children: Vec<Vec<u8>>,
    forced: bool,
    asking: bool,
    identity: Option<FileIdentity>,
    name_start: Option<Vec<u8>>,
}

impl View for Scanner {
    type V = ScannerView;

    closed spec fn view(&self) -> ScannerView {
        ScannerView {
            pending: pending_of(self.stack@),
            current: self.current@,
            phase: self.phase,
            directory: self.directory,
            children: byte_strings(self.children@),
            forced: self.forced,
            asking: self.asking,
            identity: self.identity,
            name_start: optional_bytes(self.name_start),
        }
    }
}

fn idle_visit() -> (v: Visit)
    ensures
        v@ == no_visit(),
{
    Visit { path: Vec::new(), name: Vec::new(), recheck: false, root: false, lineage: Ghost(Seq::empty()) }
}

impl Scanner {
    /// A scan of `roots`, in their order, that has not begun. The names
    /// of the roots are placed below `name_start` where there is one.
    pub fn new(roots: &Vec<Vec<u8>>, name_start: Option<Vec<u8>>) -> (s: Scanner)
        ensures
            s@ == initial(byte_strings(roots@), optional_bytes(name_start)),
    {
        let mut stack: Vec<Visit> = Vec::new();
        let n = roots.len();
        let mut k: usize = n;
        while k > 0
            invariant
                k <= n,
                n == roots.len(),
                stack.len() == n - k,
                forall|j: int|
                    0 <= j < stack.len() ==> (#[trigger] stack[j])@ == (VisitView {
                        path: roots[n - 1 - j]@,
                        name: Seq::<u8>::empty(),
                        recheck: true,
                        root: true,
                        lineage: Seq::<(Seq<u8>, bool)>::empty(),
                    }),
            decreases k,
        {
            k -= 1;
            stack.push(
                Visit {
                    path: to_vec(roots[k].as_slice()),
                    name: Vec::new(),
                    recheck: true,
                    root: true,
                    lineage: Ghost(Seq::empty()),
                },
            );
        }
        let s = Scanner {
            stack,
            current: idle_visit(),
            phase: Phase::Idle,
            directory: false,
            children: Vec::new(),
            forced: false,
            asking: false,
            identity: None,
            name_start,
        };
        assert(s@.pending =~= initial(byte_strings(roots@), optional_bytes(name_start)).pending);
        assert(s@.children =~= Seq::<Seq<u8>>::empty());
        s
    }

    /// A scan of the one path `path`, already in canonical form, archived
    /// under `name`, that has not begun.
    pub fn scan_path(path: Vec<u8>, name: Vec<u8>) -> (s: Scanner)
        ensures
            s@ == single(path@, name@),
    {
        let mut stack: Vec<Visit> = Vec::new();
        stack.push(Visit { path, name, recheck: true, root: false, lineage: Ghost(Seq::empty()) });
        let s = Scanner {
            stack,
            current: idle_visit(),
            phase: Phase::Idle,
            directory: false,
            children: Vec::new(),
            forced: false,
            asking: false,
            identity: None,
            name_start: None,
        };
        assert(s@.pending =~= single(path@, name@).pending);
        assert(s@.children =~= Seq::<Seq<u8>>::empty());
        s
    }

    /// Which answer the scan waits for.
    pub fn phase(&self) -> (phase: Phase)
        ensures
            phase == self@.phase,
    {
        self.phase
    }

    /// Whether the scan is over.
    pub fn is_finished(&self) -> (b: bool)
        ensures
            b == (self@.phase == Phase::Done),
    {
        match self.phase {
            Phase::Done => true,
            _ => false,
        }
    }

    /// Whether the scan was given up because the container could not be
    /// written.
    pub fn is_broken(&self) -> (b: bool)
        ensures
            b == (self@.phase == Phase::Broken),
    {
        match self.phase {
            Phase::Broken => true,
            _ => false,
        }
    }

    /// Takes in a failure to read the path at hand.
    fn fail(&mut self, cfg: &ScanConfig, policy: &FailurePolicy)
        ensures
            (final(self)@, policy@) == failed(old(self)@, policy@, cfg.patterns@),
    {
        if policy.skips_all() {
            self.advance(cfg);
        } else {
            self.asking = true;
        }
    }

    /// Puts the next waiting path that is let in at hand.
    fn advance(&mut self, cfg: &ScanConfig)
        ensures
            final(self)@ == advanced(old(self)@.pending, old(self)@.name_start, cfg.patterns@),
    {
        self.directory = false;
        self.forced = false;
        self.asking = false;
        self.identity = None;
        self.children = Vec::new();
        assert(byte_strings(self.children@) =~= Seq::<Seq<u8>>::empty());
        loop
            invariant
                self.identity is None,
                self.directory == false,
                self.forced == false,
                self.asking == false,
                byte_strings(self.children@) == Seq::<Seq<u8>>::empty(),
                self.name_start == old(self).name_start,
                advanced(old(self)@.pending, old(self)@.name_start, cfg.patterns@) == advanced(
                    pending_of(self.stack@),
                    optional_bytes(self.name_start),
                    cfg.patterns@,
                ),
            decreases self.stack.len(),
        {
            let ghost before = self.stack@;
            match self.stack.pop() {
                None => {
                    self.current = idle_visit();
                    self.phase = Phase::Done;
                    assert(pending_of(self.stack@) =~= pending_of(before));
                    return ;
                },
                Some(next) => {
                    assert(pending_of(before)[0] == next@);
                    assert(pending_of(self.stack@) =~= pending_of(before).drop_first());
                    if next.recheck && is_excluded(&cfg.patterns, next.path.as_slice()) {
                        continue ;
                    }
                    self.phase = if next.root {
                        Phase::Resolve
                    } else {
                        Phase::Stat
                    };
                    self.current = next;
                    return ;
                },
            }
        }
    }

    /// Puts the children of the path at hand on top of the waiting paths.
    fn push_children(&mut self, cfg: &ScanConfig)
        ensures
            pending_of(final(self).stack@) == child_visits(old(self)@, cfg.style.sep()) + old(
                self,
            )@.pending,
            final(self).name_start == old(self).name_start,
    {
        let n = self.children.len();
        let ghost before = self.stack@;
        let ghost kids = child_visits(self@, cfg.style.sep());
        let mut k: usize = n;
        while k > 0
            invariant
                k <= n,
                n == self.children.len(),
                self.children == old(self).children,
                self.current == old(self).current,
                self.forced == old(self).forced,
                self.name_start == old(self).name_start,
                kids == child_visits(old(self)@, cfg.style.sep()),
                kids.len() == n,
                self.stack@.len() == before.len() + (n - k),
                forall|j: int| 0 <= j < before.len() ==> self.stack@[j] == before[j],
                forall|j: int|
                    0 <= j < n - k ==> (#[trigger] self.stack@[before.len() + j])@ == kids[n - 1
                        - j],
            decreases k,
        {
            k -= 1;
            let visit = Visit {
                path: join(self.current.path.as_slice(), self.children[k].as_slice(), cfg.style),
                name: join(self.current.name.as_slice(), self.children[k].as_slice(), cfg.style),
                recheck: !self.forced,
                root: false,
                lineage: Ghost(self.current.lineage@.push((self.current.path@, self.current.recheck))),
            };
            assert(visit@ == kids[k as int]);
            self.stack.push(visit);
        }
        let ghost stack = self.stack@;
        assert forall|i: int| 0 <= i < stack.len() implies pending_of(stack)[i] == (kids
            + pending_of(before))[i] by {
            if i < n {
                let j = n - 1 - i;
                assert(stack[before.len() + j]@ == kids[n - 1 - j]);
            } else {
                assert(stack[stack.len() - 1 - i] == before[stack.len() - 1 - i]);
            }
        }
        assert(pending_of(self.stack@) =~= kids + pending_of(before));
    }

    /// The action that the scan asks for.
    pub fn action(&self, cfg: &ScanConfig) -> (action: ScanAction)
        ensures
            action@ == announced(self@, cfg.follow_symlinks),
    {
        match self.phase {
            Phase::Idle | Phase::Done => {
                return ScanAction::Finished;
            },
            Phase::Broken => {
                return ScanAction::Abort;
            },
            _ => {},
        }
        let path = to_vec(self.current.path.as_slice());
        if self.asking {
            return ScanAction::Ask { path };
        }
        match self.phase {
            Phase::Resolve => ScanAction::Resolve { path },
            Phase::Stat => ScanAction::Stat { path, follow_symlinks: cfg.follow_symlinks },
            Phase::Identify => ScanAction::Identify { path },
            Phase::List => ScanAction::List { path },
            _ => ScanAction::Archive {
                entry: ScanEntry { path, name: to_vec(self.current.name.as_slice()) },
            },
        }
    }

    /// Takes in what the last action gave, and says what to do next.
    pub fn step(&mut self, event: ScanEvent, cfg: &ScanConfig, policy: &mut FailurePolicy) -> (action:
        ScanAction)
        ensures
            (final(self)@, final(policy)@) == stepped(old(self)@, old(policy)@, event@, *cfg),
            action@ == announced(final(self)@, cfg.follow_symlinks),
    {
        match self.phase {
            Phase::Done | Phase::Broken => {
                return self.action(cfg);
            },
            Phase::Idle => {
                match event {
                    ScanEvent::Begin => {
                        self.advance(cfg);
                    },
                    _ => {},
                }
                return self.action(cfg);
            },
            _ => {},
        }
        match event {
            ScanEvent::WriteFailed => {
                self.phase = Phase::Broken;
                self.asking = false;
                return self.action(cfg);
            },
            _ => {},
        }
        if self.asking {
            match event {
                ScanEvent::Decision { answer } => {
                    if policy.resolve(answer) {
                        self.advance(cfg);
                    } else {
                        self.asking = false;
                    }
                },
                _ => {},
            }
            return self.action(cfg);
        }
        match event {
            ScanEvent::Failed => {
                self.fail(cfg, policy);
            },
            ScanEvent::Unidentified => {
                match self.phase {
                    Phase::Identify => {
                        if self.directory {
                            self.identity = None;
                            self.phase = Phase::List;
                        } else {
                            self.fail(cfg, policy);
                        }
                    },
                    _ => {},
                }
            },
            ScanEvent::Resolved { path } => {
                match self.phase {
                    Phase::Resolve => {
                        if is_excluded(&cfg.patterns, path.as_slice()) {
                            self.advance(cfg);
                        } else {
                            let name = get_name(path.as_slice(), &self.name_start, cfg.style);
                            self.current = Visit {
                                path,
                                name,
                                recheck: true,
                                root: true,
                                lineage: Ghost(Seq::empty()),
                            };
                            self.phase = Phase::Stat;
                        }
                    },
                    _ => {},
                }
            },
            ScanEvent::Metadata { is_dir, is_symlink } => {
                match self.phase {
                    Phase::Stat => {
                        self.directory = is_dir && (cfg.follow_symlinks || !is_symlink);
                        self.phase = Phase::Identify;
                    },
                    _ => {},
                }
            },
            ScanEvent::Identity { id } => {
                match self.phase {
                    Phase::Identify => {
                        if id.storage == cfg.output.storage && id.file == cfg.output.file {
                            self.advance(cfg);
                        } else if self.directory {
                            self.identity = Some(id);
                            self.phase = Phase::List;
                        } else {
                            self.identity = Some(id);
                            self.phase = Phase::Emit;
                        }
                    },
                    _ => {},
                }
            },
            ScanEvent::Listing { names } => {
                match self.phase {
                    Phase::List => {
                        let decision = classify_directory(names, &cfg.tags);
                        match decision.keep_mode {
                            KeepMode::Nothing => {
                                self.advance(cfg);
                            },
                            mode => {
                                self.children = decision.entries_to_recurse;
                                self.forced = match mode {
                                    KeepMode::Tag => true,
                                    _ => false,
                                };
                                self.phase = Phase::Emit;
                            },
                        }
                    },
                    _ => {},
                }
            },
            ScanEvent::Archived => {
                match self.phase {
                    Phase::Emit => {
                        self.push_children(cfg);
                        self.advance(cfg);
                    },
                    _ => {},
                }
            },
            _ => {},
        }
        self.action(cfg)
    }
}

} // verus!
