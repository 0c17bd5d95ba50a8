//! The pipeline coordinator: which roots go into the container as they
//! are, and which directories become compressed members of their own.
//!
//! In single-stream mode every root is archived into one container. In
//! split mode the roots that are files are archived into the outer
//! container, and each root that is a directory becomes one compressed
//! member of it; a single directory is not wrapped but replaced by its
//! children. The coordinator is a machine like the scanner: the driver
//! carries out one action at a time and reports back.

use crate::path::{
    archive_name, byte_strings, get_name, join_all, joined_all, member_name, member_name_of,
    optional_bytes, to_vec, PathStyle,
};
use crate::pattern::{excluded_by, is_excluded, ExclusionPattern};
use crate::retry::{FailurePolicy, RetryDecision};
use crate::scanner::ScanConfig;
use crate::tags::{classify_directory, decided, KeepMode};
use vstd::prelude::*;

verus! {

/// Which answer the coordinator waits for.
#[derive(Clone, Copy, Debug, PartialEq, Eq, Structural)]
pub enum Stage {
    /// Nothing has been asked yet.
    Idle,
    /// Whether the root at hand is a directory.
    Probe,
    /// The roots that are files being archived.
    Files,
    /// The canonical form of the single directory.
    Resolve,
    /// The children of the single directory.
    Enumerate,
    /// The children of the directory that becomes a member.
    Members,
    /// The member being archived, compressed and embedded.
    Embed,
    /// The container being finished.
    Finish,
    /// Nothing: the run is over.
    Done,
    /// Nothing: the run was given up after a failure that nothing mends.
    Aborted,
}

/// One member handed off from the archiving side to the compressing
/// side. The paths in `roots` are scanned into a container of its own;
/// that container is compressed and embedded in the outer container
/// under the name `member`, with a header made from the metadata of the
/// directory `dir_path`. Only one hand-off is pending at any time.
#[derive(Debug)]
pub struct SubarchiveValues {
    /// The directory that the member stands for.
    pub dir_path: Vec<u8>,
    /// What the directory's name is placed below.
    pub name_start: Option<Vec<u8>>,
    /// The member's name in the outer container.
    pub member: Vec<u8>,
    /// The children of the directory that go into the member.
    pub roots: Vec<Vec<u8>>,
}

/// What the coordinator asks its driver to do.
#[derive(Debug)]
pub enum CoordinatorAction {
    /// Say whether `path` is a directory and whether it is a symbolic
    /// link, from the target's metadata if `follow_symlinks` and from the
    /// link's own otherwise.
    Probe { path: Vec<u8>, follow_symlinks: bool },
    /// Scan `roots` into the container, their names below `name_start`.
    Scan { roots: Vec<Vec<u8>>, name_start: Option<Vec<u8>> },
    /// Resolve `path` to its canonical form.
    Resolve { path: Vec<u8> },
    /// List the names of all children of `path`.
    Enumerate { path: Vec<u8> },
    /// List the names of the children of `path`, which is to become a
    /// member.
    ListMembers { path: Vec<u8> },
    /// Hand off one member, and wait until it is embedded.
    Embed { handoff: SubarchiveValues },
    /// Write the container's terminator.
    Finish,
    /// Ask the operator what to do about the failure on `path`.
    Ask { path: Vec<u8> },
    /// Nothing more: the run is over.
    Done,
    /// Nothing more: the run is to end as a failure.
    Abort,
}

/// A [`CoordinatorAction`] as contracts see it.
pub enum CoordinatorActionView {
    Probe { path: Seq<u8>, follow_symlinks: bool },
    Scan { roots: Seq<Seq<u8>>, name_start: Option<Seq<u8>> },
    Resolve { path: Seq<u8> },
    Enumerate { path: Seq<u8> },
    ListMembers { path: Seq<u8> },
    Embed {
        directory: Seq<u8>,
        name_start: Option<Seq<u8>>,
        member: Seq<u8>,
        roots: Seq<Seq<u8>>,
    },
    Finish,
    Ask { path: Seq<u8> },
    Done,
    Abort,
}

impl View for CoordinatorAction {
    type V = CoordinatorActionView;

    open spec fn view(&self) -> CoordinatorActionView {
        match self {
            CoordinatorAction::Probe { path, follow_symlinks } => CoordinatorActionView::Probe {
                path: path@,
                follow_symlinks: *follow_symlinks,
            },
            CoordinatorAction::Scan { roots, name_start } => CoordinatorActionView::Scan {
                roots: byte_strings(roots@),
                name_start: optional_bytes(*name_start),
            },
            CoordinatorAction::Resolve { path } => CoordinatorActionView::Resolve { path: path@ },
            CoordinatorAction::Enumerate { path } => CoordinatorActionView::Enumerate {
                path: path@,
            },
            CoordinatorAction::ListMembers { path } => CoordinatorActionView::ListMembers {
                path: path@,
            },
            CoordinatorAction::Embed { handoff } => CoordinatorActionView::Embed {
                directory: handoff.dir_path@,
                name_start: optional_bytes(handoff.name_start),
                member: handoff.member@,
                roots: byte_strings(handoff.roots@),
            },
            CoordinatorAction::Finish => CoordinatorActionView::Finish,
            CoordinatorAction::Ask { path } => CoordinatorActionView::Ask { path: path@ },
            CoordinatorAction::Done => CoordinatorActionView::Done,
            CoordinatorAction::Abort => CoordinatorActionView::Abort,
        }
    }
}

/// What the driver reports back to the coordinator.
#[derive(Debug)]
pub enum CoordinatorEvent {
    /// The run starts.
    Begin,
    /// The kind of the root: whether it is a directory, and whether it
    /// is a symbolic link.
    Probed { is_dir: bool, is_symlink: bool },
    /// The action was carried out.
    Completed,
    /// The canonical form of the path.
    Resolved { path: Vec<u8> },
    /// The names of the directory's children, in filesystem order.
    Listing { names: Vec<Vec<u8>> },
    /// The action failed: a path could not be read, or the container
    /// could not be written.
    Failed,
    /// The operator's answer.
    Decision { answer: RetryDecision },
}

/// A [`CoordinatorEvent`] as contracts see it.
pub enum CoordinatorEventView {
    Begin,
    Probed { is_dir: bool, is_symlink: bool },
    Completed,
    Resolved { path: Seq<u8> },
    Listing { names: Seq<Seq<u8>> },
    Failed,
    Decision { answer: RetryDecision },
}

impl View for CoordinatorEvent {
    type V = CoordinatorEventView;

    open spec fn view(&self) -> CoordinatorEventView {
        match self {
            CoordinatorEvent::Begin => CoordinatorEventView::Begin,
            CoordinatorEvent::Probed { is_dir, is_symlink } => CoordinatorEventView::Probed {
                is_dir: *is_dir,
                is_symlink: *is_symlink,
            },
            CoordinatorEvent::Completed => CoordinatorEventView::Completed,
            CoordinatorEvent::Resolved { path } => CoordinatorEventView::Resolved { path: path@ },
            CoordinatorEvent::Listing { names } => CoordinatorEventView::Listing {
                names: byte_strings(names@),
            },
            CoordinatorEvent::Failed => CoordinatorEventView::Failed,
            CoordinatorEvent::Decision { answer } => CoordinatorEventView::Decision {
                answer: *answer,
            },
        }
    }
}

/// The state of a run as contracts see it.
pub struct CoordinatorView {
    /// Whether directories become members of their own.
    pub split: bool,
    /// The roots, or the directories, that wait, the next one first.
    pub waiting: Seq<Seq<u8>>,
    /// The path at hand.
    pub current: Seq<u8>,
    /// The roots found to be files, in their order.
    pub files: Seq<Seq<u8>>,
    /// The roots found to be directories, in their order.
    pub dirs: Seq<Seq<u8>>,
    /// The names of the children that go into the member at hand.
    pub members: Seq<Seq<u8>>,
    /// What the names of the roots are placed below.
    pub name_start: Option<Seq<u8>>,
    pub stage: Stage,
    /// Whether the operator's answer is awaited.
    pub asking: bool,
}

/// The state at the start of a run over `roots`.
pub open spec fn starting(split: bool, roots: Seq<Seq<u8>>) -> CoordinatorView {
    CoordinatorView {
        split,
        waiting: roots,
        current: Seq::<u8>::empty(),
        files: Seq::<Seq<u8>>::empty(),
        dirs: Seq::<Seq<u8>>::empty(),
        members: Seq::<Seq<u8>>::empty(),
        name_start: None,
        stage: Stage::Idle,
        asking: false,
    }
}

/// The state in which the next waiting root that no pattern excludes is
/// at hand to be probed; with none left, the roots found to be files are
/// to be archived. An excluded root is dropped before it is probed.
pub open spec fn classified(s: CoordinatorView, patterns: Seq<ExclusionPattern>) -> CoordinatorView
    decreases s.waiting.len(),
{
    if s.waiting.len() == 0 {
        CoordinatorView { current: Seq::<u8>::empty(), stage: Stage::Files, asking: false, ..s }
    } else if excluded_by(patterns, s.waiting[0]) {
        classified(CoordinatorView { waiting: s.waiting.drop_first(), ..s }, patterns)
    } else {
        CoordinatorView {
            waiting: s.waiting.drop_first(),
            current: s.waiting[0],
            stage: Stage::Probe,
            asking: false,
            ..s
        }
    }
}

/// The state in which the next waiting directory is at hand to become a
/// member; with none left, the container is to be finished.
pub open spec fn member_next(s: CoordinatorView) -> CoordinatorView {
    if s.waiting.len() == 0 {
        CoordinatorView {
            current: Seq::<u8>::empty(),
            members: Seq::<Seq<u8>>::empty(),
            stage: Stage::Finish,
            asking: false,
            ..s
        }
    } else {
        CoordinatorView {
            waiting: s.waiting.drop_first(),
            current: s.waiting[0],
            members: Seq::<Seq<u8>>::empty(),
            stage: Stage::Members,
            asking: false,
            ..s
        }
    }
}

/// Whether a failure in the stage is a failure to read the path at hand,
/// which is put to the failure protocol.
pub open spec fn recoverable(stage: Stage) -> bool {
    stage == Stage::Probe || stage == Stage::Resolve || stage == Stage::Enumerate || stage
        == Stage::Members
}

/// Whether a failure in the stage is fatal: the container is written in
/// it, and a container that cannot be written is not mended.
pub open spec fn writing(stage: Stage) -> bool {
    stage == Stage::Files || stage == Stage::Embed || stage == Stage::Finish
}

/// The state after the path at hand was given up: a root that could not
/// be probed is left out and the next one taken; a directory that was to
/// become a member is left out and the next one taken; the single
/// directory that could not be resolved or listed leaves nothing to add,
/// and the container is finished.
pub open spec fn abandoned(s: CoordinatorView, patterns: Seq<ExclusionPattern>) -> CoordinatorView {
    if s.stage == Stage::Probe {
        classified(s, patterns)
    } else if s.stage == Stage::Members {
        member_next(s)
    } else {
        CoordinatorView { stage: Stage::Finish, asking: false, ..s }
    }
}

/// Whether a root of the reported kind counts as a directory: a
/// directory that is no symbolic link, or any directory where links are
/// followed. A link that is not followed is archived as a link.
pub open spec fn counts_as_directory(is_dir: bool, is_symlink: bool, follow_symlinks: bool) -> bool {
    is_dir && (follow_symlinks || !is_symlink)
}

/// The state after the files among the roots were archived: in
/// single-stream mode the container is finished; in split mode a single
/// directory is taken to be replaced by its children, and any other
/// number of directories become members one after the other.
pub open spec fn after_files(s: CoordinatorView) -> CoordinatorView {
    if !s.split {
        CoordinatorView { stage: Stage::Finish, ..s }
    } else if s.dirs.len() == 1 {
        CoordinatorView {
            current: s.dirs[0],
            dirs: Seq::<Seq<u8>>::empty(),
            stage: Stage::Resolve,
            ..s
        }
    } else {
        member_next(CoordinatorView { waiting: s.dirs, dirs: Seq::<Seq<u8>>::empty(), ..s })
    }
}

/// The state after `event`, and whether failures are skipped without
/// asking from then on. A failure while the container is written ends
/// the run for good. An event that the stage does not expect changes
/// nothing.
pub open spec fn coordinated(
    s: CoordinatorView,
    skip_all: bool,
    event: CoordinatorEventView,
    cfg: ScanConfig,
) -> (CoordinatorView, bool) {
    let patterns = cfg.patterns@;
    if s.stage == Stage::Done || s.stage == Stage::Aborted {
        (s, skip_all)
    } else if s.stage == Stage::Idle {
        if event is Begin {
            if s.split {
                (classified(s, patterns), skip_all)
            } else {
                (
                    CoordinatorView {
                        files: s.waiting,
                        waiting: Seq::<Seq<u8>>::empty(),
                        stage: Stage::Files,
                        ..s
                    },
                    skip_all,
                )
            }
        } else {
            (s, skip_all)
        }
    } else if s.asking {
        match event {
            CoordinatorEventView::Decision { answer } => if answer == RetryDecision::Retry {
                (CoordinatorView { asking: false, ..s }, skip_all)
            } else {
                (abandoned(s, patterns), skip_all || answer == RetryDecision::SkipAllFuture)
            },
            _ => (s, skip_all),
        }
    } else {
        match event {
            CoordinatorEventView::Failed => if writing(s.stage) {
                (CoordinatorView { stage: Stage::Aborted, ..s }, skip_all)
            } else if skip_all {
                (abandoned(s, patterns), skip_all)
            } else {
                (CoordinatorView { asking: true, ..s }, skip_all)
            },
            CoordinatorEventView::Probed { is_dir, is_symlink } => if s.stage == Stage::Probe {
                if counts_as_directory(is_dir, is_symlink, cfg.follow_symlinks) {
                    (classified(CoordinatorView { dirs: s.dirs.push(s.current), ..s }, patterns), skip_all)
                } else {
                    (
                        classified(CoordinatorView { files: s.files.push(s.current), ..s }, patterns),
                        skip_all,
                    )
                }
            } else {
                (s, skip_all)
            },
            CoordinatorEventView::Completed => if s.stage == Stage::Files {
                (after_files(s), skip_all)
            } else if s.stage == Stage::Embed {
                (member_next(s), skip_all)
            } else if s.stage == Stage::Finish {
                (CoordinatorView { stage: Stage::Done, ..s }, skip_all)
            } else {
                (s, skip_all)
            },
            CoordinatorEventView::Resolved { path } => if s.stage == Stage::Resolve {
                (
                    CoordinatorView {
                        current: path,
                        name_start: Some(archive_name(path, s.name_start, cfg.style)),
                        stage: Stage::Enumerate,
                        ..s
                    },
                    skip_all,
                )
            } else {
                (s, skip_all)
            },
            CoordinatorEventView::Listing { names } => if s.stage == Stage::Enumerate {
                (
                    classified(
                        CoordinatorView {
                            waiting: joined_all(s.current, names, cfg.style.sep()),
                            files: Seq::<Seq<u8>>::empty(),
                            ..s
                        },
                        patterns,
                    ),
                    skip_all,
                )
            } else if s.stage == Stage::Members {
                let decision = decided(names, cfg.tags@);
                if decision.1 == KeepMode::Nothing {
                    (member_next(s), skip_all)
                } else {
                    (CoordinatorView { members: decision.0, stage: Stage::Embed, ..s }, skip_all)
                }
            } else {
                (s, skip_all)
            },
            _ => (s, skip_all),
        }
    }
}

/// The action that the state `s` asks for.
pub open spec fn proposed(s: CoordinatorView, cfg: ScanConfig) -> CoordinatorActionView {
    let style = cfg.style;
    match s.stage {
        Stage::Idle | Stage::Done => CoordinatorActionView::Done,
        Stage::Aborted => CoordinatorActionView::Abort,
        _ => if s.asking {
            CoordinatorActionView::Ask { path: s.current }
        } else {
            match s.stage {
                Stage::Probe => CoordinatorActionView::Probe {
                    path: s.current,
                    follow_symlinks: cfg.follow_symlinks,
                },
                Stage::Files => CoordinatorActionView::Scan {
                    roots: s.files,
                    name_start: s.name_start,
                },
                Stage::Resolve => CoordinatorActionView::Resolve { path: s.current },
                Stage::Enumerate => CoordinatorActionView::Enumerate { path: s.current },
                Stage::Members => CoordinatorActionView::ListMembers { path: s.current },
                Stage::Embed => CoordinatorActionView::Embed {
                    directory: s.current,
                    name_start: s.name_start,
                    member: member_name_of(
                        archive_name(s.current, s.name_start, style),
                        style.sep(),
                    ),
                    roots: joined_all(s.current, s.members, style.sep()),
                },
                _ => CoordinatorActionView::Finish,
            }
        },
    }
}

/// The byte strings of a stack of byte vectors, the top first.
pub open spec fn top_down(stack: Seq<Vec<u8>>) -> Seq<Seq<u8>> {
    Seq::new(stack.len(), |i: int| stack[stack.len() - 1 - i]@)
}

/// The vectors of `v` in the opposite order.
fn reversed(v: Vec<Vec<u8>>) -> (out: Vec<Vec<u8>>)
    ensures
        byte_strings(out@) == top_down(v@),
        top_down(out@) == byte_strings(v@),
{
    let mut v = v;
    let ghost given = v@;
    let mut out: Vec<Vec<u8>> = Vec::new();
    while v.len() > 0
        invariant
            v@.len() + out@.len() == given.len(),
            forall|j: int| 0 <= j < v@.len() ==> v@[j] == given[j],
            forall|j: int| 0 <= j < out@.len() ==> out@[j] == given[given.len() - 1 - j],
        decreases v@.len(),
    {
        match v.pop() {
            Some(item) => {
                out.push(item);
            },
            None => {},
        }
    }
    assert(byte_strings(out@) =~= top_down(given));
    assert(top_down(out@) =~= byte_strings(given));
    out
}

/// A copy of `v`.
fn copied(v: &Vec<Vec<u8>>) -> (out: Vec<Vec<u8>>)
    ensures
        byte_strings(out@) == byte_strings(v@),
{
    let mut out: Vec<Vec<u8>> = Vec::new();
    let mut i: usize = 0;
    while i < v.len()
        invariant
            i <= v.len(),
            out.len() == i,
            forall|j: int| 0 <= j < i ==> out[j]@ == v[j]@,
        decreases v.len() - i,
    {
        out.push(to_vec(v[i].as_slice()));
        i += 1;
    }
    assert(byte_strings(out@) =~= byte_strings(v@));
    out
}

/// A run in progress.
pub struct Coordinator {
    split: bool,
    queue: Vec<Vec<u8>>,
    current: Vec<u8>,
    files: Vec<Vec<u8>>,
    dirs: Vec<Vec<u8>>,
    members: Vec<Vec<u8>>,
    name_start: Option<Vec<u8>>,
    stage: Stage,
    asking: bool,
}

impl View for Coordinator {
    type V = CoordinatorView;

    closed spec fn view(&self) -> CoordinatorView {
        CoordinatorView {
            split: self.split,
            waiting: top_down(self.queue@),
            current: self.current@,
            files: byte_strings(self.files@),
            dirs: byte_strings(self.dirs@),
            members: byte_strings(self.members@),
            name_start: optional_bytes(self.name_start),
            stage: self.stage,
            asking: self.asking,
        }
    }
}

impl Coordinator {
    /// A run over `roots` that has not begun; `split` says whether
    /// directories become compressed members of their own.
    pub fn new(split: bool, roots: Vec<Vec<u8>>) -> (c: Coordinator)
        ensures
            c@ == starting(split, byte_strings(roots@)),
    {
        let c = Coordinator {
            split,
            queue: reversed(roots),
            current: Vec::new(),
            files: Vec::new(),
            dirs: Vec::new(),
            members: Vec::new(),
            name_start: None,
            stage: Stage::Idle,
            asking: false,
        };
        assert(c@.files =~= Seq::<Seq<u8>>::empty());
        assert(c@.dirs =~= Seq::<Seq<u8>>::empty());
        assert(c@.members =~= Seq::<Seq<u8>>::empty());
        c
    }

    /// Which answer the run waits for.
    pub fn stage(&self) -> (stage: Stage)
        ensures
            stage == self@.stage,
    {
        self.stage
    }

    /// Puts the next waiting root that no pattern excludes at hand.
    fn classify(&mut self, cfg: &ScanConfig)
        ensures
            final(self)@ == classified(old(self)@, cfg.patterns@),
    {
        self.asking = false;
        proof {
            lemma_classified_ignores(old(self)@, self@, cfg.patterns@);
        }
        loop
            invariant
                self.asking == false,
                classified(old(self)@, cfg.patterns@) == classified(self@, cfg.patterns@),
            decreases self.queue.len(),
        {
            let ghost before = self.queue@;
            match self.queue.pop() {
                None => {
                    assert(top_down(self.queue@) =~= top_down(before));
                    self.current = Vec::new();
                    self.stage = Stage::Files;
                    return ;
                },
                Some(next) => {
                    assert(top_down(before)[0] == next@);
                    assert(top_down(self.queue@) =~= top_down(before).drop_first());
                    if is_excluded(&cfg.patterns, next.as_slice()) {
                        continue ;
                    }
                    self.current = next;
                    self.stage = Stage::Probe;
                    return ;
                },
            }
        }
    }

    /// Puts the next waiting directory at hand.
    fn next_member(&mut self)
        ensures
            final(self)@ == member_next(old(self)@),
    {
        self.asking = false;
        self.members = Vec::new();
        assert(byte_strings(self.members@) =~= Seq::<Seq<u8>>::empty());
        let ghost before = self.queue@;
        match self.queue.pop() {
            None => {
                assert(top_down(self.queue@) =~= top_down(before));
                self.current = Vec::new();
                self.stage = Stage::Finish;
            },
            Some(next) => {
                assert(top_down(before)[0] == next@);
                assert(top_down(self.queue@) =~= top_down(before).drop_first());
                self.current = next;
                self.stage = Stage::Members;
            },
        }
    }

    /// Whether the run was given up.
    pub fn is_aborted(&self) -> (b: bool)
        ensures
            b == (self@.stage == Stage::Aborted),
    {
        match self.stage {
            Stage::Aborted => true,
            _ => false,
        }
    }

    /// Gives up the path at hand.
    fn abandon(&mut self, cfg: &ScanConfig)
        ensures
            final(self)@ == abandoned(old(self)@, cfg.patterns@),
    {
        match self.stage {
            Stage::Probe => {
                self.classify(cfg);
            },
            Stage::Members => {
                self.next_member();
            },
            _ => {
                self.stage = Stage::Finish;
                self.asking = false;
            },
        }
    }

    /// Goes on after the files among the roots were archived.
    fn leave_files(&mut self)
        ensures
            final(self)@ == after_files(old(self)@),
    {
        if !self.split {
            self.stage = Stage::Finish;
            return ;
        }
        let mut dirs: Vec<Vec<u8>> = Vec::new();
        core::mem::swap(&mut self.dirs, &mut dirs);
        assert(byte_strings(self.dirs@) =~= Seq::<Seq<u8>>::empty());
        if dirs.len() == 1 {
            match dirs.pop() {
                Some(only) => {
                    self.current = only;
                },
                None => {},
            }
            self.stage = Stage::Resolve;
        } else {
            self.queue = reversed(dirs);
            self.next_member();
        }
    }

    /// The action that the run asks for.
    pub fn action(&self, cfg: &ScanConfig) -> (action: CoordinatorAction)
        ensures
            action@ == proposed(self@, *cfg),
    {
        match self.stage {
            Stage::Idle | Stage::Done => {
                return CoordinatorAction::Done;
            },
            Stage::Aborted => {
                return CoordinatorAction::Abort;
            },
            _ => {},
        }
        let path = to_vec(self.current.as_slice());
        if self.asking {
            return CoordinatorAction::Ask { path };
        }
        let name_start = match &self.name_start {
            Some(prefix) => Some(to_vec(prefix.as_slice())),
            None => None,
        };
        match self.stage {
            Stage::Probe => CoordinatorAction::Probe {
                path,
                follow_symlinks: cfg.follow_symlinks,
            },
            Stage::Files => CoordinatorAction::Scan { roots: copied(&self.files), name_start },
            Stage::Resolve => CoordinatorAction::Resolve { path },
            Stage::Enumerate => CoordinatorAction::Enumerate { path },
            Stage::Members => CoordinatorAction::ListMembers { path },
            Stage::Embed => {
                let name = get_name(self.current.as_slice(), &self.name_start, cfg.style);
                CoordinatorAction::Embed {
                    handoff: SubarchiveValues {
                        dir_path: path,
                        name_start,
                        member: member_name(name.as_slice(), cfg.style),
                        roots: join_all(self.current.as_slice(), &self.members, cfg.style),
                    },
                }
            },
            _ => CoordinatorAction::Finish,
        }
    }

    /// Takes in what the last action gave, and says what to do next.
    pub fn step(&mut self, event: CoordinatorEvent, cfg: &ScanConfig, policy: &mut FailurePolicy) -> (action:
        CoordinatorAction)
        ensures
            (final(self)@, final(policy)@) == coordinated(old(self)@, old(policy)@, event@, *cfg),
            action@ == proposed(final(self)@, *cfg),
    {
        match self.stage {
            Stage::Done | Stage::Aborted => {
                return self.action(cfg);
            },
            Stage::Idle => {
                match event {
                    CoordinatorEvent::Begin => {
                        if self.split {
                            self.classify(cfg);
                        } else {
                            let mut roots: Vec<Vec<u8>> = Vec::new();
                            core::mem::swap(&mut self.queue, &mut roots);
                            self.files = reversed(roots);
                            self.stage = Stage::Files;
                            assert(top_down(self.queue@) =~= Seq::<Seq<u8>>::empty());
                        }
                    },
                    _ => {},
                }
                return self.action(cfg);
            },
            _ => {},
        }
        if self.asking {
            match event {
                CoordinatorEvent::Decision { answer } => {
                    if policy.resolve(answer) {
                        self.abandon(cfg);
                    } else {
                        self.asking = false;
                    }
                },
                _ => {},
            }
            return self.action(cfg);
        }
        match event {
            CoordinatorEvent::Failed => {
                match self.stage {
                    Stage::Files | Stage::Embed | Stage::Finish => {
                        self.stage = Stage::Aborted;
                    },
                    _ => {
                        if policy.skips_all() {
                            self.abandon(cfg);
                        } else {
                            self.asking = true;
                        }
                    },
                }
            },
            CoordinatorEvent::Probed { is_dir, is_symlink } => {
                match self.stage {
                    Stage::Probe => {
                        let mut path: Vec<u8> = Vec::new();
                        core::mem::swap(&mut self.current, &mut path);
                        let ghost before = self@;
                        if is_dir && (cfg.follow_symlinks || !is_symlink) {
                            self.dirs.push(path);
                            assert(byte_strings(self.dirs@) =~= before.dirs.push(path@));
                        } else {
                            self.files.push(path);
                            assert(byte_strings(self.files@) =~= before.files.push(path@));
                        }
                        proof {
                            lemma_classified_ignores(
                                self@,
                                CoordinatorView { current: path@, ..self@ },
                                cfg.patterns@,
                            );
                        }
                        self.classify(cfg);
                    },
                    _ => {},
                }
            },
            CoordinatorEvent::Completed => {
                match self.stage {
                    Stage::Files => {
                        self.leave_files();
                    },
                    Stage::Embed => {
                        self.next_member();
                    },
                    Stage::Finish => {
                        self.stage = Stage::Done;
                    },
                    _ => {},
                }
            },
            CoordinatorEvent::Resolved { path } => {
                match self.stage {
                    Stage::Resolve => {
                        let name = get_name(path.as_slice(), &self.name_start, cfg.style);
                        self.name_start = Some(name);
                        self.current = path;
                        self.stage = Stage::Enumerate;
                    },
                    _ => {},
                }
            },
            CoordinatorEvent::Listing { names } => {
                match self.stage {
                    Stage::Enumerate => {
                        let children = join_all(self.current.as_slice(), &names, cfg.style);
                        self.queue = reversed(children);
                        self.files = Vec::new();
                        assert(byte_strings(self.files@) =~= Seq::<Seq<u8>>::empty());
                        self.classify(cfg);
                    },
                    Stage::Members => {
                        let decision = classify_directory(names, &cfg.tags);
                        match decision.keep_mode {
                            KeepMode::Nothing => {
                                self.next_member();
                            },
                            _ => {
                                self.members = decision.entries_to_recurse;
                                self.stage = Stage::Embed;
                            },
                        }
                    },
                    _ => {},
                }
            },
            _ => {},
        }
        self.action(cfg)
    }
}

/// What was at hand before the roots are gone through does not matter
/// to what comes of going through them.
proof fn lemma_classified_ignores(a: CoordinatorView, b: CoordinatorView, patterns: Seq<ExclusionPattern>)
    requires
        b == (CoordinatorView { current: b.current, stage: b.stage, asking: b.asking, ..a }),
    ensures
        classified(a, patterns) == classified(b, patterns),
    decreases a.waiting.len(),
{
    if a.waiting.len() > 0 && excluded_by(patterns, a.waiting[0]) {
        lemma_classified_ignores(
            CoordinatorView { waiting: a.waiting.drop_first(), ..a },
            CoordinatorView { waiting: b.waiting.drop_first(), ..b },
            patterns,
        );
    }
}

} // verus!
