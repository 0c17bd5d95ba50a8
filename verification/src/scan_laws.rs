//! What holds of every scan, whatever the filesystem and the operator
//! answer.

use crate::path::joined;
use crate::pattern::{excluded_by, ExclusionPattern};
use crate::retry::RetryDecision;
use crate::tags::{first_tagged, TagKeepMode};
use crate::scanner::{
    advanced, announced, child_visits, initial, stepped, Phase, ScanActionView, ScanConfig,
    ScanEventView, ScannerView, VisitView,
};
use vstd::prelude::*;

verus! {

/// Whether `path` lies directly below `parent`.
pub open spec fn below(path: Seq<u8>, parent: Seq<u8>, sep: u8) -> bool {
    exists|name: Seq<u8>| path == joined(parent, name, sep)
}

/// Whether the lineage of `v` is a chain of directories from a root down
/// to the parent of `v.path`, none of which a pattern excludes unless it
/// was kept by a tag rule.
pub open spec fn well_descended(v: VisitView, patterns: Seq<ExclusionPattern>, sep: u8) -> bool {
    &&& forall|i: int|
        0 < i < v.lineage.len() ==> below((#[trigger] v.lineage[i]).0, v.lineage[i - 1].0, sep)
    &&& v.lineage.len() > 0 ==> below(v.path, v.lineage.last().0, sep)
    &&& forall|i: int|
        0 <= i < v.lineage.len() && (#[trigger] v.lineage[i]).1 ==> !excluded_by(
            patterns,
            v.lineage[i].0,
        )
}

/// Whether a path is at hand in the phase.
pub open spec fn in_progress(phase: Phase) -> bool {
    phase != Phase::Idle && phase != Phase::Done && phase != Phase::Broken
}

/// What holds of every state that a scan can reach.
pub open spec fn sound(s: ScannerView, cfg: ScanConfig) -> bool {
    let patterns = cfg.patterns@;
    let sep = cfg.style.sep();
    &&& forall|k: int|
        0 <= k < s.pending.len() ==> well_descended(#[trigger] s.pending[k], patterns, sep)
    &&& in_progress(s.phase) ==> well_descended(s.current, patterns, sep)
    &&& in_progress(s.phase) && s.current.recheck ==> !excluded_by(patterns, s.current.path)
    &&& s.phase == Phase::List || s.phase == Phase::Emit ==> identified(s, cfg)
    &&& s.phase == Phase::List ==> s.directory
    &&& s.phase == Phase::Emit && !s.directory ==> s.children.len() == 0
    &&& s.phase != Phase::Emit && s.phase != Phase::Broken ==> s.children.len() == 0
    &&& !in_progress(s.phase) ==> !s.asking
}

/// Whether the path at hand is known not to be the output: an identity
/// other than the output's was reported for it, or it is a directory of
/// which the platform tells no identity, while the output is a file.
pub open spec fn identified(s: ScannerView, cfg: ScanConfig) -> bool {
    match s.identity {
        Some(id) => id != cfg.output,
        None => s.directory,
    }
}

/// The path that an action names, if it names one.
pub open spec fn named_path(action: ScanActionView) -> Option<Seq<u8>> {
    match action {
        ScanActionView::Resolve { path } => Some(path),
        ScanActionView::Stat { path, .. } => Some(path),
        ScanActionView::Identify { path } => Some(path),
        ScanActionView::List { path } => Some(path),
        ScanActionView::Archive { path, .. } => Some(path),
        ScanActionView::Ask { path } => Some(path),
        ScanActionView::Finished => None,
        ScanActionView::Abort => None,
    }
}

/// The state after a sequence of events, and whether failures are
/// skipped without asking by then.
pub open spec fn run(s: ScannerView, skip_all: bool, events: Seq<ScanEventView>, cfg: ScanConfig) -> (
    ScannerView,
    bool,
)
    decreases events.len(),
{
    if events.len() == 0 {
        (s, skip_all)
    } else {
        let before = run(s, skip_all, events.drop_last(), cfg);
        stepped(before.0, before.1, events.last(), cfg)
    }
}

proof fn lemma_advanced_sound(pending: Seq<VisitView>, name_start: Option<Seq<u8>>, cfg: ScanConfig)
    requires
        forall|k: int|
            0 <= k < pending.len() ==> well_descended(
                #[trigger] pending[k],
                cfg.patterns@,
                cfg.style.sep(),
            ),
    ensures
        sound(advanced(pending, name_start, cfg.patterns@), cfg),
        advanced(pending, name_start, cfg.patterns@).name_start == name_start,
    decreases pending.len(),
{
    if pending.len() > 0 {
        let rest = pending.drop_first();
        assert forall|k: int| 0 <= k < rest.len() implies well_descended(
            #[trigger] rest[k],
            cfg.patterns@,
            cfg.style.sep(),
        ) by {
            assert(rest[k] == pending[k + 1]);
        }
        lemma_advanced_sound(rest, name_start, cfg);
        assert(well_descended(pending[0], cfg.patterns@, cfg.style.sep()));
    }
}

proof fn lemma_children_descend(s: ScannerView, cfg: ScanConfig)
    requires
        sound(s, cfg),
        s.phase == Phase::Emit,
    ensures
        forall|k: int|
            0 <= k < (child_visits(s, cfg.style.sep()) + s.pending).len() ==> well_descended(
                #[trigger] (child_visits(s, cfg.style.sep()) + s.pending)[k],
                cfg.patterns@,
                cfg.style.sep(),
            ),
{
    let sep = cfg.style.sep();
    let kids = child_visits(s, sep);
    let all = kids + s.pending;
    assert forall|k: int| 0 <= k < all.len() implies well_descended(
        #[trigger] all[k],
        cfg.patterns@,
        sep,
    ) by {
        if k < kids.len() {
            let child = kids[k];
            let line = child.lineage;
            assert(line == s.current.lineage.push((s.current.path, s.current.recheck)));
            assert(child.path == joined(s.current.path, s.children[k], sep));
            assert(below(child.path, line.last().0, sep));
            assert forall|i: int| 0 < i < line.len() implies below(
                (#[trigger] line[i]).0,
                line[i - 1].0,
                sep,
            ) by {
                if i < s.current.lineage.len() {
                    assert(line[i] == s.current.lineage[i]);
                    assert(line[i - 1] == s.current.lineage[i - 1]);
                } else {
                    assert(line[i - 1] == s.current.lineage.last());
                }
            }
            assert forall|i: int| 0 <= i < line.len() && (#[trigger] line[i]).1 implies !excluded_by(
                cfg.patterns@,
                line[i].0,
            ) by {
                if i < s.current.lineage.len() {
                    assert(line[i] == s.current.lineage[i]);
                }
            }
        } else {
            assert(all[k] == s.pending[k - kids.len()]);
        }
    }
}

/// Soundness is kept by every step.
pub proof fn lemma_step_sound(s: ScannerView, skip_all: bool, event: ScanEventView, cfg: ScanConfig)
    requires
        sound(s, cfg),
    ensures
        sound(stepped(s, skip_all, event, cfg).0, cfg),
{
    let next = stepped(s, skip_all, event, cfg).0;
    lemma_advanced_sound(s.pending, s.name_start, cfg);
    if s.phase == Phase::Emit {
        lemma_children_descend(s, cfg);
        lemma_advanced_sound(child_visits(s, cfg.style.sep()) + s.pending, s.name_start, cfg);
    }
    if s.phase == Phase::Resolve && !s.asking {
        if let ScanEventView::Resolved { path } = event {
            if !excluded_by(cfg.patterns@, path) {
                assert(next.current.lineage.len() == 0);
                assert(well_descended(next.current, cfg.patterns@, cfg.style.sep()));
            }
        }
    }
}

/// A scan starts in a sound state.
pub proof fn lemma_initial_sound(roots: Seq<Seq<u8>>, name_start: Option<Seq<u8>>, cfg: ScanConfig)
    ensures
        sound(initial(roots, name_start), cfg),
{
}

/// Every state that a scan reaches is sound.
pub proof fn lemma_run_sound(
    roots: Seq<Seq<u8>>,
    name_start: Option<Seq<u8>>,
    skip_all: bool,
    events: Seq<ScanEventView>,
    cfg: ScanConfig,
)
    ensures
        sound(run(initial(roots, name_start), skip_all, events, cfg).0, cfg),
    decreases events.len(),
{
    if events.len() == 0 {
        lemma_initial_sound(roots, name_start, cfg);
    } else {
        lemma_run_sound(roots, name_start, skip_all, events.drop_last(), cfg);
        let before = run(initial(roots, name_start), skip_all, events.drop_last(), cfg);
        lemma_step_sound(before.0, before.1, events.last(), cfg);
    }
}

/// Exclusion comes first. Whatever events a scan of `roots` has seen, an
/// action that names a path (to resolve it, to look at it, to list it, to
/// archive it, or to ask about a failure on it) names a path that no
/// pattern excludes, reached through directories that no pattern
/// excludes. The one exception, on every level, is a tag file that a tag
/// rule keeps: it is held against no pattern.
pub proof fn law_exclusion_precedence(
    roots: Seq<Seq<u8>>,
    name_start: Option<Seq<u8>>,
    skip_all: bool,
    events: Seq<ScanEventView>,
    cfg: ScanConfig,
)
    ensures
        ({
            let s = run(initial(roots, name_start), skip_all, events, cfg).0;
            let action = announced(s, cfg.follow_symlinks);
            named_path(action) is Some ==> {
                &&& named_path(action) == Some(s.current.path)
                &&& s.current.recheck ==> !excluded_by(cfg.patterns@, s.current.path)
                &&& well_descended(s.current, cfg.patterns@, cfg.style.sep())
            }
        }),
{
    lemma_run_sound(roots, name_start, skip_all, events, cfg);
}

/// An excluded path is dropped without a question to the filesystem:
/// when the path that waits next is held against the patterns and one
/// excludes it, the scan goes on as if the path had not been there.
pub proof fn law_excluded_is_skipped(
    pending: Seq<VisitView>,
    name_start: Option<Seq<u8>>,
    patterns: Seq<ExclusionPattern>,
)
    requires
        pending.len() > 0,
        pending[0].recheck,
        excluded_by(patterns, pending[0].path),
    ensures
        advanced(pending, name_start, patterns) == advanced(
            pending.drop_first(),
            name_start,
            patterns,
        ),
{
}

/// The archive never holds itself. A path whose reported identity is that
/// of the output is dropped with all below it, and whatever events a scan
/// has seen, a path is archived or listed only after an identity other
/// than the output's was reported for it; the one exception is a
/// directory of which the platform tells no identity. A path that is no
/// such directory and has no identity is treated as unreadable.
pub proof fn law_self_exclusion(
    roots: Seq<Seq<u8>>,
    name_start: Option<Seq<u8>>,
    skip_all: bool,
    events: Seq<ScanEventView>,
    cfg: ScanConfig,
)
    ensures
        ({
            let s = run(initial(roots, name_start), skip_all, events, cfg).0;
            let action = announced(s, cfg.follow_symlinks);
            &&& (action is Archive || action is List) ==> identified(s, cfg)
            &&& s.phase == Phase::Identify && !s.asking ==> stepped(
                s,
                skip_all,
                ScanEventView::Identity { id: cfg.output },
                cfg,
            ).0 == advanced(s.pending, s.name_start, cfg.patterns@)
            &&& s.phase == Phase::Identify && !s.asking && !s.directory ==> stepped(
                s,
                skip_all,
                ScanEventView::Unidentified,
                cfg,
            ) == stepped(s, skip_all, ScanEventView::Failed, cfg)
        }),
{
    lemma_run_sound(roots, name_start, skip_all, events, cfg);
}

/// Symbolic links to directories. Once the kind of a path is reported,
/// the path counts as a directory to walk into exactly if it is reported
/// as a directory and is no symbolic link or links are followed; whatever
/// events a scan has seen, only such a path is listed, and any other
/// path that is archived hands on no children.
pub proof fn law_symlink_policy(
    roots: Seq<Seq<u8>>,
    name_start: Option<Seq<u8>>,
    skip_all: bool,
    events: Seq<ScanEventView>,
    is_dir: bool,
    is_symlink: bool,
    cfg: ScanConfig,
)
    ensures
        ({
            let s = run(initial(roots, name_start), skip_all, events, cfg).0;
            let told = stepped(s, skip_all, ScanEventView::Metadata { is_dir, is_symlink }, cfg).0;
            &&& s.phase == Phase::Stat && !s.asking ==> told.directory == (is_dir && (
            cfg.follow_symlinks || !is_symlink)) && told.phase == Phase::Identify
            &&& announced(s, cfg.follow_symlinks) is List ==> s.directory
            &&& announced(s, cfg.follow_symlinks) is Archive && !s.directory ==> stepped(
                s,
                skip_all,
                ScanEventView::Archived,
                cfg,
            ).0 == advanced(s.pending, s.name_start, cfg.patterns@)
        }),
{
    lemma_run_sound(roots, name_start, skip_all, events, cfg);
    let s = run(initial(roots, name_start), skip_all, events, cfg).0;
    if announced(s, cfg.follow_symlinks) is Archive && !s.directory {
        assert(child_visits(s, cfg.style.sep()) + s.pending =~= s.pending);
    }
}

/// The first name that is a tag is the one that `first_tagged` finds.
proof fn lemma_first_tagged(names: Seq<Seq<u8>>, tags: Map<Seq<u8>, TagKeepMode>, from: int, i: int)
    requires
        0 <= from <= i < names.len(),
        tags.contains_key(names[i]),
        forall|j: int| from <= j < i ==> !tags.contains_key(names[j]),
    ensures
        first_tagged(names, tags, from) == i,
    decreases i - from,
{
    if from < i {
        lemma_first_tagged(names, tags, from + 1, i);
    }
}

/// Tag modes. When the children of the directory at hand are listed and
/// the first of them that is a tag is `names[i]`, its keep mode decides:
/// with the mode to keep nothing, the directory is dropped without an
/// entry and the scan goes on with what waits; with the mode to keep the
/// directory, the directory is archived and hands on no children; with
/// the mode to keep the tag, the directory is archived and hands on the
/// tag file alone, which is held against no pattern.
pub proof fn law_tag_modes(
    s: ScannerView,
    skip_all: bool,
    names: Seq<Seq<u8>>,
    i: int,
    cfg: ScanConfig,
)
    requires
        s.phase == Phase::List,
        !s.asking,
        0 <= i < names.len(),
        cfg.tags@.contains_key(names[i]),
        forall|j: int| 0 <= j < i ==> !cfg.tags@.contains_key(names[j]),
    ensures
        ({
            let sep = cfg.style.sep();
            let listed = stepped(s, skip_all, ScanEventView::Listing { names }, cfg).0;
            let archived = stepped(listed, skip_all, ScanEventView::Archived, cfg).0;
            let onward = advanced(s.pending, s.name_start, cfg.patterns@);
            let entry = ScanActionView::Archive { path: s.current.path, name: s.current.name };
            let tag = VisitView {
                path: joined(s.current.path, names[i], sep),
                name: joined(s.current.name, names[i], sep),
                recheck: false,
                root: false,
                lineage: s.current.lineage.push((s.current.path, s.current.recheck)),
            };
            match cfg.tags@[names[i]] {
                TagKeepMode::Nothing => listed == onward,
                TagKeepMode::Dir => announced(listed, cfg.follow_symlinks) == entry && archived
                    == onward,
                TagKeepMode::Tag => announced(listed, cfg.follow_symlinks) == entry && archived
                    == advanced(seq![tag] + s.pending, s.name_start, cfg.patterns@),
            }
        }),
{
    lemma_first_tagged(names, cfg.tags@, 0, i);
    let sep = cfg.style.sep();
    let listed = stepped(s, skip_all, ScanEventView::Listing { names }, cfg).0;
    match cfg.tags@[names[i]] {
        TagKeepMode::Nothing => {},
        TagKeepMode::Dir => {
            assert(child_visits(listed, sep) + s.pending =~= s.pending);
        },
        TagKeepMode::Tag => {
            let tag = VisitView {
                path: joined(s.current.path, names[i], sep),
                name: joined(s.current.name, names[i], sep),
                recheck: false,
                root: false,
                lineage: s.current.lineage.push((s.current.path, s.current.recheck)),
            };
            assert(listed.children =~= seq![names[i]]);
            assert(child_visits(listed, sep) =~= seq![tag]);
        },
    }
}

/// Without a tag among the children of the directory at hand, the
/// directory is archived and hands on every child, in the order of the
/// listing, ahead of all that waits; each child is held against the
/// patterns.
pub proof fn law_untagged_directory(
    s: ScannerView,
    skip_all: bool,
    names: Seq<Seq<u8>>,
    cfg: ScanConfig,
)
    requires
        s.phase == Phase::List,
        !s.asking,
        forall|j: int| 0 <= j < names.len() ==> !cfg.tags@.contains_key(names[j]),
    ensures
        ({
            let sep = cfg.style.sep();
            let listed = stepped(s, skip_all, ScanEventView::Listing { names }, cfg).0;
            let archived = stepped(listed, skip_all, ScanEventView::Archived, cfg).0;
            let children = Seq::new(
                names.len(),
                |k: int|
                    VisitView {
                        path: joined(s.current.path, names[k], sep),
                        name: joined(s.current.name, names[k], sep),
                        recheck: true,
                        root: false,
                        lineage: s.current.lineage.push((s.current.path, s.current.recheck)),
                    },
            );
            &&& announced(listed, cfg.follow_symlinks) == (ScanActionView::Archive {
                path: s.current.path,
                name: s.current.name,
            })
            &&& archived == advanced(children + s.pending, s.name_start, cfg.patterns@)
        }),
{
    lemma_no_tag(names, cfg.tags@, 0);
    let sep = cfg.style.sep();
    let listed = stepped(s, skip_all, ScanEventView::Listing { names }, cfg).0;
    let children = Seq::new(
        names.len(),
        |k: int|
            VisitView {
                path: joined(s.current.path, names[k], sep),
                name: joined(s.current.name, names[k], sep),
                recheck: true,
                root: false,
                lineage: s.current.lineage.push((s.current.path, s.current.recheck)),
            },
    );
    assert(child_visits(listed, sep) =~= children);
}

/// Where no name is a tag, `first_tagged` finds none.
proof fn lemma_no_tag(names: Seq<Seq<u8>>, tags: Map<Seq<u8>, TagKeepMode>, from: int)
    requires
        0 <= from <= names.len(),
        forall|j: int| from <= j < names.len() ==> !tags.contains_key(names[j]),
    ensures
        first_tagged(names, tags, from) == names.len(),
    decreases names.len() - from,
{
    if from < names.len() {
        lemma_no_tag(names, tags, from + 1);
    }
}

/// A failure to write the container is fatal. Whenever a path is at
/// hand, be it looked at, archived or asked about, the report that the
/// container could not be written ends the scan: the scan asks for the
/// run to be given up, the operator is not asked, and the choice about
/// reading failures stays as it was. From then on no event moves the
/// scan: nothing more is archived.
pub proof fn law_write_failure_is_fatal(
    s: ScannerView,
    skip_all: bool,
    later: ScanEventView,
    cfg: ScanConfig,
)
    requires
        in_progress(s.phase),
    ensures
        ({
            let broken = stepped(s, skip_all, ScanEventView::WriteFailed, cfg);
            &&& broken.0.phase == Phase::Broken
            &&& broken.1 == skip_all
            &&& announced(broken.0, cfg.follow_symlinks) == ScanActionView::Abort
            &&& broken.0.pending == s.pending
            &&& stepped(broken.0, skip_all, later, cfg) == broken
        }),
{
}

/// The failure protocol. Once the choice to skip all failures is made it
/// stays made, and a failure then gives up the path at hand without a
/// question; without that choice a failure is put to the operator. The
/// answer to retry leaves the scan asking for the operation that failed;
/// any other answer gives up the path at hand, and only that one with
/// what lies below it: the paths that wait are scanned next.
pub proof fn law_failure_protocol(s: ScannerView, skip_all: bool, event: ScanEventView, cfg: ScanConfig)
    requires
        in_progress(s.phase),
    ensures
        skip_all ==> stepped(s, skip_all, event, cfg).1,
        !s.asking && skip_all ==> stepped(s, skip_all, ScanEventView::Failed, cfg).0 == advanced(
            s.pending,
            s.name_start,
            cfg.patterns@,
        ),
        !s.asking && !skip_all ==> announced(
            stepped(s, skip_all, ScanEventView::Failed, cfg).0,
            cfg.follow_symlinks,
        ) == (ScanActionView::Ask { path: s.current.path }),
        s.asking ==> stepped(
            s,
            skip_all,
            ScanEventView::Decision { answer: RetryDecision::Retry },
            cfg,
        ) == ((ScannerView { asking: false, ..s }, skip_all)),
        s.asking ==> stepped(
            s,
            skip_all,
            ScanEventView::Decision { answer: RetryDecision::SkipOne },
            cfg,
        ) == ((advanced(s.pending, s.name_start, cfg.patterns@), skip_all)),
        s.asking ==> stepped(
            s,
            skip_all,
            ScanEventView::Decision { answer: RetryDecision::SkipAllFuture },
            cfg,
        ) == ((advanced(s.pending, s.name_start, cfg.patterns@), true)),
{
}

} // verus!
