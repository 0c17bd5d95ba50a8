//! What holds of every run of the coordinator.

use crate::coordinator::{
    classified, coordinated, counts_as_directory, member_next, proposed, recoverable, starting,
    writing, CoordinatorActionView, CoordinatorEventView, CoordinatorView, Stage,
};
use crate::path::{archive_name, joined_all};
use crate::pattern::{excluded_by, ExclusionPattern};
use crate::retry::RetryDecision;
use crate::scanner::ScanConfig;
use vstd::prelude::*;

verus! {

/// What holds of every state that a run can reach: a root that is probed
/// is one that no pattern excludes, and a question to the operator is
/// open only in a stage whose failures are put to the operator.
pub open spec fn orderly(s: CoordinatorView, patterns: Seq<ExclusionPattern>) -> bool {
    &&& s.stage == Stage::Probe ==> !excluded_by(patterns, s.current)
    &&& s.asking ==> recoverable(s.stage)
}

/// The state after a sequence of events, and whether failures are
/// skipped without asking by then.
pub open spec fn run(
    s: CoordinatorView,
    skip_all: bool,
    events: Seq<CoordinatorEventView>,
    cfg: ScanConfig,
) -> (CoordinatorView, bool)
    decreases events.len(),
{
    if events.len() == 0 {
        (s, skip_all)
    } else {
        let before = run(s, skip_all, events.drop_last(), cfg);
        coordinated(before.0, before.1, events.last(), cfg)
    }
}

proof fn lemma_classified_orderly(s: CoordinatorView, patterns: Seq<ExclusionPattern>)
    ensures
        orderly(classified(s, patterns), patterns),
        classified(s, patterns).stage == Stage::Probe || classified(s, patterns).stage
            == Stage::Files,
        classified(s, patterns).split == s.split,
        classified(s, patterns).files == s.files,
        classified(s, patterns).dirs == s.dirs,
        classified(s, patterns).name_start == s.name_start,
    decreases s.waiting.len(),
{
    if s.waiting.len() > 0 && excluded_by(patterns, s.waiting[0]) {
        lemma_classified_orderly(CoordinatorView { waiting: s.waiting.drop_first(), ..s }, patterns);
    }
}

/// Every step keeps a run orderly.
pub proof fn lemma_step_orderly(
    s: CoordinatorView,
    skip_all: bool,
    event: CoordinatorEventView,
    cfg: ScanConfig,
)
    requires
        orderly(s, cfg.patterns@),
    ensures
        orderly(coordinated(s, skip_all, event, cfg).0, cfg.patterns@),
{
    let patterns = cfg.patterns@;
    lemma_classified_orderly(s, patterns);
    lemma_classified_orderly(CoordinatorView { dirs: s.dirs.push(s.current), ..s }, patterns);
    lemma_classified_orderly(CoordinatorView { files: s.files.push(s.current), ..s }, patterns);
    if let CoordinatorEventView::Listing { names } = event {
        lemma_classified_orderly(
            CoordinatorView {
                waiting: joined_all(s.current, names, cfg.style.sep()),
                files: Seq::<Seq<u8>>::empty(),
                ..s
            },
            patterns,
        );
    }
}

/// Every state that a run reaches is orderly.
pub proof fn lemma_run_orderly(
    split: bool,
    roots: Seq<Seq<u8>>,
    skip_all: bool,
    events: Seq<CoordinatorEventView>,
    cfg: ScanConfig,
)
    ensures
        orderly(run(starting(split, roots), skip_all, events, cfg).0, cfg.patterns@),
    decreases events.len(),
{
    if events.len() > 0 {
        lemma_run_orderly(split, roots, skip_all, events.drop_last(), cfg);
        let before = run(starting(split, roots), skip_all, events.drop_last(), cfg);
        lemma_step_orderly(before.0, before.1, events.last(), cfg);
    }
}

/// Exclusion comes before the first look at a root. Whatever events a
/// run in split mode has seen, the root that it asks to probe is one
/// that no pattern excludes.
pub proof fn law_excluded_roots_are_not_probed(
    split: bool,
    roots: Seq<Seq<u8>>,
    skip_all: bool,
    events: Seq<CoordinatorEventView>,
    cfg: ScanConfig,
)
    ensures
        ({
            let s = run(starting(split, roots), skip_all, events, cfg).0;
            proposed(s, cfg) matches CoordinatorActionView::Probe { path, .. } ==> !excluded_by(
                cfg.patterns@,
                path,
            )
        }),
{
    lemma_run_orderly(split, roots, skip_all, events, cfg);
}

/// Single-stream mode. A run that is not split scans all its roots, in
/// their order and under their own names, into the one container, and
/// then finishes it.
pub proof fn law_single_stream(roots: Seq<Seq<u8>>, skip_all: bool, cfg: ScanConfig)
    ensures
        ({
            let begun = coordinated(
                starting(false, roots),
                skip_all,
                CoordinatorEventView::Begin,
                cfg,
            ).0;
            let scanned = coordinated(begun, skip_all, CoordinatorEventView::Completed, cfg).0;
            let finished = coordinated(scanned, skip_all, CoordinatorEventView::Completed, cfg).0;
            &&& proposed(begun, cfg) == (CoordinatorActionView::Scan {
                roots,
                name_start: None,
            })
            &&& proposed(scanned, cfg) == CoordinatorActionView::Finish
            &&& proposed(finished, cfg) == CoordinatorActionView::Done
        }),
{
}

/// A single directory is not wrapped. In split mode, once the files among
/// the roots are archived: if exactly one root is a directory, it does
/// not become a member; it is resolved and listed, its name becomes what
/// names are placed below, and its children are gone through as the new
/// roots. Directories become members only where there are none or
/// several, the first of them first.
pub proof fn law_single_directory_is_promoted(
    s: CoordinatorView,
    skip_all: bool,
    path: Seq<u8>,
    names: Seq<Seq<u8>>,
    cfg: ScanConfig,
)
    requires
        s.split,
        s.stage == Stage::Files,
        !s.asking,
    ensures
        ({
            let next = coordinated(s, skip_all, CoordinatorEventView::Completed, cfg).0;
            let resolved = coordinated(next, skip_all, CoordinatorEventView::Resolved { path }, cfg).0;
            let listed = coordinated(
                resolved,
                skip_all,
                CoordinatorEventView::Listing { names },
                cfg,
            ).0;
            &&& s.dirs.len() == 1 ==> {
                &&& proposed(next, cfg) == (CoordinatorActionView::Resolve { path: s.dirs[0] })
                &&& proposed(resolved, cfg) == (CoordinatorActionView::Enumerate { path })
                &&& listed == classified(
                    CoordinatorView {
                        waiting: joined_all(path, names, cfg.style.sep()),
                        files: Seq::<Seq<u8>>::empty(),
                        ..resolved
                    },
                    cfg.patterns@,
                )
                &&& listed.name_start == Some(archive_name(path, s.name_start, cfg.style))
                &&& listed.dirs.len() == 0
                &&& listed.files.len() == 0
                &&& listed.stage == Stage::Probe || listed.stage == Stage::Files
            }
            &&& s.dirs.len() == 0 ==> proposed(next, cfg) == CoordinatorActionView::Finish
            &&& s.dirs.len() >= 2 ==> {
                &&& proposed(next, cfg) == (CoordinatorActionView::ListMembers {
                    path: s.dirs[0],
                })
                &&& next.waiting == s.dirs.drop_first()
            }
        }),
{
    let next = coordinated(s, skip_all, CoordinatorEventView::Completed, cfg).0;
    let resolved = coordinated(next, skip_all, CoordinatorEventView::Resolved { path }, cfg).0;
    if s.dirs.len() == 1 {
        lemma_classified_orderly(
            CoordinatorView {
                waiting: joined_all(path, names, cfg.style.sep()),
                files: Seq::<Seq<u8>>::empty(),
                ..resolved
            },
            cfg.patterns@,
        );
    }
}

/// One hand-off at a time. While a member is handed off, nothing but its
/// completion or its failure moves the run: every other event leaves the
/// state, and with it the pending hand-off, as it is. Its completion
/// brings the next directory, or the end of the container when none is
/// left; its failure ends the run.
pub proof fn law_one_handoff_at_a_time(
    s: CoordinatorView,
    skip_all: bool,
    event: CoordinatorEventView,
    cfg: ScanConfig,
)
    requires
        s.stage == Stage::Embed,
        !s.asking,
    ensures
        proposed(s, cfg) is Embed,
        event !is Completed && event !is Failed ==> coordinated(s, skip_all, event, cfg) == ((
            s,
            skip_all,
        )),
        event is Completed ==> coordinated(s, skip_all, event, cfg) == ((member_next(s), skip_all)),
        event is Failed ==> coordinated(s, skip_all, event, cfg).0.stage == Stage::Aborted,
        !(proposed(member_next(s), cfg) is Embed),
{
}

/// A directory that cannot be listed costs only its own member. When the
/// listing of a directory that was to become a member fails and the path
/// is given up (by the standing choice to skip, or by the operator's
/// answer), the run goes on with the directories that wait; and a
/// directory that a tag rule drops altogether is passed over in the same
/// way.
pub proof fn law_unreadable_member_is_left_out(s: CoordinatorView, cfg: ScanConfig)
    requires
        s.stage == Stage::Members,
    ensures
        !s.asking ==> coordinated(s, true, CoordinatorEventView::Failed, cfg) == ((
            member_next(s),
            true,
        )),
        !s.asking ==> proposed(
            coordinated(s, false, CoordinatorEventView::Failed, cfg).0,
            cfg,
        ) == (CoordinatorActionView::Ask { path: s.current }),
        s.asking ==> coordinated(
            s,
            false,
            CoordinatorEventView::Decision { answer: RetryDecision::SkipOne },
            cfg,
        ) == ((member_next(s), false)),
        s.asking ==> coordinated(
            s,
            false,
            CoordinatorEventView::Decision { answer: RetryDecision::SkipAllFuture },
            cfg,
        ) == ((member_next(s), true)),
        s.asking ==> coordinated(
            s,
            false,
            CoordinatorEventView::Decision { answer: RetryDecision::Retry },
            cfg,
        ).0 == (CoordinatorView { asking: false, ..s }),
        member_next(s).waiting == (if s.waiting.len() == 0 {
            s.waiting
        } else {
            s.waiting.drop_first()
        }),
{
}

/// A failure while the container is written is fatal. While roots are
/// scanned into the container, a member is embedded or the container is
/// finished, the report of a failure ends the run: the coordinator asks
/// for the run to be given up, the operator is not asked, and the choice
/// about reading failures stays as it was. From then on no event moves
/// the run: no further action is asked for.
pub proof fn law_write_failure_is_fatal(
    s: CoordinatorView,
    skip_all: bool,
    later: CoordinatorEventView,
    cfg: ScanConfig,
)
    requires
        writing(s.stage),
        !s.asking,
    ensures
        ({
            let ended = coordinated(s, skip_all, CoordinatorEventView::Failed, cfg);
            &&& ended.0.stage == Stage::Aborted
            &&& ended.1 == skip_all
            &&& proposed(ended.0, cfg) == CoordinatorActionView::Abort
            &&& coordinated(ended.0, skip_all, later, cfg) == ended
        }),
{
}

/// Links among the roots. A root counts as a directory, to be split off
/// or replaced by its children, exactly if it is reported as a directory
/// and is no symbolic link or links are followed; any other root, a link
/// that is not followed among them, goes with the files into the outer
/// container. The probe asks for the kind under the configured link
/// policy.
pub proof fn law_links_among_roots(
    s: CoordinatorView,
    skip_all: bool,
    is_dir: bool,
    is_symlink: bool,
    cfg: ScanConfig,
)
    requires
        s.stage == Stage::Probe,
        !s.asking,
    ensures
        ({
            let next = coordinated(
                s,
                skip_all,
                CoordinatorEventView::Probed { is_dir, is_symlink },
                cfg,
            ).0;
            &&& proposed(s, cfg) == (CoordinatorActionView::Probe {
                path: s.current,
                follow_symlinks: cfg.follow_symlinks,
            })
            &&& counts_as_directory(is_dir, is_symlink, cfg.follow_symlinks) ==> next.dirs
                == s.dirs.push(s.current) && next.files == s.files
            &&& !counts_as_directory(is_dir, is_symlink, cfg.follow_symlinks) ==> next.files
                == s.files.push(s.current) && next.dirs == s.dirs
            &&& is_symlink && !cfg.follow_symlinks ==> next.files == s.files.push(s.current)
        }),
{
    lemma_classified_orderly(CoordinatorView { dirs: s.dirs.push(s.current), ..s }, cfg.patterns@);
    lemma_classified_orderly(CoordinatorView { files: s.files.push(s.current), ..s }, cfg.patterns@);
}

/// A root that cannot be probed costs only itself. When the probe of a
/// root fails and the root is given up, the run goes on with the roots
/// that wait, and what was found so far stays.
pub proof fn law_unreadable_root_is_left_out(s: CoordinatorView, cfg: ScanConfig)
    requires
        s.stage == Stage::Probe,
    ensures
        !s.asking ==> coordinated(s, true, CoordinatorEventView::Failed, cfg) == ((
            classified(s, cfg.patterns@),
            true,
        )),
        !s.asking ==> proposed(coordinated(s, false, CoordinatorEventView::Failed, cfg).0, cfg)
            == (CoordinatorActionView::Ask { path: s.current }),
        s.asking ==> coordinated(
            s,
            false,
            CoordinatorEventView::Decision { answer: RetryDecision::SkipOne },
            cfg,
        ) == ((classified(s, cfg.patterns@), false)),
        classified(s, cfg.patterns@).files == s.files,
        classified(s, cfg.patterns@).dirs == s.dirs,
{
    lemma_classified_orderly(s, cfg.patterns@);
}

} // verus!
