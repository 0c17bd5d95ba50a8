//! What a scan amounts to when nothing fails: the pre-order walk of the
//! tree that the driver reports.
//!
//! The scanner sees the filesystem only through what its driver tells it.
//! A [`Node`] stands for what a driver tells of one path and of all below
//! it; [`walk`] says which entries the scan of such a tree should give,
//! and [`law_scan_is_walk`] states that the scanner, told just that, gives
//! exactly those entries in that order.

use crate::path::{archive_name, joined};
use crate::pattern::excluded_by;
use crate::scan_laws::run;
use crate::scanner::{
    advanced, child_visits, initial, single, stepped, FileIdentity, Phase, ScanConfig,
    ScanEventView, ScannerView, VisitView,
};
use crate::tags::{first_tagged, TagKeepMode};
use vstd::prelude::*;

verus! {

/// What a driver reports of one path: its identity, its kind, and its
/// children by name, in filesystem order, each with what is reported of
/// it in turn.
pub struct Node {
    pub id: FileIdentity,
    pub is_dir: bool,
    pub is_symlink: bool,
    pub children: Seq<(Seq<u8>, Node)>,
}

/// The names of the children of `n`.
pub open spec fn names_of(n: Node) -> Seq<Seq<u8>> {
    Seq::new(n.children.len(), |i: int| n.children[i].0)
}

/// Whether `n` is a directory that is walked into: a directory that is no
/// symbolic link, or any directory where links are followed.
pub open spec fn walked_into(n: Node, cfg: ScanConfig) -> bool {
    n.is_dir && (cfg.follow_symlinks || !n.is_symlink)
}

/// The entries, as pairs of path and name, that the tree `n` gives when
/// it lies at `path` and is archived as `name`, once `path` is let in.
///
/// The output file gives nothing. A path that is not walked into gives
/// itself. A directory gives what its first tag decides: nothing at all;
/// itself alone; or itself and then the tag file, which is held against
/// no pattern. Without a tag it gives itself and then what each of its
/// children gives, in their order.
pub open spec fn walk_admitted(n: Node, path: Seq<u8>, name: Seq<u8>, cfg: ScanConfig) -> Seq<
    (Seq<u8>, Seq<u8>),
>
    decreases n, 1int, 0int,
{
    let names = names_of(n);
    let sep = cfg.style.sep();
    let i = first_tagged(names, cfg.tags@, 0);
    if n.id == cfg.output {
        Seq::empty()
    } else if !walked_into(n, cfg) {
        seq![(path, name)]
    } else if i < 0 || i >= n.children.len() {
        seq![(path, name)] + walk_children(n, path, name, cfg, 0)
    } else {
        match cfg.tags@[names[i]] {
            TagKeepMode::Nothing => Seq::empty(),
            TagKeepMode::Dir => seq![(path, name)],
            TagKeepMode::Tag => seq![(path, name)] + walk_admitted(
                n.children[i].1,
                joined(path, n.children[i].0, sep),
                joined(name, n.children[i].0, sep),
                cfg,
            ),
        }
    }
}

/// The entries that the children of `n` from the `k`-th on give, each
/// below `path` and `name`: nothing for a child that a pattern excludes.
pub open spec fn walk_children(n: Node, path: Seq<u8>, name: Seq<u8>, cfg: ScanConfig, k: int) -> Seq<
    (Seq<u8>, Seq<u8>),
>
    decreases n, 0int, n.children.len() - k,
{
    if k < 0 || k >= n.children.len() {
        Seq::empty()
    } else {
        let sep = cfg.style.sep();
        let below = joined(path, n.children[k].0, sep);
        let first = if excluded_by(cfg.patterns@, below) {
            Seq::empty()
        } else {
            walk_admitted(n.children[k].1, below, joined(name, n.children[k].0, sep), cfg)
        };
        first + walk_children(n, path, name, cfg, k + 1)
    }
}

/// The entries that the tree `n` gives when it lies at `path` and is
/// archived as `name`: nothing if a pattern excludes `path`.
pub open spec fn walk(n: Node, path: Seq<u8>, name: Seq<u8>, cfg: ScanConfig) -> Seq<
    (Seq<u8>, Seq<u8>),
> {
    if excluded_by(cfg.patterns@, path) {
        Seq::empty()
    } else {
        walk_admitted(n, path, name, cfg)
    }
}

/// What a driver that never fails answers while the scanner deals with
/// the tree `n` at `path`, once `path` is let in: the kind, the identity,
/// the listing where the scanner asks for one, the confirmation where it
/// archives, and then the same for what is kept below.
pub open spec fn answers_admitted(n: Node, path: Seq<u8>, cfg: ScanConfig) -> Seq<ScanEventView>
    decreases n, 1int, 0int,
{
    let names = names_of(n);
    let sep = cfg.style.sep();
    let i = first_tagged(names, cfg.tags@, 0);
    let told = seq![
        ScanEventView::Metadata { is_dir: n.is_dir, is_symlink: n.is_symlink },
        ScanEventView::Identity { id: n.id },
    ];
    if n.id == cfg.output {
        told
    } else if !walked_into(n, cfg) {
        told.push(ScanEventView::Archived)
    } else if i < 0 || i >= n.children.len() {
        told.push(ScanEventView::Listing { names }).push(ScanEventView::Archived)
            + answers_children(n, path, cfg, 0)
    } else {
        match cfg.tags@[names[i]] {
            TagKeepMode::Nothing => told.push(ScanEventView::Listing { names }),
            TagKeepMode::Dir => told.push(ScanEventView::Listing { names }).push(
                ScanEventView::Archived,
            ),
            TagKeepMode::Tag => told.push(ScanEventView::Listing { names }).push(
                ScanEventView::Archived,
            ) + answers_admitted(n.children[i].1, joined(path, n.children[i].0, sep), cfg),
        }
    }
}

/// What a driver that never fails answers while the scanner deals with
/// the children of `n` from the `k`-th on: nothing for a child that a
/// pattern excludes, as nothing is asked about it.
pub open spec fn answers_children(n: Node, path: Seq<u8>, cfg: ScanConfig, k: int) -> Seq<
    ScanEventView,
>
    decreases n, 0int, n.children.len() - k,
{
    if k < 0 || k >= n.children.len() {
        Seq::empty()
    } else {
        let below = joined(path, n.children[k].0, cfg.style.sep());
        let first = if excluded_by(cfg.patterns@, below) {
            Seq::empty()
        } else {
            answers_admitted(n.children[k].1, below, cfg)
        };
        first + answers_children(n, path, cfg, k + 1)
    }
}

/// What a driver that never fails answers during the scan of the tree
/// `n` at `path`.
pub open spec fn answers(n: Node, path: Seq<u8>, cfg: ScanConfig) -> Seq<ScanEventView> {
    if excluded_by(cfg.patterns@, path) {
        Seq::empty()
    } else {
        answers_admitted(n, path, cfg)
    }
}

/// What a driver reports of one configured root: the path as it was
/// given, its canonical form, and the tree that lies there.
pub struct Root {
    pub given: Seq<u8>,
    pub canonical: Seq<u8>,
    pub tree: Node,
}

/// The paths of `roots` as they were given.
pub open spec fn given_paths(roots: Seq<Root>) -> Seq<Seq<u8>> {
    Seq::new(roots.len(), |i: int| roots[i].given)
}

/// The entries that the roots from the `k`-th on give, one root after
/// the other: nothing for a root that a pattern excludes as it was
/// given; else the walk of its tree at its canonical path, under the
/// name of that path below `name_start`.
pub open spec fn walk_roots(
    roots: Seq<Root>,
    name_start: Option<Seq<u8>>,
    cfg: ScanConfig,
    k: int,
) -> Seq<(Seq<u8>, Seq<u8>)>
    decreases roots.len() - k,
{
    if k < 0 || k >= roots.len() {
        Seq::empty()
    } else {
        let root = roots[k];
        let first = if excluded_by(cfg.patterns@, root.given) {
            Seq::empty()
        } else {
            walk(
                root.tree,
                root.canonical,
                archive_name(root.canonical, name_start, cfg.style),
                cfg,
            )
        };
        first + walk_roots(roots, name_start, cfg, k + 1)
    }
}

/// What a driver that never fails answers during the scan of the roots
/// from the `k`-th on.
pub open spec fn answers_roots(roots: Seq<Root>, cfg: ScanConfig, k: int) -> Seq<ScanEventView>
    decreases roots.len() - k,
{
    if k < 0 || k >= roots.len() {
        Seq::empty()
    } else {
        let root = roots[k];
        let first = if excluded_by(cfg.patterns@, root.given) {
            Seq::empty()
        } else {
            seq![ScanEventView::Resolved { path: root.canonical }] + answers(
                root.tree,
                root.canonical,
                cfg,
            )
        };
        first + answers_roots(roots, cfg, k + 1)
    }
}

/// The entries whose archiving was confirmed in the course of `events`,
/// in order.
pub open spec fn archived(
    s: ScannerView,
    skip_all: bool,
    events: Seq<ScanEventView>,
    cfg: ScanConfig,
) -> Seq<(Seq<u8>, Seq<u8>)>
    decreases events.len(),
{
    if events.len() == 0 {
        Seq::empty()
    } else {
        let before = run(s, skip_all, events.drop_last(), cfg).0;
        let earlier = archived(s, skip_all, events.drop_last(), cfg);
        if before.phase == Phase::Emit && !before.asking && events.last() is Archived {
            earlier.push((before.current.path, before.current.name))
        } else {
            earlier
        }
    }
}

/// A run over two sequences of events, one after the other, is the run
/// over the first followed by the run over the second.
proof fn lemma_run_split(
    s: ScannerView,
    skip_all: bool,
    a: Seq<ScanEventView>,
    b: Seq<ScanEventView>,
    cfg: ScanConfig,
)
    ensures
        run(s, skip_all, a + b, cfg) == run(
            run(s, skip_all, a, cfg).0,
            run(s, skip_all, a, cfg).1,
            b,
            cfg,
        ),
        archived(s, skip_all, a + b, cfg) == archived(s, skip_all, a, cfg) + archived(
            run(s, skip_all, a, cfg).0,
            run(s, skip_all, a, cfg).1,
            b,
            cfg,
        ),
    decreases b.len(),
{
    let mid = run(s, skip_all, a, cfg);
    if b.len() == 0 {
        assert(a + b =~= a);
        assert(archived(s, skip_all, a, cfg) + Seq::<(Seq<u8>, Seq<u8>)>::empty() =~= archived(
            s,
            skip_all,
            a,
            cfg,
        ));
    } else {
        lemma_run_split(s, skip_all, a, b.drop_last(), cfg);
        assert((a + b).drop_last() =~= a + b.drop_last());
        assert((a + b).last() == b.last());
        let earlier = archived(s, skip_all, a, cfg) + archived(mid.0, mid.1, b.drop_last(), cfg);
        let before = run(mid.0, mid.1, b.drop_last(), cfg).0;
        if before.phase == Phase::Emit && !before.asking && b.last() is Archived {
            assert(earlier.push((before.current.path, before.current.name)) =~= archived(
                s,
                skip_all,
                a,
                cfg,
            ) + archived(mid.0, mid.1, b.drop_last(), cfg).push(
                (before.current.path, before.current.name),
            ));
        }
    }
}

/// A run over one event is one step.
proof fn lemma_run_one(s: ScannerView, skip_all: bool, e: ScanEventView, cfg: ScanConfig)
    ensures
        run(s, skip_all, seq![e], cfg) == stepped(s, skip_all, e, cfg),
        archived(s, skip_all, seq![e], cfg) == (if s.phase == Phase::Emit && !s.asking
            && e is Archived {
            seq![(s.current.path, s.current.name)]
        } else {
            Seq::empty()
        }),
{
    let one = seq![e];
    assert(one.drop_last() =~= Seq::<ScanEventView>::empty());
    assert(run(s, skip_all, one.drop_last(), cfg) == (s, skip_all));
    assert(archived(s, skip_all, one.drop_last(), cfg) =~= Seq::<(Seq<u8>, Seq<u8>)>::empty());
    if s.phase == Phase::Emit && !s.asking && e is Archived {
        assert(Seq::<(Seq<u8>, Seq<u8>)>::empty().push((s.current.path, s.current.name)) =~= seq![
            (s.current.path, s.current.name),
        ]);
    }
}

/// A run over an event and then more events is one step and then the run
/// over the rest.
proof fn lemma_run_first(
    s: ScannerView,
    skip_all: bool,
    e: ScanEventView,
    rest: Seq<ScanEventView>,
    cfg: ScanConfig,
)
    ensures
        run(s, skip_all, seq![e] + rest, cfg) == run(
            stepped(s, skip_all, e, cfg).0,
            stepped(s, skip_all, e, cfg).1,
            rest,
            cfg,
        ),
        archived(s, skip_all, seq![e] + rest, cfg) == (if s.phase == Phase::Emit && !s.asking
            && e is Archived {
            seq![(s.current.path, s.current.name)]
        } else {
            Seq::empty()
        }) + archived(
            stepped(s, skip_all, e, cfg).0,
            stepped(s, skip_all, e, cfg).1,
            rest,
            cfg,
        ),
{
    lemma_run_split(s, skip_all, seq![e], rest, cfg);
    lemma_run_one(s, skip_all, e, cfg);
}

/// The scanner, told of an admitted tree what is reported of it, leaves
/// the tree behind with exactly its walk archived.
proof fn lemma_walk_admitted(n: Node, s: ScannerView, skip_all: bool, cfg: ScanConfig)
    requires
        s.phase == Phase::Stat,
        !s.asking,
        s.children.len() == 0,
    ensures
        run(s, skip_all, answers_admitted(n, s.current.path, cfg), cfg) == ((
            advanced(s.pending, s.name_start, cfg.patterns@),
            skip_all,
        )),
        archived(s, skip_all, answers_admitted(n, s.current.path, cfg), cfg) == walk_admitted(
            n,
            s.current.path,
            s.current.name,
            cfg,
        ),
    decreases n, 1int, 0int,
{
    let path = s.current.path;
    let name = s.current.name;
    let sep = cfg.style.sep();
    let names = names_of(n);
    let i = first_tagged(names, cfg.tags@, 0);
    let all = answers_admitted(n, path, cfg);
    let e1 = ScanEventView::Metadata { is_dir: n.is_dir, is_symlink: n.is_symlink };
    let e2 = ScanEventView::Identity { id: n.id };
    let e3 = ScanEventView::Listing { names };
    let e4 = ScanEventView::Archived;
    let s1 = stepped(s, skip_all, e1, cfg).0;
    let s2 = stepped(s1, skip_all, e2, cfg).0;
    let none = Seq::<ScanEventView>::empty();
    let entry = seq![(path, name)];
    let nothing = Seq::<(Seq<u8>, Seq<u8>)>::empty();
    if n.id == cfg.output {
        assert(all =~= seq![e1] + (seq![e2] + none));
        lemma_run_first(s, skip_all, e1, seq![e2] + none, cfg);
        lemma_run_first(s1, skip_all, e2, none, cfg);
        assert(nothing + (nothing + nothing) =~= nothing);
    } else if !walked_into(n, cfg) {
        assert(all =~= seq![e1] + (seq![e2] + (seq![e4] + none)));
        lemma_run_first(s, skip_all, e1, seq![e2] + (seq![e4] + none), cfg);
        lemma_run_first(s1, skip_all, e2, seq![e4] + none, cfg);
        lemma_run_first(s2, skip_all, e4, none, cfg);
        assert(child_visits(s2, sep) + s2.pending =~= s.pending);
        assert(nothing + (nothing + (entry + nothing)) =~= entry);
    } else {
        let s3 = stepped(s2, skip_all, e3, cfg).0;
        lemma_first_tag_is_tag(names, cfg.tags@, 0);
        if i < 0 || i >= n.children.len() {
            let rest = answers_children(n, path, cfg, 0);
            assert(all =~= seq![e1] + (seq![e2] + (seq![e3] + (seq![e4] + rest))));
            lemma_run_first(s, skip_all, e1, seq![e2] + (seq![e3] + (seq![e4] + rest)), cfg);
            lemma_run_first(s1, skip_all, e2, seq![e3] + (seq![e4] + rest), cfg);
            lemma_run_first(s2, skip_all, e3, seq![e4] + rest, cfg);
            lemma_run_first(s3, skip_all, e4, rest, cfg);
            assert(s3.children == names);
            assert(child_visits(s3, sep).subrange(0, names.len() as int) =~= child_visits(
                s3,
                sep,
            ));
            lemma_walk_children(n, s3, 0, skip_all, cfg);
            let below = walk_children(n, path, name, cfg, 0);
            assert(nothing + (nothing + (nothing + (entry + below))) =~= entry + below);
        } else {
            match cfg.tags@[names[i]] {
                TagKeepMode::Nothing => {
                    assert(all =~= seq![e1] + (seq![e2] + (seq![e3] + none)));
                    lemma_run_first(s, skip_all, e1, seq![e2] + (seq![e3] + none), cfg);
                    lemma_run_first(s1, skip_all, e2, seq![e3] + none, cfg);
                    lemma_run_first(s2, skip_all, e3, none, cfg);
                    assert(nothing + (nothing + (nothing + nothing)) =~= nothing);
                },
                TagKeepMode::Dir => {
                    assert(all =~= seq![e1] + (seq![e2] + (seq![e3] + (seq![e4] + none))));
                    lemma_run_first(s, skip_all, e1, seq![e2] + (seq![e3] + (seq![e4] + none)), cfg);
                    lemma_run_first(s1, skip_all, e2, seq![e3] + (seq![e4] + none), cfg);
                    lemma_run_first(s2, skip_all, e3, seq![e4] + none, cfg);
                    lemma_run_first(s3, skip_all, e4, none, cfg);
                    assert(child_visits(s3, sep) + s3.pending =~= s.pending);
                    assert(nothing + (nothing + (nothing + (entry + nothing))) =~= entry);
                },
                TagKeepMode::Tag => {
                    let child = n.children[i].1;
                    let below = joined(path, n.children[i].0, sep);
                    let rest = answers_admitted(child, below, cfg);
                    assert(all =~= seq![e1] + (seq![e2] + (seq![e3] + (seq![e4] + rest))));
                    lemma_run_first(s, skip_all, e1, seq![e2] + (seq![e3] + (seq![e4] + rest)), cfg);
                    lemma_run_first(s1, skip_all, e2, seq![e3] + (seq![e4] + rest), cfg);
                    lemma_run_first(s2, skip_all, e3, seq![e4] + rest, cfg);
                    lemma_run_first(s3, skip_all, e4, rest, cfg);
                    let s4 = stepped(s3, skip_all, e4, cfg).0;
                    let kids = child_visits(s3, sep);
                    assert(s3.children =~= seq![names[i]]);
                    assert(kids.len() == 1);
                    assert((kids + s3.pending)[0] == kids[0]);
                    assert((kids + s3.pending).drop_first() =~= s.pending);
                    assert(s4.current == kids[0]);
                    lemma_walk_admitted(child, s4, skip_all, cfg);
                    let deeper = walk_admitted(
                        child,
                        below,
                        joined(name, n.children[i].0, sep),
                        cfg,
                    );
                    assert(nothing + (nothing + (nothing + (entry + deeper))) =~= entry + deeper);
                },
            }
        }
    }
}

/// Where `first_tagged` finds a name, the name is a tag.
proof fn lemma_first_tag_is_tag(names: Seq<Seq<u8>>, tags: Map<Seq<u8>, TagKeepMode>, from: int)
    requires
        0 <= from,
    ensures
        from <= first_tagged(names, tags, from) || first_tagged(names, tags, from) == names.len(),
        first_tagged(names, tags, from) < names.len() ==> tags.contains_key(
            names[first_tagged(names, tags, from)],
        ),
    decreases names.len() - from,
{
    if from < names.len() && !tags.contains_key(names[from]) {
        lemma_first_tag_is_tag(names, tags, from + 1);
    }
}

/// The scanner, with the children of `n` from the `k`-th on next in
/// line, leaves them behind with exactly their walks archived.
proof fn lemma_walk_children(n: Node, parent: ScannerView, k: int, skip_all: bool, cfg: ScanConfig)
    requires
        0 <= k <= n.children.len(),
        parent.children == names_of(n),
        !parent.forced,
    ensures
        ({
            let waiting = child_visits(parent, cfg.style.sep()).subrange(
                k,
                n.children.len() as int,
            ) + parent.pending;
            let start = advanced(waiting, parent.name_start, cfg.patterns@);
            let events = answers_children(n, parent.current.path, cfg, k);
            &&& run(start, skip_all, events, cfg) == ((
                advanced(parent.pending, parent.name_start, cfg.patterns@),
                skip_all,
            ))
            &&& archived(start, skip_all, events, cfg) == walk_children(
                n,
                parent.current.path,
                parent.current.name,
                cfg,
                k,
            )
        }),
    decreases n, 0int, n.children.len() - k,
{
    let sep = cfg.style.sep();
    let len = n.children.len() as int;
    let kids = child_visits(parent, sep);
    let waiting = kids.subrange(k, len) + parent.pending;
    let start = advanced(waiting, parent.name_start, cfg.patterns@);
    let events = answers_children(n, parent.current.path, cfg, k);
    if k == len {
        assert(waiting =~= parent.pending);
        assert(events =~= Seq::<ScanEventView>::empty());
    } else {
        let next = kids.subrange(k + 1, len) + parent.pending;
        let onward = advanced(next, parent.name_start, cfg.patterns@);
        let later = answers_children(n, parent.current.path, cfg, k + 1);
        let visit = kids[k];
        let below = joined(parent.current.path, n.children[k].0, sep);
        assert(names_of(n)[k] == n.children[k].0);
        assert(visit.path == below);
        assert(waiting[0] == visit);
        assert(waiting.drop_first() =~= next);
        lemma_walk_children(n, parent, k + 1, skip_all, cfg);
        if excluded_by(cfg.patterns@, below) {
            assert(start == onward);
            assert(events =~= later);
            assert(Seq::<(Seq<u8>, Seq<u8>)>::empty() + walk_children(
                n,
                parent.current.path,
                parent.current.name,
                cfg,
                k + 1,
            ) =~= walk_children(n, parent.current.path, parent.current.name, cfg, k + 1));
        } else {
            let first = answers_admitted(n.children[k].1, below, cfg);
            assert(events == first + later);
            assert(start.current == visit);
            assert(start.pending == next);
            lemma_walk_admitted(n.children[k].1, start, skip_all, cfg);
            lemma_run_split(start, skip_all, first, later, cfg);
        }
    }
}

/// The scanner, with the roots from the `k`-th on next in line, leaves
/// them behind with exactly their walks archived.
proof fn lemma_walk_roots(
    roots: Seq<Root>,
    name_start: Option<Seq<u8>>,
    k: int,
    skip_all: bool,
    cfg: ScanConfig,
)
    requires
        0 <= k <= roots.len(),
    ensures
        ({
            let waiting = initial(given_paths(roots), name_start).pending.subrange(
                k,
                roots.len() as int,
            );
            let start = advanced(waiting, name_start, cfg.patterns@);
            let events = answers_roots(roots, cfg, k);
            &&& run(start, skip_all, events, cfg).0.phase == Phase::Done
            &&& archived(start, skip_all, events, cfg) == walk_roots(roots, name_start, cfg, k)
        }),
    decreases roots.len() - k,
{
    let len = roots.len() as int;
    let visits = initial(given_paths(roots), name_start).pending;
    let waiting = visits.subrange(k, len);
    let start = advanced(waiting, name_start, cfg.patterns@);
    let events = answers_roots(roots, cfg, k);
    let nothing = Seq::<(Seq<u8>, Seq<u8>)>::empty();
    if k == len {
        assert(waiting =~= Seq::<VisitView>::empty());
        assert(events =~= Seq::<ScanEventView>::empty());
    } else {
        let root = roots[k];
        let next = visits.subrange(k + 1, len);
        let onward = advanced(next, name_start, cfg.patterns@);
        let later = answers_roots(roots, cfg, k + 1);
        let after = walk_roots(roots, name_start, cfg, k + 1);
        assert(waiting[0] == visits[k]);
        assert(visits[k].path == root.given);
        assert(waiting.drop_first() =~= next);
        lemma_walk_roots(roots, name_start, k + 1, skip_all, cfg);
        if excluded_by(cfg.patterns@, root.given) {
            assert(start == onward);
            assert(events =~= later);
            assert(nothing + after =~= after);
        } else {
            let resolved = ScanEventView::Resolved { path: root.canonical };
            let told = answers(root.tree, root.canonical, cfg);
            let name = archive_name(root.canonical, name_start, cfg.style);
            assert(events =~= seq![resolved] + (told + later));
            assert(start.phase == Phase::Resolve);
            assert(start.pending == next);
            lemma_run_first(start, skip_all, resolved, told + later, cfg);
            let s1 = stepped(start, skip_all, resolved, cfg).0;
            lemma_run_split(s1, skip_all, told, later, cfg);
            if excluded_by(cfg.patterns@, root.canonical) {
                assert(s1 == onward);
                assert(told =~= Seq::<ScanEventView>::empty());
                assert(nothing + (nothing + after) =~= nothing + after);
            } else {
                lemma_walk_admitted(root.tree, s1, skip_all, cfg);
                let own = walk_admitted(root.tree, root.canonical, name, cfg);
                assert(nothing + (own + after) =~= own + after);
            }
        }
    }
}

/// A scan of roots is a walk of each. When the scanner scans the roots
/// `roots`, their names below `name_start`, and is told without a
/// failure what lies there, the scan ends, and the entries it archives
/// are the walks of the roots one after the other, in the order in which
/// the roots were given.
pub proof fn law_scan_walks_the_roots(
    roots: Seq<Root>,
    name_start: Option<Seq<u8>>,
    skip_all: bool,
    cfg: ScanConfig,
)
    ensures
        ({
            let start = initial(given_paths(roots), name_start);
            let events = seq![ScanEventView::Begin] + answers_roots(roots, cfg, 0);
            &&& run(start, skip_all, events, cfg).0.phase == Phase::Done
            &&& archived(start, skip_all, events, cfg) == walk_roots(roots, name_start, cfg, 0)
        }),
{
    let start = initial(given_paths(roots), name_start);
    let rest = answers_roots(roots, cfg, 0);
    lemma_run_first(start, skip_all, ScanEventView::Begin, rest, cfg);
    lemma_walk_roots(roots, name_start, 0, skip_all, cfg);
    assert(start.pending.subrange(0, roots.len() as int) =~= start.pending);
    let walked = walk_roots(roots, name_start, cfg, 0);
    assert(Seq::<(Seq<u8>, Seq<u8>)>::empty() + walked =~= walked);
}

/// A scan is a walk. When the scanner scans the one path `path` under
/// the name `name` and is told, without a failure, what the tree `n`
/// holds, the scan ends, and the entries it archives are exactly those of
/// the walk of `n`, in the order of the walk: every directory before what
/// lies below it, the children of a directory in the order of its
/// listing.
pub proof fn law_scan_is_walk(n: Node, path: Seq<u8>, name: Seq<u8>, skip_all: bool, cfg: ScanConfig)
    ensures
        ({
            let events = seq![ScanEventView::Begin] + answers(n, path, cfg);
            &&& run(single(path, name), skip_all, events, cfg).0.phase == Phase::Done
            &&& archived(single(path, name), skip_all, events, cfg) == walk(n, path, name, cfg)
        }),
{
    let start = single(path, name);
    let begun = stepped(start, skip_all, ScanEventView::Begin, cfg).0;
    let rest = answers(n, path, cfg);
    lemma_run_first(start, skip_all, ScanEventView::Begin, rest, cfg);
    assert(start.pending.drop_first() =~= Seq::empty());
    let nothing = Seq::<(Seq<u8>, Seq<u8>)>::empty();
    if excluded_by(cfg.patterns@, path) {
        let after = advanced(start.pending.drop_first(), start.name_start, cfg.patterns@);
        assert(after.phase == Phase::Done);
        assert(start.pending[0].path == path);
        assert(begun == after);
        assert(rest =~= Seq::<ScanEventView>::empty());
        assert(nothing + nothing =~= nothing);
    } else {
        lemma_walk_admitted(n, begun, skip_all, cfg);
        assert(nothing + walk_admitted(n, path, name, cfg) =~= walk_admitted(n, path, name, cfg));
    }
}

} // verus!
