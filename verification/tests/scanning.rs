use baxzup::path::PathStyle;
use baxzup::pattern::{parse_excluded_pattern, ExclusionPattern};
use baxzup::retry::{FailurePolicy, RetryDecision};
use baxzup::scanner::{FileIdentity, Phase, ScanAction, ScanConfig, ScanEvent, Scanner};
use baxzup::tags::{TagKeepMode, TagRules};
use std::collections::{HashMap, VecDeque};

#[derive(Clone)]
enum Node {
    File,
    Dir(Vec<&'static str>),
    LinkToDir(Vec<&'static str>),
}

struct Fs {
    nodes: HashMap<String, (Node, u128)>,
    failing: HashMap<String, usize>,
    answers: VecDeque<RetryDecision>,
    log: Vec<String>,
    next_id: u128,
}

impl Fs {
    fn new() -> Fs {
        Fs {
            nodes: HashMap::new(),
            failing: HashMap::new(),
            answers: VecDeque::new(),
            log: Vec::new(),
            next_id: 100,
        }
    }

    fn add(&mut self, path: &str, node: Node) -> u128 {
        self.next_id += 1;
        self.nodes.insert(path.to_string(), (node, self.next_id));
        self.next_id
    }

    fn fails(&mut self, path: &str) -> bool {
        match self.failing.get_mut(path) {
            Some(left) if *left > 0 => {
                *left -= 1;
                true
            }
            _ => false,
        }
    }

    fn count(&self, line: &str) -> usize {
        self.log.iter().filter(|l| l.as_str() == line).count()
    }

    fn touched(&self, path: &str) -> bool {
        self.log.iter().any(|l| l.ends_with(&format!(" {}", path)))
    }
}

fn text(bytes: &[u8]) -> String {
    String::from_utf8(bytes.to_vec()).unwrap()
}

fn config(patterns: &[&str], tags: TagRules, follow_symlinks: bool) -> ScanConfig {
    let patterns: Vec<ExclusionPattern> = patterns
        .iter()
        .map(|p| parse_excluded_pattern(p, PathStyle::Unix).unwrap())
        .collect();
    ScanConfig {
        patterns,
        tags,
        follow_symlinks,
        output: FileIdentity { storage: 1, file: 1 },
        style: PathStyle::Unix,
    }
}

/// Carries out what the scanner asks for on the model filesystem, and
/// returns the entries it archives, in order.
fn drive(
    scanner: &mut Scanner,
    cfg: &ScanConfig,
    policy: &mut FailurePolicy,
    fs: &mut Fs,
) -> Vec<(String, String)> {
    let mut entries = Vec::new();
    let mut action = scanner.step(ScanEvent::Begin, cfg, policy);
    loop {
        let event = match action {
            ScanAction::Finished => break,
            ScanAction::Abort => panic!("the container of the model cannot break"),
            ScanAction::Resolve { path } => {
                let p = text(&path);
                fs.log.push(format!("resolve {}", p));
                if fs.fails(&p) || !fs.nodes.contains_key(&p) {
                    ScanEvent::Failed
                } else {
                    ScanEvent::Resolved { path }
                }
            }
            ScanAction::Stat { path, follow_symlinks } => {
                let p = text(&path);
                fs.log.push(format!("stat {}", p));
                if fs.fails(&p) {
                    ScanEvent::Failed
                } else {
                    match fs.nodes.get(&p) {
                        None => ScanEvent::Failed,
                        Some((Node::File, _)) => {
                            ScanEvent::Metadata { is_dir: false, is_symlink: false }
                        }
                        Some((Node::Dir(_), _)) => {
                            ScanEvent::Metadata { is_dir: true, is_symlink: false }
                        }
                        Some((Node::LinkToDir(_), _)) => ScanEvent::Metadata {
                            is_dir: follow_symlinks,
                            is_symlink: !follow_symlinks,
                        },
                    }
                }
            }
            ScanAction::Identify { path } => {
                let p = text(&path);
                fs.log.push(format!("identify {}", p));
                match fs.nodes.get(&p) {
                    None => ScanEvent::Failed,
                    Some((_, id)) => {
                        ScanEvent::Identity { id: FileIdentity { storage: 1, file: *id } }
                    }
                }
            }
            ScanAction::List { path } => {
                let p = text(&path);
                fs.log.push(format!("list {}", p));
                match fs.nodes.get(&p) {
                    Some((Node::Dir(names), _)) | Some((Node::LinkToDir(names), _)) => {
                        ScanEvent::Listing {
                            names: names.iter().map(|n| n.as_bytes().to_vec()).collect(),
                        }
                    }
                    _ => ScanEvent::Failed,
                }
            }
            ScanAction::Archive { entry } => {
                let p = text(&entry.path);
                fs.log.push(format!("archive {}", p));
                entries.push((p, text(&entry.name)));
                ScanEvent::Archived
            }
            ScanAction::Ask { path } => {
                fs.log.push(format!("ask {}", text(&path)));
                ScanEvent::Decision {
                    answer: fs.answers.pop_front().expect("the operator was asked once too often"),
                }
            }
        };
        action = scanner.step(event, cfg, policy);
    }
    assert!(scanner.is_finished());
    entries
}

fn scan(roots: &[&str], cfg: &ScanConfig, fs: &mut Fs) -> Vec<(String, String)> {
    let roots: Vec<Vec<u8>> = roots.iter().map(|r| r.as_bytes().to_vec()).collect();
    let mut scanner = Scanner::new(&roots, None);
    let mut policy = FailurePolicy::new(false);
    drive(&mut scanner, cfg, &mut policy, fs)
}

fn pairs(list: &[(&str, &str)]) -> Vec<(String, String)> {
    list.iter().map(|(p, n)| (p.to_string(), n.to_string())).collect()
}

fn tagged(mode: TagKeepMode) -> TagRules {
    let mut tags = TagRules::new();
    tags.insert(b"TAGFILE".to_vec(), mode);
    tags
}

fn tag_fixture() -> Fs {
    let mut fs = Fs::new();
    fs.add("/r", Node::Dir(vec!["d", "z"]));
    fs.add("/r/d", Node::Dir(vec!["a", "TAGFILE", "b"]));
    fs.add("/r/d/a", Node::File);
    fs.add("/r/d/TAGFILE", Node::File);
    fs.add("/r/d/b", Node::File);
    fs.add("/r/z", Node::File);
    fs
}

#[test]
fn entries_come_depth_first_and_directories_before_their_children() {
    let mut fs = Fs::new();
    fs.add("/r", Node::Dir(vec!["b", "a", "c"]));
    fs.add("/r/b", Node::Dir(vec!["y", "x"]));
    fs.add("/r/b/y", Node::Dir(vec!["deep"]));
    fs.add("/r/b/y/deep", Node::File);
    fs.add("/r/b/x", Node::File);
    fs.add("/r/a", Node::File);
    fs.add("/r/c", Node::Dir(vec![]));
    fs.add("/s", Node::File);
    let cfg = config(&[], TagRules::new(), false);
    let entries = scan(&["/r", "/s"], &cfg, &mut fs);
    assert_eq!(
        entries,
        pairs(&[
            ("/r", "r"),
            ("/r/b", "r/b"),
            ("/r/b/y", "r/b/y"),
            ("/r/b/y/deep", "r/b/y/deep"),
            ("/r/b/x", "r/b/x"),
            ("/r/a", "r/a"),
            ("/r/c", "r/c"),
            ("/s", "s"),
        ])
    );
}

#[test]
fn an_excluded_path_is_never_looked_at() {
    let mut fs = Fs::new();
    fs.add("/r", Node::Dir(vec!["a", "cache", "b"]));
    fs.add("/r/a", Node::File);
    fs.add("/r/b", Node::File);
    // `/r/cache` cannot be read at all: any look at it would fail.
    let cfg = config(&["cache"], TagRules::new(), false);
    let entries = scan(&["/r"], &cfg, &mut fs);
    assert_eq!(entries, pairs(&[("/r", "r"), ("/r/a", "r/a"), ("/r/b", "r/b")]));
    assert!(!fs.touched("/r/cache"));
    assert_eq!(fs.count("ask /r/cache"), 0);
}

#[test]
fn nothing_below_an_excluded_directory_is_looked_at() {
    let mut fs = Fs::new();
    fs.add("/r", Node::Dir(vec!["skip", "keep"]));
    fs.add("/r/skip", Node::Dir(vec!["inner"]));
    fs.add("/r/skip/inner", Node::File);
    fs.add("/r/keep", Node::File);
    let cfg = config(&["?/skip/"], TagRules::new(), false);
    let entries = scan(&["/r"], &cfg, &mut fs);
    assert_eq!(entries, pairs(&[("/r", "r"), ("/r/keep", "r/keep")]));
    assert!(!fs.touched("/r/skip"));
    assert!(!fs.touched("/r/skip/inner"));
}

#[test]
fn an_excluded_root_is_dropped_before_it_is_resolved() {
    let mut fs = Fs::new();
    fs.add("/keep", Node::File);
    let cfg = config(&["gone"], TagRules::new(), false);
    let entries = scan(&["/gone", "/keep"], &cfg, &mut fs);
    assert_eq!(entries, pairs(&[("/keep", "keep")]));
    assert!(!fs.touched("/gone"));
}

#[test]
fn keep_none_leaves_nothing_of_the_directory() {
    let mut fs = tag_fixture();
    let cfg = config(&[], tagged(TagKeepMode::Nothing), false);
    let entries = scan(&["/r"], &cfg, &mut fs);
    assert_eq!(entries, pairs(&[("/r", "r"), ("/r/z", "r/z")]));
    assert!(!fs.touched("/r/d/a") && !fs.touched("/r/d/b") && !fs.touched("/r/d/TAGFILE"));
}

#[test]
fn keep_dir_leaves_the_directory_alone() {
    let mut fs = tag_fixture();
    let cfg = config(&[], tagged(TagKeepMode::Dir), false);
    let entries = scan(&["/r"], &cfg, &mut fs);
    assert_eq!(entries, pairs(&[("/r", "r"), ("/r/d", "r/d"), ("/r/z", "r/z")]));
    assert!(!fs.touched("/r/d/a") && !fs.touched("/r/d/b") && !fs.touched("/r/d/TAGFILE"));
}

#[test]
fn keep_tag_leaves_the_directory_and_its_tag() {
    let mut fs = tag_fixture();
    let cfg = config(&[], tagged(TagKeepMode::Tag), false);
    let entries = scan(&["/r"], &cfg, &mut fs);
    assert_eq!(
        entries,
        pairs(&[("/r", "r"), ("/r/d", "r/d"), ("/r/d/TAGFILE", "r/d/TAGFILE"), ("/r/z", "r/z")])
    );
    assert!(!fs.touched("/r/d/a") && !fs.touched("/r/d/b"));
}

#[test]
fn a_kept_tag_is_held_against_no_pattern() {
    let mut fs = tag_fixture();
    let cfg = config(&["TAGFILE"], tagged(TagKeepMode::Tag), false);
    let entries = scan(&["/r"], &cfg, &mut fs);
    assert_eq!(
        entries,
        pairs(&[("/r", "r"), ("/r/d", "r/d"), ("/r/d/TAGFILE", "r/d/TAGFILE"), ("/r/z", "r/z")])
    );
}

#[test]
fn the_output_file_is_never_archived() {
    let mut fs = Fs::new();
    fs.add("/r", Node::Dir(vec!["a", "backup.tar.xz", "b"]));
    fs.add("/r/a", Node::File);
    let out = fs.add("/r/backup.tar.xz", Node::File);
    fs.add("/r/b", Node::File);
    let mut cfg = config(&[], TagRules::new(), false);
    cfg.output = FileIdentity { storage: 1, file: out };
    let entries = scan(&["/r"], &cfg, &mut fs);
    assert_eq!(entries, pairs(&[("/r", "r"), ("/r/a", "r/a"), ("/r/b", "r/b")]));
    // The same number on another storage is another file.
    cfg.output = FileIdentity { storage: 2, file: out };
    let entries = scan(&["/r"], &cfg, &mut fs);
    assert_eq!(entries.len(), 4);
}

#[test]
fn a_link_to_a_directory_is_a_leaf_unless_links_are_followed() {
    let mut fs = Fs::new();
    fs.add("/r", Node::Dir(vec!["link", "f"]));
    fs.add("/r/link", Node::LinkToDir(vec!["inside"]));
    fs.add("/r/link/inside", Node::File);
    fs.add("/r/f", Node::File);
    let cfg = config(&[], TagRules::new(), false);
    let entries = scan(&["/r"], &cfg, &mut fs);
    assert_eq!(entries, pairs(&[("/r", "r"), ("/r/link", "r/link"), ("/r/f", "r/f")]));
    assert_eq!(fs.count("list /r/link"), 0);
    assert!(!fs.touched("/r/link/inside"));

    let cfg = config(&[], TagRules::new(), true);
    let entries = scan(&["/r"], &cfg, &mut fs);
    assert_eq!(
        entries,
        pairs(&[
            ("/r", "r"),
            ("/r/link", "r/link"),
            ("/r/link/inside", "r/link/inside"),
            ("/r/f", "r/f"),
        ])
    );
}

#[test]
fn a_failing_path_is_tried_again_until_it_is_skipped() {
    let mut fs = Fs::new();
    fs.add("/r", Node::Dir(vec!["bad", "good"]));
    fs.add("/r/bad", Node::File);
    fs.add("/r/good", Node::File);
    fs.failing.insert("/r/bad".to_string(), 99);
    fs.answers = VecDeque::from(vec![
        RetryDecision::Retry,
        RetryDecision::Retry,
        RetryDecision::SkipOne,
    ]);
    let cfg = config(&[], TagRules::new(), false);
    let entries = scan(&["/r"], &cfg, &mut fs);
    assert_eq!(fs.count("stat /r/bad"), 3);
    assert_eq!(fs.count("ask /r/bad"), 3);
    assert_eq!(entries, pairs(&[("/r", "r"), ("/r/good", "r/good")]));
    assert!(fs.answers.is_empty());
}

#[test]
fn a_retry_that_succeeds_archives_the_path() {
    let mut fs = Fs::new();
    fs.add("/r", Node::Dir(vec!["flaky"]));
    fs.add("/r/flaky", Node::File);
    fs.failing.insert("/r/flaky".to_string(), 1);
    fs.answers = VecDeque::from(vec![RetryDecision::Retry]);
    let cfg = config(&[], TagRules::new(), false);
    let entries = scan(&["/r"], &cfg, &mut fs);
    assert_eq!(fs.count("stat /r/flaky"), 2);
    assert_eq!(entries, pairs(&[("/r", "r"), ("/r/flaky", "r/flaky")]));
}

#[test]
fn after_skip_all_nobody_is_asked_again() {
    let mut fs = Fs::new();
    fs.add("/r", Node::Dir(vec!["bad1", "ok", "bad2"]));
    fs.add("/r/ok", Node::File);
    fs.answers = VecDeque::from(vec![RetryDecision::SkipAllFuture]);
    let cfg = config(&[], TagRules::new(), false);
    let roots = vec![b"/r".to_vec()];
    let mut scanner = Scanner::new(&roots, None);
    let mut policy = FailurePolicy::new(false);
    let entries = drive(&mut scanner, &cfg, &mut policy, &mut fs);
    assert_eq!(entries, pairs(&[("/r", "r"), ("/r/ok", "r/ok")]));
    assert_eq!(fs.count("ask /r/bad1"), 1);
    assert_eq!(fs.count("ask /r/bad2"), 0);
    assert_eq!(fs.count("stat /r/bad2"), 1);
    assert!(policy.skips_all());
}

#[test]
fn a_directory_that_cannot_be_listed_costs_only_its_subtree() {
    let mut fs = Fs::new();
    fs.add("/r", Node::Dir(vec!["locked", "open"]));
    fs.add("/r/locked", Node::Dir(vec!["x"]));
    fs.add("/r/open", Node::Dir(vec!["y"]));
    fs.add("/r/open/y", Node::File);
    let cfg = config(&[], TagRules::new(), false);
    let roots = vec![b"/r".to_vec()];
    let mut scanner = Scanner::new(&roots, None);
    let mut policy = FailurePolicy::new(true);
    // Drive by hand to fail the listing of `/r/locked`.
    let mut entries = Vec::new();
    let mut action = scanner.step(ScanEvent::Begin, &cfg, &mut policy);
    loop {
        let event = match action {
            ScanAction::Finished => break,
            ScanAction::Abort => panic!("nothing was written"),
            ScanAction::Resolve { path } => ScanEvent::Resolved { path },
            ScanAction::Stat { path, .. } => {
                let is_dir = matches!(fs.nodes.get(&text(&path)), Some((Node::Dir(_), _)));
                ScanEvent::Metadata { is_dir, is_symlink: false }
            }
            ScanAction::Identify { .. } => {
                ScanEvent::Identity { id: FileIdentity { storage: 9, file: 9 } }
            }
            ScanAction::List { path } if text(&path) == "/r/locked" => ScanEvent::Failed,
            ScanAction::List { path } => match fs.nodes.get(&text(&path)) {
                Some((Node::Dir(names), _)) => ScanEvent::Listing {
                    names: names.iter().map(|n| n.as_bytes().to_vec()).collect(),
                },
                _ => ScanEvent::Failed,
            },
            ScanAction::Archive { entry } => {
                entries.push(text(&entry.name));
                ScanEvent::Archived
            }
            ScanAction::Ask { .. } => panic!("skipping was configured"),
        };
        action = scanner.step(event, &cfg, &mut policy);
    }
    assert_eq!(entries, vec!["r", "r/open", "r/open/y"]);
}

#[test]
fn the_scenario_of_two_roots() {
    let mut fs = Fs::new();
    fs.add("/data/docs", Node::Dir(vec!["a.txt", "b.txt"]));
    fs.add("/data/docs/a.txt", Node::File);
    fs.add("/data/docs/b.txt", Node::File);
    fs.add("/data/logs", Node::Dir(vec!["x.tmp"]));
    fs.add("/data/logs/x.tmp", Node::File);
    let cfg = config(&["?/\\.tmp$/"], TagRules::new(), false);
    let entries = scan(&["/data/docs", "/data/logs"], &cfg, &mut fs);
    assert_eq!(
        entries,
        pairs(&[
            ("/data/docs", "docs"),
            ("/data/docs/a.txt", "docs/a.txt"),
            ("/data/docs/b.txt", "docs/b.txt"),
            ("/data/logs", "logs"),
        ])
    );
}

#[test]
fn root_names_are_placed_below_the_prefix() {
    let mut fs = Fs::new();
    fs.add("/data/docs", Node::Dir(vec!["a"]));
    fs.add("/data/docs/a", Node::File);
    fs.add("/", Node::Dir(vec![]));
    let cfg = config(&[], TagRules::new(), false);
    let roots = vec![b"/data/docs".to_vec(), b"/".to_vec()];
    let mut scanner = Scanner::new(&roots, Some(b"top".to_vec()));
    let mut policy = FailurePolicy::new(false);
    let entries = drive(&mut scanner, &cfg, &mut policy, &mut fs);
    assert_eq!(
        entries,
        pairs(&[("/data/docs", "top/docs"), ("/data/docs/a", "top/docs/a"), ("/", "top/root")])
    );
}

#[test]
fn a_single_path_is_scanned_under_the_given_name() {
    let mut fs = Fs::new();
    fs.add("/r", Node::Dir(vec!["a"]));
    fs.add("/r/a", Node::File);
    let cfg = config(&[], TagRules::new(), false);
    let mut scanner = Scanner::scan_path(b"/r".to_vec(), Vec::new());
    let mut policy = FailurePolicy::new(false);
    let entries = drive(&mut scanner, &cfg, &mut policy, &mut fs);
    assert_eq!(entries, pairs(&[("/r", ""), ("/r/a", "a")]));
    assert_eq!(fs.count("resolve /r"), 0);
}

#[test]
fn an_event_out_of_turn_changes_nothing() {
    let cfg = config(&[], TagRules::new(), false);
    let roots = vec![b"/r".to_vec()];
    let mut scanner = Scanner::new(&roots, None);
    let mut policy = FailurePolicy::new(false);
    assert_eq!(scanner.phase(), Phase::Idle);
    assert!(matches!(scanner.step(ScanEvent::Archived, &cfg, &mut policy), ScanAction::Finished));
    assert_eq!(scanner.phase(), Phase::Idle);
    assert!(matches!(
        scanner.step(ScanEvent::Begin, &cfg, &mut policy),
        ScanAction::Resolve { .. }
    ));
    for _ in 0..2 {
        let again = scanner.step(ScanEvent::Archived, &cfg, &mut policy);
        assert!(matches!(again, ScanAction::Resolve { ref path } if path == b"/r"));
    }
    let next = scanner.step(ScanEvent::Resolved { path: b"/r".to_vec() }, &cfg, &mut policy);
    assert!(matches!(next, ScanAction::Stat { ref path, follow_symlinks: false } if path == b"/r"));
    let same = scanner.step(
        ScanEvent::Decision { answer: RetryDecision::SkipOne },
        &cfg,
        &mut policy,
    );
    assert!(matches!(same, ScanAction::Stat { .. }));
    assert_eq!(scanner.phase(), Phase::Stat);
    assert!(matches!(scanner.action(&cfg), ScanAction::Stat { .. }));
}

#[test]
fn an_empty_scan_is_over_at_once() {
    let cfg = config(&[], TagRules::new(), false);
    let mut scanner = Scanner::new(&Vec::new(), None);
    let mut policy = FailurePolicy::new(false);
    assert!(!scanner.is_finished());
    assert!(matches!(scanner.step(ScanEvent::Begin, &cfg, &mut policy), ScanAction::Finished));
    assert!(scanner.is_finished());
    assert!(matches!(scanner.step(ScanEvent::Begin, &cfg, &mut policy), ScanAction::Finished));
}

/// Answers the scanner for a single root `/r` that holds the files `a`
/// and `b`, up to the first request to archive `stop_at`.
fn up_to_archive(
    scanner: &mut Scanner,
    cfg: &ScanConfig,
    policy: &mut FailurePolicy,
    stop_at: &str,
) -> Vec<String> {
    let mut archived = Vec::new();
    let mut action = scanner.step(ScanEvent::Begin, cfg, policy);
    loop {
        let event = match action {
            ScanAction::Resolve { path } => ScanEvent::Resolved { path },
            ScanAction::Stat { path, .. } => {
                ScanEvent::Metadata { is_dir: path == b"/r", is_symlink: false }
            }
            ScanAction::Identify { .. } => {
                ScanEvent::Identity { id: FileIdentity { storage: 7, file: 7 } }
            }
            ScanAction::List { .. } => ScanEvent::Listing { names: vec![b"a".to_vec(), b"b".to_vec()] },
            ScanAction::Archive { entry } => {
                if text(&entry.path) == stop_at {
                    return archived;
                }
                archived.push(text(&entry.path));
                ScanEvent::Archived
            }
            other => panic!("unexpected action {:?}", other),
        };
        action = scanner.step(event, cfg, policy);
    }
}

#[test]
fn a_container_that_cannot_be_written_ends_the_scan() {
    let cfg = config(&[], TagRules::new(), false);
    let roots = vec![b"/r".to_vec(), b"/s".to_vec()];
    let mut scanner = Scanner::new(&roots, None);
    let mut policy = FailurePolicy::new(false);
    let archived = up_to_archive(&mut scanner, &cfg, &mut policy, "/r/a");
    assert_eq!(archived, vec!["/r"]);
    // The append of `/r/a` fails because the stream is broken.
    assert!(matches!(scanner.step(ScanEvent::WriteFailed, &cfg, &mut policy), ScanAction::Abort));
    assert!(scanner.is_broken());
    assert!(!scanner.is_finished());
    assert_eq!(scanner.phase(), Phase::Broken);
    assert!(!policy.skips_all());
    // Nothing moves the scan any more: nobody is asked, nothing is archived.
    assert!(matches!(scanner.step(ScanEvent::Archived, &cfg, &mut policy), ScanAction::Abort));
    assert!(matches!(scanner.step(ScanEvent::Failed, &cfg, &mut policy), ScanAction::Abort));
    assert!(matches!(
        scanner.step(ScanEvent::Decision { answer: RetryDecision::Retry }, &cfg, &mut policy),
        ScanAction::Abort
    ));
    assert!(matches!(scanner.step(ScanEvent::Begin, &cfg, &mut policy), ScanAction::Abort));
    assert!(matches!(scanner.action(&cfg), ScanAction::Abort));
}

#[test]
fn a_broken_container_is_fatal_even_where_failures_are_skipped() {
    let cfg = config(&[], TagRules::new(), false);
    let roots = vec![b"/r".to_vec()];
    let mut scanner = Scanner::new(&roots, None);
    let mut policy = FailurePolicy::new(true);
    up_to_archive(&mut scanner, &cfg, &mut policy, "/r/b");
    assert!(matches!(scanner.step(ScanEvent::WriteFailed, &cfg, &mut policy), ScanAction::Abort));
    assert!(policy.skips_all());
    // A source that cannot be read is another matter: the next path comes.
    let mut scanner = Scanner::new(&roots, None);
    up_to_archive(&mut scanner, &cfg, &mut policy, "/r/a");
    let next = scanner.step(ScanEvent::Failed, &cfg, &mut policy);
    assert!(matches!(next, ScanAction::Stat { ref path, .. } if path == b"/r/b"));
}

#[test]
fn a_write_failure_while_the_operator_is_asked_ends_the_scan_too() {
    let cfg = config(&[], TagRules::new(), false);
    let roots = vec![b"/r".to_vec()];
    let mut scanner = Scanner::new(&roots, None);
    let mut policy = FailurePolicy::new(false);
    up_to_archive(&mut scanner, &cfg, &mut policy, "/r/a");
    assert!(matches!(scanner.step(ScanEvent::Failed, &cfg, &mut policy), ScanAction::Ask { .. }));
    assert!(matches!(scanner.step(ScanEvent::WriteFailed, &cfg, &mut policy), ScanAction::Abort));
}

#[test]
fn a_directory_without_an_identity_is_walked_into() {
    let cfg = config(&[], TagRules::new(), false);
    let roots = vec![b"/r".to_vec()];
    let mut scanner = Scanner::new(&roots, None);
    let mut policy = FailurePolicy::new(false);
    scanner.step(ScanEvent::Begin, &cfg, &mut policy);
    scanner.step(ScanEvent::Resolved { path: b"/r".to_vec() }, &cfg, &mut policy);
    let identify = scanner.step(
        ScanEvent::Metadata { is_dir: true, is_symlink: false },
        &cfg,
        &mut policy,
    );
    assert!(matches!(identify, ScanAction::Identify { .. }));
    let list = scanner.step(ScanEvent::Unidentified, &cfg, &mut policy);
    assert!(matches!(list, ScanAction::List { ref path } if path == b"/r"));
    let archive = scanner.step(
        ScanEvent::Listing { names: vec![b"f".to_vec()] },
        &cfg,
        &mut policy,
    );
    assert!(matches!(archive, ScanAction::Archive { .. }));
    scanner.step(ScanEvent::Archived, &cfg, &mut policy);
    // A file without an identity counts as unreadable.
    scanner.step(ScanEvent::Metadata { is_dir: false, is_symlink: false }, &cfg, &mut policy);
    let ask = scanner.step(ScanEvent::Unidentified, &cfg, &mut policy);
    assert!(matches!(ask, ScanAction::Ask { ref path } if path == b"/r/f"));
    let next = scanner.step(
        ScanEvent::Decision { answer: RetryDecision::SkipOne },
        &cfg,
        &mut policy,
    );
    assert!(matches!(next, ScanAction::Finished));
}
