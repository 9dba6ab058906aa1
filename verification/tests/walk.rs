use treewalk::config::WalkerConfig;
use treewalk::entry::{classify, Entry, EntryKind, FileMeta};
use treewalk::matcher::Matcher;
use treewalk::walker::{Action, Event, TreeWalker};

/// A directory tree held in memory.
enum Node {
    File(&'static str),
    Link(&'static str),
    Broken(&'static str, &'static str),
    Dir(&'static str, Vec<Node>),
    Locked(&'static str, &'static str),
}

struct Outcome {
    yielded: Vec<String>,
    reported: Vec<String>,
    opened: Vec<String>,
    max_open: usize,
}

fn raw_entry(node: &Node) -> Entry {
    let file = FileMeta { is_symlink: false, is_dir: false };
    let dir = FileMeta { is_symlink: false, is_dir: true };
    let link = FileMeta { is_symlink: true, is_dir: true };
    match node {
        Node::File(p) => classify(p.to_string(), Ok(file)),
        Node::Link(p) => classify(p.to_string(), Ok(link)),
        Node::Broken(p, cause) => classify(p.to_string(), Err(cause.to_string())),
        Node::Dir(p, _) => classify(p.to_string(), Ok(dir)),
        Node::Locked(p, _) => classify(p.to_string(), Ok(dir)),
    }
}

fn find<'a>(nodes: &'a [Node], path: &str) -> Option<&'a Node> {
    for n in nodes {
        match n {
            Node::Dir(p, children) => {
                if *p == path {
                    return Some(n);
                }
                if let Some(hit) = find(children, path) {
                    return Some(hit);
                }
            }
            Node::Locked(p, _) => {
                if *p == path {
                    return Some(n);
                }
            }
            _ => {}
        }
    }
    None
}

/// Drives a walker over the tree the way a caller drives it over a disk.
fn drive(root: &str, tree: &[Node], config: WalkerConfig, pattern: &str, literal: bool) -> Outcome {
    let matcher = Matcher::new(pattern, literal).unwrap();
    let mut walker = TreeWalker::new(config, root.to_string(), Ok(())).unwrap();
    let mut cursors: Vec<(&[Node], usize)> = vec![(tree, 0)];
    let mut out = Outcome { yielded: vec![], reported: vec![], opened: vec![], max_open: 1 };
    let mut pending: Option<Event> = None;
    let mut staged: Option<&[Node]> = None;
    let mut steps: usize = 0;
    while walker.is_active() {
        steps += 1;
        assert!(steps < 10_000);
        assert_eq!(walker.open_count(), cursors.len());
        let event = match pending.take() {
            Some(e) => e,
            None => {
                let top = cursors.last_mut().unwrap();
                if top.1 < top.0.len() {
                    top.1 += 1;
                    Event::Found(raw_entry(&top.0[top.1 - 1]))
                } else {
                    Event::Exhausted
                }
            }
        };
        match walker.step(&matcher, &event) {
            Action::Yield(p) => out.yielded.push(p),
            Action::Report(line) => out.reported.push(line),
            Action::Open(p) => {
                out.opened.push(p.clone());
                match find(tree, &p) {
                    Some(Node::Dir(_, children)) => {
                        staged = Some(children);
                        pending = Some(Event::Opened(p));
                    }
                    Some(Node::Locked(_, cause)) => {
                        pending = Some(Event::OpenFailed(p, cause.to_string()));
                    }
                    _ => panic!("asked to open what is no directory"),
                }
            }
            Action::Descend(_) => cursors.push((staged.take().unwrap(), 0)),
            Action::Ascend => {
                cursors.pop();
            }
            Action::Skip => {}
            Action::Finished => unreachable!(),
        }
        if cursors.len() > out.max_open {
            out.max_open = cursors.len();
        }
    }
    assert!(cursors.is_empty());
    out
}

fn sample_tree() -> Vec<Node> {
    vec![
        Node::File("/a/x.txt"),
        Node::Dir(
            "/a/b",
            vec![Node::File("/a/b/y.txt"), Node::Dir("/a/b/c", vec![Node::File("/a/b/c/z.txt")])],
        ),
        Node::Link("/a/link"),
    ]
}

fn config(recurse: bool, max_depth: usize, debug: bool) -> WalkerConfig {
    WalkerConfig::new(recurse, max_depth, debug).unwrap()
}

#[test]
fn flat_walk_yields_root_files_only() {
    let out = drive("/a", &sample_tree(), config(false, 16, false), "", false);
    assert_eq!(out.yielded, vec!["/a/x.txt".to_string()]);
    assert!(out.opened.is_empty());
    assert_eq!(out.max_open, 1);
}

#[test]
fn recursive_walk_with_pattern_skips_link() {
    let out = drive("/a", &sample_tree(), config(true, 16, false), "y", false);
    assert_eq!(out.yielded, vec!["/a/b/y.txt".to_string()]);
    assert_eq!(out.opened, vec!["/a/b".to_string(), "/a/b/c".to_string()]);
    assert!(!out.opened.contains(&"/a/link".to_string()));
}

#[test]
fn depth_one_never_opens_subdirectory() {
    let out = drive("/a", &sample_tree(), config(true, 1, false), "", false);
    assert_eq!(out.yielded, vec!["/a/x.txt".to_string()]);
    assert!(out.opened.is_empty());
    assert_eq!(out.max_open, 1);
}

#[test]
fn depth_two_stops_at_boundary() {
    let out = drive("/a", &sample_tree(), config(true, 2, false), "", false);
    assert_eq!(out.yielded, vec!["/a/x.txt".to_string(), "/a/b/y.txt".to_string()]);
    assert_eq!(out.opened, vec!["/a/b".to_string()]);
    assert_eq!(out.max_open, 2);
}

#[test]
fn denied_directory_is_reported_once_and_walk_goes_on() {
    let mut tree = vec![Node::Locked("/a/secret", "permission denied")];
    tree.extend(sample_tree());
    let out = drive("/a", &tree, config(true, 16, true), "", false);
    assert_eq!(
        out.yielded,
        vec!["/a/x.txt".to_string(), "/a/b/y.txt".to_string(), "/a/b/c/z.txt".to_string()]
    );
    assert_eq!(out.reported, vec!["Error: permission denied | '/a/secret'".to_string()]);
    let naming: Vec<&String> = out.reported.iter().filter(|l| l.contains("secret")).collect();
    assert_eq!(naming.len(), 1);
}

#[test]
fn denied_directory_is_silent_without_logging() {
    let mut tree = sample_tree();
    tree.insert(1, Node::Locked("/a/secret", "permission denied"));
    let out = drive("/a", &tree, config(true, 16, false), "", false);
    assert_eq!(out.yielded.len(), 3);
    assert!(out.reported.is_empty());
    assert!(out.opened.contains(&"/a/secret".to_string()));
}

#[test]
fn stat_error_skips_one_entry_only() {
    let tree = vec![
        Node::File("/r/one"),
        Node::Broken("/r/bad", "stat failed"),
        Node::File("/r/two"),
    ];
    let out = drive("/r", &tree, config(true, 8, true), "", false);
    assert_eq!(out.yielded, vec!["/r/one".to_string(), "/r/two".to_string()]);
    assert_eq!(out.reported, vec!["Error: stat failed | '/r/bad'".to_string()]);
}

#[test]
fn missing_root_is_fatal() {
    let r = TreeWalker::new(
        config(true, 16, true),
        "/missing".to_string(),
        Err("No such file or directory".to_string()),
    );
    let err = r.unwrap_err();
    assert_eq!(err.path, "/missing");
    assert_eq!(err.cause, "No such file or directory");
}

#[test]
fn unbounded_walk_yields_every_file_once() {
    let out = drive("/a", &sample_tree(), WalkerConfig::unbounded(false), "", false);
    assert_eq!(
        out.yielded,
        vec!["/a/x.txt".to_string(), "/a/b/y.txt".to_string(), "/a/b/c/z.txt".to_string()]
    );
    assert_eq!(out.opened, vec!["/a/b".to_string(), "/a/b/c".to_string()]);
    assert_eq!(out.max_open, 3);
}

#[test]
fn files_come_in_enumeration_order_depth_first() {
    let tree = vec![
        Node::Dir("/t/d", vec![Node::File("/t/d/inner")]),
        Node::File("/t/later"),
    ];
    let out = drive("/t", &tree, config(true, 4, false), "", false);
    assert_eq!(out.yielded, vec!["/t/d/inner".to_string(), "/t/later".to_string()]);
}

#[test]
fn empty_root_finishes_at_once() {
    let out = drive("/e", &[], config(true, 4, true), "", false);
    assert!(out.yielded.is_empty());
    assert!(out.reported.is_empty());
}
