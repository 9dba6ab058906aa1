use treewalk::config::WalkerConfig;
use treewalk::entry::{classify, Entry, EntryKind, FileMeta};
use treewalk::matcher::Matcher;
use treewalk::stack::TraversalStack;
use treewalk::walker::{diagnostic_line, Action, Event, TreeWalker};

fn s(text: &str) -> String {
    text.to_string()
}

fn found(path: &str, kind: EntryKind) -> Event {
    Event::Found(Entry { path: s(path), kind })
}

fn walker(recurse: bool, max_depth: usize, debug: bool) -> TreeWalker {
    let config = WalkerConfig::new(recurse, max_depth, debug).unwrap();
    TreeWalker::new(config, s("/root"), Ok(())).unwrap()
}

#[test]
fn config_refuses_zero_depth() {
    assert_eq!(WalkerConfig::new(true, 0, false), None);
    assert_eq!(
        WalkerConfig::new(true, 1, true),
        Some(WalkerConfig { recurse: true, max_depth: 1, debug_logging: true })
    );
}

#[test]
fn config_presets() {
    assert_eq!(
        WalkerConfig::unbounded(true),
        WalkerConfig { recurse: true, max_depth: usize::MAX, debug_logging: true }
    );
    assert_eq!(
        WalkerConfig::flat(false),
        WalkerConfig { recurse: false, max_depth: 1, debug_logging: false }
    );
}

#[test]
fn classify_resolves_each_kind() {
    let meta = |is_symlink, is_dir| Ok(FileMeta { is_symlink, is_dir });
    assert_eq!(classify(s("p"), meta(false, false)).kind, EntryKind::File);
    assert_eq!(classify(s("p"), meta(false, true)).kind, EntryKind::Directory);
    assert_eq!(classify(s("p"), meta(true, false)).kind, EntryKind::Symlink);
    assert_eq!(classify(s("p"), meta(true, true)).kind, EntryKind::Symlink);
    assert_eq!(
        classify(s("p"), Err(s("denied"))),
        Entry { path: s("p"), kind: EntryKind::Error(s("denied")) }
    );
}

#[test]
fn stack_index_is_depth() {
    let mut st = TraversalStack::new();
    assert!(st.is_empty());
    assert_eq!(st.depth(), None);
    assert_eq!(st.top(), None);
    assert_eq!(st.pop(), None);
    st.push(s("/a"));
    st.push(s("/a/b"));
    assert_eq!(st.len(), 2);
    assert_eq!(st.depth(), Some(1));
    assert_eq!(st.top(), Some(&s("/a/b")));
    assert_eq!(st.pop(), Some(s("/a/b")));
    assert_eq!(st.top(), Some(&s("/a")));
    assert_eq!(st.pop(), Some(s("/a")));
    assert!(st.is_empty());
}

#[test]
fn diagnostic_line_format() {
    assert_eq!(diagnostic_line("denied", "/a/secret"), "Error: denied | '/a/secret'");
    assert_eq!(diagnostic_line("", ""), "Error:  | ''");
}

#[test]
fn literal_pattern_matches_its_own_text_only() {
    let m = Matcher::new("a.b", true).unwrap();
    assert!(m.is_match("/x/a.b"));
    assert!(!m.is_match("/x/axb"));
    let r = Matcher::new("a.b", false).unwrap();
    assert!(r.is_match("/x/a.b"));
    assert!(r.is_match("/x/axb"));
    assert!(!r.is_match("/x/ab"));
}

#[test]
fn literal_pattern_with_every_meta_character_compiles() {
    let text = "\\.+*?()|[]{}^$#&-~";
    let m = Matcher::new(text, true).unwrap();
    assert!(m.is_match("pre\\.+*?()|[]{}^$#&-~post"));
    assert!(!m.is_match("pre.+*?()|[]{}^$#&-~post"));
}

#[test]
fn bad_pattern_is_a_compile_error() {
    let err = Matcher::new("foo(bar", false).unwrap_err();
    assert_eq!(err.pattern, "foo(bar");
    assert!(Matcher::new("foo(bar", true).is_ok());
}

#[test]
fn empty_pattern_matches_everything() {
    let m = Matcher::new("", false).unwrap();
    assert!(m.is_match(""));
    assert!(m.is_match("/any/path"));
}

#[test]
fn new_walker_has_root_open() {
    let w = walker(true, 3, false);
    assert!(w.is_active());
    assert_eq!(w.open_count(), 1);
    assert_eq!(w.depth(), Some(0));
    assert_eq!(w.current(), Some(&s("/root")));
    assert!(w.can_descend());
    assert_eq!(w.config().max_depth, 3);
}

#[test]
fn file_is_yielded_only_when_matched() {
    let mut w = walker(true, 3, false);
    assert_eq!(w.on_event(&found("/root/f", EntryKind::File), true), Action::Yield(s("/root/f")));
    assert_eq!(w.on_event(&found("/root/f", EntryKind::File), false), Action::Skip);
    assert_eq!(w.open_count(), 1);
}

#[test]
fn symlink_is_skipped_whatever_the_settings() {
    for recurse in [false, true] {
        for matched in [false, true] {
            let mut w = walker(recurse, 5, true);
            assert_eq!(w.on_event(&found("/root/l", EntryKind::Symlink), matched), Action::Skip);
            assert_eq!(w.open_count(), 1);
        }
    }
}

#[test]
fn directory_is_opened_then_entered() {
    let mut w = walker(true, 2, false);
    assert_eq!(
        w.on_event(&found("/root/d", EntryKind::Directory), false),
        Action::Open(s("/root/d"))
    );
    assert_eq!(w.open_count(), 1);
    assert_eq!(w.on_event(&Event::Opened(s("/root/d")), false), Action::Descend(s("/root/d")));
    assert_eq!(w.depth(), Some(1));
    assert_eq!(w.current(), Some(&s("/root/d")));
    assert!(!w.can_descend());
    assert_eq!(w.on_event(&found("/root/d/e", EntryKind::Directory), false), Action::Skip);
    assert_eq!(w.on_event(&Event::Opened(s("/root/d/e")), false), Action::Skip);
    assert_eq!(w.open_count(), 2);
}

#[test]
fn directory_is_skipped_without_recursion() {
    let mut w = walker(false, 9, false);
    assert_eq!(w.on_event(&found("/root/d", EntryKind::Directory), true), Action::Skip);
    assert_eq!(w.on_event(&Event::Opened(s("/root/d")), true), Action::Skip);
    assert_eq!(w.open_count(), 1);
}

#[test]
fn faults_are_reported_only_with_logging() {
    let mut quiet = walker(true, 3, false);
    let mut loud = walker(true, 3, true);
    let bad = found("/root/bad", EntryKind::Error(s("io")));
    let failed = Event::OpenFailed(s("/root/d"), s("denied"));
    assert_eq!(quiet.on_event(&bad, true), Action::Skip);
    assert_eq!(quiet.on_event(&failed, true), Action::Skip);
    assert_eq!(loud.on_event(&bad, true), Action::Report(s("Error: io | '/root/bad'")));
    assert_eq!(loud.on_event(&failed, true), Action::Report(s("Error: denied | '/root/d'")));
    assert!(quiet.is_active());
    assert!(loud.is_active());
    assert_eq!(loud.open_count(), 1);
}

#[test]
fn exhausted_root_ends_the_walk_for_good() {
    let mut w = walker(true, 3, false);
    assert_eq!(w.on_event(&Event::Exhausted, false), Action::Ascend);
    assert!(!w.is_active());
    assert_eq!(w.depth(), None);
    assert_eq!(w.current(), None);
    assert_eq!(w.on_event(&found("/root/f", EntryKind::File), true), Action::Finished);
    assert_eq!(w.on_event(&Event::Opened(s("/root/d")), true), Action::Finished);
    assert_eq!(w.on_event(&Event::Exhausted, true), Action::Finished);
    assert!(!w.is_active());
}

#[test]
fn step_asks_the_matcher_for_files_only() {
    let m = Matcher::new("wanted", true).unwrap();
    let mut w = walker(true, 3, false);
    assert_eq!(
        w.step(&m, &found("/root/wanted.txt", EntryKind::File)),
        Action::Yield(s("/root/wanted.txt"))
    );
    assert_eq!(w.step(&m, &found("/root/other.txt", EntryKind::File)), Action::Skip);
    assert_eq!(
        w.step(&m, &found("/root/wanted", EntryKind::Directory)),
        Action::Open(s("/root/wanted"))
    );
    assert_eq!(w.step(&m, &found("/root/wanted.lnk", EntryKind::Symlink)), Action::Skip);
}

#[test]
fn run_answers_each_event_in_order() {
    let m = Matcher::new("", false).unwrap();
    let mut w = walker(true, 2, true);
    let events = vec![
        found("/root/a", EntryKind::File),
        found("/root/d", EntryKind::Directory),
        Event::Opened(s("/root/d")),
        found("/root/d/b", EntryKind::File),
        found("/root/d/e", EntryKind::Directory),
        Event::Exhausted,
        found("/root/bad", EntryKind::Error(s("io"))),
        Event::Exhausted,
        Event::Exhausted,
    ];
    let actions = w.run(&m, &events);
    assert_eq!(
        actions,
        vec![
            Action::Yield(s("/root/a")),
            Action::Open(s("/root/d")),
            Action::Descend(s("/root/d")),
            Action::Yield(s("/root/d/b")),
            Action::Skip,
            Action::Ascend,
            Action::Report(s("Error: io | '/root/bad'")),
            Action::Ascend,
            Action::Finished,
        ]
    );
    assert!(!w.is_active());
}

#[test]
fn run_with_a_fault_removed_differs_by_one_action() {
    let m = Matcher::new("", false).unwrap();
    let with = vec![
        found("/root/a", EntryKind::File),
        Event::OpenFailed(s("/root/d"), s("denied")),
        found("/root/b", EntryKind::File),
        Event::Exhausted,
    ];
    let without = vec![
        found("/root/a", EntryKind::File),
        found("/root/b", EntryKind::File),
        Event::Exhausted,
    ];
    let mut w1 = walker(true, 4, false);
    let mut w2 = walker(true, 4, false);
    let mut a1 = w1.run(&m, &with);
    let a2 = w2.run(&m, &without);
    assert_eq!(a1.remove(1), Action::Skip);
    assert_eq!(a1, a2);
    assert_eq!(w1.open_count(), w2.open_count());
}

#[test]
fn from_compiled_keeps_pattern_and_outcome() {
    let ok = Matcher::from_compiled("a+", regex::Regex::new("a+"));
    let m = ok.unwrap();
    assert!(m.is_match("caat"));
    assert!(!m.is_match("ct"));
    let bad = Matcher::from_compiled("(", regex::Regex::new("("));
    let err = bad.unwrap_err();
    assert_eq!(err.pattern, "(");
    assert_eq!(err.cause, regex::Regex::new("(").unwrap_err());
}

#[test]
fn regular_expression_is_searched_anywhere_in_the_path() {
    let m = Matcher::new("^/a/.*\\.txt$", false).unwrap();
    assert!(m.is_match("/a/b/y.txt"));
    assert!(!m.is_match("/b/y.txt"));
    assert!(!m.is_match("/a/b/y.txt.bak"));
}
