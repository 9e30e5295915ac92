use std::collections::BTreeSet;

use repo::paths::{is_relative_path, join, resolve, workspace_root, WORKSPACE_DIR};
use repo::session::{
    begin, directory_names, dispatch, exit_code, missing_kind, Entry, Event, Fault, Finished, Missing,
    Op, Report, RepoError, Request, Session,
};

const ROOT: &str = "/home/u/repo";

/// Carries out a session against an in-memory set of directory paths.
fn drive(fs: &mut BTreeSet<String>, req: Request) -> Result<Report, RepoError> {
    let mut s = Session::new(req, ROOT.to_string());
    while let Some(step) = s.pending() {
        let path = step.path.clone();
        let ev = match step.op {
            Op::Require(_) | Op::Unless => Event::Exists(fs.contains(&path)),
            Op::Create => {
                if fs.contains(&path) {
                    Event::Failed("File exists (os error 17)".to_string())
                } else {
                    fs.insert(path);
                    Event::Done
                }
            }
            Op::Read => {
                let prefix = format!("{}/", path);
                let mut entries = Vec::new();
                for p in fs.iter() {
                    if let Some(rest) = p.strip_prefix(&prefix) {
                        if !rest.contains('/') {
                            entries.push(Entry { name: rest.to_string(), is_dir: true });
                        }
                    }
                }
                entries.push(Entry { name: "notes.txt".to_string(), is_dir: false });
                Event::Entries(entries)
            }
            Op::Wipe => {
                let prefix = format!("{}/", path);
                fs.retain(|p| p != &path && !p.starts_with(&prefix));
                Event::Done
            }
            Op::Shell => Event::Exited(true),
        };
        s.advance(ev);
    }
    s.into_outcome()
}

fn set(paths: &[&str]) -> BTreeSet<String> {
    paths.iter().map(|p| p.to_string()).collect()
}

fn add(name: &str, parent: Option<&str>) -> Request {
    Request::Add { name: name.to_string(), parent: parent.map(|p| p.to_string()) }
}

fn list(subdir: Option<&str>) -> Request {
    Request::List { subdir: subdir.map(|p| p.to_string()) }
}

fn listed(o: Result<Report, RepoError>) -> Vec<String> {
    let r = o.unwrap();
    assert_eq!(r.kind, Finished::Listed);
    r.names
}

#[test]
fn full_workflow_scenario() {
    let mut fs = set(&["/home/u"]);
    let o = drive(&mut fs, Request::Init);
    assert_eq!(exit_code(&o), 0);
    assert_eq!(o.unwrap().kind, Finished::Initialized);
    for d in ["/home/u/repo", "/home/u/repo/client", "/home/u/repo/test", "/home/u/repo/practice"] {
        assert!(fs.contains(d));
    }
    let o = drive(&mut fs, add("foo", None));
    assert_eq!(exit_code(&o), 0);
    assert_eq!(o.unwrap().path, "/home/u/repo/foo");
    assert!(fs.contains("/home/u/repo/foo"));
    let o = drive(&mut fs, add("bar", Some("foo")));
    assert_eq!(exit_code(&o), 0);
    assert!(fs.contains("/home/u/repo/foo/bar"));
    assert_eq!(listed(drive(&mut fs, list(Some("foo")))), vec!["bar".to_string()]);
    let o = drive(&mut fs, Request::Remove { path: "foo".to_string() });
    assert_eq!(exit_code(&o), 0);
    assert_eq!(o.unwrap().kind, Finished::Removed);
    assert!(!fs.contains("/home/u/repo/foo"));
    assert!(!fs.contains("/home/u/repo/foo/bar"));
    let names = listed(drive(&mut fs, list(None)));
    assert!(!names.contains(&"foo".to_string()));
    assert_eq!(names.len(), 3);
}

#[test]
fn init_twice_is_idempotent() {
    let mut fs = set(&["/home/u"]);
    assert_eq!(exit_code(&drive(&mut fs, Request::Init)), 0);
    let after_first = fs.clone();
    let o = drive(&mut fs, Request::Init);
    assert_eq!(exit_code(&o), 0);
    let r = o.unwrap();
    assert_eq!(r.kind, Finished::AlreadyInitialized);
    assert_eq!(r.path, ROOT);
    assert_eq!(fs, after_first);
}

#[test]
fn init_stops_at_first_failing_child() {
    let mut fs = set(&["/home/u/repo/test"]);
    let o = drive(&mut fs, Request::Init);
    let e = o.unwrap_err();
    assert_eq!(e.kind, Fault::CreateFailed);
    assert_eq!(e.path, "/home/u/repo/test");
    assert_eq!(e.detail, "File exists (os error 17)");
    assert!(fs.contains("/home/u/repo/client"));
    assert!(!fs.contains("/home/u/repo/practice"));
}

#[test]
fn add_then_list_shows_name_once() {
    let mut fs = set(&[ROOT, "/home/u/repo/a"]);
    drive(&mut fs, add("b", Some("a"))).unwrap();
    let names = listed(drive(&mut fs, list(Some("a"))));
    assert_eq!(names.iter().filter(|n| *n == "b").count(), 1);
    assert!(!names.contains(&"notes.txt".to_string()));
}

#[test]
fn add_existing_name_fails_with_create_failed() {
    let mut fs = set(&[ROOT, "/home/u/repo/a"]);
    let e = drive(&mut fs, add("a", None)).unwrap_err();
    assert_eq!(e.kind, Fault::CreateFailed);
    assert_eq!(e.path, "/home/u/repo/a");
    assert_eq!(exit_code(&Err(e)), 1);
}

#[test]
fn remove_then_list_and_remove_again() {
    let mut fs = set(&[ROOT, "/home/u/repo/a", "/home/u/repo/a/b", "/home/u/repo/a/b/c"]);
    let r = drive(&mut fs, Request::Remove { path: "a/b".to_string() }).unwrap();
    assert_eq!(r.path, "/home/u/repo/a/b");
    assert_eq!(fs, set(&[ROOT, "/home/u/repo/a"]));
    assert!(listed(drive(&mut fs, list(Some("a")))).is_empty());
    let e = drive(&mut fs, Request::Remove { path: "a/b".to_string() }).unwrap_err();
    assert_eq!(e.kind, Fault::TargetNotFound);
    assert_eq!(e.path, "/home/u/repo/a/b");
}

#[test]
fn list_missing_target_fails_without_change() {
    let mut fs = set(&[ROOT]);
    let e = drive(&mut fs, list(Some("nope"))).unwrap_err();
    assert_eq!(e.kind, Fault::TargetNotFound);
    assert_eq!(e.path, "/home/u/repo/nope");
    assert_eq!(fs, set(&[ROOT]));
}

#[test]
fn add_missing_parent_fails_without_change() {
    let mut fs = set(&[ROOT]);
    let e = drive(&mut fs, add("x", Some("nope"))).unwrap_err();
    assert_eq!(e.kind, Fault::ParentNotFound);
    assert_eq!(e.path, "/home/u/repo/nope");
    assert_eq!(fs, set(&[ROOT]));
}

#[test]
fn commands_before_init_fail_uninitialized() {
    let reqs = vec![
        add("x", None),
        list(None),
        Request::Home,
        Request::Remove { path: "x".to_string() },
        Request::Enter { dir: "x".to_string() },
    ];
    for req in reqs {
        let mut fs = set(&["/home/u"]);
        let e = drive(&mut fs, req).unwrap_err();
        assert_eq!(e.kind, Fault::WorkspaceNotInitialized);
        assert_eq!(e.path, ROOT);
        assert_eq!(fs, set(&["/home/u"]));
    }
}

#[test]
fn enter_missing_subdirectory() {
    let mut fs = set(&[ROOT]);
    let e = drive(&mut fs, Request::Enter { dir: "x".to_string() }).unwrap_err();
    assert_eq!(e.kind, Fault::SubdirectoryNotFound);
    assert_eq!(e.path, "/home/u/repo/x");
}

#[test]
fn shell_steps_and_exit_status() {
    let mut s = Session::new(Request::Enter { dir: "client".to_string() }, ROOT.to_string());
    s.advance(Event::Exists(true));
    s.advance(Event::Exists(true));
    let st = s.pending().unwrap();
    assert_eq!(st.op, Op::Shell);
    assert_eq!(st.path, "/home/u/repo/client");
    s.advance(Event::Exited(false));
    assert!(s.is_over());
    let e = s.into_outcome().unwrap_err();
    assert_eq!(e.kind, Fault::ShellNonZeroExit);

    let mut s = Session::new(Request::Home, ROOT.to_string());
    s.advance(Event::Exists(true));
    assert_eq!(s.pending().unwrap().path, ROOT);
    s.advance(Event::Failed("No such file or directory".to_string()));
    let e = s.into_outcome().unwrap_err();
    assert_eq!(e.kind, Fault::ShellSpawnFailed);
    assert_eq!(e.detail, "No such file or directory");

    let mut s = Session::new(Request::Home, ROOT.to_string());
    s.advance(Event::Exists(true));
    s.advance(Event::Exited(true));
    let r = s.into_outcome().unwrap();
    assert_eq!(r.kind, Finished::ShellClosed);
}

#[test]
fn read_and_remove_failures_carry_detail() {
    let mut s = Session::new(list(None), ROOT.to_string());
    s.advance(Event::Exists(true));
    s.advance(Event::Exists(true));
    s.advance(Event::Failed("Permission denied".to_string()));
    let e = s.into_outcome().unwrap_err();
    assert_eq!(e.kind, Fault::ReadFailed);
    assert_eq!(e.path, ROOT);
    assert_eq!(e.detail, "Permission denied");

    let mut s = Session::new(Request::Remove { path: "a".to_string() }, ROOT.to_string());
    s.advance(Event::Exists(true));
    s.advance(Event::Exists(true));
    assert_eq!(s.pending().unwrap().op, Op::Wipe);
    s.advance(Event::Failed("Permission denied".to_string()));
    let e = s.into_outcome().unwrap_err();
    assert_eq!(e.kind, Fault::RemoveFailed);
    assert_eq!(e.detail, "Permission denied");
}

#[test]
fn usage_has_no_steps() {
    let s = Session::new(Request::Usage, ROOT.to_string());
    assert!(s.is_over());
    assert!(s.pending().is_none());
    let o = s.into_outcome();
    assert_eq!(exit_code(&o), 0);
    assert_eq!(o.unwrap().kind, Finished::Usage);
}

#[test]
fn init_plan_order() {
    let mut s = Session::new(Request::Init, ROOT.to_string());
    let mut seen = Vec::new();
    while let Some(st) = s.pending() {
        seen.push((st.op, st.path.clone()));
        let ev = if st.op == Op::Unless { Event::Exists(false) } else { Event::Done };
        s.advance(ev);
    }
    let expected = vec![
        (Op::Unless, ROOT.to_string()),
        (Op::Create, ROOT.to_string()),
        (Op::Create, "/home/u/repo/client".to_string()),
        (Op::Create, "/home/u/repo/test".to_string()),
        (Op::Create, "/home/u/repo/practice".to_string()),
    ];
    assert_eq!(seen, expected);
    assert_eq!(s.into_outcome().unwrap().path, ROOT);
}

#[test]
fn directory_names_keeps_order_and_skips_files() {
    let entries = vec![
        Entry { name: "z".to_string(), is_dir: true },
        Entry { name: "f.txt".to_string(), is_dir: false },
        Entry { name: "a".to_string(), is_dir: true },
    ];
    assert_eq!(directory_names(&entries), vec!["z".to_string(), "a".to_string()]);
    assert!(directory_names(&Vec::new()).is_empty());
}

#[test]
fn paths_join_and_resolve() {
    assert_eq!(join("/home/u", "repo"), "/home/u/repo");
    assert_eq!(join("", ""), "/");
    assert_eq!(resolve(ROOT, None), ROOT);
    assert_eq!(resolve(ROOT, Some("a/b")), "/home/u/repo/a/b");
    assert_eq!(WORKSPACE_DIR, "repo");
}

#[test]
fn workspace_root_from_home() {
    assert_eq!(workspace_root(Some("/home/u".to_string())).unwrap(), ROOT);
    let e = workspace_root(None).unwrap_err();
    assert_eq!(e.kind, Fault::HomeDirectoryUnavailable);
    assert_eq!(exit_code(&Err(e)), 1);
}

#[test]
fn dispatch_falls_back_to_bare_subdir_then_usage() {
    match dispatch(Some(Request::Home), Some("x".to_string())) {
        Request::Home => {}
        other => panic!("unexpected {:?}", other),
    }
    match dispatch(None, Some("client".to_string())) {
        Request::Enter { dir } => assert_eq!(dir, "client"),
        other => panic!("unexpected {:?}", other),
    }
    assert!(matches!(dispatch(None, None), Request::Usage));
}

#[test]
fn missing_kinds() {
    assert_eq!(missing_kind(Missing::Workspace), Fault::WorkspaceNotInitialized);
    assert_eq!(missing_kind(Missing::Parent), Fault::ParentNotFound);
    assert_eq!(missing_kind(Missing::Target), Fault::TargetNotFound);
    assert_eq!(missing_kind(Missing::Subdirectory), Fault::SubdirectoryNotFound);
}

#[test]
fn begin_needs_home_except_for_usage() {
    let s = begin(Request::Usage, None).unwrap();
    assert!(s.is_over());
    assert_eq!(s.into_outcome().unwrap().kind, Finished::Usage);
    let e = begin(Request::Init, None).err().unwrap();
    assert_eq!(e.kind, Fault::HomeDirectoryUnavailable);
    let s = begin(Request::Home, Some("/home/u".to_string())).unwrap();
    assert_eq!(s.pending().unwrap().path, ROOT);
}

#[test]
fn relative_path_check() {
    for ok in ["a", "a/b", "foo.txt", ".hidden", "..x", "a/.b/c", "x..", "a/b..c"] {
        assert!(is_relative_path(ok), "{}", ok);
    }
    for bad in ["", ".", "..", "/", "/etc", "a/", "a//b", "a/./b", "a/..", "../x", "./a"] {
        assert!(!is_relative_path(bad), "{}", bad);
    }
}

#[test]
fn segments_leaving_the_workspace_are_refused() {
    let base = set(&["/home/u", ROOT, "/home/u/repo/a"]);

    let mut fs = base.clone();
    let e = drive(&mut fs, Request::Remove { path: "".to_string() }).unwrap_err();
    assert_eq!(e.kind, Fault::TargetNotFound);
    let e = drive(&mut fs, Request::Remove { path: "..".to_string() }).unwrap_err();
    assert_eq!(e.kind, Fault::TargetNotFound);
    let e = drive(&mut fs, Request::Remove { path: "a/../..".to_string() }).unwrap_err();
    assert_eq!(e.kind, Fault::TargetNotFound);
    assert_eq!(fs, base);

    let e = drive(&mut fs, add("x", Some(".."))).unwrap_err();
    assert_eq!(e.kind, Fault::ParentNotFound);
    let e = drive(&mut fs, add("../x", None)).unwrap_err();
    assert_eq!(e.kind, Fault::CreateFailed);
    assert_eq!(e.path, "/home/u/repo/../x");
    let e = drive(&mut fs, list(Some("/etc"))).unwrap_err();
    assert_eq!(e.kind, Fault::TargetNotFound);
    assert_eq!(fs, base);

    let mut s = Session::new(Request::Enter { dir: "..".to_string() }, ROOT.to_string());
    assert_eq!(s.pending().unwrap().op, Op::Require(Missing::Workspace));
    s.advance(Event::Exists(true));
    assert!(s.is_over());
    assert_eq!(s.into_outcome().unwrap_err().kind, Fault::SubdirectoryNotFound);
}

#[test]
fn refused_name_still_checks_parent_first() {
    let mut fs = set(&[ROOT]);
    let e = drive(&mut fs, add("..", Some("nope"))).unwrap_err();
    assert_eq!(e.kind, Fault::ParentNotFound);
    assert_eq!(e.path, "/home/u/repo/nope");
}
