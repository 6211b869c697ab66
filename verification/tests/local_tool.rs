//! Tools on the host's own files.

use kot::json::Json;
use kot::local_tool::{
    apply_edit, apply_edits, bash_report, edit_meta, edit_refused, edits_made, edits_refused, glob_match, glob_report, grep_report, local_tool, ls_report,
    read_report, write_report, Change, Found, Job, Ran,
};
use kot::tool_out::Call;

fn call(name: &str, args: Vec<(&str, Json)>) -> Call {
    Call { name: name.into(), args: Json::Object(args.into_iter().map(|(k, v)| (k.to_string(), v)).collect()) }
}

fn s(x: &str) -> Json {
    Json::Str(x.into())
}

#[test]
fn an_edit_changes_one_place() {
    assert_eq!(apply_edit("a b a", "b", "c", false), Ok("a c a".into()));
    assert_eq!(apply_edit("a b a", "z", "c", false), Err("old_string not found".into()));
    assert_eq!(apply_edit("a b a", "a", "c", false), Err("old_string matches 2 times".into()));
    assert_eq!(apply_edit("a b a", "a", "c", true), Ok("c b c".into()));
    assert_eq!(apply_edit("ab", "", "-", true), Ok("-a-b-".into()));
    assert_eq!(apply_edit("", "", "-", false), Ok("-".into()));
    assert_eq!(edit_meta("a b a", "a", true), "2 replaced");
    assert_eq!(edit_meta("a b a", "b", false), "1 replaced");
}

#[test]
fn edits_go_all_or_nothing() {
    let change = |old: &str, new: &str| Change { old: old.into(), new: new.into(), all: false };
    assert_eq!(apply_edits("one", &vec![change("one", "two"), change("two", "three")]), Ok("three".into()));
    assert_eq!(apply_edits("one", &vec![change("one", "two"), change("one", "three")]), Err((2, "old_string not found".into())));
    let out = edits_refused("/f", 2, 2, "old_string not found");
    assert_eq!(out.meta, vec!["edit 2 of 2: old_string not found"]);
    assert_eq!(out.body, "Nothing written — every edit must succeed before any of them are applied.");
    assert_eq!(edits_made("/f", 2).meta, vec!["2 edit(s) applied"]);
    assert_eq!(edit_refused("/f", "no").body, "Nothing written.");
}

#[test]
fn stars_and_question_marks_match() {
    assert!(glob_match("*.lock", "Cargo.lock"));
    assert!(!glob_match("*.lock", "Cargo.toml"));
    assert!(glob_match("node_modules", "node_modules"));
    assert!(glob_match("a?c*", "abcdef"));
    assert!(!glob_match("a?c", "ac"));
    assert!(glob_match("*", ""));
    assert!(glob_match("**a*", "bab"));
}

#[test]
fn a_listing_is_sorted() {
    let entries = vec![("src".to_string(), true), ("b.rs".to_string(), false), ("Cargo.lock".to_string(), false), ("a.rs".to_string(), false)];
    let out = ls_report(".", &entries, &vec!["*.lock".into()]);
    assert_eq!(out.body, "a.rs\nb.rs\nsrc/");
    assert_eq!(out.meta, vec!["3 entrie(s)"]);
}

#[test]
fn calls_become_jobs() {
    assert!(local_tool(&call("Peers", vec![])).is_none());
    assert!(matches!(local_tool(&call("Bash", vec![("command", s("ls")), ("timeout", Json::Num(9999))])), Some(Job::Bash { secs: 3600, .. })));
    assert!(matches!(local_tool(&call("Bash", vec![])), Some(Job::Bash { secs: 30, .. })));
    assert!(matches!(local_tool(&call("Bash", vec![("timeout", Json::Num(0))])), Some(Job::Bash { secs: 1, .. })));
    assert!(matches!(local_tool(&call("LS", vec![("path", s(""))])), Some(Job::Ls { path, .. }) if path == "."));
    assert!(matches!(local_tool(&call("ReadFile", vec![("path", s("/a"))])), Some(Job::ReadFile { path }) if path == "/a"));
    assert!(matches!(local_tool(&call("WriteFile", vec![("path", s("/a")), ("content", s("x"))])), Some(Job::WriteFile { content, .. }) if content == "x"));
    let edit = Json::Object(vec![("old_string".into(), s("o")), ("replace_all".into(), Json::Bool(true))]);
    match local_tool(&call("MultiEdit", vec![("file_path", s("/a")), ("edits", Json::List(vec![edit]))])) {
        Some(Job::MultiEdit { edits, .. }) => assert_eq!((edits[0].old.as_str(), edits[0].new.as_str(), edits[0].all), ("o", "", true)),
        _ => panic!(),
    }
    match local_tool(&call("Edit", vec![("file_path", s("/a")), ("old_string", s("o")), ("new_string", s("n"))])) {
        Some(Job::Edit { change, .. }) => assert_eq!((change.old.as_str(), change.new.as_str(), change.all), ("o", "n", false)),
        _ => panic!(),
    }
}

#[test]
fn searches_are_spelled_out() {
    let glob = |p: &str| match local_tool(&call("Glob", vec![("pattern", s(p))])) {
        Some(Job::Glob { args, shown }) => (args.join(" "), shown),
        _ => panic!(),
    };
    assert_eq!(glob("**/*.rs"), (". -type f -name *.rs".into(), "**/*.rs under .".into()));
    assert_eq!(glob("src/*.rs").0, ". -type f -path */src/*.rs");
    let grep = |args: Vec<(&str, Json)>| match local_tool(&call("Grep", args)) {
        Some(Job::Grep { args, limit, .. }) => (args.join(" "), limit),
        _ => panic!(),
    };
    assert_eq!(grep(vec![("pattern", s("x"))]).0, "-r -l -E x .");
    assert_eq!(grep(vec![("pattern", s("x")), ("output_mode", s("count"))]).0, "-r -c -E x .");
    let all = vec![
        ("pattern", s("x")),
        ("path", s("/d")),
        ("glob", s("*.rs")),
        ("output_mode", s("content")),
        ("-i", Json::Bool(true)),
        ("-n", Json::Bool(true)),
        ("-B", Json::Num(1)),
        ("-A", Json::Num(2)),
        ("head_limit", Json::Num(3)),
    ];
    assert_eq!(grep(all), ("-r -n -i -B1 -A2 --include=*.rs -E x /d".into(), Some(3)));
    assert_eq!(grep(vec![("pattern", s("x")), ("output_mode", s("content")), ("-B", Json::Num(1)), ("-C", Json::Num(5))]).0, "-r -C5 -E x .");
}

#[test]
fn outcomes_are_reported() {
    let r = bash_report("ls", 30, &Ran::Ended(Some(0), "a".into()));
    assert_eq!((r.arg.as_str(), r.ok, r.meta[0].as_str(), r.body.as_str()), ("$ ls", true, "exit 0", "a"));
    assert_eq!(bash_report("ls", 30, &Ran::Ended(Some(2), "".into())).meta, vec!["exit 2"]);
    assert_eq!(bash_report("ls", 30, &Ran::Ended(None, "".into())).meta, vec!["killed"]);
    assert_eq!(bash_report("ls", 30, &Ran::NotSpawned("x".into())).meta, vec!["failed to spawn"]);
    assert_eq!(bash_report("ls", 30, &Ran::NotWaited("x".into())).meta, vec!["failed to wait"]);
    let r = bash_report("ls", 7, &Ran::TimedOut("part".into()));
    assert_eq!((r.meta[0].as_str(), r.body.as_str()), ("timed out after 7s, killed", "part\n[Pass a larger timeout (seconds, up to 3600) if this needs longer.]"));
    assert_eq!(bash_report("ls", 7, &Ran::TimedOut(" ".into())).body, "Pass a larger timeout (seconds, up to 3600) if this needs longer.");
    assert_eq!(read_report("/a", &Ok("héé".into())).meta, vec!["5 B"]);
    assert_eq!(read_report("/a", &Err("gone".into())).body, "gone");
    assert_eq!(write_report("/a", "xy", &None).meta, vec!["wrote 2 B"]);
    assert!(!write_report("/a", "xy", &Some("full".into())).ok);
}

#[test]
fn searches_are_reported() {
    let found = |at: i128, p: &str| -> Found { (at, p.into()) };
    let r = glob_report("*.rs under .", true, &vec![found(1, "old"), found(9, "new"), found(9, "new2")], "");
    assert_eq!((r.body.as_str(), r.meta[0].as_str()), ("new\nnew2\nold", "3 match(es)"));
    assert!(!glob_report("x", false, &vec![], "no such dir").ok);
    assert!(glob_report("x", false, &vec![found(1, "a")], "partial").ok);
    let r = grep_report("x in .", Some(0), "a\nb\nc\n", "", Some(2));
    assert_eq!((r.body.as_str(), r.meta[0].as_str()), ("a\nb", "2 line(s)"));
    assert!(grep_report("x", Some(1), "", "", None).ok);
    assert!(!grep_report("x", Some(2), "", "bad", None).ok);
    assert!(!grep_report("x", None, "", "bad", None).ok);
}
