//! Rosters, seeds, tasks, accounts, contexts, and reading a log.

use kot::common::{
    context_list, expand_home, load_context, markdown_files, parse_account, parse_seed, parse_task, roster_entry_account, roster_seed, AccountSpec, ContextFile,
    EventCursor, Roster, TaskId,
};
use kot::json::Json;
use kot::keys;

fn ev(seq: u64, block: u64) -> Json {
    Json::Object(vec![("seq".into(), Json::Num(seq)), ("block".into(), Json::Num(block))])
}

#[test]
fn a_rebuilt_log_is_read_again_without_repeats() {
    let mut c = EventCursor::new(0);
    for (s, b) in [(1, 10), (2, 11), (3, 11)] {
        assert!(c.accept(&ev(s, b)));
    }
    assert_eq!(c.seq, 3);
    assert!(!c.check_head(3), "same log, nothing to do");
    // The node compacted and replayed: seq restarts, blocks don't.
    assert!(c.check_head(1));
    assert_eq!(c.seq, 0, "reads the new log from its start");
    assert!(!c.accept(&ev(1, 10)), "already shown");
    assert!(!c.accept(&ev(2, 11)), "already shown (first of block 11)");
    assert!(!c.accept(&ev(3, 11)), "already shown (second of block 11)");
    assert!(c.accept(&ev(4, 11)), "a third event in block 11 is new");
    assert!(c.accept(&ev(5, 12)));
    assert_eq!(c.seq, 5);
}

#[test]
fn a_log_that_grew_is_not_a_rebuild() {
    let mut c = EventCursor::new(0);
    assert!(c.accept(&ev(1, 1)));
    assert!(!c.check_head(9));
    assert!(c.accept(&ev(2, 2)));
}

#[test]
fn a_genesis_roster_refuses_duplicates_and_a_wrong_root() {
    let root = keys::account_of_seed(&[1; 32]);
    assert!(Roster::parse("root=1,meow=2,tama=3").unwrap().check_genesis(&root).is_ok());
    // The same key under two labels.
    let e = Roster::parse("root=1,mimi=4,mac-akuma-aarch64=4").unwrap().check_genesis(&root).unwrap_err();
    assert!(e.contains("same account"), "{e}");
    let e = Roster::parse("root=1,tama=2,tama=3").unwrap().check_genesis(&root).unwrap_err();
    assert!(e.contains("twice"), "{e}");
    let e = Roster::parse("root=9,tama=2").unwrap().check_genesis(&root).unwrap_err();
    assert!(e.contains("root"), "{e}");
}

#[test]
fn files_and_directories_become_sections_in_order_and_gaps_are_reported() {
    let file = |path: &str, stem: &str, text: Result<&str, &str>| ContextFile {
        path: path.into(),
        stem: stem.into(),
        text: text.map(str::to_string).map_err(str::to_string),
    };
    assert_eq!(context_list("/d/git.md, /d/shared ,/d/gone.md"), vec!["/d/git.md", "/d/shared", "/d/gone.md"]);
    let shared = [("b-rules", "md", "no main\n"), ("a-projects", "md", "  akuma, akuma-miot  "), ("notes", "txt", "not markdown")];
    let found = markdown_files(&shared.iter().map(|(stem, ext, _)| format!("{stem}.{ext}")).collect());
    let stems: Vec<&str> = found.iter().map(|name| name.strip_suffix(".md").unwrap()).collect();
    assert_eq!(stems, vec!["a-projects", "b-rules"]);
    let mut files = vec![file("/d/git.md", "git", Ok("git.akuma.sh"))];
    for stem in stems {
        let text = shared.iter().find(|f| f.0 == stem).unwrap().2;
        files.push(file(&format!("/d/shared/{stem}.md"), stem, Ok(text)));
    }
    files.push(file("/d/gone.md", "gone", Err("No such file or directory")));
    let (text, problems) = load_context(&files);
    assert_eq!(text, "\n\n## git\n\ngit.akuma.sh\n\n## a-projects\n\nakuma, akuma-miot\n\n## b-rules\n\nno main");
    assert_eq!(problems.len(), 1, "{problems:?}");
    assert!(problems[0].contains("gone.md"));
    assert_eq!(load_context(&vec![]), (String::new(), vec![]), "unset is nothing at all");
    assert!(context_list("").is_empty());
}

#[test]
fn seeds_are_small_numbers_or_64_digits() {
    assert_eq!(parse_seed("7"), Ok([7; 32]));
    assert_eq!(parse_seed(&"0a".repeat(32)), Ok([10; 32]));
    assert!(parse_seed("nonsense").is_err());
    assert!(parse_seed(&"0a".repeat(31)).is_err());
}

#[test]
fn a_roster_names_accounts_both_ways() {
    let key = "11".repeat(32);
    let r = Roster::parse(&format!("root=1,meow=pub:{key}")).unwrap();
    assert_eq!(r.names(), vec!["root", "meow"]);
    assert_eq!(r.account("@Meow"), Some([0x11; 32]));
    assert_eq!(r.account("tama"), None);
    assert_eq!(r.name_of(&[0x11; 32]), "meow");
    assert_eq!(r.name_of(&[0x22; 32]), keys::short(&[0x22; 32]));
    assert_eq!(roster_entry_account("1"), Ok(keys::account_of_seed(&[1; 32])));
    assert!(Roster::parse("meow").is_err());
    assert!(roster_entry_account("pub:zz").is_err());
    assert_eq!(roster_seed("root=1,meow=2", "meow"), Some([2; 32]));
    assert_eq!(roster_seed(&format!("meow=pub:{key}"), "meow"), None, "a public key cannot sign");
}

#[test]
fn tasks_are_named_with_or_without_a_part() {
    assert_eq!(parse_task("t1"), Some(TaskId { parent: 1, part: None }));
    assert_eq!(parse_task(" t12.3 "), Some(TaskId { parent: 12, part: Some(3) }));
    assert_eq!(parse_task("7"), Some(TaskId { parent: 7, part: None }));
    assert_eq!(parse_task("tx"), None);
    assert_eq!(parse_task("t1.x"), None);
}

#[test]
fn accounts_are_given_in_three_ways() {
    assert!(matches!(parse_account("ssh-ed25519 AAAA x"), Ok(AccountSpec::Ssh(l)) if l == "ssh-ed25519 AAAA x"));
    assert!(matches!(parse_account("3"), Ok(AccountSpec::Known(a)) if a == keys::account_of_seed(&[3; 32])));
    assert!(matches!(parse_account(&"ab".repeat(32)), Ok(AccountSpec::Known(a)) if a == [0xab; 32]));
    assert!(parse_account("300").is_err());
}

#[test]
fn a_home_path_is_expanded() {
    assert_eq!(expand_home("~/x/y", "/home/cat"), "/home/cat/x/y");
    assert_eq!(expand_home("/x", "/home/cat"), "/x");
    assert_eq!(expand_home("~x", "/home/cat"), "~x");
}
