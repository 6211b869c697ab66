//! Logs on disk, the command line, and the terminal chat.

use kot::chat::{dispatch, greeting, read_line, window_line, Line};
use kot::cli::{
    build_llm_for, candidates, chat_persona, check_patrons, default_db, default_persona, leader_of, no_keypair, no_seed, peers, signer, with_context,
    LeaderSpec, Model, SignAs, DEV_ROSTER,
};
use kot::common::{identity_plan, public_is_stale, read_seed_file, root_identity_path, ContextFile, IdentityPlan, Roster};
use kot::journal::{
    compact_note, dropped_note, failed_turn_note, generation_name, held_note, iso_before, iso_from_ms, now_iso, record_note, reset_note, restored_note,
    result_note, session_title, span_name, start_note, trace_name, transcript_line, turn_note, Generation, LangfuseLog, Span, Tape, TurnNote, MAX_BYTES,
};
use kot::json::Json;
use kot::ui::{strip_ansi, term_width, theme, Rgb, Skin};

fn skin() -> Skin {
    Skin { colour: false, width: 80, theme: theme("bund"), ramp: (0..200).map(|n| vec![Rgb(1, 2, 3); n]).collect() }
}

#[test]
fn instants_are_written_in_utc() {
    assert_eq!(iso_from_ms(0), "1970-01-01T00:00:00+00:00");
    assert_eq!(iso_from_ms(1_790_214_012_345), "2026-09-24T01:40:12.345+00:00");
    assert_eq!(iso_from_ms(i64::MAX), "", "no date");
    assert_eq!(iso_before(5_000, 2_000), "1970-01-01T00:00:03+00:00");
    assert!(now_iso().ends_with("+00:00"));
}

#[test]
fn events_have_their_names_and_shapes() {
    let mut log = LangfuseLog::open(Some(10));
    assert!(log.is_open() && !LangfuseLog::open(None).is_open());
    let line = log.trace_create("tr", "meow", "m", Some(8), 0);
    assert_eq!(
        line,
        concat_lines(&[
            r#"{"body":{"id":"tr","metadata":{"context_window":8,"model":"m"},"name":"meow","timestamp":"1970-01-01T00:00:00+00:00"},"#,
            r#""id":"evt-0-0","timestamp":"1970-01-01T00:00:00+00:00","type":"trace-create"}"#,
            "\n",
        ])
    );
    let g = Generation {
        id: "g".into(),
        trace: "tr".into(),
        model: "m".into(),
        input: "in".into(),
        output: "out".into(),
        prompt_tokens: 100,
        cached_tokens: 30,
        out_tokens: 5,
        total_tokens: 105,
    };
    let line = log.generation_create(&g, 1_000, 3_000);
    assert!(line.contains(r#""id":"evt-3000-1""#), "{line}");
    assert!(line.contains(r#""startTime":"1970-01-01T00:00:02+00:00""#), "{line}");
    assert!(line.contains(r#""endTime":"1970-01-01T00:00:03+00:00""#), "{line}");
    assert!(line.contains(r#""usageDetails":{"cache_read_input_tokens":30,"input":70,"output":5,"total":105}"#), "{line}");
    let s = Span { id: "s".into(), trace: "tr".into(), name: "Bash".into(), input: "i".into(), output: "o".into(), ok: false };
    let line = log.span_create(&s, 0, 3_000);
    assert!(line.contains(r#""id":"evt-3000-2""#), "names never repeat: {line}");
    assert!(line.contains(r#""level":"ERROR""#), "{line}");
}

fn concat_lines(v: &[&str]) -> String {
    v.concat()
}

#[test]
fn a_full_file_is_moved_aside() {
    let mut t = Tape::opened(Some(MAX_BYTES));
    assert!(!t.is_full());
    t.wrote(1, true);
    assert!(t.is_full());
    let mut shut = Tape::opened(None);
    shut.wrote(9, true);
    assert_eq!(shut.written, 0);
    t.wrote(9, false);
    assert_eq!(t.written, MAX_BYTES + 1);
}

#[test]
fn a_transcripts_line_says_when_and_in_which_session() {
    let line = transcript_line(vec![("t".into(), Json::Str("turn".into()))], Some(2), 77);
    assert_eq!(line, "{\"at\":77,\"session\":2,\"t\":\"turn\"}\n");
    assert_eq!(transcript_line(vec![("t".into(), Json::Str("start".into()))], None, 77), "{\"at\":77,\"t\":\"start\"}\n");
}

#[test]
fn a_transcript_notes_what_happens() {
    let shown = |m: Vec<(String, Json)>| Json::Object(m).print();
    assert_eq!(shown(start_note("meow", "m", Some(8), "be")), r#"{"model":"m","name":"meow","system":"be","t":"start","window":8}"#);
    assert_eq!(shown(start_note("meow", "m", None, "")), r#"{"model":"m","name":"meow","system":"","t":"start","window":null}"#);
    assert_eq!(shown(restored_note(3, 1)), r#"{"messages":3,"t":"restored","trimmed":1}"#);
    assert_eq!(shown(reset_note("x")), r#"{"t":"reset","why":"x"}"#);
    assert_eq!(shown(record_note("Say", "hi", true, "sent")), r#"{"arg":"hi","meta":"sent","ok":true,"t":"record","tool":"Say"}"#);
    assert_eq!(shown(result_note(Some(4), "Bash", false, "no")), r#"{"id":4,"ok":false,"t":"result","text":"no","tool":"Bash"}"#);
    assert_eq!(shown(result_note(None, "Bash", true, "late")), r#"{"id":null,"ok":true,"stale":true,"t":"result","text":"late","tool":"Bash"}"#);
    let calls = vec![("A".to_string(), Json::Object(vec![("x".into(), Json::Num(1))])), ("B".to_string(), Json::Null)];
    let turn = TurnNote {
        why: "w".into(),
        check: false,
        prompt: "p".into(),
        reasoning: None,
        text: "t".into(),
        calls,
        prompt_tokens: 1,
        out_tokens: 2,
        total_tokens: 3,
        cached_tokens: 0,
        ms: 9,
    };
    assert_eq!(
        shown(turn_note(turn)),
        concat_lines(&[
            r#"{"cached_tokens":0,"calls":[{"args":{"x":1},"name":"A"},{"args":null,"name":"B"}],"check":false,"#,
            r#""ms":9,"out_tokens":2,"prompt":"p","prompt_tokens":1,"reasoning":null,"t":"turn","text":"t","#,
            r#""total_tokens":3,"why":"w"}"#,
        ])
    );
    assert_eq!(shown(failed_turn_note("w", true, "p", "down")), r#"{"check":true,"error":"down","prompt":"p","t":"turn","why":"w"}"#);
    assert_eq!(shown(dropped_note(2)), r#"{"calls":2,"t":"dropped"}"#);
    assert_eq!(shown(held_note(5)), r#"{"n":5,"t":"held"}"#);
    assert_eq!(shown(compact_note(true, false, "s")), r#"{"forced":true,"summary":"s","t":"compact"}"#);
    assert_eq!(shown(compact_note(false, true, "s")), r#"{"forced":false,"reboot":true,"summary":"s","t":"compact"}"#);
    assert_eq!((trace_name("meow", 7).as_str(), session_title("meow").as_str()), ("trace-meow-7", "meow session"));
    assert_eq!((span_name(1, Some(2)).as_str(), span_name(1, None).as_str(), generation_name(1, 6).as_str()), ("span-1-2", "span-1-instant", "gen-1-6"));
}

#[test]
fn the_loop_says_what_it_does() {
    assert_eq!(kot::asides::transcript_at("/x", true), "transcript: /x");
    assert_eq!(kot::asides::transcript_at("/x", false), "transcript: can't open /x — not writing one");
    assert_eq!(kot::asides::langfuse_at("t", true), "langfuse log: t");
    assert_eq!(kot::asides::langfuse_at("t", false), "langfuse log: can't open — not writing one");
    assert_eq!(kot::asides::restored(3, 0, "/h"), vec!["restored 3 message(s) of conversation from /h"]);
    assert_eq!(kot::asides::restored(3, 2, "/h")[1], "2 old-format message(s) had their tool results cut down to one line each");
    assert_eq!(kot::asides::new_session("why"), "new session — why");
    assert_eq!(kot::asides::not_fed_back("Bash"), "Bash's result is from before the session reset — not fed back");
    assert_eq!(kot::asides::nudging("meow", 150), "nudging meow on its open local tasks — idle 2m30s");
    assert_eq!(kot::asides::stalls_dropped(2), "2 stall notice(s) not given — follow-up turns used up");
    assert_eq!(kot::asides::results_held(1), "1 result(s) held back — 8 follow-up turns in a row with nobody speaking; fed with the next message");
    assert_eq!((kot::flights::watch_every(120_000, 150_000), kot::flights::watch_every(100, 9), kot::flights::watch_every(4_000, 9_000)), (5_000, 50, 1_000));
}

#[test]
fn a_line_in_a_chat() {
    assert!(matches!(read_line("  \n"), Line::Nothing));
    assert!(matches!(read_line("/quit\n"), Line::Quit));
    assert!(matches!(read_line("/exit"), Line::Quit));
    assert!(matches!(read_line(" /clear "), Line::Clear));
    assert!(matches!(read_line(" hello cat \n"), Line::Say(s) if s == "hello cat"));
    let k = skin();
    let args = Json::Object(vec![("body".into(), Json::Str("purr".into()))]);
    assert!(dispatch(&k, "meow", "SendMessage", &args).unwrap().contains("purr"));
    assert_eq!(dispatch(&k, "meow", "Peers", &args), None);
    assert!(strip_ansi(&greeting(&k, "glm", "meow")).starts_with("talking to glm as "));
    assert_eq!(window_line(&k, Some(4096)), "context window: 4096 tokens");
    assert!(window_line(&k, None).contains("unknown for this model"));
}

#[test]
fn a_model_is_chosen_by_its_flag() {
    let s = |x: &str| Some(x.to_string());
    assert!(matches!(build_llm_for(&s("http://l"), true, true, &None), Model::Local { url, model } if url == "http://l" && model == "qwen3:4b"));
    assert!(matches!(build_llm_for(&None, true, false, &None), Model::Glm { model } if model == "glm-5.3"));
    assert!(matches!(build_llm_for(&None, true, false, &s("glm-9")), Model::Glm { model } if model == "glm-9"));
    assert!(matches!(build_llm_for(&None, false, true, &None), Model::Unnamed));
    assert!(matches!(build_llm_for(&None, false, true, &s("q")), Model::OpenRouter { model } if model == "q"));
    assert!(matches!(build_llm_for(&None, false, false, &s("q")), Model::Nothing));
}

#[test]
fn a_signer_is_chosen_in_order() {
    let s = |x: &str| Some(x.to_string());
    assert!(matches!(signer(&s("1"), &s("f"), &s("n")), SignAs::Seed(x) if x == "1"));
    assert!(matches!(signer(&None, &s("f"), &s("n")), SignAs::SeedFile(x) if x == "f"));
    assert!(matches!(signer(&None, &None, &s("n")), SignAs::Member(x) if x == "n"));
    assert!(matches!(signer(&None, &None, &None), SignAs::Operator));
    assert_eq!(no_seed("meow"), "--as meow: no seed for meow in the roster (a pub: entry can't sign)");
    assert_eq!(no_keypair("meow"), "run needs a keypair to sign mesh traffic: --seed-file, --seed, or a seed for meow in the roster");
}

#[test]
fn nodes_and_peers() {
    assert_eq!(candidates(&None, &vec!["".into()]), vec!["https://127.0.0.1:9944"]);
    assert_eq!(candidates(&Some("a".into()), &vec!["b".into(), "".into(), "c".into()]), vec!["a", "b", "c"]);
    assert_eq!(peers(&vec![" http://a// ".into(), "".into(), " / ".into(), "b".into()]), vec!["http://a", "b"]);
    assert_eq!(default_db("meow"), "kot-meow.db");
}

#[test]
fn a_member_is_no_patron() {
    let roster = Roster::parse(DEV_ROSTER).unwrap();
    let (root, leader) = (roster.account("root").unwrap(), [9u8; 32]);
    assert_eq!(check_patrons(&vec![("p".into(), [8; 32])], &roster.0, &root, &leader), Ok(()));
    let e = check_patrons(&vec![("p".into(), [8; 32]), ("q".into(), leader)], &roster.0, &root, &leader).unwrap_err();
    assert_eq!(e, "--patrons: q is already a genesis member; a member doesn't need to be a patron");
    assert!(check_patrons(&vec![("s".into(), roster.account("sima").unwrap())], &roster.0, &root, &leader).is_err());
    assert!(matches!(leader_of(&roster, "simlead"), LeaderSpec::Known(a) if a == roster.account("simlead").unwrap()));
    assert!(matches!(leader_of(&roster, "2"), LeaderSpec::Read(s) if s == "2"));
}

#[test]
fn a_persona_takes_its_context_along() {
    let ok = ContextFile { path: "/a.md".into(), stem: "a".into(), text: Ok("facts".into()) };
    let bad = ContextFile { path: "/b.md".into(), stem: "b".into(), text: Err("gone".into()) };
    let (p, lines) = with_context(&default_persona("meow"), &vec![ok, bad], "meow");
    assert_eq!(p, "You are meow, a cat in the Akuma Miot litter.\n\n## a\n\nfacts");
    assert_eq!(lines.len(), 1);
    assert!(lines[0].starts_with("[meow] --context: /b.md") && lines[0].ends_with(" (skipped)"), "{}", lines[0]);
    assert!(chat_persona("meow").starts_with("You are meow, a cat, talking directly to your operator"));
}

#[test]
fn identities_are_made_once() {
    assert_eq!(root_identity_path("/home/cat"), "/home/cat/.akuma/miot/id_ed25519.seed");
    assert_eq!(read_seed_file("/x", &Ok(" 7\n".into())), Ok([7; 32]));
    assert_eq!(read_seed_file("/x", &Err("denied".into())), Err("/x: denied".into()));
    assert!(matches!(identity_plan("/x", &Ok("7".into()), true), IdentityPlan::Use(s) if s == [7; 32]));
    assert!(matches!(identity_plan("/x", &Err("none".into()), false), IdentityPlan::Create));
    assert!(matches!(identity_plan("/x", &Err("denied".into()), true), IdentityPlan::Unreadable(s) if s == "identity file exists but is unreadable: /x: denied"));
    assert!(public_is_stale(&None, "k") && public_is_stale(&Some("j".into()), "k") && !public_is_stale(&Some(" k\n".into()), "k"));
}

#[test]
fn the_terminals_width() {
    assert_eq!(term_width(&Some("120".into()), Some(90)), 120);
    assert_eq!(term_width(&Some("wide".into()), Some(90)), 90);
    assert_eq!(term_width(&None, Some(20)), 100);
    assert_eq!(term_width(&None, None), 100);
}
