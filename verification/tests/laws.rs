//! What holds of the library as a whole, on a few values; and the exact words of
//! the errors that quote what was given.

use kot::agent::wake_text;
use kot::common::{markdown_files, parse_account, parse_seed, Roster};
use kot::figures::hhmm;
use kot::journal::{transcript_line, LangfuseLog, Span};
use kot::json::Json;
use kot::local_tasks::LocalTasks;
use kot::machine::reboot_tool;
use kot::scroll::split_words;
use kot::tree::log_tree;
use kot::ui::{shout, theme, word_of, wrap, Rgb, Skin};

fn skin(name: &str) -> Skin {
    Skin { colour: false, width: 80, theme: theme(name), ramp: (0..300).map(|n| vec![Rgb(1, 2, 3); n]).collect() }
}

fn s(x: &str) -> Json {
    Json::Str(x.into())
}

fn obj(members: Vec<(&str, Json)>) -> Json {
    Json::Object(members.into_iter().map(|(k, v)| (k.to_string(), v)).collect())
}

#[test]
fn no_branch_of_a_conversation_is_cut() {
    let roster = Roster::parse("root=1,meow=2").unwrap();
    let depth = 60;
    let batch: Vec<Json> = (0..depth)
        .map(|i| {
            let parent = if i == 0 { Json::Null } else { s(&format!("m{}", i - 1)) };
            let said = obj(vec![("t", s("message")), ("id", s(&format!("m{i}"))), ("body", s(&format!("reply {i}"))), ("parent", parent)]);
            obj(vec![("block", Json::Num(1)), ("effect", said)])
        })
        .collect();
    let drawn = log_tree(&skin("bund"), &batch, &roster);
    assert_eq!(drawn.len(), depth);
    for (i, line) in drawn.iter().enumerate() {
        assert!(line.contains(&format!("#m{i} ")) && line.ends_with(&format!("reply {i}")), "{line}");
    }
}

#[test]
fn what_is_written_stays_on_its_line() {
    let odd = "two\nlines\r\u{2028}\ttab \u{1} \"quoted\" back\\slash";
    assert_eq!(s(odd).print(), "\"two\\nlines\\r\u{2028}\\ttab \\u0001 \\\"quoted\\\" back\\\\slash\"");
    let line = transcript_line(vec![("ev\n".to_string(), s(odd)), ("list".to_string(), Json::List(vec![s("\n"), Json::Null]))], Some(3), 9);
    assert_eq!(line.matches('\n').count(), 1);
    assert!(line.starts_with("{\"at\":9,\"ev\\n\":\"two") && line.ends_with("\"list\":[\"\\n\",null],\"session\":3}\n"), "{line}");
    let span = Span { id: "s".into(), trace: "t".into(), name: "Bash".into(), input: odd.into(), output: odd.into(), ok: true };
    let event = LangfuseLog::open(Some(0)).span_create(&span, 0, 0);
    assert_eq!(event.matches('\n').count(), 1);
    assert!(event.ends_with('\n'));
}

#[test]
fn an_instant_without_a_date_has_no_time_of_day() {
    assert_eq!(hhmm(0), "00:00Z");
    assert_eq!(hhmm(-60), "23:59Z");
    assert_eq!(hhmm(1_790_214_012), "01:40Z");
    assert_eq!(hhmm(i64::MAX), "--:--");
    assert_eq!(hhmm(i64::MIN), "--:--");
}

#[test]
fn errors_quote_what_was_given() {
    assert_eq!(parse_seed("no\t\"seed\""), Err(r#"seed "no\t\"seed\"" is neither a small int nor 64 hex chars"#.to_string()));
    assert_eq!(parse_seed("0a0b"), Err(r#"seed "0a0b" is not 32 bytes"#.to_string()));
    assert!(parse_account("3 00").is_err());
    match Roster::parse("root=1,meow") {
        Ok(_) => panic!("an entry without a value was taken"),
        Err(e) => assert!(e.contains(r#""meow""#), "{e}"),
    }
    let said = LocalTasks::load(None, 7).apply("juggle", "", "").unwrap_err();
    assert!(said.contains(r#"unknown action "juggle""#), "{said}");
}

#[test]
fn letters_beyond_ascii_are_letters() {
    assert_eq!(shout(&skin("neon"), "straße é"), "STRASSE É");
    assert_eq!(shout(&skin("bund"), "straße é"), "straße é");
    assert_eq!(split_words("PlanÉtat"), "Plan État");
    assert_eq!(word_of("žofie!)"), "žofie");
    assert_eq!(word_of("四,"), "四");
}

#[test]
fn a_wrapped_text_is_all_there() {
    let text = " one two  three\t四四四四 five sixseveneightnineteneleven ";
    let folded = "one two three 四四四四 five sixseveneightnineteneleven";
    for width in 2..40 {
        assert_eq!(wrap(text, width).join(" "), folded, "at {width}");
    }
}

#[test]
fn a_directory_contributes_its_markdown_by_name() {
    let names = ["b.md", "a.md", ".md", "c.txt", "md", "a.md.bak", "..md"].map(String::from).to_vec();
    assert_eq!(markdown_files(&names), vec!["..md", "a.md", "b.md"]);
    assert!(markdown_files(&vec!["x.rs".to_string()]).is_empty());
}

#[test]
fn the_reboot_asks_for_a_summary() {
    let t = reboot_tool();
    assert_eq!(t.name, "Reboot");
    assert!(t.description.starts_with("Compact your conversation to a summary you write, then reboot this host"));
    assert_eq!(
        t.schema.print(),
        r#"{"properties":{"summary":{"description":"everything about the conversation so far worth remembering","type":"string"}},"required":["summary"],"type":"object"}"#
    );
    assert_eq!(wake_text(7, "hi"), "[block 7] hi");
}

#[test]
fn what_a_node_serves_reads_back() {
    let v = kot::answers::meta_json(&[7; 32], 3, 1 << 33 | 5, "0.1.0");
    let m = kot::client::read_meta(&v).unwrap();
    assert_eq!((m.genesis_hash, m.spec_version, m.tx_version), ([7; 32], 3, 5));
    let meta = |g: &str| Json::Object(vec![("genesis_hash".into(), Json::Str(g.into()))]);
    assert!(matches!(kot::client::read_meta(&Json::Null), Err(kot::client::MetaFault::Missing("no genesis_hash"))));
    assert!(matches!(kot::client::read_meta(&meta(&"ab".repeat(32))), Err(kot::client::MetaFault::Missing("no spec_version"))));
    assert!(matches!(kot::client::read_meta(&meta("0g")), Err(kot::client::MetaFault::NotHex(s)) if s == "0g"));
    assert!(matches!(kot::client::read_meta(&meta("abcd")), Err(kot::client::MetaFault::WrongSize(2))));
    let litter = Roster::parse("root=1,meow=2").unwrap();
    let served = kot::answers::roster_json(&litter.0);
    assert_eq!(kot::client::adopt_chain_roster(&served).unwrap().0, litter.0);
    assert_eq!(kot::sync::served_state(&kot::sync::state_text(&vec![0, 255])), Some(vec![0, 255]));
    assert_eq!(kot::sync::served_state("f"), None);
    assert_eq!(kot::mempool::offers(&vec!["0a".to_string(), "zz".into(), "FF00".into()]), vec![vec![10], vec![255, 0]]);
}

#[test]
fn a_seed_is_kept_in_hexadecimal() {
    let seed: [u8; 32] = std::array::from_fn(|i| i as u8 + 200);
    assert_eq!(parse_seed(&kot::keys::to_hex(&seed)), Ok(seed));
    // Digits that spell a small number stand for the dev seed of that number.
    let mut small = [0u8; 32];
    small[31] = 0x12;
    assert_eq!(parse_seed(&kot::keys::to_hex(&small)), Ok([12; 32]));
}
