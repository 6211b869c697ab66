//! Figures, text, colours and rows on the screen.

use kot::activity::{Activity, Flight, Seen, TaskLine};
use kot::board::{activity_row, activity_text, clip_ansi, local_tasks_text, seen_name, task_line};
use kot::common::Roster;
use kot::composer::{banner, composer_lines, composer_status, hint, key, keys, kv, section, shade_row, vista};
use kot::figures::{bytes, clock, hhmm, human, kilo, millis, seconds, stamp_at, thousands};
use kot::json::{members, member, number_or_null, string_or_null, strings, Json};
use kot::keys::{account_of_seed, from_hex, same_account, short, to_hex};
use kot::markdown::markdown;
use kot::scroll::{block_id, directed, hang, me, mesh, prompt, said, sealed_line, split_words, stamp, stats_phrase, typed};
use kot::text::{
    contains, count_matches, ends_with, join, lines_of, parse_number, replace, replace_once, signed_number, split_on, split_once, starts_with, strip_prefix,
    to_lower, to_upper, trim, trim_leading, trim_trailing, wide_number, words_of,
};
use kot::tool_out::ToolOut;
use kot::turns::{clip, first_line_of, meter, musing, note, reply, started, thinking, tool, turn, TurnCost};
use kot::ui::{bold, cat, cells, fill_to, pad, paint, repeat, rule, sealed, sparkline, strip_ansi, tags, theme, vcells, who, word_of, wrap, Rgb, Skin};

fn skin(colour: bool) -> Skin {
    Skin { colour, width: 80, theme: theme("bund"), ramp: (0..300).map(|n| vec![Rgb(1, 2, 3); n]).collect() }
}

fn litter() -> Roster {
    Roster::parse("root=1,meow=2,kuro=3").unwrap()
}

#[test]
fn figures_round_as_doubles_do() {
    let mut n: u64 = 1024;
    while n < 40_000_000 {
        let x = n as f64;
        let want = if n < 1_048_576 { format!("{:.1} KB", x / 1024.0) } else { format!("{:.1} MB", x / 1_048_576.0) };
        assert_eq!(bytes(n), want);
        n += if n < 200_000 { 1 } else { 1277 };
    }
    // Halfway between two tenths.
    for n in [1_048_576u64 * 5 / 4, 1_048_576 * 7 / 4, 1280, 1792, 9_007_199_254_740_992] {
        let x = n as f64;
        let want = if n < 1_048_576 { format!("{:.1} KB", x / 1024.0) } else { format!("{:.1} MB", x / 1_048_576.0) };
        assert_eq!(bytes(n), want);
    }
    for ms in (1000u64..120_000).chain((0..20_000u64).map(|i| i * 1_000_003 + 50)) {
        let want = if ms < 1000 { format!("{ms}ms") } else { format!("{:.1}s", ms as f64 / 1000.0) };
        assert_eq!(millis(ms), want);
    }
    for ms in 0..5_000u64 {
        assert_eq!(seconds(ms), format!("{:.1}s", ms as f64 / 1000.0));
    }
    for ms in [9_007_199_254_740_992u64, 9_007_199_254_740_850, 4_503_599_627_370_450, 4_503_599_627_370_650] {
        assert_eq!(millis(ms), format!("{:.1}s", ms as f64 / 1000.0));
    }
    // Counts that no double holds exactly.
    let mut n = u64::MAX;
    while n > 1 << 50 {
        for d in [0, 1, 2, 3, 511, 512, 513, 1023, 1024, 1025, 1536, 2047, 2048] {
            let x = (n - d) as f64;
            assert_eq!(bytes(n - d), format!("{:.1} MB", x / 1_048_576.0));
            assert_eq!(millis(n - d), format!("{:.1}s", x / 1000.0));
            assert_eq!(seconds(n - d), format!("{:.1}s", x / 1000.0));
        }
        n = n / 8 * 7;
    }
    for n in (1001u32..90_000).chain((0..20_000u32).map(|i| i * 100_003 + 1050)) {
        if n % 1000 != 0 {
            assert_eq!(kilo(n), format!("{:.1}k", n as f64 / 1000.0));
        }
    }
}

#[test]
fn figures_are_short() {
    assert_eq!((bytes(0).as_str(), bytes(1023).as_str(), bytes(1024).as_str(), bytes(1_572_864).as_str()), ("0 B", "1023 B", "1.0 KB", "1.5 MB"));
    assert_eq!((thousands(0).as_str(), thousands(999).as_str(), thousands(1_234_567).as_str()), ("0", "999", "1,234,567"));
    assert_eq!((kilo(999).as_str(), kilo(128_000).as_str()), ("999", "128k"));
    assert_eq!((millis(999).as_str(), millis(1_500).as_str()), ("999ms", "1.5s"));
    assert_eq!(seconds(6_049), "6.0s");
    assert_eq!((human(59).as_str(), human(61).as_str(), human(3_661).as_str()), ("59s", "1m01s", "1h01m"));
    assert_eq!(clock(1_790_214_012_345), "09-24 01:40:12Z");
    assert_eq!(hhmm(0), "00:00Z");
    assert_eq!(stamp_at(None, None), "");
    assert_eq!(stamp_at(Some(0), None), "01-01 00:00:00Z");
    assert_eq!(kot::figures::when(5, None, 9, 1_000_000, 6_000), "≈13:46Z");
    assert_eq!(kot::figures::when(9, Some(5), 9, 1_000_000, 6_000), "≈13:46Z (+24s)");
}

#[test]
fn texts_are_cut_and_put_together() {
    assert_eq!((trim(" \u{3000}a b\n").as_str(), trim_leading("@@a@", '@').as_str(), trim_trailing("a//", '/').as_str()), ("a b", "a@", "a"));
    assert_eq!(split_on("a,,b", ','), vec!["a", "", "b"]);
    assert_eq!(split_once("a=b=c", '='), Some(("a".to_string(), "b=c".to_string())));
    assert_eq!(split_once("ab", '='), None);
    assert_eq!(lines_of("a\r\nb\n\nc"), vec!["a", "b", "", "c"]);
    assert_eq!(lines_of(""), Vec::<String>::new());
    assert_eq!(words_of("  a \t b\u{a0}c "), vec!["a", "b", "c"]);
    assert_eq!(join(&vec!["a".into(), "b".into()], ", "), "a, b");
    assert!(contains("abc", "bc") && contains("", "") && starts_with("abc", "ab") && ends_with("abc", "bc"));
    assert_eq!(strip_prefix("abc", "a").as_deref(), Some("bc"));
    assert_eq!((replace("aaa", "aa", "b").as_str(), replace_once("aaa", "a", "b").as_str(), count_matches("aaa", "aa")), ("ba", "baa", 1));
    assert_eq!((to_lower("ÀB").as_str(), to_upper("straße").as_str()), ("Àb", "STRAßE"));
    assert_eq!((wide_number(u128::MAX).as_str(), signed_number(-7).as_str()), ("340282366920938463463374607431768211455", "-7"));
    assert_eq!((parse_number("+042", 99), parse_number("100", 99), parse_number("", 99), parse_number("4x", 99)), (Some(42), None, None, None));
}

#[test]
fn printed_numbers_read_back() {
    for n in [0u64, 9, 10, 4_294_967_295, u64::MAX] {
        assert_eq!(parse_number(&kot::text::number(n), u64::MAX), Some(n));
    }
}

#[test]
fn values_read_as_built() {
    let mut m = members();
    member(&mut m, "a", Json::Num(4));
    member(&mut m, "b", string_or_null(&None));
    member(&mut m, "c", strings(&vec!["x".into()]));
    member(&mut m, "d", number_or_null(Some(1)));
    member(&mut m, "e", Json::Bool(true));
    let j = Json::Object(m);
    assert_eq!((j.num("a"), j.text("b"), j.flag("e"), j.is_set("b"), j.is_set("a")), (Some(4), None, true, false, true));
    assert_eq!(j.print(), r#"{"a":4,"b":null,"c":["x"],"d":1,"e":true}"#);
    assert_eq!(Json::Str("q\"\\\n\u{1}é".into()).print(), "\"q\\\"\\\\\\n\\u0001é\"");
    assert_eq!(Json::Other("-1.5".into()).print(), "-1.5");
    // Members are in the order of their keys, and the last of two with one key stays.
    let members = |keys: &[&str]| Json::Object(keys.iter().enumerate().map(|(i, k)| (k.to_string(), Json::Num(i as u64))).collect());
    let keys = ["t", "b", "ab", "é", "a", "", "A", "b", "z", "猫"];
    let mut map = serde_json::Map::new();
    for (i, k) in keys.iter().enumerate() {
        map.insert(k.to_string(), serde_json::Value::from(i as u64));
    }
    assert_eq!(members(&keys).print(), serde_json::Value::Object(map).to_string());
    assert_eq!(members(&["b", "a", "b"]).print(), r#"{"a":1,"b":2}"#);
}

#[test]
fn hex_reads_back() {
    let a = account_of_seed(&[7; 32]);
    assert_ne!(a, [7; 32]);
    assert_eq!(from_hex(&to_hex(&a)), Some(a));
    assert_eq!(from_hex(&to_hex(&a).to_uppercase()), Some(a));
    assert_eq!((from_hex("ab"), from_hex("zz")), (None, None));
    assert!(short(&a).chars().count() < 20 && same_account(&a, &a) && !same_account(&a, &[0; 32]));
}

#[test]
fn colours_are_painted_only_where_they_are_wanted() {
    let (plain, rich) = (skin(false), skin(true));
    assert_eq!(paint(&plain, Rgb(1, 2, 3), "x"), "x");
    assert_eq!(paint(&rich, Rgb(1, 2, 3), "x"), "\u{1b}[38;2;1;2;3mx\u{1b}[0m");
    assert_eq!(strip_ansi(&bold(&rich, Rgb(1, 2, 3), "x")), "x");
    assert_eq!((cells("a喵"), vcells("\u{1b}[0ma喵")), (3, 3));
    assert_eq!((pad("喵", 4).as_str(), fill_to("ab", 4).as_str(), repeat("ab", 2).as_str()), ("喵  ", "ab  ", "abab"));
    assert_eq!(wrap("one two three", 7), vec!["one two", "three"]);
    assert_eq!(wrap("", 7), vec![""]);
    assert_eq!(cat(&plain, "meow"), plain.theme.meow);
    assert!(strip_ansi(&who(&rich, "kuro")).contains("kuro") && sealed(&plain, "kuro").contains("kuro"));
    assert_eq!(word_of("kuro,"), "kuro");
    assert_eq!(tags(&plain, "hi @kuro and @zz", &litter()), "hi @kuro and @zz");
    assert_eq!(sparkline(&plain, &vec![0, 3, 7]), "▁▄█");
    assert_eq!(rule(&plain, 4).chars().count(), 4);
}

#[test]
fn clipped_texts_fit() {
    assert_eq!(clip("abcdef", 4), "abc…");
    assert_eq!(clip("abcd", 4), "abcd");
    assert_eq!(clip("喵喵喵", 5), "喵喵…");
    assert_eq!(first_line_of("a\nb"), "a");
}

#[test]
fn turns_are_shown() {
    let k = skin(false);
    let out = ToolOut::new("$ ls", true).meta("exit 0").body("a\nb");
    let t = tool(&k, "meow", "Bash", &out);
    assert!(t.contains("Bash") && t.contains("$ ls") && t.contains("exit 0"), "{t}");
    assert!(thinking(&k, "meow", "why").contains("why"));
    assert!(started(&k, "meow", "Bash", "$ ls", 2).contains("2"));
    let long = (0..40).map(|n| format!("line {n}")).collect::<Vec<_>>().join("\n");
    let m = musing(&k, "meow", "reasoning", &long);
    assert!(m.contains("line 0") && m.contains("line 39") && !m.contains("line 10\n"), "{m}");
    assert_eq!(strip_ansi(&meter(&k, 50, 10)), "▕█████░░░░░▏");
    let c = TurnCost { prompt: 1_200, out: 30, total: 1_230, cached: 200, window: Some(2_460), ms: 1_500, tools: 1, messages: 2 };
    let t = strip_ansi(&turn(&k, "meow", &c));
    assert!(t.contains("in 1,200 (200 cached) · out 30 · 1,230 tok  ▕█████░░░░░▏ 50% of 2.5k · 1.5s · 1 tool · 2 messages"), "{t}");
    assert!(reply(&k, "meow", "hello").contains("hello") && note(&k, "psst").contains("psst"));
}

#[test]
fn scrollback_rows() {
    let k = skin(false);
    assert!(block_id(&k, 12).contains("12") || block_id(&k, 12).contains("c"));
    assert!(stamp(&k, "10:00", 3).starts_with("  10:00  "));
    assert_eq!(hang(&k, 4, "short"), "short");
    assert_eq!(split_words("PlanNeeded"), "Plan Needed");
    assert!(directed(&k, "PlanNeeded").to_uppercase().contains("PLAN NEEDED"));
    assert!(mesh(&k, "leader: x").contains("leader: x"));
    assert!(prompt(&k, "meow", Some("kuro")).contains("meow"));
    assert!(typed(&k, "meow", Some("kuro"), "hi", &litter()).contains("hi"));
    assert!(sealed_line(&k, "10:00", 3, true).contains("off the record") || sealed_line(&k, "10:00", 3, true) != sealed_line(&k, "10:00", 3, false));
    assert!(me(&k, "10:00", 3, "meow", "kuro", "hi", &litter(), false).contains("hi"));
    let art = vec!["/\\_/\\".to_string()];
    let rows = said(&k, "10:00", 3, "kuro", "litter", "hello", &litter(), false, &art);
    assert!(rows.iter().any(|r| r.1.contains("hello")), "{rows:?}");
    let stats = Json::Object(vec![("turns".into(), Json::Num(1)), ("tool_calls".into(), Json::Num(2)), ("messages".into(), Json::Num(3)), ("tokens".into(), Json::Num(4_000)), ("ms".into(), Json::Num(90_000))]);
    let phrase = stats_phrase(&stats);
    assert!(phrase.starts_with("1 turn"), "{phrase}");
}

fn seen(name: &str, age_ms: u64) -> Seen {
    Seen {
        account: to_hex(&litter().account(name).unwrap()),
        age_ms,
        activity: Activity {
            name: name.into(),
            phase: "waiting".into(),
            running: vec![Flight { id: 3, tool: "Bash".into(), arg: "$ make".into(), ..Default::default() }],
            tasks: vec![TaskLine { id: "l1".into(), status: "open".into(), text: "build".into(), note: "".into() }],
            tasks_total: 1,
            ..Default::default()
        },
    }
}

#[test]
fn stale_records_look_alike() {
    let k = skin(false);
    assert_eq!(seen_name(&seen("kuro", 0), &litter()), "kuro");
    let row = activity_row(&k, &vec![seen("kuro", 0)], &litter());
    assert!(row.contains("kuro"), "{row}");
    let mut idle = seen("kuro", 20_000);
    idle.activity.phase = "idle".into();
    assert_eq!(activity_row(&k, &vec![seen("kuro", 20_000)], &litter()), activity_row(&k, &vec![idle], &litter()));
    let t = activity_text(&k, &vec![seen("kuro", 0), seen("meow", 0)], &litter(), Some("kuro"));
    assert!(t.contains("$ make") && !t.contains("meow"), "{t}");
    let l = local_tasks_text(&k, &vec![seen("kuro", 0)], &litter(), "kuro");
    assert!(l.contains("build"), "{l}");
    assert!(local_tasks_text(&k, &vec![], &litter(), "kuro").contains("kuro"));
    assert!(task_line(&k, &seen("kuro", 0).activity.tasks[0], 60).contains("build"));
    assert_eq!(clip_ansi(&k, "abcdef", 4), "abc…");
}

#[test]
fn unmatched_marks_stay() {
    let k = skin(false);
    assert_eq!(kot::markdown::inline(&k, "a **b** `c` *d"), "a b c *d");
    assert_eq!(kot::markdown::inline(&k, "2 * 3"), "2 * 3");
    let doc = markdown(&k, "# Title\n\n- one\n- two\n\n```\nlet *x* = 1;\n```\n");
    assert!(doc.contains("Title") && doc.contains("let *x* = 1;"), "{doc}");
}

#[test]
fn the_composer_is_drawn() {
    let k = skin(false);
    assert!(kv(&k, "节点", "node", "x").contains("node"));
    assert!(section(&k, "回放", "replay").contains("replay"));
    assert!(key(&k, "⇥", "complete").contains("complete"));
    assert!(keys(&k).contains("quit") && !hint(&k).is_empty());
    assert!(composer_status(&k, "https://n", "kuro", 9, 1).contains("sealing"));
    assert!(!composer_status(&k, "https://n", "kuro", 9, 0).contains("sealing"));
    let rows = composer_lines(&k, "n", "kuro", 9, "meow", "litter", "draft", 5, &litter(), "hint");
    assert!(rows.join("\n").contains("draft"));
    assert_eq!(shade_row(&k, "ab").chars().filter(|c| *c == 'a').count(), 1);
    assert!(!vista(&k).is_empty());
    let art = vec!["##".to_string(); 9];
    let glow = vec![vec![Rgb(0, 0, 0); 2]; 9];
    assert!(banner(&k, &art, &glow, "0.1").contains("0.1"));
}
