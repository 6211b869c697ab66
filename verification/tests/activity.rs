//! Live records, and how the board shows them.

use kot::activity::{short, tail, Activity, Finished, Flight, Seen, TaskLine};
use kot::board::{activity_row, activity_text, local_tasks_text, ACTIVITY_STALE_MS};
use kot::common::Roster;
use kot::keys;
use kot::ui::{strip_ansi, theme, Rgb, Skin};

fn skin() -> Skin {
    Skin { colour: true, width: 100, theme: theme("bund"), ramp: (0..200).map(|n| vec![Rgb(1, 2, 3); n]).collect() }
}

fn roster() -> Roster {
    Roster(vec![("meow".into(), keys::account_of_seed(&[7; 32])), ("kuro".into(), keys::account_of_seed(&[8; 32]))])
}

fn seen(n: u8, age_ms: u64, a: Activity) -> Seen {
    Seen { account: keys::to_hex(&keys::account_of_seed(&[n; 32])), age_ms, activity: a }
}

fn cats() -> Vec<Seen> {
    vec![
        seen(7, 200, Activity { name: "meow".into(), phase: "thinking".into(), since: 1_000, at: 43_000, ..Default::default() }),
        seen(
            8,
            0,
            Activity {
                name: "kuro".into(),
                phase: "waiting".into(),
                since: 0,
                at: 70_000,
                running: vec![
                    Flight { id: 3, tool: "Bash".into(), arg: "$ cargo build".into(), since: 7_000, ..Default::default() },
                    Flight { id: 4, tool: "Peers".into(), since: 69_000, ..Default::default() },
                ],
                ok: 9,
                failed: 2,
                recent: vec![Finished { tool: "Bash".into(), arg: "$ make".into(), ok: false, meta: "exit 2".into(), at: 60_000, ..Default::default() }],
                tasks: vec![
                    TaskLine { id: "L1".into(), status: "done".into(), text: "configure".into(), note: "used defconfig".into() },
                    TaskLine { id: "L2".into(), status: "doing".into(), text: "build it".into(), note: String::new() },
                    TaskLine { id: "L3".into(), status: "todo".into(), text: "send root the output".into(), note: String::new() },
                ],
                tasks_finished: 1,
                tasks_total: 3,
                thought: "the link step needs more time".into(),
                ..Default::default()
            },
        ),
    ]
}

#[test]
fn phase_time_uses_only_the_cats_clock_plus_age() {
    let a = Activity { since: 1_000, at: 4_000, ..Default::default() };
    assert_eq!(a.in_phase_ms(0), 3_000);
    assert_eq!(a.in_phase_ms(500), 3_500);
    // A record whose `since` is somehow after `at` never underflows.
    let b = Activity { since: 5_000, at: 4_000, ..Default::default() };
    assert_eq!(b.in_phase_ms(10), 10);
}

#[test]
fn short_and_tail_cut_with_an_ellipsis() {
    assert_eq!(short("\n  cargo build --release\nmore", 8), "cargo b…");
    assert_eq!(short("ls", 8), "ls");
    assert_eq!(tail("a  b\n c", 10), "a b c");
    assert_eq!(tail("one two three four", 6), "…four");
}

#[test]
fn the_row_names_each_cats_phase_and_its_oldest_call() {
    let row = strip_ansi(&activity_row(&skin(), &cats(), &roster()));
    assert!(row.contains("meow ◌ 42s"), "{row}");
    // Oldest of two in flight, timed from its own start; the recent
    // failure is flagged.
    assert!(row.contains("kuro ⚙2 Bash 1m03s 1/3 ✗Bash"), "with its task progress: {row}");
}

#[test]
fn a_stale_record_is_not_shown_as_current() {
    let mut c = cats();
    c[0].age_ms = ACTIVITY_STALE_MS + 1_000;
    let row = strip_ansi(&activity_row(&skin(), &c, &roster()));
    assert!(row.contains("meow ? 16s ago"), "{row}");
    assert!(!row.contains("◌"), "{row}");
}

#[test]
fn stale_records_look_alike_on_the_row() {
    let mut c = cats();
    c[0].age_ms = ACTIVITY_STALE_MS + 1_000;
    let one = activity_row(&skin(), &c, &roster());
    c[0].activity.phase = "idle".into();
    c[0].activity.tasks_total = 7;
    assert_eq!(one, activity_row(&skin(), &c, &roster()));
}

#[test]
fn the_snapshot_has_everything_and_filters_by_name() {
    let k = skin();
    let all = strip_ansi(&activity_text(&k, &cats(), &roster(), None));
    for want in ["◌ thinking 42s", "⚙ waiting on tools 1m10s", "running 2", "$ cargo build", "✓ 9", "✗ 2", "exit 2", "1/3 finished — /tasks kuro", "◐ L2 build it", "○ L3 send root", "the link step needs more time"] {
        assert!(all.contains(want), "missing {want:?} in:\n{all}");
    }
    let one = strip_ansi(&activity_text(&k, &cats(), &roster(), Some("@meow")));
    assert!(one.contains("meow") && !one.contains("kuro"), "{one}");
    let none = strip_ansi(&activity_text(&k, &cats(), &roster(), Some("tama")));
    assert!(none.contains("no activity from tama"), "{none}");
    assert!(strip_ansi(&activity_text(&k, &vec![], &roster(), None)).contains("no cat is reporting"));
    // The snapshot shows only what's open; the finished one is for /tasks.
    assert!(!all.contains("L1 configure"), "{all}");
}

#[test]
fn a_cats_task_list_shows_progress_status_and_notes() {
    let k = skin();
    let t = strip_ansi(&local_tasks_text(&k, &cats(), &roster(), "@kuro"));
    assert!(t.contains("kuro  local tasks · 1/3 finished · ◐ L2"), "{t}");
    assert!(t.contains("✓ L1 configure") && t.contains("↳ used defconfig"), "{t}");
    assert!(t.contains("◐ L2 build it") && t.contains("○ L3 send root the output"), "{t}");
    // In id order.
    let at = |row: &str| t.find(row).unwrap_or_else(|| panic!("no {row:?} in {t}"));
    assert!(at("✓ L1") < at("◐ L2 build") && at("◐ L2 build") < at("○ L3"), "{t}");

    let mut c = cats();
    c[1].activity.tasks_total = 30;
    assert!(strip_ansi(&local_tasks_text(&k, &c, &roster(), "kuro")).contains("… 27 older finished ones not carried"));
    assert!(strip_ansi(&local_tasks_text(&k, &cats(), &roster(), "meow")).contains("none — it hasn't written any down"));
    assert!(strip_ansi(&local_tasks_text(&k, &cats(), &roster(), "tama")).contains("no activity from tama"));
}

#[test]
fn cut_texts_fit_their_room() {
    for n in 1..12 {
        assert!(short("a line that goes on", n).chars().count() <= n);
        assert!(tail("a line that goes on", n).chars().count() <= n);
    }
}

#[test]
fn nobody_reporting_is_said() {
    let row = strip_ansi(&activity_row(&skin(), &vec![], &roster()));
    assert_eq!(row, "  活 no cat is reporting activity to this node");
}
