//! A cat's own to-do list.

use kot::local_tasks::{LocalTasks, MAX_CLOSED, MAX_OPEN};

/// What is read back from what was saved.
fn saved(t: &LocalTasks) -> Option<LocalTasks> {
    Some(LocalTasks { epoch: t.epoch, next: t.next, tasks: t.tasks.clone() })
}

#[test]
fn add_start_done_and_the_list_says_so() {
    let mut t = LocalTasks::load(None, 7);
    assert!(t.apply("add", "", "configure the kernel").unwrap().contains("added L1."));
    t.apply("add", "", "build it").unwrap();
    let out = t.apply("start", "l1", "").unwrap();
    assert!(out.starts_with("L1 is doing."), "{out}");
    let out = t.apply("done", "L1", "used defconfig").unwrap();
    assert!(out.contains("L1 [done] configure the kernel — used defconfig"), "{out}");
    assert!(out.contains("Open:\nL2 [todo] build it"), "{out}");
    assert_eq!(t.reminder().unwrap(), "(Your open local tasks — LocalTask to update them:\nL2 [todo] build it)");
}

#[test]
fn mistakes_come_back_with_the_list() {
    let mut t = LocalTasks::load(None, 0);
    t.apply("add", "", "one").unwrap();
    let e = t.apply("done", "t1.2", "").unwrap_err();
    assert!(e.contains("no local task \"T1.2\"") && e.contains("L1 [todo] one"), "{e}");
    assert!(t.apply("add", "", "  ").is_err());
    assert!(t.apply("frobnicate", "", "").is_err());
}

#[test]
fn it_survives_a_restart_but_not_a_new_epoch() {
    let mut t = LocalTasks::load(None, 3);
    t.apply("add", "", "rebuild /tmp/meow-greet").unwrap();

    // Same epoch: a restarted process picks it back up, ids continuing.
    let mut again = LocalTasks::load(saved(&t), 3);
    assert_eq!(again.tasks.len(), 1);
    assert!(again.apply("add", "", "send the output").unwrap().contains("added L2."));

    // Saved under another epoch: not loaded.
    assert!(LocalTasks::load(saved(&again), 4).tasks.is_empty());

    // The checkpoint moving while running empties it, and what is saved with it.
    assert!(again.reset(4));
    assert!(again.tasks.is_empty());
    assert!(LocalTasks::load(saved(&again), 4).tasks.is_empty());
}

#[test]
fn progress_keeps_every_open_one_and_the_newest_finished_in_order() {
    let mut t = LocalTasks::load(None, 0);
    for i in 1..=6 {
        t.apply("add", "", &format!("step {i}")).unwrap();
    }
    for id in ["L1", "L2", "L3", "L5"] {
        t.apply("done", id, "ok").unwrap();
    }
    t.apply("start", "L4", "").unwrap();
    // Room for 4: both open ones (L4, L6), then the two newest finished (L3, L5).
    let (lines, finished, total) = t.progress(4);
    assert_eq!(lines.iter().map(|l| l.id.as_str()).collect::<Vec<_>>(), vec!["L3", "L4", "L5", "L6"]);
    assert_eq!((finished, total), (4, 6));
    assert_eq!(lines[1].status, "doing");
    assert_eq!(lines[0].note, "ok");
}

#[test]
fn finished_ones_are_capped_open_ones_never_trimmed() {
    let mut t = LocalTasks::load(None, 0);
    t.apply("add", "", "keep me").unwrap();
    for i in 0..(MAX_CLOSED + 5) {
        t.apply("add", "", &format!("step {i}")).unwrap();
        t.apply("done", &format!("L{}", i + 2), "").unwrap();
    }
    assert_eq!(t.tasks.iter().filter(|x| !x.is_open()).count(), MAX_CLOSED);
    assert!(t.tasks.iter().any(|x| x.text == "keep me" && x.is_open()));
}

#[test]
fn no_call_opens_one_too_many() {
    let mut t = LocalTasks::load(None, 0);
    t.apply("add", "", "the first").unwrap();
    t.apply("done", "L1", "").unwrap();
    for i in 0..MAX_OPEN {
        t.apply("add", "", &format!("step {i}")).unwrap();
    }
    assert_eq!(t.open().len(), MAX_OPEN);
    let e = t.apply("add", "", "one more").unwrap_err();
    assert!(e.starts_with("50 open already — finish or drop some first."), "{e}");
    let e = t.apply("start", "L1", "").unwrap_err();
    assert!(e.starts_with("50 open already — finish or drop some first.\nOpen:\nL2 [todo] step 0"), "{e}");
    assert!(e.ends_with("Finished:\nL1 [done] the first"), "{e}");
    assert!(t.apply("start", "L2", "").unwrap().starts_with("L2 is doing."), "an open one is no new one");
    t.apply("drop", "L2", "").unwrap();
    assert!(t.apply("start", "l1", "").unwrap().starts_with("L1 is doing."), "there is room again");
    assert_eq!(t.open().len(), MAX_OPEN);
}
