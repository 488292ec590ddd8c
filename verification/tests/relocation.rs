use ai_file_organizer::models::file_info::{FileInfo, Timestamp};
use ai_file_organizer::organizer::renamer::{
    commit_move, destination_dir, path_taken, resolve_collision, RelocateError, Renamer,
    MAX_COLLISION_ATTEMPTS,
};
use ai_file_organizer::organizer::undo::{undo_step, UndoAction, UndoHistory};

fn may_2023() -> Timestamp {
    // 2023-05-15 00:00:00 UTC
    Timestamp { secs: 1_684_108_800, offset: 0 }
}

#[test]
fn destination_without_timestamp() {
    let r = Renamer::new("/root".to_string(), false);
    let f = FileInfo::new("/root/inbox/report.txt".to_string());
    assert_eq!(r.get_dest_path(&f, "Work"), "/root/Work/report.txt");
    assert_eq!(r.dest_dir_for(&f, "Work"), "/root/Work");
}

#[test]
fn destination_with_year_and_month() {
    let r = Renamer::new("root".to_string(), false);
    let mut f = FileInfo::new("root/x.jpg".to_string());
    f.metadata.modified = Some(may_2023());
    assert_eq!(r.get_dest_path(&f, "Media"), "root/Media/2023/05/x.jpg");
}

#[test]
fn year_and_month_follow_the_local_offset() {
    // 2023-12-31 23:30:00 UTC is already January 2024 one hour east.
    let mut f = FileInfo::new("root/x.jpg".to_string());
    f.metadata.modified = Some(Timestamp { secs: 1_704_065_400, offset: 3600 });
    let r = Renamer::new("root".to_string(), true);
    assert_eq!(r.get_dest_path(&f, "Media"), "root/Media/2024/01/x.jpg");
    f.metadata.modified = Some(Timestamp { secs: 1_704_065_400, offset: 0 });
    assert_eq!(r.get_dest_path(&f, "Media"), "root/Media/2023/12/x.jpg");
    assert_eq!(
        Timestamp { secs: 0, offset: 0 }.segments(),
        Some(("1970".to_string(), "01".to_string()))
    );
}

#[test]
fn timestamp_out_of_range_gives_no_segments() {
    assert_eq!(Timestamp { secs: i64::MAX, offset: 0 }.segments(), None);
    assert_eq!(Timestamp { secs: 0, offset: 86_400 }.segments(), None);
    let mut f = FileInfo::new("root/x.jpg".to_string());
    f.metadata.modified = Some(Timestamp { secs: i64::MAX, offset: 0 });
    let r = Renamer::new("root".to_string(), true);
    assert_eq!(r.get_dest_path(&f, "Media"), "root/Media/x.jpg");
}

#[test]
fn destination_dir_from_segments() {
    assert_eq!(destination_dir("r", "Work", &None), "r/Work");
    let seg = Some(("2020".to_string(), "02".to_string()));
    assert_eq!(destination_dir("r", "Work", &seg), "r/Work/2020/02");
}

#[test]
fn two_files_same_destination() {
    let r = Renamer::new("".to_string(), false);
    let a = FileInfo::new("in1/report.txt".to_string());
    let b = FileInfo::new("in2/report.txt".to_string());
    let mut taken: Vec<String> = vec![];
    let first = r.apply(&a, "Work", &taken).unwrap();
    assert!(first.perform);
    assert_eq!(first.destination, "/Work/report.txt");
    taken.push(first.destination.clone());
    let second = r.apply(&b, "Work", &taken).unwrap();
    assert!(second.perform);
    assert_eq!(second.destination, "/Work/report_1.txt");
}

#[test]
fn work_report_collision() {
    let mut taken: Vec<String> = vec![];
    let first = resolve_collision("Work", "report.txt", &taken).unwrap();
    assert_eq!(first, "Work/report.txt");
    taken.push(first);
    let second = resolve_collision("Work", "report.txt", &taken).unwrap();
    assert_eq!(second, "Work/report_1.txt");
    taken.push(second);
    let third = resolve_collision("Work", "report.txt", &taken).unwrap();
    assert_eq!(third, "Work/report_2.txt");
}

#[test]
fn successive_relocations_are_distinct_and_free() {
    let existing = vec!["d/a.txt".to_string(), "d/a_2.txt".to_string()];
    let mut taken = existing.clone();
    let mut finals: Vec<String> = vec![];
    for _ in 0..12 {
        let p = resolve_collision("d", "a.txt", &taken).unwrap();
        assert!(!existing.contains(&p));
        assert!(!finals.contains(&p));
        taken.push(p.clone());
        finals.push(p);
    }
    assert_eq!(finals[0], "d/a_1.txt");
    assert_eq!(finals[1], "d/a_3.txt");
    assert_eq!(finals[11], "d/a_13.txt");
}

#[test]
fn collision_names_without_extension_and_dotfiles() {
    let taken = vec!["d/README".to_string(), "d/.env".to_string(), "d/a.tar.gz".to_string()];
    assert_eq!(resolve_collision("d", "README", &taken).unwrap(), "d/README_1");
    assert_eq!(resolve_collision("d", ".env", &taken).unwrap(), "d/.env_1");
    assert_eq!(resolve_collision("d", "a.tar.gz", &taken).unwrap(), "d/a.tar_1.gz");
    assert_eq!(resolve_collision("d", "a.", &vec!["d/a.".to_string()]).unwrap(), "d/a_1.");
}

#[test]
fn existing_file_without_extension_gets_plain_counter() {
    let r = Renamer::new("root".to_string(), false);
    let f = FileInfo::new("root/in/README".to_string());
    assert_eq!(f.name, "README");
    let taken = vec!["root/Docs/README".to_string()];
    let plan = r.apply(&f, "Docs", &taken).unwrap();
    assert!(plan.perform);
    assert_eq!(plan.destination, "root/Docs/README_1");
}

#[test]
fn collision_counter_runs_out() {
    let mut taken: Vec<String> = vec!["d/f.txt".to_string()];
    for k in 1..=MAX_COLLISION_ATTEMPTS {
        taken.push(format!("d/f_{}.txt", k));
    }
    assert_eq!(resolve_collision("d", "f.txt", &taken), Err(RelocateError::CollisionsExhausted));
    let last = taken.pop().unwrap();
    assert_eq!(last, "d/f_10000.txt");
    assert_eq!(resolve_collision("d", "f.txt", &taken), Ok("d/f_10000.txt".to_string()));
    let r = Renamer::new("".to_string(), false);
    let f = FileInfo::new("f.txt".to_string());
    let full: Vec<String> =
        taken.iter().map(|p| format!("/{}", p)).chain(["/d/f_10000.txt".to_string()]).collect();
    assert_eq!(r.apply(&f, "d", &full).err(), Some(RelocateError::CollisionsExhausted));
    assert_eq!(RelocateError::CollisionsExhausted.message(), "no free destination name left");
}

#[test]
fn path_taken_is_exact() {
    let taken = vec!["a/b".to_string(), "a/c".to_string()];
    assert!(path_taken(&taken, "a/c"));
    assert!(!path_taken(&taken, "a/"));
    assert!(!path_taken(&vec![], "a/c"));
}

#[test]
fn dry_run_plans_no_move_and_no_journal() {
    let r = Renamer::new("root".to_string(), true);
    let mut f = FileInfo::new("root/x.txt".to_string());
    let taken = vec!["root/Work/x.txt".to_string()];
    let plan = r.apply(&f, "Work", &taken).unwrap();
    assert!(!plan.perform);
    assert_eq!(plan.destination, "root/Work/x.txt");
    let mut history = UndoHistory::new();
    commit_move(&mut history, &mut f, &plan, true);
    assert!(history.is_empty());
    assert_eq!(f.path, "root/x.txt");
}

#[test]
fn failed_move_is_not_journalled() {
    let r = Renamer::new("root".to_string(), false);
    let mut f = FileInfo::new("root/x.txt".to_string());
    let plan = r.apply(&f, "Work", &vec![]).unwrap();
    assert!(plan.perform);
    let mut history = UndoHistory::new();
    commit_move(&mut history, &mut f, &plan, false);
    assert!(history.is_empty());
    assert_eq!(f.path, "root/x.txt");
}

#[test]
fn organize_then_undo_restores() {
    let r = Renamer::new("root".to_string(), false);
    let mut f = FileInfo::new("root/x.jpg".to_string());
    f.metadata.modified = Some(may_2023());
    let plan = r.apply(&f, "Media", &vec![]).unwrap();
    assert_eq!(plan.destination, "root/Media/2023/05/x.jpg");
    let mut history = UndoHistory::new();
    commit_move(&mut history, &mut f, &plan, true);
    assert_eq!(f.path, "root/Media/2023/05/x.jpg");
    assert_eq!(f.name, "x.jpg");
    assert_eq!(history.entries.len(), 1);
    assert_eq!(history.entries[0].original_path, "root/x.jpg");
    assert_eq!(history.entries[0].current_path, "root/Media/2023/05/x.jpg");

    let entry = history.take_latest().unwrap();
    match undo_step(&entry, true) {
        UndoAction::Restore { from, to, parent } => {
            assert_eq!(from, "root/Media/2023/05/x.jpg");
            assert_eq!(to, "root/x.jpg");
            assert_eq!(parent, Some("root".to_string()));
        }
        UndoAction::Skip => panic!("the file is there"),
    }
    assert!(history.take_latest().is_none());
    assert!(history.is_empty());
}
