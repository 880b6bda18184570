use file_organizer::classify::get_name_map;
use file_organizer::listing::{sort_entries, Entry};
use file_organizer::organizer::{plan_entry, plan_run, EntryAction, RunPlan};
use file_organizer::paths::Separator;

fn entry(name: &str, is_dir: bool) -> Entry {
    Entry { name: name.to_string(), is_dir }
}

fn run(entries: Vec<Entry>, parent: &str) -> RunPlan {
    let map = get_name_map();
    let sorted = sort_entries(entries);
    plan_run(&sorted, &parent.to_string(), &map, Separator::Slash)
}

#[test]
fn mixed_directory_scenario() {
    let plan = run(
        vec![
            entry("report.docx", false),
            entry("photo.JPG", false),
            entry("settings.ini", false),
            entry("archive", true),
        ],
        "/base/",
    );
    assert!(plan.failed.is_none());
    assert_eq!(plan.moves.len(), 2);
    assert_eq!(plan.moves[0].name, "photo.JPG");
    assert_eq!(plan.moves[0].category, "Images");
    assert_eq!(plan.moves[0].dest_dir, "/base/Images/");
    assert_eq!(plan.moves[0].dest_path, "/base/Images/photo.JPG");
    assert_eq!(plan.moves[1].name, "report.docx");
    assert_eq!(plan.moves[1].category, "Texts");
    assert_eq!(plan.moves[1].dest_dir, "/base/Texts/");
    assert_eq!(plan.moves[1].dest_path, "/base/Texts/report.docx");
}

#[test]
fn ini_files_are_never_moved() {
    let plan = run(
        vec![entry("settings.ini", false), entry("boot.INI", false)],
        "/base/",
    );
    assert!(plan.failed.is_none());
    assert!(plan.moves.is_empty());
}

#[test]
fn missing_extension_aborts_before_later_entries() {
    let plan = run(
        vec![entry("a.txt", false), entry("b", false), entry("c.txt", false)],
        "/base/",
    );
    assert_eq!(plan.failed, Some("b".to_string()));
    assert_eq!(plan.moves.len(), 1);
    assert_eq!(plan.moves[0].name, "a.txt");
    assert_eq!(plan.moves[0].dest_path, "/base/Texts/a.txt");
}

#[test]
fn second_pass_finds_nothing_to_move() {
    let first = run(
        vec![entry("report.docx", false), entry("settings.ini", false)],
        "/base/",
    );
    assert!(first.failed.is_none());
    assert_eq!(first.moves.len(), 1);
    // What the directory holds afterwards: the skipped file and the
    // category directory the move created.
    let second = run(
        vec![entry("settings.ini", false), entry("Texts", true)],
        "/base/",
    );
    assert!(second.failed.is_none());
    assert!(second.moves.is_empty());
}

#[test]
fn directories_are_skipped() {
    let map = get_name_map();
    let a = plan_entry(&entry("archive", true), &"/base/".to_string(), &map, Separator::Slash);
    assert!(matches!(a, EntryAction::SkipDir));
}

#[test]
fn ini_entry_is_skipped() {
    let map = get_name_map();
    let a = plan_entry(
        &entry("settings.ini", false),
        &"/base/".to_string(),
        &map,
        Separator::Slash,
    );
    assert!(matches!(a, EntryAction::SkipIni));
}

#[test]
fn entry_without_extension_is_fatal() {
    let map = get_name_map();
    let a = plan_entry(&entry("README", false), &"/base/".to_string(), &map, Separator::Slash);
    assert!(matches!(a, EntryAction::MissingExtension));
}

#[test]
fn unmapped_extension_moves_to_uppercased_name() {
    let plan = run(vec![entry("notes.md", false)], "/base/");
    assert!(plan.failed.is_none());
    assert_eq!(plan.moves.len(), 1);
    assert_eq!(plan.moves[0].category, "MD");
    assert_eq!(plan.moves[0].dest_path, "/base/MD/notes.md");
}

#[test]
fn backslash_targets_build_backslash_paths() {
    let map = get_name_map();
    let a = plan_entry(
        &entry("photo.png", false),
        &r"C:\base\".to_string(),
        &map,
        Separator::Backslash,
    );
    match a {
        EntryAction::MoveTo(m) => {
            assert_eq!(m.dest_dir, r"C:\base\Images\");
            assert_eq!(m.dest_path, r"C:\base\Images\photo.png");
        }
        _ => panic!("expected a move"),
    }
}
