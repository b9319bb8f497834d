use moonshine::steam::{first_seed_action, library_folders_vdf, next_seed_action, seed_plan, SeedAction};

fn libraries(list: &[&str]) -> Vec<String> {
    list.iter().map(|l| l.to_string()).collect()
}

#[test]
fn only_existing_folders_are_registered() {
    let libs = libraries(&["/a", "/gone", "/b"]);
    let plan = seed_plan("/home/alice", &libs, &vec![true, false, true]).unwrap();
    assert_eq!(plan.steam_dir, "/home/alice/.local/share/Steam");
    assert_eq!(plan.registered, 2);
    assert_eq!(
        plan.contents,
        "\"libraryfolders\"\n{\n\
         \t\"0\"\n\t{\n\t\t\"path\"\t\t\"/home/alice/.local/share/Steam\"\n\t}\n\
         \t\"1\"\n\t{\n\t\t\"path\"\t\t\"/a\"\n\t}\n\
         \t\"2\"\n\t{\n\t\t\"path\"\t\t\"/b\"\n\t}\n\
         }\n"
    );
    assert_eq!(plan.targets.len(), 2);
    assert_eq!(plan.targets[0].dir, "/home/alice/.local/share/Steam/steamapps");
    assert_eq!(plan.targets[0].file, "/home/alice/.local/share/Steam/steamapps/libraryfolders.vdf");
    assert_eq!(plan.targets[1].dir, "/home/alice/.local/share/Steam/config");
    assert_eq!(plan.targets[1].file, "/home/alice/.local/share/Steam/config/libraryfolders.vdf");
}

#[test]
fn nothing_is_seeded_without_an_existing_folder() {
    assert!(seed_plan("/home/alice", &libraries(&["/gone"]), &vec![false]).is_none());
    assert!(seed_plan("/home/alice", &libraries(&[]), &vec![]).is_none());
}

#[test]
fn list_without_shared_folders_has_the_own_library() {
    assert_eq!(
        library_folders_vdf("/s", &libraries(&[])),
        "\"libraryfolders\"\n{\n\t\"0\"\n\t{\n\t\t\"path\"\t\t\"/s\"\n\t}\n}\n"
    );
}

#[test]
fn absent_files_are_written_in_turn() {
    let mut action = first_seed_action(2);
    let mut seen = vec![action];
    while action != SeedAction::Done {
        action = next_seed_action(action, 2, true);
        seen.push(action);
    }
    assert_eq!(
        seen,
        vec![
            SeedAction::Probe(0),
            SeedAction::CreateDir(0),
            SeedAction::Write(0),
            SeedAction::Probe(1),
            SeedAction::CreateDir(1),
            SeedAction::Write(1),
            SeedAction::Done,
        ]
    );
}

#[test]
fn existing_file_is_left_alone() {
    assert_eq!(next_seed_action(SeedAction::Probe(0), 2, false), SeedAction::Probe(1));
    assert_eq!(next_seed_action(SeedAction::Probe(1), 2, false), SeedAction::Done);
}

#[test]
fn missing_directory_skips_the_target() {
    assert_eq!(next_seed_action(SeedAction::CreateDir(0), 2, false), SeedAction::Probe(1));
    assert_eq!(next_seed_action(SeedAction::Write(0), 2, false), SeedAction::Probe(1));
    assert_eq!(next_seed_action(SeedAction::Done, 2, true), SeedAction::Done);
    assert_eq!(first_seed_action(0), SeedAction::Done);
}

#[test]
fn three_results_per_target_finish_any_run() {
    for code in 0..2usize.pow(9) {
        let mut action = first_seed_action(3);
        let mut probed = vec![];
        for j in 0..9 {
            if let SeedAction::Probe(i) = action {
                probed.push(i);
            }
            action = next_seed_action(action, 3, code >> j & 1 == 1);
        }
        assert_eq!(action, SeedAction::Done);
        assert_eq!(probed, vec![0, 1, 2]);
    }
}
