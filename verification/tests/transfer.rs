use rip::transfer::{
    plan_tree, Action, Event, FileKind, Outcome, Question, Transfer, TransferError, TreeEntry,
    BIG_FILE_THRESHOLD,
};

fn entry(path: &str, kind: FileKind, size: u64) -> TreeEntry {
    TreeEntry { path: path.to_string(), kind, size, mode: 0o644 }
}

fn five_files() -> Vec<TreeEntry> {
    vec![
        TreeEntry { path: "/src/tree".to_string(), kind: FileKind::Directory, size: 4096, mode: 0o755 },
        entry("/src/tree/one", FileKind::File, 1),
        entry("/src/tree/two", FileKind::File, 2),
        entry("/src/tree/three", FileKind::File, 3),
        entry("/src/tree/four", FileKind::File, 4),
        entry("/src/tree/five", FileKind::File, 5),
    ]
}

#[test]
fn a_rename_that_works_ends_the_transfer() {
    let (mut t, first) = Transfer::begin("/src/a", "/g/src/a", BIG_FILE_THRESHOLD);
    assert_eq!(first, Action::Rename { from: "/src/a".to_string(), to: "/g/src/a".to_string() });
    assert_eq!(t.outcome(), None);
    assert_eq!(t.step(Event::Done), Action::Finish { outcome: Outcome::Moved });
    assert_eq!(t.outcome(), Some(Outcome::Moved));
    assert_eq!(t.step(Event::Failed), Action::Finish { outcome: Outcome::Moved });
}

#[test]
fn a_single_file_is_copied_then_removed() {
    let (mut t, _) = Transfer::begin("/src/a", "/g/src/a", BIG_FILE_THRESHOLD);
    assert_eq!(t.step(Event::Failed), Action::CreateParents { of: "/g/src/a".to_string() });
    assert_eq!(t.step(Event::Done), Action::Survey { root: "/src/a".to_string() });
    assert_eq!(
        t.step(Event::Listed(vec![entry("/src/a", FileKind::File, 10)])),
        Action::CopyFile { from: "/src/a".to_string(), to: "/g/src/a".to_string() }
    );
    assert_eq!(t.step(Event::Done), Action::RemoveSource { path: "/src/a".to_string(), tree: false });
    assert_eq!(t.step(Event::Done), Action::Finish { outcome: Outcome::Moved });
}

#[test]
fn a_failure_at_the_third_of_five_files_rolls_back() {
    let (mut t, _) = Transfer::begin("/src/tree", "/g/src/tree", BIG_FILE_THRESHOLD);
    t.step(Event::Failed);
    t.step(Event::Done);
    let mut asked = vec![t.step(Event::Listed(five_files()))];
    asked.push(t.step(Event::Done));
    asked.push(t.step(Event::Done));
    asked.push(t.step(Event::Done));
    assert_eq!(
        asked,
        vec![
            Action::CreateDir { path: "/g/src/tree".to_string(), mode: 0o755 },
            Action::CopyFile { from: "/src/tree/one".to_string(), to: "/g/src/tree/one".to_string() },
            Action::CopyFile { from: "/src/tree/two".to_string(), to: "/g/src/tree/two".to_string() },
            Action::CopyFile {
                from: "/src/tree/three".to_string(),
                to: "/g/src/tree/three".to_string()
            },
        ]
    );
    assert_eq!(t.step(Event::Failed), Action::RollBack { path: "/g/src/tree".to_string() });
    assert_eq!(
        t.step(Event::Done),
        Action::Finish { outcome: Outcome::Failed(TransferError::PartialTransfer) }
    );
    assert_eq!(t.outcome(), Some(Outcome::Failed(TransferError::PartialTransfer)));
}

#[test]
fn a_rollback_that_fails_is_unsafe() {
    let (mut t, _) = Transfer::begin("/src/tree", "/g/src/tree", BIG_FILE_THRESHOLD);
    t.step(Event::Failed);
    t.step(Event::Done);
    t.step(Event::Listed(five_files()));
    assert_eq!(t.step(Event::Failed), Action::RollBack { path: "/g/src/tree".to_string() });
    assert_eq!(
        t.step(Event::Failed),
        Action::Finish { outcome: Outcome::Unsafe(TransferError::PartialTransfer) }
    );
}

#[test]
fn plan_tree_mirrors_the_tree() {
    let plan = plan_tree(&five_files(), "/src/tree", "/g/src/tree").unwrap();
    assert_eq!(plan.len(), 6);
    assert_eq!(plan[0].to, "/g/src/tree");
    assert_eq!(plan[3].from, "/src/tree/three");
    assert_eq!(plan[3].to, "/g/src/tree/three");
    assert_eq!(plan[3].kind, FileKind::File);
    assert_eq!(plan[3].size, 3);
    assert!(plan_tree(&five_files(), "/src/other", "/g").is_none());
}

#[test]
fn a_large_file_is_asked_about() {
    let (mut t, _) = Transfer::begin("/src/big", "/g/src/big", 100);
    t.step(Event::Failed);
    t.step(Event::Done);
    assert_eq!(
        t.step(Event::Listed(vec![entry("/src/big", FileKind::File, 101)])),
        Action::Confirm { question: Question::DiscardLarge, path: "/src/big".to_string(), size: 101 }
    );
    assert_eq!(
        t.step(Event::Answer(false)),
        Action::CopyFile { from: "/src/big".to_string(), to: "/g/src/big".to_string() }
    );
}

fn begun(source: &str, dest: &str, entries: Vec<TreeEntry>) -> (Transfer, Action) {
    let (mut t, _) = Transfer::begin(source, dest, BIG_FILE_THRESHOLD);
    t.step(Event::Failed);
    t.step(Event::Done);
    let first = t.step(Event::Listed(entries));
    (t, first)
}

#[test]
fn every_kind_is_put_at_its_place_in_its_own_way() {
    let entries = vec![
        TreeEntry { path: "/s".to_string(), kind: FileKind::Directory, size: 0, mode: 0o700 },
        TreeEntry { path: "/s/link".to_string(), kind: FileKind::Symlink, size: 4, mode: 0o777 },
        TreeEntry { path: "/s/pipe".to_string(), kind: FileKind::Fifo, size: 0, mode: 0o600 },
        TreeEntry { path: "/s/sub".to_string(), kind: FileKind::Directory, size: 0, mode: 0o750 },
        TreeEntry { path: "/s/sub/file".to_string(), kind: FileKind::File, size: 9, mode: 0o644 },
        TreeEntry { path: "/s/sock".to_string(), kind: FileKind::Special, size: 0, mode: 0o600 },
    ];
    let (mut t, first) = begun("/s", "/g/s~1", entries);
    let mut asked = vec![first];
    for _ in 0..6 {
        asked.push(t.step(Event::Done));
    }
    assert_eq!(
        asked,
        vec![
            Action::CreateDir { path: "/g/s~1".to_string(), mode: 0o700 },
            Action::Link { from: "/s/link".to_string(), to: "/g/s~1/link".to_string() },
            Action::MakeFifo { path: "/g/s~1/pipe".to_string(), mode: 0o600 },
            Action::CreateDir { path: "/g/s~1/sub".to_string(), mode: 0o750 },
            Action::CopyFile { from: "/s/sub/file".to_string(), to: "/g/s~1/sub/file".to_string() },
            Action::CopyFile { from: "/s/sock".to_string(), to: "/g/s~1/sock".to_string() },
            Action::RemoveSource { path: "/s".to_string(), tree: true },
        ]
    );
    assert_eq!(t.step(Event::Done), Action::Finish { outcome: Outcome::Moved });
}

#[test]
fn a_large_file_that_is_given_up_is_not_copied() {
    let (mut t, _) = Transfer::begin("/s", "/g/s", 100);
    t.step(Event::Failed);
    t.step(Event::Done);
    let entries = vec![
        TreeEntry { path: "/s".to_string(), kind: FileKind::Directory, size: 4096, mode: 0o755 },
        entry("/s/big", FileKind::File, 101),
        entry("/s/small", FileKind::File, 100),
    ];
    assert_eq!(
        t.step(Event::Listed(entries)),
        Action::CreateDir { path: "/g/s".to_string(), mode: 0o755 }
    );
    assert_eq!(
        t.step(Event::Done),
        Action::Confirm { question: Question::DiscardLarge, path: "/s/big".to_string(), size: 101 }
    );
    assert_eq!(
        t.step(Event::Answer(true)),
        Action::CopyFile { from: "/s/small".to_string(), to: "/g/s/small".to_string() }
    );
    assert_eq!(t.step(Event::Done), Action::RemoveSource { path: "/s".to_string(), tree: true });
}

#[test]
fn only_regular_files_are_asked_about_for_their_size() {
    let (mut t, _) = Transfer::begin("/s", "/g/s", 0);
    t.step(Event::Failed);
    t.step(Event::Done);
    let entries = vec![
        TreeEntry { path: "/s".to_string(), kind: FileKind::Directory, size: 4096, mode: 0o755 },
        entry("/s/link", FileKind::Symlink, 12),
    ];
    assert_eq!(
        t.step(Event::Listed(entries)),
        Action::CreateDir { path: "/g/s".to_string(), mode: 0o755 }
    );
    assert_eq!(
        t.step(Event::Done),
        Action::Link { from: "/s/link".to_string(), to: "/g/s/link".to_string() }
    );
}

#[test]
fn a_special_file_that_cannot_be_copied_is_marked_or_fails() {
    let (mut t, first) = begun("/dev/thing", "/g/dev/thing", vec![entry("/dev/thing", FileKind::Special, 0)]);
    assert_eq!(
        first,
        Action::CopyFile { from: "/dev/thing".to_string(), to: "/g/dev/thing".to_string() }
    );
    let ask = Action::Confirm {
        question: Question::DiscardSpecial,
        path: "/dev/thing".to_string(),
        size: 0,
    };
    assert_eq!(t.step(Event::Failed), ask);
    assert_eq!(t.step(Event::Answer(true)), Action::WriteMarker { path: "/g/dev/thing".to_string() });
    assert_eq!(
        t.step(Event::Done),
        Action::RemoveSource { path: "/dev/thing".to_string(), tree: false }
    );
    assert_eq!(t.step(Event::Done), Action::Finish { outcome: Outcome::Moved });

    let (mut t, _) = begun("/dev/thing", "/g/dev/thing", vec![entry("/dev/thing", FileKind::Special, 0)]);
    assert_eq!(t.step(Event::Failed), ask);
    assert_eq!(t.step(Event::Answer(false)), Action::RollBack { path: "/g/dev/thing".to_string() });
    assert_eq!(
        t.step(Event::Done),
        Action::Finish { outcome: Outcome::Failed(TransferError::NonTransferableType) }
    );
}

#[test]
fn a_source_that_cannot_be_looked_at_is_not_found() {
    let (mut t, _) = Transfer::begin("/s", "/g/s", BIG_FILE_THRESHOLD);
    t.step(Event::Failed);
    assert_eq!(t.step(Event::Done), Action::Survey { root: "/s".to_string() });
    assert_eq!(t.step(Event::Failed), Action::RollBack { path: "/g/s".to_string() });
    assert_eq!(t.step(Event::Done), Action::Finish { outcome: Outcome::Failed(TransferError::NotFound) });

    let (mut t, first) = begun("/s", "/g/s", Vec::new());
    assert_eq!(first, Action::RollBack { path: "/g/s".to_string() });
    assert_eq!(t.step(Event::Done), Action::Finish { outcome: Outcome::Failed(TransferError::NotFound) });
}

#[test]
fn a_survey_that_strays_from_the_source_fails_the_transfer() {
    let (mut t, first) = begun("/s", "/g/s", vec![entry("/elsewhere", FileKind::File, 1)]);
    assert_eq!(first, Action::RollBack { path: "/g/s".to_string() });
    assert_eq!(
        t.step(Event::Done),
        Action::Finish { outcome: Outcome::Failed(TransferError::PartialTransfer) }
    );
}

#[test]
fn parents_that_cannot_be_made_fail_the_transfer() {
    let (mut t, _) = Transfer::begin("/s", "/g/s", BIG_FILE_THRESHOLD);
    assert_eq!(t.step(Event::Failed), Action::CreateParents { of: "/g/s".to_string() });
    assert_eq!(t.step(Event::Failed), Action::RollBack { path: "/g/s".to_string() });
    assert_eq!(
        t.step(Event::Done),
        Action::Finish { outcome: Outcome::Failed(TransferError::PartialTransfer) }
    );
}

#[test]
fn a_source_that_cannot_be_removed_fails_the_transfer() {
    let (mut t, _) = begun("/s", "/g/s", vec![entry("/s", FileKind::File, 1)]);
    assert_eq!(t.step(Event::Done), Action::RemoveSource { path: "/s".to_string(), tree: false });
    assert_eq!(t.step(Event::Failed), Action::RollBack { path: "/g/s".to_string() });
}

#[test]
fn an_event_that_is_no_answer_changes_nothing() {
    let (mut t, first) = Transfer::begin("/s", "/g/s", BIG_FILE_THRESHOLD);
    assert_eq!(t.step(Event::Answer(true)), first);
    assert_eq!(t.step(Event::Listed(Vec::new())), first);
    t.step(Event::Failed);
    let survey = t.step(Event::Done);
    assert_eq!(t.step(Event::Done), survey);
    assert_eq!(t.step(Event::Answer(false)), survey);
    let copy = t.step(Event::Listed(vec![entry("/s", FileKind::File, 1)]));
    assert_eq!(t.step(Event::Answer(true)), copy);
    assert_eq!(t.step(Event::Listed(Vec::new())), copy);
    assert_eq!(t.outcome(), None);
}

#[test]
fn after_a_failure_the_source_is_never_removed() {
    let (mut t, _) = begun("/src/tree", "/g/src/tree", five_files());
    t.step(Event::Done);
    t.step(Event::Done);
    t.step(Event::Failed);
    for event in [Event::Answer(true), Event::Listed(five_files()), Event::Done, Event::Done, Event::Failed] {
        let action = t.step(event);
        assert!(matches!(action, Action::RollBack { .. } | Action::Finish { .. }));
        assert_ne!(action, Action::Finish { outcome: Outcome::Moved });
    }
}
