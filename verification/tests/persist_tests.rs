use todo_rs::codec::{decode_tasks, encode_tasks};
use todo_rs::color::Color;
use todo_rs::date::Date;
use todo_rs::persist::{load_tasks, save_file};
use todo_rs::storage::{
    roll_back_file, rollback_moves, rotation_moves, FileError, SlotId, SlotStore,
};
use todo_rs::task::Task;

fn date(y: u16, m: u8, d: u8) -> Date {
    Date::new(y, m, d).unwrap()
}

fn sample_tasks() -> Vec<Task> {
    vec![
        Task {
            name: String::from("plain"),
            creation_date: date(2024, 1, 2),
            due_date: None,
            color: None,
            note: String::new(),
        },
        Task {
            name: String::from("quo\"te back\\slash"),
            creation_date: date(1999, 12, 31),
            due_date: Some(date(2025, 6, 1)),
            color: Some(Color::Purple),
            note: String::from("first line\nsecond line\ttabbed"),
        },
        Task {
            name: String::from("unicode \u{e9}\u{4e16}"),
            creation_date: date(0, 1, 1),
            due_date: Some(date(9999, 12, 31)),
            color: Some(Color::Red),
            note: String::from("clear? not literally"),
        },
    ]
}

#[test]
fn test_encode_exact_document() {
    let tasks = vec![Task {
        name: String::from("a"),
        creation_date: date(2024, 1, 2),
        due_date: None,
        color: None,
        note: String::new(),
    }];
    assert_eq!(
        encode_tasks(&tasks),
        "[{\"name\":\"a\",\"creation_date\":\"2024-01-02\",\"due_date\":null,\"color\":null,\"note\":\"\"}]"
    );
}

#[test]
fn test_encode_optionals_and_escapes() {
    let tasks = vec![Task {
        name: String::from("a\"b\\c\nd"),
        creation_date: date(987, 3, 4),
        due_date: Some(date(2025, 11, 30)),
        color: Some(Color::Yellow),
        note: String::from("x\ty"),
    }];
    assert_eq!(
        encode_tasks(&tasks),
        "[{\"name\":\"a\\\"b\\\\c\\nd\",\"creation_date\":\"0987-03-04\",\"due_date\":\"2025-11-30\",\"color\":\"Yellow\",\"note\":\"x\\ty\"}]"
    );
}

#[test]
fn test_string_escaping_matches_serde_json() {
    // the escaping of quotes, backslashes and common control characters is
    // the same one serde_json writes
    let name = "a\"b\\c\nd\te\rf";
    let tasks = vec![Task {
        name: String::from(name),
        creation_date: date(2024, 1, 2),
        due_date: None,
        color: None,
        note: String::new(),
    }];
    let expected = format!(
        "[{{\"name\":{},\"creation_date\":\"2024-01-02\",\"due_date\":null,\"color\":null,\"note\":\"\"}}]",
        serde_json::to_string(name).unwrap()
    );
    assert_eq!(encode_tasks(&tasks), expected);
}

#[test]
fn test_decode_round_trip() {
    let tasks = sample_tasks();
    let encoded = encode_tasks(&tasks);
    let decoded = decode_tasks(&encoded).unwrap();
    assert_eq!(decoded, tasks);
}

#[test]
fn test_decode_rejects_garbage() {
    assert!(matches!(decode_tasks(""), Err(FileError::Deserialize)));
    assert!(matches!(decode_tasks("not json"), Err(FileError::Deserialize)));
    assert!(matches!(decode_tasks("[{\"name\":\"a\"}]"), Err(FileError::Deserialize)));
    assert!(matches!(
        decode_tasks(
            "[{\"name\":\"a\",\"creation_date\":\"2024-13-02\",\"due_date\":null,\"color\":null,\"note\":\"\"}]"
        ),
        Err(FileError::Deserialize)
    ));
    assert_eq!(decode_tasks("[]").unwrap(), Vec::<Task>::new());
}

#[test]
fn test_save_load_round_trip() {
    let mut store = SlotStore::empty();
    let tasks = sample_tasks();
    save_file(&mut store, &tasks);
    let mut loaded: Vec<Task> = vec![];
    load_tasks(&store, &mut loaded).unwrap();
    assert_eq!(loaded, tasks);
}

#[test]
fn test_load_from_empty_store() {
    let store = SlotStore::empty();
    let mut loaded: Vec<Task> = vec![];
    load_tasks(&store, &mut loaded).unwrap();
    assert!(loaded.is_empty());
}

#[test]
fn test_first_save_needs_no_backups() {
    // saving with no backups present rotates nothing and cannot fail
    let mut store = SlotStore::empty();
    let tasks = vec![Task::new(String::from("only"))];
    save_file(&mut store, &tasks);
    assert!(store.primary.is_some());
    assert!(store.backups.iter().all(|b| b.is_none()));
}

#[test]
fn test_backup_rotation_three_saves_two_undos() {
    let mut store = SlotStore::empty();
    let s1 = vec![Task::new(String::from("one"))];
    let s2 = vec![Task::new(String::from("one")), Task::new(String::from("two"))];
    let s3 = vec![Task::new(String::from("three"))];
    save_file(&mut store, &s1);
    save_file(&mut store, &s2);
    save_file(&mut store, &s3);

    roll_back_file(&mut store).unwrap();
    let mut loaded: Vec<Task> = vec![];
    load_tasks(&store, &mut loaded).unwrap();
    assert_eq!(loaded, s2);

    roll_back_file(&mut store).unwrap();
    let mut loaded: Vec<Task> = vec![];
    load_tasks(&store, &mut loaded).unwrap();
    assert_eq!(loaded, s1);

    assert!(matches!(roll_back_file(&mut store), Err(FileError::BackupMissing)));
    // the failed rollback left the primary contents alone
    let mut loaded: Vec<Task> = vec![];
    load_tasks(&store, &mut loaded).unwrap();
    assert_eq!(loaded, s1);
}

#[test]
fn test_rotation_evicts_oldest() {
    let mut store = SlotStore::empty();
    for i in 0..13 {
        let tasks = vec![Task::new(format!("state {}", i))];
        save_file(&mut store, &tasks);
    }
    // only 11 backup generations survive: 12 rollbacks cannot all succeed
    let mut undone = 0;
    while roll_back_file(&mut store).is_ok() {
        undone += 1;
    }
    assert_eq!(undone, 11);
}

#[test]
fn test_rotation_moves_lists_renames() {
    // primary plus generations 0 and 1 exist
    let mut present = vec![false; 11];
    present[0] = true;
    present[1] = true;
    let moves = rotation_moves(true, &present);
    assert_eq!(
        moves,
        vec![
            (SlotId::Backup(1), SlotId::Backup(2)),
            (SlotId::Backup(0), SlotId::Backup(1)),
            (SlotId::Primary, SlotId::Backup(0)),
        ]
    );
    // nothing on disk at all: nothing to rename
    let moves = rotation_moves(false, &vec![false; 11]);
    assert_eq!(moves, vec![]);
}

#[test]
fn test_rollback_moves_lists_renames() {
    let mut present = vec![false; 11];
    present[0] = true;
    present[1] = true;
    let moves = rollback_moves(&present).unwrap();
    assert_eq!(
        moves,
        vec![
            (SlotId::Backup(0), SlotId::Primary),
            (SlotId::Backup(1), SlotId::Backup(0)),
        ]
    );
    assert!(matches!(
        rollback_moves(&vec![false; 11]),
        Err(FileError::BackupMissing)
    ));
}
