use todo_rs::color::Color;
use todo_rs::date::Date;
use todo_rs::task::{
    add_duedate, add_note, create_task, delete_task, rename_task, set_task_color, ArgError, Task,
};
use todo_rs::sort::sort_tasks;

fn args(xs: &[&str]) -> Vec<String> {
    xs.iter().map(|x| String::from(*x)).collect()
}

fn date(y: u16, m: u8, d: u8) -> Date {
    Date::new(y, m, d).unwrap()
}

#[test]
fn test_create_task() {
    let args_correct = args(&["test"]);
    let args_correct2 = args(&["test", "2"]);
    let args_missing = args(&[]);

    let mut tasks: Vec<Task> = vec![];
    assert!(matches!(create_task(&mut tasks, &args_correct), Result::Ok(..)));
    assert_eq!(tasks[0].name, String::from("test"));

    tasks = vec![];
    assert!(matches!(create_task(&mut tasks, &args_correct2), Result::Ok(..)));
    assert_eq!(tasks[0].name, String::from("test 2"));

    assert!(matches!(
        create_task(&mut vec![], &args_missing),
        Result::Err(ArgError::ArgMissing(..))
    ));
}

#[test]
fn test_delete_task() {
    let mut tasks = vec![Task::new(String::from("test"))];

    assert!(matches!(
        delete_task(&mut tasks, &args(&["2"])),
        Result::Err(ArgError::TaskNotFound)
    ));

    assert!(matches!(
        delete_task(&mut tasks, &args(&["foobar"])),
        Result::Err(ArgError::InvalidTaskId(..))
    ));

    assert!(matches!(
        delete_task(&mut tasks, &args(&["1", "more"])),
        Result::Err(ArgError::TooManyArgs(..))
    ));

    assert!(matches!(
        delete_task(&mut tasks, &args(&[])),
        Result::Err(ArgError::ArgMissing(..))
    ));

    assert!(matches!(delete_task(&mut tasks, &args(&["1"])), Result::Ok(..)));
    assert!(tasks.is_empty());
}

#[test]
fn test_rename_task() {
    let mut tasks = vec![Task::new(String::from("test"))];
    let taskname_new = String::from("test renamed");

    assert!(matches!(
        rename_task(&mut tasks, &args(&["2"])),
        Result::Err(ArgError::TaskNotFound)
    ));

    assert!(matches!(
        rename_task(&mut tasks, &args(&["foobar"])),
        Result::Err(ArgError::InvalidTaskId(..))
    ));

    assert!(matches!(
        rename_task(&mut tasks, &args(&[])),
        Result::Err(ArgError::ArgMissing(..))
    ));

    assert!(matches!(
        rename_task(&mut tasks, &args(&["1", "test", "renamed"])),
        Result::Ok(..)
    ));
    assert_eq!(tasks[0].name, taskname_new);
}

#[test]
fn test_add_duedate() {
    let mut tasks = vec![Task::new("test".to_owned())];
    let due_date = "2025-12-12";

    assert!(matches!(
        add_duedate(&mut tasks, &args(&["2", due_date])),
        Result::Err(ArgError::TaskNotFound)
    ));

    assert!(matches!(
        add_duedate(&mut tasks, &args(&["1", "20251212"])),
        Result::Err(ArgError::IncorrectDateFormat)
    ));

    assert!(matches!(
        add_duedate(&mut tasks, &args(&["foobar", due_date])),
        Result::Err(ArgError::InvalidTaskId(..))
    ));

    assert!(matches!(
        add_duedate(&mut tasks, &args(&["1", due_date, "more"])),
        Result::Err(ArgError::TooManyArgs(..))
    ));

    assert!(matches!(
        add_duedate(&mut tasks, &args(&[])),
        Result::Err(ArgError::ArgMissing(..))
    ));

    assert!(matches!(
        add_duedate(&mut tasks, &args(&["1"])),
        Result::Err(ArgError::ArgMissing(..))
    ));

    assert!(matches!(add_duedate(&mut tasks, &args(&["1", due_date])), Result::Ok(..)));
    assert_eq!(tasks[0].due_date.unwrap(), date(2025, 12, 12));
}

#[test]
fn test_set_task_color() {
    let mut tasks = vec![Task::new(String::from("test"))];

    assert_eq!(tasks[0].color, None);

    // Test all failures
    assert!(matches!(
        set_task_color(&mut tasks, &args(&["2", "red"])),
        Result::Err(ArgError::TaskNotFound)
    ));

    assert!(matches!(
        set_task_color(&mut tasks, &args(&["1", "orange"])),
        Result::Err(ArgError::InvalidColor(..))
    ));

    assert!(matches!(
        set_task_color(&mut tasks, &args(&["foobar", "red"])),
        Result::Err(ArgError::InvalidTaskId(..))
    ));

    assert!(matches!(
        set_task_color(&mut tasks, &args(&["1", "red", "more"])),
        Result::Err(ArgError::TooManyArgs(..))
    ));

    assert!(matches!(
        set_task_color(&mut tasks, &args(&[])),
        Result::Err(ArgError::ArgMissing(..))
    ));

    assert!(matches!(
        set_task_color(&mut tasks, &args(&["1"])),
        Result::Err(ArgError::ArgMissing(..))
    ));

    // Test correct behavior
    assert!(matches!(set_task_color(&mut tasks, &args(&["1", "red"])), Result::Ok(..)));
    assert_eq!(tasks[0].color, Some(Color::Red));

    assert!(matches!(set_task_color(&mut tasks, &args(&["1", "yellow"])), Result::Ok(..)));
    assert_eq!(tasks[0].color, Some(Color::Yellow));

    assert!(matches!(set_task_color(&mut tasks, &args(&["1", "green"])), Result::Ok(..)));
    assert_eq!(tasks[0].color, Some(Color::Green));

    assert!(matches!(set_task_color(&mut tasks, &args(&["1", "blue"])), Result::Ok(..)));
    assert_eq!(tasks[0].color, Some(Color::Blue));

    assert!(matches!(set_task_color(&mut tasks, &args(&["1", "purple"])), Result::Ok(..)));
    assert_eq!(tasks[0].color, Some(Color::Purple));

    assert!(matches!(set_task_color(&mut tasks, &args(&["1", "clear"])), Result::Ok(..)));
    assert_eq!(tasks[0].color, None);
}

#[test]
fn test_add_note() {
    let mut tasks = vec![Task::new(String::from("test"))];

    assert!(matches!(
        add_note(&mut tasks, &args(&["2", "red"])),
        Result::Err(ArgError::TaskNotFound)
    ));

    assert!(matches!(add_note(&mut tasks, &args(&["1", "Line1"])), Result::Ok(..)));
    assert_eq!(tasks[0].note, String::from("Line1"));

    assert!(matches!(add_note(&mut tasks, &args(&["1", "Line2"])), Result::Ok(..)));
    assert_eq!(tasks[0].note, String::from("Line1\nLine2"));

    assert!(matches!(add_note(&mut tasks, &args(&["1", "clear"])), Result::Ok(..)));
    assert_eq!(tasks[0].note, String::from(""));
}

fn fixture_task(name: &str, cre: (u16, u8, u8), due: Option<(u16, u8, u8)>, color: Option<Color>) -> Task {
    Task {
        name: String::from(name),
        creation_date: date(cre.0, cre.1, cre.2),
        due_date: due.map(|d| date(d.0, d.1, d.2)),
        color,
        note: String::new(),
    }
}

#[test]
fn test_sort_tasks() {
    let mut tasks = vec![
        fixture_task("Task green 1", (2024, 6, 1), Some((2025, 8, 9)), Some(Color::Green)),
        fixture_task("Task purple 1", (2024, 1, 7), None, Some(Color::Purple)),
        fixture_task("Task green 2", (2024, 5, 6), Some((2025, 6, 1)), Some(Color::Green)),
        fixture_task("Task blue 1", (2024, 2, 7), Some((2025, 6, 1)), Some(Color::Blue)),
        fixture_task("Task black 1", (2024, 5, 6), None, None),
        fixture_task("Task green 3", (2024, 8, 3), Some((2024, 9, 8)), Some(Color::Green)),
        fixture_task("Task red 1", (2024, 2, 4), None, Some(Color::Red)),
        fixture_task("Task black 2", (2024, 1, 4), Some((2025, 6, 1)), None),
        fixture_task("Task green 4", (2024, 5, 7), None, Some(Color::Green)),
        fixture_task("Task green 5", (2024, 3, 5), Some((2025, 1, 7)), Some(Color::Green)),
        fixture_task("Task red 2", (2024, 1, 1), Some((2025, 3, 9)), Some(Color::Red)),
    ];

    assert!(matches!(
        sort_tasks(&mut tasks, &args(&["foo"])),
        Result::Err(ArgError::TooManyArgs(..))
    ));

    let order_expected = vec![
        String::from("Task red 2"),
        String::from("Task red 1"),
        String::from("Task green 3"),
        String::from("Task green 5"),
        String::from("Task green 2"),
        String::from("Task green 1"),
        String::from("Task green 4"),
        String::from("Task blue 1"),
        String::from("Task purple 1"),
        String::from("Task black 2"),
        String::from("Task black 1"),
    ];

    assert!(matches!(sort_tasks(&mut tasks, &args(&[])), Result::Ok(..)));
    for (task, name) in std::iter::zip(&tasks, &order_expected) {
        assert_eq!(&task.name, name);
    }

    // sorting an already-sorted collection keeps the order
    let before = tasks.clone();
    assert!(matches!(sort_tasks(&mut tasks, &args(&[])), Result::Ok(..)));
    assert_eq!(tasks, before);
}

#[test]
fn test_task_id_zero_and_overflow() {
    let mut tasks = vec![Task::new(String::from("test"))];
    // id 0 parses but names no task
    assert!(matches!(
        rename_task(&mut tasks, &args(&["0", "x"])),
        Result::Err(ArgError::TaskNotFound)
    ));
    // an id too large for the machine does not parse
    assert!(matches!(
        rename_task(&mut tasks, &args(&["99999999999999999999999", "x"])),
        Result::Err(ArgError::InvalidTaskId(..))
    ));
    // a huge but parseable id is merely out of range
    assert!(matches!(
        rename_task(&mut tasks, &args(&["4294967295", "x"])),
        Result::Err(ArgError::TaskNotFound)
    ));
}

#[test]
fn test_create_sets_defaults() {
    let mut tasks: Vec<Task> = vec![];
    let id = create_task(&mut tasks, &args(&["a", "fresh", "task"])).unwrap();
    assert_eq!(id, 1);
    assert_eq!(tasks.len(), 1);
    let t = &tasks[0];
    assert_eq!(t.name, "a fresh task");
    assert_eq!(t.due_date, None);
    assert_eq!(t.color, None);
    assert_eq!(t.note, "");
    // the creation date came from the clock, but is always a calendar date
    assert!(t.creation_date.year <= 9999);
    assert!((1..=12).contains(&t.creation_date.month));
    assert!((1..=31).contains(&t.creation_date.day));
}

#[test]
fn test_delete_shifts_ids() {
    let mut tasks = vec![
        Task::new(String::from("a")),
        Task::new(String::from("b")),
        Task::new(String::from("c")),
    ];
    let removed = delete_task(&mut tasks, &args(&["2"])).unwrap();
    assert_eq!(removed, "b");
    assert_eq!(tasks.len(), 2);
    assert_eq!(tasks[0].name, "a");
    assert_eq!(tasks[1].name, "c");
}
