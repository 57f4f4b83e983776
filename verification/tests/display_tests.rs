use todo_rs::color::Color;
use todo_rs::date::Date;
use todo_rs::display::{list_tasks, show_task};
use todo_rs::task::{add_note, ArgError, Task};

fn args(xs: &[&str]) -> Vec<String> {
    xs.iter().map(|x| String::from(*x)).collect()
}

#[test]
fn test_show_task_fields() {
    let mut tasks = vec![Task {
        name: String::from("with note"),
        creation_date: Date::new(2024, 5, 6).unwrap(),
        due_date: Some(Date::new(2025, 1, 2).unwrap()),
        color: Some(Color::Blue),
        note: String::new(),
    }];
    add_note(&mut tasks, &args(&["1", "short", "note"])).unwrap();
    let view = show_task(&tasks, &args(&["1"])).unwrap();
    assert_eq!(view.id, 1);
    assert_eq!(view.name, "with note");
    assert_eq!(view.creation_date, Date::new(2024, 5, 6).unwrap());
    assert_eq!(view.due_date, Some(Date::new(2025, 1, 2).unwrap()));
    assert_eq!(view.color, Some(Color::Blue));
    assert_eq!(view.note_lines, vec![String::from("short note")]);
}

#[test]
fn test_show_task_wraps_long_note() {
    let mut tasks = vec![Task::new(String::from("t"))];
    // each word is 9 characters; 8 of them with spaces take 79 > 75, so the
    // greedy wrap keeps 7 per line (69 characters)
    let word = "abcdefghi";
    let many = vec![word; 10].join(" ");
    add_note(&mut tasks, &args(&["1", &many])).unwrap();
    add_note(&mut tasks, &args(&["1", "second"])).unwrap();
    let view = show_task(&tasks, &args(&["1"])).unwrap();
    assert_eq!(
        view.note_lines,
        vec![
            String::from(vec![word; 7].join(" ")),
            String::from(vec![word; 3].join(" ")),
            String::from("second"),
        ]
    );
}

#[test]
fn test_show_task_errors() {
    let tasks = vec![Task::new(String::from("t"))];
    assert!(matches!(show_task(&tasks, &args(&["2"])), Err(ArgError::TaskNotFound)));
    assert!(matches!(show_task(&tasks, &args(&[])), Err(ArgError::ArgMissing(..))));
    assert!(matches!(
        show_task(&tasks, &args(&["1", "extra"])),
        Err(ArgError::TooManyArgs(..))
    ));
}

#[test]
fn test_list_tasks_rows() {
    let long_name = "x".repeat(80);
    let tasks = vec![
        Task::new(String::from("short")),
        Task {
            name: long_name.clone(),
            creation_date: Date::new(2024, 1, 1).unwrap(),
            due_date: None,
            color: Some(Color::Green),
            note: String::from("has one"),
        },
    ];
    let rows = list_tasks(&tasks, &args(&[])).unwrap();
    assert_eq!(rows.len(), 2);
    assert_eq!(rows[0].id, 1);
    assert_eq!(rows[0].name, "short");
    assert!(!rows[0].has_note);
    assert_eq!(rows[1].id, 2);
    assert_eq!(rows[1].name, format!("{}...", &long_name[..71]));
    assert_eq!(rows[1].color, Some(Color::Green));
    assert!(rows[1].has_note);

    assert!(matches!(
        list_tasks(&tasks, &args(&["extra"])),
        Err(ArgError::TooManyArgs(..))
    ));
}
