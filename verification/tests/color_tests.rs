use todo_rs::color::{add_color, Colorize};

#[test]
fn test_colors() {
    let s = String::from("test");

    assert_eq!(s.red_fg(), String::from("\x1b[31mtest\x1b[0m"));
    assert_eq!(s.yellow_fg(), String::from("\x1b[33mtest\x1b[0m"));
    assert_eq!(s.green_fg(), String::from("\x1b[32mtest\x1b[0m"));
    assert_eq!(s.blue_fg(), String::from("\x1b[34mtest\x1b[0m"));
    assert_eq!(s.purple_fg(), String::from("\x1b[35mtest\x1b[0m"));
    assert_eq!(s.red_bg(), String::from("\x1b[41mtest\x1b[0m"));
    assert_eq!(s.yellow_bg(), String::from("\x1b[43mtest\x1b[0m"));
    assert_eq!(s.green_bg(), String::from("\x1b[42mtest\x1b[0m"));
    assert_eq!(s.blue_bg(), String::from("\x1b[44mtest\x1b[0m"));
    assert_eq!(s.purple_bg(), String::from("\x1b[45mtest\x1b[0m"));
}

#[test]
fn test_add_color_wraps() {
    assert_eq!(
        add_color(String::from("\x1b[31m"), "abc"),
        String::from("\x1b[31mabc\x1b[0m")
    );
}
