use moto::menu::{matching_names, menu_step, MenuAction, MenuKey, MenuState};
use moto::run::{body_lines, shell_for, task_lines, OutputFilter};

fn names(v: &[&str]) -> Vec<String> {
    v.iter().map(|s| s.to_string()).collect()
}

#[test]
fn menu_moves_filters_and_picks() {
    let entries = names(&["build", "deploy", "bump"]);
    let configs = names(&["settings", "repositories"]);
    let mut st = MenuState::new(entries.len());
    assert_eq!(st.visible, vec![0, 1, 2]);
    assert_eq!(menu_step(&mut st, MenuKey::Up, &entries, &configs), MenuAction::Stay);
    assert_eq!(menu_step(&mut st, MenuKey::Down, &entries, &configs), MenuAction::Redraw);
    assert_eq!(st.selected, 1);
    assert_eq!(menu_step(&mut st, MenuKey::Enter, &entries, &configs), MenuAction::Pick(1));
    assert_eq!(menu_step(&mut st, MenuKey::Char('B'), &entries, &configs), MenuAction::Redraw);
    assert_eq!(st.visible, vec![0, 2]);
    assert_eq!(st.selected, 0);
    menu_step(&mut st, MenuKey::Char('u'), &entries, &configs);
    menu_step(&mut st, MenuKey::Char('m'), &entries, &configs);
    assert_eq!(st.visible, vec![2]);
    assert_eq!(menu_step(&mut st, MenuKey::Down, &entries, &configs), MenuAction::Stay);
    assert_eq!(menu_step(&mut st, MenuKey::Enter, &entries, &configs), MenuAction::Pick(2));
    menu_step(&mut st, MenuKey::Backspace, &entries, &configs);
    assert_eq!(st.visible, vec![0, 2]);
    assert_eq!(menu_step(&mut st, MenuKey::Escape, &entries, &configs), MenuAction::Exit);
    assert_eq!(menu_step(&mut st, MenuKey::Interrupt, &entries, &configs), MenuAction::Cancel);
    assert_eq!(menu_step(&mut st, MenuKey::Other, &entries, &configs), MenuAction::Stay);
}

#[test]
fn menu_configuration_mode() {
    let entries = names(&["build"]);
    let configs = names(&["settings", "repositories"]);
    let mut st = MenuState::new(entries.len());
    menu_step(&mut st, MenuKey::Char(':'), &entries, &configs);
    assert!(st.config_mode);
    assert_eq!(st.visible, vec![0, 1]);
    menu_step(&mut st, MenuKey::Char('r'), &entries, &configs);
    assert_eq!(st.visible, vec![1]);
    menu_step(&mut st, MenuKey::Backspace, &entries, &configs);
    assert!(!st.config_mode);
    assert_eq!(st.visible, vec![0]);
    let mut empty = MenuState::new(0);
    assert_eq!(menu_step(&mut empty, MenuKey::Enter, &entries, &configs), MenuAction::Stay);
    assert_eq!(matching_names(&entries, &vec!['x']), Vec::<usize>::new());
}

#[test]
fn shells_for_runtimes() {
    assert_eq!(shell_for("shell"), Some(("bash".to_string(), "-c".to_string())));
    assert_eq!(shell_for("sh"), Some(("bash".to_string(), "-c".to_string())));
    assert_eq!(shell_for("ps"), Some(("pwsh".to_string(), "-Command".to_string())));
    assert_eq!(shell_for("powershell"), Some(("pwsh".to_string(), "-Command".to_string())));
    assert_eq!(shell_for("dart"), None);
}

#[test]
fn lines_of_a_body() {
    assert_eq!(body_lines("a\r\nb\n\nc\n"), names(&["a", "b", "", "c"]));
    assert_eq!(body_lines(""), Vec::<String>::new());
    assert_eq!(body_lines("\n"), names(&[""]));
    assert_eq!(task_lines("\n\nx\n\ny"), names(&["x", "", "y"]));
}

#[test]
fn echoed_commands_are_hidden() {
    let commands = names(&["echo hi", "ls"]);
    let mut f = OutputFilter::new();
    assert!(!f.on_error());
    assert!(!f.on_output(&commands, "  echo hi "));
    assert!(f.on_output(&commands, "hi"));
    assert!(f.on_error());
    assert!(!f.on_output(&commands, "ls"));
    assert!(f.on_output(&commands, "ls"));
    assert_eq!(f.echoed, 2);
}
