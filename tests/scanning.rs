use cafemake::{defined_modules, get_defined_module, get_used_module, unreadable_lines, used_modules};

fn text(lines: &[&str]) -> Vec<Option<String>> {
    lines.iter().map(|l| Some(l.to_string())).collect()
}

#[test]
fn test_get_defined_module() {
    assert_eq!(
        get_defined_module("module mymod"),
        Some(String::from("mymod"))
    );
    assert_eq!(get_defined_module("use mymod"), None);
    assert_eq!(get_defined_module("module procedure myfunc"), None);
}

#[test]
fn test_get_used_module() {
    assert_eq!(get_used_module("use mymod"), Some(String::from("mymod")));
    assert_eq!(get_used_module("module mymod"), None);
}

#[test]
fn module_procedure_never_declares() {
    assert_eq!(get_defined_module("  module   procedure   foo"), None);
    assert_eq!(get_defined_module("\tmodule procedure bar ! comment"), None);
    let lines = text(&["module outer", "  module procedure inner", "end module outer"]);
    assert_eq!(defined_modules(&lines), vec!["outer".to_string()]);
}

#[test]
fn module_procedure_needs_space_after_keyword() {
    // `procedurefoo` is a plain module name, not the procedure construct
    assert_eq!(
        get_defined_module("module procedurefoo"),
        Some("procedurefoo".to_string())
    );
}

#[test]
fn use_line_independent_of_leading_whitespace() {
    assert_eq!(get_used_module("use foo"), Some("foo".to_string()));
    assert_eq!(get_used_module("    use foo"), Some("foo".to_string()));
    assert_eq!(get_used_module("\t \tuse\t foo"), Some("foo".to_string()));
    assert_eq!(get_used_module("\u{3000}use foo"), Some("foo".to_string()));
    assert_eq!(get_used_module("use foo, only: bar"), Some("foo".to_string()));
}

#[test]
fn names_take_word_characters_only() {
    assert_eq!(get_used_module("use foo_2x(3)"), Some("foo_2x".to_string()));
    assert_eq!(get_used_module("use 2foo"), Some("2foo".to_string()));
    assert_eq!(get_used_module("usefoo"), None);
    assert_eq!(get_used_module("use"), None);
    assert_eq!(get_used_module("! use foo"), None);
    assert_eq!(get_defined_module("MODULE foo"), None);
}

#[test]
fn repeated_uses_are_kept_once() {
    let lines = text(&["use a", "use b", "  use a", "module m", "module m"]);
    assert_eq!(used_modules(&lines), vec!["a".to_string(), "b".to_string()]);
    assert_eq!(defined_modules(&lines), vec!["m".to_string()]);
}

#[test]
fn bad_line_twelve_warns_once_and_rest_is_scanned() {
    let mut lines: Vec<Option<String>> = Vec::new();
    for i in 1..=20 {
        let line = match i {
            3 => Some("module first".to_string()),
            12 => None,
            15 => Some("use second".to_string()),
            19 => Some("module third".to_string()),
            _ => Some(format!("x = {}", i)),
        };
        lines.push(line);
    }
    assert_eq!(unreadable_lines(&lines), vec![12]);
    assert_eq!(
        defined_modules(&lines),
        vec!["first".to_string(), "third".to_string()]
    );
    assert_eq!(used_modules(&lines), vec!["second".to_string()]);
}

#[test]
fn no_warnings_for_a_clean_file() {
    let lines = text(&["program p", "end program p"]);
    assert!(unreadable_lines(&lines).is_empty());
    assert!(defined_modules(&lines).is_empty());
    assert!(used_modules(&lines).is_empty());
}

#[test]
fn names_may_start_with_any_word_character() {
    assert_eq!(get_defined_module("module 1abc"), Some("1abc".to_string()));
    assert_eq!(get_used_module("use 1abc"), Some("1abc".to_string()));
    assert_eq!(get_used_module("use _x"), Some("_x".to_string()));
    assert_eq!(get_defined_module("module procedure 1x"), None);
    assert_eq!(get_defined_module("module procedure"), Some("procedure".to_string()));
    assert_eq!(get_used_module("use, intrinsic :: iso_c_binding"), None);
}
