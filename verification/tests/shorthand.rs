use sara::cli::rewrite_shorthand;

fn args(v: &[&str]) -> Vec<String> {
    v.iter().map(|s| s.to_string()).collect()
}

#[test]
fn a_bare_id_opens_the_task() {
    assert_eq!(rewrite_shorthand(args(&["sara", "7"])), args(&["sara", "info", "7"]));
}

#[test]
fn an_id_before_a_command_moves_after_it() {
    assert_eq!(rewrite_shorthand(args(&["sara", "3", "done", "--force"])), args(&["sara", "done", "3", "--force"]));
    assert_eq!(rewrite_shorthand(args(&["sara", "12", "dep", "on", "4"])), args(&["sara", "dep", "12", "on", "4"]));
}

#[test]
fn other_arguments_are_left_alone() {
    assert_eq!(rewrite_shorthand(args(&["sara", "3", "list"])), args(&["sara", "3", "list"]));
    assert_eq!(rewrite_shorthand(args(&["sara", "list"])), args(&["sara", "list"]));
    assert_eq!(rewrite_shorthand(args(&["sara", "x1", "done"])), args(&["sara", "x1", "done"]));
    assert_eq!(rewrite_shorthand(args(&["sara"])), args(&["sara"]));
}
