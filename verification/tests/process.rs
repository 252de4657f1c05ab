use prune::process::{shell_arg, CommandStage};

#[test]
fn required_stage_errors_on_nonzero_exit() {
    let stage = CommandStage::new("required".to_string(), "false".to_string(), Vec::new());

    assert!(!stage.run_succeeded(false));
}

#[test]
fn allow_failure_stage_does_not_error_on_nonzero_exit() {
    let stage =
        CommandStage::new("optional".to_string(), "false".to_string(), Vec::new()).allow_failure();

    assert!(stage.run_succeeded(false));
    assert!(stage.render_shell().ends_with(" || true"));
}

#[test]
fn shell_arg_quotes_only_when_needed() {
    assert_eq!(shell_arg("plain/path_1.2-x:y=z"), "plain/path_1.2-x:y=z");
    assert_eq!(shell_arg("two words"), "'two words'");
    assert_eq!(shell_arg("it's"), "'it'\\''s'");
    assert_eq!(shell_arg(""), "");
    assert_eq!(shell_arg("复制"), "'复制'");
}

#[test]
fn render_shell_writes_cwd_program_and_args() {
    let stage = CommandStage::new(
        "label".to_string(),
        "printf".to_string(),
        vec!["a b".to_string(), "c".to_string()],
    )
    .cwd("/my dir".to_string());
    assert_eq!(stage.render_shell(), "cd '/my dir' && printf 'a b' c");
    assert_eq!(stage.cwd.as_deref(), Some("/my dir"));
    assert!(!stage.allow_failure);
    assert!(stage.run_succeeded(true));
}

#[test]
fn allow_failure_twice_is_allow_failure_once() {
    let stage = CommandStage::new(
        "install".to_string(),
        "adb".to_string(),
        vec!["install".to_string(), "-r".to_string()],
    )
    .cwd("/repo".to_string())
    .allow_failure();
    let copy = stage.clone();
    assert_eq!(copy, stage);
    assert_eq!(copy.allow_failure(), stage);
}
