use stgit::error::Error;
use stgit::hook::{
    editor_override, hook_failure_text, hook_is_present, hook_result, hooks_root, is_executable,
    HookExit, HookFile, HooksRoot,
};

#[test]
fn where_hooks_are_looked_for() {
    assert_eq!(hooks_root(None, false, true), Ok(HooksRoot::Default));
    assert_eq!(hooks_root(None, true, false), Ok(HooksRoot::Default));
    assert_eq!(hooks_root(Some(true), false, false), Ok(HooksRoot::Configured));
    assert_eq!(hooks_root(Some(false), true, false), Ok(HooksRoot::UnderGitDir));
    assert_eq!(hooks_root(Some(false), true, true), Ok(HooksRoot::UnderGitDir));
    assert_eq!(hooks_root(Some(false), false, true), Ok(HooksRoot::UnderWorkDir));
    assert_eq!(hooks_root(Some(false), false, false), Err(Error::NoWorkdir));
}

#[test]
fn executable_bits() {
    assert!(is_executable(0o755));
    assert!(is_executable(0o100));
    assert!(is_executable(0o010));
    assert!(is_executable(0o001));
    assert!(!is_executable(0o644));
    assert!(!is_executable(0o666));
    assert!(!is_executable(0));
}

#[test]
fn absent_hooks_are_no_error() {
    assert!(!hook_is_present(None));
    assert!(!hook_is_present(Some(HookFile { is_file: false, mode: 0o755 })));
    assert!(!hook_is_present(Some(HookFile { is_file: true, mode: 0o644 })));
    assert!(hook_is_present(Some(HookFile { is_file: true, mode: 0o744 })));
}

#[test]
fn failing_hooks_carry_their_exit_code() {
    assert_eq!(hook_result("pre-commit", HookExit { success: true, code: Some(0) }), Ok(()));
    assert_eq!(
        hook_result("pre-commit", HookExit { success: false, code: Some(3) }),
        Err(Error::HookFailed { hook: "pre-commit".to_string(), code: 3 })
    );
    assert_eq!(
        hook_result("commit-msg", HookExit { success: false, code: None }),
        Err(Error::HookFailed { hook: "commit-msg".to_string(), code: -1 })
    );
}

#[test]
fn text_of_a_failed_hook() {
    assert_eq!(hook_failure_text("pre-commit", 1), "`pre-commit` hook returned 1");
    assert_eq!(hook_failure_text("commit-msg", -1), "`commit-msg` hook returned -1");
    assert_eq!(hook_failure_text("x", 0), "`x` hook returned 0");
    assert_eq!(hook_failure_text("x", 127), "`x` hook returned 127");
    assert_eq!(hook_failure_text("x", i32::MIN), "`x` hook returned -2147483648");
    assert_eq!(hook_failure_text("x", i32::MAX), "`x` hook returned 2147483647");
}

#[test]
fn editor_is_silenced_unless_wanted() {
    assert_eq!(editor_override(true), None);
    assert_eq!(editor_override(false), Some(":".to_string()));
}
