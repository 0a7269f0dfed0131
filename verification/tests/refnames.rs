use stgit::refname::{get_patch_refname, state_refname_from_branch_name};

#[test]
fn state_refname_is_under_stacks_namespace() {
    assert_eq!(state_refname_from_branch_name("main"), "refs/stacks/main");
}

#[test]
fn patch_refname_is_under_branch_namespace() {
    assert_eq!(get_patch_refname("main", "p1"), "refs/patches/main/p1");
    assert_eq!(get_patch_refname("topic/a", ""), "refs/patches/topic/a/");
}
