//! Names of the references that record a stack and its patches.

use vstd::prelude::*;

verus! {

/// View of the namespace under which stack state references live.
pub open spec fn stack_ref_namespace() -> Seq<char> {
    "refs/stacks/"@
}

/// Get reference name for the stack state of the given branch.
pub fn state_refname_from_branch_name(branch_name: &str) -> (refname: String)
    ensures
        refname@ == stack_ref_namespace() + branch_name@,
{
    let mut refname = String::from_str("refs/stacks/");
    refname.append(branch_name);
    refname
}

/// View of the namespace under which per-patch references live.
pub open spec fn patch_ref_namespace() -> Seq<char> {
    "refs/patches/"@
}

/// View of the reference name of `patch_spec` within the patch namespace of
/// `branch_name`.
pub open spec fn patch_refname_view(branch_name: Seq<char>, patch_spec: Seq<char>) -> Seq<char> {
    patch_ref_namespace() + branch_name + "/"@ + patch_spec
}

/// Get reference name for a patch in the given branch.
pub fn get_patch_refname(branch_name: &str, patch_spec: &str) -> (refname: String)
    ensures
        refname@ == patch_refname_view(branch_name@, patch_spec@),
{
    let mut refname = String::from_str("refs/patches/");
    refname.append(branch_name);
    refname.append("/");
    refname.append(patch_spec);
    refname
}

} // verus!
