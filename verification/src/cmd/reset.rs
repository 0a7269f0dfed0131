//! Resetting a stack to an earlier state.

use crate::stack::Stack;
use crate::transaction::{default_options, Options, TransactionBuilder};
use vstd::prelude::*;

verus! {

/// Sets up the transaction of a reset: the working copy follows the stack,
/// changes that are not committed are thrown away where the reset is hard,
/// and a tip of the branch that is not the top of the stack is accepted
/// where the whole stack is reset, not where only some patches are.
pub fn reset_transaction(stack: Stack, hard: bool, partial: bool) -> (builder: TransactionBuilder)
    requires
        stack.wf(),
        stack@.is_initialized,
    ensures
        builder.wf(),
        builder.view() == (
            stack@,
            Options {
                use_index_and_worktree: true,
                discard_changes: hard,
                allow_bad_head: !partial,
                ..default_options()
            },
        ),
{
    stack.setup_transaction().use_index_and_worktree(true).discard_changes(hard).allow_bad_head(
        !partial,
    )
}

} // verus!
