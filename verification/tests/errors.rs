use stgit::error::Error;
use stgit::patchname::InvalidName;
use stgit::state::StateError;

#[test]
fn messages_of_errors() {
    assert_eq!(
        Error::AlreadyInitialized("main".to_string()).message(),
        "StGit stack already initialized for branch `main`"
    );
    assert_eq!(
        Error::NotInitialized("main".to_string()).message(),
        "StGit stack not initialized for branch `main`"
    );
    assert_eq!(
        Error::HeadTopMismatch.message(),
        "HEAD and stack top are not the same. This can happen if you modify the branch with git. \
         See `stg repair --help` for next steps to take."
    );
    assert_eq!(
        Error::ConcurrentModification.message(),
        "stack was modified concurrently, retry"
    );
    assert_eq!(
        Error::HookFailed { hook: "pre-commit".to_string(), code: 2 }.message(),
        "`pre-commit` hook returned 2"
    );
    assert_eq!(
        Error::CausedConflicts("`p2` does not apply cleanly".to_string()).message(),
        "`p2` does not apply cleanly"
    );
    assert_eq!(
        Error::InvalidRevision("..x".to_string(), "no opening revision supplied".to_string())
            .message(),
        "invalid StGit revision `..x`: no opening revision supplied"
    );
    assert_eq!(Error::NoWorkdir.message(), "No workdir found");
    assert_eq!(Error::NonUtf8Signature.message(), "trailer requires UTF-8 signature");
    assert_eq!(Error::PatchExists("p".to_string()).message(), "patch `p` already exists");
    assert_eq!(Error::NoSuchPatch("p".to_string()).message(), "patch `p` does not exist");
    assert_eq!(
        Error::InvalidName(InvalidName::Empty).message(),
        "patch name may not be empty"
    );
    assert_eq!(
        Error::InconsistentState(StateError::DuplicateName).message(),
        "a patch name is listed twice"
    );
    assert_eq!(Error::Usage("as given".to_string()).message(), "as given");
}
