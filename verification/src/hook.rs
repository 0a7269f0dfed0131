//! Decisions around the hook scripts of a repository.
//!
//! Finding a hook, running it and reading what it wrote is the caller's
//! work. Here is what is decided in between: where hooks are looked for,
//! whether a file counts as a hook, and what the exit of a hook means.

use crate::error::Error;
use crate::patchname::{decimal, push_decimal};
use crate::text::string_of;
use vstd::prelude::*;
use vstd::string::*;

verus! {

/// Where the directory of the hooks lies.
#[derive(Clone, Copy, Debug, PartialEq, Eq, Structural)]
pub enum HooksRoot {
    /// No path is configured: `hooks` in the administrative directory.
    Default,
    /// The configured path as it is.
    Configured,
    /// The configured path, relative to the administrative directory.
    UnderGitDir,
    /// The configured path, relative to the root of the working tree.
    UnderWorkDir,
}

/// Decides where hooks are looked for.
///
/// `configured_absolute` says whether a hooks path is configured and, if so,
/// whether it is absolute. A relative path is taken from the administrative
/// directory in a bare repository and from the root of the working tree
/// otherwise; without a working tree there it is an error.
pub fn hooks_root(configured_absolute: Option<bool>, is_bare: bool, has_work_dir: bool) -> (root:
    Result<HooksRoot, Error>)
    ensures
        match configured_absolute {
            None => root == Ok::<HooksRoot, Error>(HooksRoot::Default),
            Some(true) => root == Ok::<HooksRoot, Error>(HooksRoot::Configured),
            Some(false) => if is_bare {
                root == Ok::<HooksRoot, Error>(HooksRoot::UnderGitDir)
            } else if has_work_dir {
                root == Ok::<HooksRoot, Error>(HooksRoot::UnderWorkDir)
            } else {
                root matches Err(Error::NoWorkdir)
            },
        },
{
    match configured_absolute {
        None => Ok(HooksRoot::Default),
        Some(true) => Ok(HooksRoot::Configured),
        Some(false) => {
            if is_bare {
                Ok(HooksRoot::UnderGitDir)
            } else if has_work_dir {
                Ok(HooksRoot::UnderWorkDir)
            } else {
                Err(Error::NoWorkdir)
            }
        },
    }
}

/// What the file system says of the file of a hook.
#[derive(Clone, Copy, Debug, PartialEq, Eq, Structural)]
pub struct HookFile {
    /// Whether it is a regular file.
    pub is_file: bool,
    /// Its permission bits.
    pub mode: u32,
}

/// Whether a file with these permission bits can be executed by someone.
pub fn is_executable(mode: u32) -> (executable: bool)
    ensures
        executable == (mode & 0o111 != 0),
{
    mode & 0o111 != 0
}

/// Whether there is a hook to run: the file exists, is a regular file and
/// can be executed. `None` stands for a file that could not be examined.
pub fn hook_is_present(file: Option<HookFile>) -> (present: bool)
    ensures
        present == (file is Some && file.unwrap().is_file && (file.unwrap().mode & 0o111 != 0)),
{
    match file {
        Some(found) => found.is_file && is_executable(found.mode),
        None => false,
    }
}

/// The value of `GIT_EDITOR` under which a hook runs, if it is to be set:
/// `:` where the hook may not start an editor.
pub fn editor_override(use_editor: bool) -> (value: Option<String>)
    ensures
        match value {
            Some(text) => !use_editor && text@ == ":"@,
            None => use_editor,
        },
{
    if use_editor {
        None
    } else {
        Some(String::from_str(":"))
    }
}

/// How a hook ended.
#[derive(Clone, Copy, Debug, PartialEq, Eq, Structural)]
pub struct HookExit {
    /// Whether it reported success.
    pub success: bool,
    /// Its exit code, if it has one.
    pub code: Option<i32>,
}

/// What the exit of a hook means: a hook that does not report success is an
/// error that carries the exit code, or `-1` where there is none.
pub fn hook_result(hook_name: &str, exit: HookExit) -> (result: Result<(), Error>)
    ensures
        exit.success ==> result is Ok,
        !exit.success ==> (result matches Err(Error::HookFailed { hook, code }) && hook@
            == hook_name@ && code == match exit.code {
            Some(code) => code,
            None => -1i32,
        }),
{
    if exit.success {
        Ok(())
    } else {
        let code = match exit.code {
            Some(code) => code,
            None => -1i32,
        };
        Err(Error::HookFailed { hook: String::from_str(hook_name), code })
    }
}

/// An exit code in decimal digits, with `-` in front where it is negative.
pub open spec fn code_text(code: i32) -> Seq<char> {
    if code < 0 {
        seq!['-'] + decimal((-code) as nat)
    } else {
        decimal(code as nat)
    }
}

/// The text that reports a hook that failed.
pub open spec fn hook_failure_view(hook_name: Seq<char>, code: i32) -> Seq<char> {
    "`"@ + hook_name + "` hook returned "@ + code_text(code)
}

/// Writes the text that reports a hook that failed.
pub fn hook_failure_text(hook_name: &str, code: i32) -> (text: String)
    ensures
        text@ == hook_failure_view(hook_name@, code),
{
    let mut digits: Vec<char> = Vec::new();
    if code < 0 {
        digits.push('-');
        let magnitude: i64 = -(code as i64);
        push_decimal(magnitude as u64, &mut digits);
    } else {
        push_decimal(code as u64, &mut digits);
    }
    let mut text = String::from_str("`");
    text.append(hook_name);
    text.append("` hook returned ");
    text.append(string_of(&digits).as_str());
    text
}

} // verus!
