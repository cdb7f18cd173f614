//! The branch that is checked out in a project's directory, from what `git` prints.

use vstd::prelude::*;

use crate::commands::{lossy_utf8, output_text, CommandOutput};
use crate::text::{chars_of, concat, same_text, strings, text_of, trim, trimmed};

verus! {

/// What a command printed, without white space around it, if it ran and succeeded.
pub open spec fn printed(output: Result<CommandOutput, String>) -> Option<Seq<char>> {
    match output {
        Ok(output) => if output.success {
            Some(trimmed(lossy_utf8(output.stdout@)))
        } else {
            None
        },
        Err(_) => None,
    }
}

/// What a command printed, without white space around it, if it ran and succeeded.
fn read_printed(output: &Result<CommandOutput, String>) -> (r: Option<String>)
    ensures
        match r {
            Some(text) => printed(*output) == Some(text@),
            None => printed(*output) is None,
        },
{
    match output {
        Ok(output) => if output.success {
            let text = output_text(&output.stdout);
            let chars = chars_of(text.as_str());
            Some(text_of(trim(chars.as_slice())))
        } else {
            None
        },
        Err(_) => None,
    }
}

/// Whether `git` says that no branch is checked out but a commit.
pub open spec fn is_detached(head: Result<CommandOutput, String>) -> bool {
    printed(head) == Some("HEAD"@)
}

/// What is said of the checked out branch. `head` is what `git` printed as its name, `commit` what
/// it printed as the short name of the commit.
pub open spec fn branch_name(
    head: Result<CommandOutput, String>,
    commit: Result<CommandOutput, String>,
) -> Seq<char> {
    match printed(head) {
        None => "not-a-git-repo"@,
        Some(name) => if name.len() == 0 {
            "not-a-git-repo"@
        } else if name != "HEAD"@ {
            name
        } else {
            match printed(commit) {
                None => "detached@unknown"@,
                Some(sha) => if sha.len() == 0 {
                    "detached@unknown"@
                } else {
                    "detached@"@ + sha
                },
            }
        },
    }
}

/// The arguments with which `git` names the branch that is checked out.
pub fn branch_arguments(path: &str) -> (r: Vec<String>)
    ensures
        strings(r@) == seq!["-C"@, path@, "rev-parse"@, "--abbrev-ref"@, "HEAD"@],
{
    let r = vec![
        "-C".to_owned(),
        path.to_owned(),
        "rev-parse".to_owned(),
        "--abbrev-ref".to_owned(),
        "HEAD".to_owned(),
    ];
    proof {
        assert(strings(r@) =~= seq!["-C"@, path@, "rev-parse"@, "--abbrev-ref"@, "HEAD"@]);
    }
    r
}

/// The arguments with which `git` gives the short name of the commit that is checked out.
pub fn commit_arguments(path: &str) -> (r: Vec<String>)
    ensures
        strings(r@) == seq!["-C"@, path@, "rev-parse"@, "--short"@, "HEAD"@],
{
    let r = vec![
        "-C".to_owned(),
        path.to_owned(),
        "rev-parse".to_owned(),
        "--short".to_owned(),
        "HEAD".to_owned(),
    ];
    proof {
        assert(strings(r@) =~= seq!["-C"@, path@, "rev-parse"@, "--short"@, "HEAD"@]);
    }
    r
}

/// Whether the short name of the commit is needed, since no branch is checked out.
pub fn needs_commit(head: &Result<CommandOutput, String>) -> (r: bool)
    ensures
        r == is_detached(*head),
{
    match read_printed(head) {
        Some(name) => same_text(name.as_str(), "HEAD"),
        None => false,
    }
}

/// What is said of the branch where there is no repository.
pub fn no_branch() -> (r: String)
    ensures
        r@ == "not-a-git-repo"@,
{
    "not-a-git-repo".to_owned()
}

/// What is said of the checked out branch, from what `git` printed as its name and, where
/// `needs_commit` says so, as the short name of the commit.
pub fn detect_branch(
    head: &Result<CommandOutput, String>,
    commit: &Result<CommandOutput, String>,
) -> (r: String)
    ensures
        r@ == branch_name(*head, *commit),
{
    let name = match read_printed(head) {
        Some(name) => name,
        None => {
            return no_branch();
        },
    };
    if name.as_str().is_empty() {
        return no_branch();
    }
    if !same_text(name.as_str(), "HEAD") {
        return name;
    }
    match read_printed(commit) {
        Some(sha) => if sha.as_str().is_empty() {
            "detached@unknown".to_owned()
        } else {
            concat("detached@", sha.as_str())
        },
        None => "detached@unknown".to_owned(),
    }
}

/// Something is always said of the branch, and it is never the bare `HEAD` that `git` prints for
/// a commit.
pub proof fn law_branch_is_named(
    head: Result<CommandOutput, String>,
    commit: Result<CommandOutput, String>,
)
    ensures
        branch_name(head, commit).len() > 0,
        branch_name(head, commit) != "HEAD"@,
{
    reveal_strlit("not-a-git-repo");
    reveal_strlit("detached@unknown");
    reveal_strlit("detached@");
    reveal_strlit("HEAD");
    let name = branch_name(head, commit);
    if is_detached(head) {
        assert(name[0] == 'd');
        assert("HEAD"@[0] == 'H');
    }
    assert("not-a-git-repo"@[0] == 'n');
    assert("HEAD"@[0] == 'H');
}

/// Where a branch is checked out, the commit does not matter.
pub proof fn law_branch_needs_commit_only_when_detached(
    head: Result<CommandOutput, String>,
    a: Result<CommandOutput, String>,
    b: Result<CommandOutput, String>,
)
    requires
        !is_detached(head),
    ensures
        branch_name(head, a) == branch_name(head, b),
{
}

} // verus!
