//! What to run after a bump: the decision on the pre-commit hooks and the
//! version-control commands, as plain values. Running them is the caller's
//! part.

use crate::schema::{GitAction, RunPreCommit};
use crate::text::{chars_of, push_chars, trim, trimmed, unit_outcome};
use vstd::prelude::*;

verus! {

/// What to do about the pre-commit hooks.
#[derive(Debug, Clone, Copy, PartialEq, Eq, Structural)]
pub enum PreCommit {
    /// Leave them alone.
    Skip,
    /// Run them on all files.
    Run,
}

/// The decision on the pre-commit hooks. They run where they are wanted
/// and available; it is an error where they are required and missing.
pub open spec fn pre_commit_decision(setting: RunPreCommit, available: bool) -> Result<
    PreCommit,
    Seq<char>,
> {
    match setting {
        RunPreCommit::Disabled => Ok(PreCommit::Skip),
        RunPreCommit::Enabled => if available {
            Ok(PreCommit::Run)
        } else {
            Err("pre-commit is not installed but run-pre-commit is enabled"@)
        },
        RunPreCommit::WhenPresent => if available {
            Ok(PreCommit::Run)
        } else {
            Ok(PreCommit::Skip)
        },
    }
}

/// The outcome of the decision as plain values.
pub open spec fn pre_commit_outcome(r: Result<PreCommit, String>) -> Result<PreCommit, Seq<char>> {
    match r {
        Ok(d) => Ok(d),
        Err(e) => Err(e@),
    }
}

/// Decides whether the pre-commit hooks run, given whether they are
/// available. With `RunPreCommit::Disabled` the answer does not depend on
/// `available`, so the caller need not find it out.
pub fn maybe_run_pre_commit(setting: RunPreCommit, available: bool) -> (r: Result<
    PreCommit,
    String,
>)
    ensures
        pre_commit_outcome(r) == pre_commit_decision(setting, available),
{
    match setting {
        RunPreCommit::Disabled => Ok(PreCommit::Skip),
        RunPreCommit::Enabled => run_pre_commit(true, available),
        RunPreCommit::WhenPresent => run_pre_commit(false, available),
    }
}

/// Decides whether the hooks run once it is known that they are wanted.
pub fn run_pre_commit(required: bool, available: bool) -> (r: Result<PreCommit, String>)
    ensures
        pre_commit_outcome(r) == if available {
            Ok::<PreCommit, Seq<char>>(PreCommit::Run)
        } else if required {
            Err::<PreCommit, Seq<char>>(
                "pre-commit is not installed but run-pre-commit is enabled"@,
            )
        } else {
            Ok::<PreCommit, Seq<char>>(PreCommit::Skip)
        },
{
    if !available {
        if required {
            return Err(
                String::from_str("pre-commit is not installed but run-pre-commit is enabled"),
            );
        }
        return Ok(PreCommit::Skip);
    }
    Ok(PreCommit::Run)
}

/// The arguments of one `git` command, as plain text.
pub open spec fn command_view(command: Seq<String>) -> Seq<Seq<char>> {
    Seq::new(command.len(), |i: int| command[i]@)
}

/// The arguments of a list of `git` commands, as plain text.
pub open spec fn commands_view(commands: Seq<Vec<String>>) -> Seq<Seq<Seq<char>>> {
    Seq::new(commands.len(), |i: int| command_view(commands[i]@))
}

/// `git add --all`.
pub open spec fn add_all_command() -> Seq<Seq<char>> {
    seq!["add"@, "--all"@]
}

/// `git commit -m` with the message that names both versions.
pub open spec fn commit_command(old_version: Seq<char>, new_version: Seq<char>) -> Seq<Seq<char>> {
    seq!["commit"@, "-m"@, "Bump version from "@ + old_version + " to "@ + new_version]
}

/// `git tag -a` that tags with the version itself and notes the release.
pub open spec fn tag_command(version: Seq<char>) -> Seq<Seq<char>> {
    seq!["tag"@, "-a"@, version, "-m"@, "Release "@ + version]
}

/// `git push`.
pub open spec fn push_command() -> Seq<Seq<char>> {
    seq!["push"@]
}

/// `git push origin` with the tag.
pub open spec fn push_tag_command(version: Seq<char>) -> Seq<Seq<char>> {
    seq!["push"@, "origin"@, version]
}

/// The `git` commands of a bump, in the order in which they run. Each one
/// runs only if the one before it succeeded.
pub open spec fn git_plan(action: GitAction, old_version: Seq<char>, new_version: Seq<char>) -> Seq<
    Seq<Seq<char>>,
> {
    match action {
        GitAction::Disabled => Seq::empty(),
        GitAction::Commit => seq![add_all_command(), commit_command(old_version, new_version)],
        GitAction::CommitAndTag => seq![
            add_all_command(),
            commit_command(old_version, new_version),
            tag_command(new_version),
        ],
        GitAction::CommitTagAndPush => seq![
            add_all_command(),
            commit_command(old_version, new_version),
            tag_command(new_version),
            push_command(),
            push_tag_command(new_version),
        ],
    }
}

/// The arguments of `git add --all`.
pub fn git_add_all() -> (r: Vec<String>)
    ensures
        command_view(r@) == add_all_command(),
{
    let mut r: Vec<String> = Vec::new();
    r.push(String::from_str("add"));
    r.push(String::from_str("--all"));
    assert(command_view(r@) =~= add_all_command());
    r
}

/// The arguments of the commit of a bump.
pub fn git_commit(old_version: &str, new_version: &str) -> (r: Vec<String>)
    ensures
        command_view(r@) == commit_command(old_version@, new_version@),
{
    let mut msg = String::from_str("Bump version from ");
    msg.append(old_version);
    msg.append(" to ");
    msg.append(new_version);
    let mut r: Vec<String> = Vec::new();
    r.push(String::from_str("commit"));
    r.push(String::from_str("-m"));
    r.push(msg);
    assert(command_view(r@) =~= commit_command(old_version@, new_version@));
    r
}

/// The arguments of the tag of a release.
pub fn git_tag(version: &str) -> (r: Vec<String>)
    ensures
        command_view(r@) == tag_command(version@),
{
    let mut msg = String::from_str("Release ");
    msg.append(version);
    let mut r: Vec<String> = Vec::new();
    r.push(String::from_str("tag"));
    r.push(String::from_str("-a"));
    r.push(String::from_str(version));
    r.push(String::from_str("-m"));
    r.push(msg);
    assert(command_view(r@) =~= tag_command(version@));
    r
}

/// The arguments of `git push`.
pub fn git_push() -> (r: Vec<String>)
    ensures
        command_view(r@) == push_command(),
{
    let mut r: Vec<String> = Vec::new();
    r.push(String::from_str("push"));
    assert(command_view(r@) =~= push_command());
    r
}

/// The arguments of the push of a tag.
pub fn git_push_tag(version: &str) -> (r: Vec<String>)
    ensures
        command_view(r@) == push_tag_command(version@),
{
    let mut r: Vec<String> = Vec::new();
    r.push(String::from_str("push"));
    r.push(String::from_str("origin"));
    r.push(String::from_str(version));
    assert(command_view(r@) =~= push_tag_command(version@));
    r
}

/// Lists the `git` commands of a bump from `old_version` to `new_version`,
/// in the order in which they have to run.
pub fn run_git_actions(action: GitAction, old_version: &str, new_version: &str) -> (r: Vec<
    Vec<String>,
>)
    ensures
        commands_view(r@) == git_plan(action, old_version@, new_version@),
{
    let mut r: Vec<Vec<String>> = Vec::new();
    match action {
        GitAction::Disabled => {},
        GitAction::Commit => {
            r.push(git_add_all());
            r.push(git_commit(old_version, new_version));
        },
        GitAction::CommitAndTag => {
            r.push(git_add_all());
            r.push(git_commit(old_version, new_version));
            r.push(git_tag(new_version));
        },
        GitAction::CommitTagAndPush => {
            r.push(git_add_all());
            r.push(git_commit(old_version, new_version));
            r.push(git_tag(new_version));
            r.push(git_push());
            r.push(git_push_tag(new_version));
        },
    }
    assert(commands_view(r@) =~= git_plan(action, old_version@, new_version@));
    r
}

/// The command that runs first: the first of the plan, if it has any.
pub open spec fn first_command(count: int) -> Option<int> {
    if count > 0 {
        Some(0)
    } else {
        None
    }
}

/// What follows the command at `index` of a plan of `count` commands, given
/// how that command ended. A failure ends the run at once, with its reason.
/// After a success the next command runs, and there is none after the last.
pub open spec fn after_command(count: int, index: int, outcome: Result<(), Seq<char>>) -> Result<
    Option<int>,
    Seq<char>,
> {
    match outcome {
        Err(reason) => Err(reason),
        Ok(_) => if index + 1 < count {
            Ok(Some(index + 1))
        } else {
            Ok(None)
        },
    }
}

/// How a run ends that goes on from the command at `index`, where
/// `outcomes` tells how each command of the plan would end.
pub open spec fn run_from(count: int, index: int, outcomes: Seq<Result<(), Seq<char>>>) -> Result<
    (),
    Seq<char>,
>
    decreases count - index,
{
    if 0 <= index < count && index < outcomes.len() {
        match after_command(count, index, outcomes[index]) {
            Err(reason) => Err(reason),
            Ok(Some(next)) => run_from(count, next, outcomes),
            Ok(None) => Ok(()),
        }
    } else {
        Ok(())
    }
}

/// How the run of a plan ends, where `outcomes` tells how each of its
/// commands would end.
pub open spec fn run_of(count: int, outcomes: Seq<Result<(), Seq<char>>>) -> Result<(), Seq<char>> {
    match first_command(count) {
        Some(index) => run_from(count, index, outcomes),
        None => Ok(()),
    }
}

/// The step that follows a command, as plain values.
pub open spec fn step_outcome(r: Result<Option<usize>, String>) -> Result<Option<int>, Seq<char>> {
    match r {
        Ok(Some(i)) => Ok(Some(i as int)),
        Ok(None) => Ok(None),
        Err(e) => Err(e@),
    }
}

/// The reason given for a `git` command that failed.
pub open spec fn failure_text(name: Seq<char>, stderr: Seq<char>) -> Seq<char> {
    "git "@ + name + " failed: "@ + trimmed(stderr)
}

/// A run goes on past every command that succeeds, and ends with the
/// reason of the first command that fails: it succeeds exactly where every
/// command of the plan does.
pub proof fn lemma_run_ends_at_first_failure(
    count: int,
    index: int,
    outcomes: Seq<Result<(), Seq<char>>>,
)
    requires
        0 <= index <= count,
        count <= outcomes.len(),
    ensures
        run_from(count, index, outcomes) is Ok <==> forall|k: int|
            index <= k < count ==> (#[trigger] outcomes[k]) is Ok,
        run_from(count, index, outcomes) matches Err(reason) ==> exists|k: int|
            index <= k < count && outcomes[k] == Err::<(), Seq<char>>(reason) && forall|j: int|
                index <= j < k ==> (#[trigger] outcomes[j]) is Ok,
    decreases count - index,
{
    if index < count {
        lemma_run_ends_at_first_failure(count, index + 1, outcomes);
        match outcomes[index] {
            Err(reason) => {
                assert(outcomes[index] == Err::<(), Seq<char>>(reason));
            },
            Ok(_) => {
                if index + 1 < count && run_from(count, index, outcomes) is Err {
                    let reason = run_from(count, index, outcomes)->Err_0;
                    let k = choose|k: int|
                        index + 1 <= k < count && outcomes[k] == Err::<(), Seq<char>>(reason)
                            && forall|j: int| index + 1 <= j < k ==> (#[trigger] outcomes[j]) is Ok;
                    assert forall|j: int| index <= j < k implies (#[trigger] outcomes[j]) is Ok by {
                    }
                }
            },
        }
    }
}

/// The run of a plan succeeds exactly where every command of the plan
/// does, and fails with the reason of the first command that fails, none
/// of the commands after it being run.
pub proof fn lemma_run_of_plan(count: int, outcomes: Seq<Result<(), Seq<char>>>)
    requires
        0 <= count <= outcomes.len(),
    ensures
        run_of(count, outcomes) is Ok <==> forall|k: int|
            0 <= k < count ==> (#[trigger] outcomes[k]) is Ok,
        run_of(count, outcomes) matches Err(reason) ==> exists|k: int|
            0 <= k < count && outcomes[k] == Err::<(), Seq<char>>(reason) && forall|j: int|
                0 <= j < k ==> (#[trigger] outcomes[j]) is Ok,
{
    lemma_run_ends_at_first_failure(count, 0, outcomes);
}

/// Tells which command of the plan runs first.
pub fn first_git_command(plan: &Vec<Vec<String>>) -> (r: Option<usize>)
    ensures
        r matches Some(i) ==> first_command(plan@.len() as int) == Some(i as int),
        r is None ==> first_command(plan@.len() as int) is None,
{
    if plan.len() > 0 {
        Some(0)
    } else {
        None
    }
}

/// Tells what follows the command at `index` of the plan, given how it
/// ended: the position of the next command, the end of the run, or the
/// reason with which the run fails.
pub fn next_git_command(plan: &Vec<Vec<String>>, index: usize, outcome: Result<(), String>) -> (r:
    Result<Option<usize>, String>)
    ensures
        step_outcome(r) == after_command(
            plan@.len() as int,
            index as int,
            unit_outcome(outcome),
        ),
{
    match outcome {
        Err(reason) => Err(reason),
        Ok(_) => if index < plan.len() && index + 1 < plan.len() {
            Ok(Some(index + 1))
        } else {
            Ok(None)
        },
    }
}

/// Writes the reason for a `git` command that failed: the command's name
/// and what it wrote to its error stream, without the white space around
/// it.
pub fn git_failure(name: &str, stderr: &str) -> (out: String)
    ensures
        out@ == failure_text(name@, stderr@),
{
    let mut out = String::from_str("git ");
    out.append(name);
    out.append(" failed: ");
    let written = chars_of(stderr);
    push_chars(&mut out, trim(written.as_slice()));
    out
}

} // verus!
