use bver::git::{
    first_git_command, git_add_all, git_commit, git_failure, git_push, git_push_tag, git_tag,
    maybe_run_pre_commit, next_git_command, run_git_actions, run_pre_commit, PreCommit,
};
use bver::schema::{
    default_actions, default_branch_template, default_commit_template, default_tag_template,
    Action, Config, FileConfig, FileKind, GitAction, GitConfig, OnInvalidVersion, RunPreCommit,
};

fn git_with(actions: Vec<Action>) -> GitConfig {
    GitConfig { actions, ..GitConfig::default() }
}

#[test]
fn defaults() {
    assert_eq!(FileKind::default(), FileKind::Any);
    assert_eq!(OnInvalidVersion::default(), OnInvalidVersion::Error);
    assert_eq!(RunPreCommit::default(), RunPreCommit::WhenPresent);
    assert_eq!(default_actions(), vec![Action::AddAll, Action::Commit, Action::Tag]);
    assert_eq!(default_tag_template(), "{new-version}");
    assert_eq!(
        default_commit_template(),
        "Bump version from {current-version} to {new-version}"
    );
    assert_eq!(default_branch_template(), "release/{new-version}");
    let git = GitConfig::default();
    assert_eq!(git.actions, vec![Action::AddAll, Action::Commit, Action::Tag]);
    assert_eq!(git.run_pre_commit, RunPreCommit::WhenPresent);
    assert_eq!(git.tag_template, "{new-version}");
    assert_eq!(git.commit_template, "Bump version from {current-version} to {new-version}");
    assert_eq!(git.branch_template, "release/{new-version}");
    let config = Config::default();
    assert!(config.current_version.is_none());
    assert!(config.context_lines.is_none());
    assert_eq!(config.default_kind, FileKind::Any);
    assert_eq!(config.on_invalid_version, OnInvalidVersion::Error);
    assert!(config.files.is_empty());
    assert_eq!(config.git.actions, vec![Action::AddAll, Action::Commit, Action::Tag]);
}

#[test]
fn kind_names() {
    assert_eq!(FileKind::Any.name(), "Any");
    assert_eq!(FileKind::Simple.name(), "Simple");
    assert_eq!(FileKind::Python.name(), "Python");
    assert_eq!(FileKind::Semver.name(), "Semver");
}

#[test]
fn file_kind_falls_back_to_the_default() {
    let with = FileConfig { src: "a".to_string(), kind: Some(FileKind::Semver) };
    let without = FileConfig { src: "b".to_string(), kind: None };
    assert_eq!(with.kind_or(FileKind::Python), FileKind::Semver);
    assert_eq!(without.kind_or(FileKind::Python), FileKind::Python);
}

#[test]
fn has_action() {
    let git = git_with(vec![Action::Commit, Action::Push]);
    assert!(git.has(Action::Commit));
    assert!(git.has(Action::Push));
    assert!(!git.has(Action::Tag));
    assert!(!git.has(Action::AddAll));
    assert!(!git_with(vec![]).has(Action::Commit));
}

#[test]
fn valid_action_sets() {
    assert!(GitConfig::default().validate().is_ok());
    assert!(git_with(vec![]).validate().is_ok());
    assert!(git_with(vec![Action::AddAll]).validate().is_ok());
    assert!(git_with(vec![Action::Commit, Action::Push]).validate().is_ok());
    assert!(git_with(vec![Action::Branch, Action::Commit, Action::Push, Action::Pr])
        .validate()
        .is_ok());
}

#[test]
fn invalid_action_sets() {
    assert_eq!(
        git_with(vec![Action::Tag]).validate().unwrap_err(),
        "git action 'tag' requires 'commit'"
    );
    assert_eq!(
        git_with(vec![Action::Push]).validate().unwrap_err(),
        "git action 'push' requires 'commit'"
    );
    assert_eq!(
        git_with(vec![Action::Commit, Action::Pr]).validate().unwrap_err(),
        "git action 'pr' requires 'push'"
    );
    assert_eq!(
        git_with(vec![Action::Commit, Action::Push, Action::Pr]).validate().unwrap_err(),
        "git action 'pr' requires 'branch'"
    );
    assert_eq!(
        git_with(vec![Action::Commit, Action::Tag, Action::Branch]).validate().unwrap_err(),
        "git actions 'tag' and 'branch' cannot coexist"
    );
    // the first broken rule is the one reported
    assert_eq!(
        git_with(vec![Action::Tag, Action::Push, Action::Pr]).validate().unwrap_err(),
        "git action 'tag' requires 'commit'"
    );
}

#[test]
fn pre_commit_decisions() {
    assert_eq!(maybe_run_pre_commit(RunPreCommit::Disabled, true), Ok(PreCommit::Skip));
    assert_eq!(maybe_run_pre_commit(RunPreCommit::Disabled, false), Ok(PreCommit::Skip));
    assert_eq!(maybe_run_pre_commit(RunPreCommit::Enabled, true), Ok(PreCommit::Run));
    assert_eq!(
        maybe_run_pre_commit(RunPreCommit::Enabled, false),
        Err("pre-commit is not installed but run-pre-commit is enabled".to_string())
    );
    assert_eq!(maybe_run_pre_commit(RunPreCommit::WhenPresent, true), Ok(PreCommit::Run));
    assert_eq!(maybe_run_pre_commit(RunPreCommit::WhenPresent, false), Ok(PreCommit::Skip));
    assert_eq!(run_pre_commit(true, true), Ok(PreCommit::Run));
    assert_eq!(run_pre_commit(false, false), Ok(PreCommit::Skip));
    assert!(run_pre_commit(true, false).is_err());
}

#[test]
fn git_commands() {
    assert_eq!(git_add_all(), vec!["add", "--all"]);
    assert_eq!(git_commit("1.2.3", "1.3.0"), vec!["commit", "-m", "Bump version from 1.2.3 to 1.3.0"]);
    assert_eq!(git_tag("1.3.0"), vec!["tag", "-a", "1.3.0", "-m", "Release 1.3.0"]);
    assert_eq!(git_push(), vec!["push"]);
    assert_eq!(git_push_tag("1.3.0"), vec!["push", "origin", "1.3.0"]);
}

#[test]
fn git_plans() {
    assert!(run_git_actions(GitAction::Disabled, "1.2.3", "1.3.0").is_empty());
    assert_eq!(
        run_git_actions(GitAction::Commit, "1.2.3", "1.3.0"),
        vec![vec!["add", "--all"], vec!["commit", "-m", "Bump version from 1.2.3 to 1.3.0"]]
    );
    assert_eq!(
        run_git_actions(GitAction::CommitAndTag, "1.2.3", "1.3.0"),
        vec![
            vec!["add", "--all"],
            vec!["commit", "-m", "Bump version from 1.2.3 to 1.3.0"],
            vec!["tag", "-a", "1.3.0", "-m", "Release 1.3.0"],
        ]
    );
    assert_eq!(
        run_git_actions(GitAction::CommitTagAndPush, "1.2.3", "1.3.0"),
        vec![
            vec!["add", "--all"],
            vec!["commit", "-m", "Bump version from 1.2.3 to 1.3.0"],
            vec!["tag", "-a", "1.3.0", "-m", "Release 1.3.0"],
            vec!["push"],
            vec!["push", "origin", "1.3.0"],
        ]
    );
}

/// Runs a plan against given outcomes; tells which commands ran and how the run ended.
fn run(action: GitAction, outcomes: &[Result<(), String>]) -> (Vec<usize>, Result<(), String>) {
    let plan = run_git_actions(action, "1.2.3", "1.3.0");
    let mut ran = Vec::new();
    let mut next = first_git_command(&plan);
    while let Some(index) = next {
        ran.push(index);
        match next_git_command(&plan, index, outcomes[index].clone()) {
            Ok(step) => next = step,
            Err(reason) => return (ran, Err(reason)),
        }
    }
    (ran, Ok(()))
}

#[test]
fn a_run_goes_through_the_plan() {
    let fine: Vec<Result<(), String>> = vec![Ok(()); 5];
    assert_eq!(run(GitAction::Disabled, &fine), (vec![], Ok(())));
    assert_eq!(run(GitAction::Commit, &fine), (vec![0, 1], Ok(())));
    assert_eq!(run(GitAction::CommitAndTag, &fine), (vec![0, 1, 2], Ok(())));
    assert_eq!(run(GitAction::CommitTagAndPush, &fine), (vec![0, 1, 2, 3, 4], Ok(())));
}

#[test]
fn a_run_ends_at_the_first_failure() {
    let failed = |name: &str| Err(format!("git {name} failed: no"));
    let outcomes = vec![Ok(()), failed("commit"), failed("tag"), Ok(()), Ok(())];
    assert_eq!(
        run(GitAction::CommitAndTag, &outcomes),
        (vec![0, 1], Err("git commit failed: no".to_string()))
    );
    let outcomes = vec![failed("add"), Ok(()), Ok(()), Ok(()), Ok(())];
    assert_eq!(
        run(GitAction::CommitTagAndPush, &outcomes),
        (vec![0], Err("git add failed: no".to_string()))
    );
    let outcomes = vec![Ok(()), Ok(()), Ok(()), Ok(()), failed("push")];
    assert_eq!(
        run(GitAction::CommitTagAndPush, &outcomes),
        (vec![0, 1, 2, 3, 4], Err("git push failed: no".to_string()))
    );
    // a failure that the plan does not reach changes nothing
    let outcomes = vec![Ok(()), Ok(()), failed("tag"), Ok(()), Ok(())];
    assert_eq!(run(GitAction::Commit, &outcomes), (vec![0, 1], Ok(())));
}

#[test]
fn steps_of_a_run() {
    let plan = run_git_actions(GitAction::Commit, "1", "2");
    assert_eq!(first_git_command(&plan), Some(0));
    assert_eq!(first_git_command(&vec![]), None);
    assert_eq!(next_git_command(&plan, 0, Ok(())), Ok(Some(1)));
    assert_eq!(next_git_command(&plan, 1, Ok(())), Ok(None));
    assert_eq!(next_git_command(&plan, 7, Ok(())), Ok(None));
    assert_eq!(next_git_command(&plan, 0, Err("x".to_string())), Err("x".to_string()));
}

#[test]
fn reason_of_a_failed_command() {
    assert_eq!(
        git_failure("commit", "  nothing to commit\n"),
        "git commit failed: nothing to commit"
    );
    assert_eq!(git_failure("push", ""), "git push failed: ");
}
