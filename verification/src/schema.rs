//! The configuration model: which grammar a file follows, what to do with a
//! version that does not fit it, and which version-control steps follow a bump.

use crate::text::unit_outcome;
use vstd::prelude::*;

verus! {

/// The grammar that a version string in a file has to follow.
#[derive(Debug, Clone, Copy, PartialEq, Eq, Structural)]
pub enum FileKind {
    /// No grammar: every string is accepted.
    Any,
    /// Three numeric components, `major.minor.patch`.
    Simple,
    /// The extended grammar with epoch, pre-, post- and dev-release and a
    /// local segment.
    Python,
    /// Three numeric components, then `-prerelease` and `+build`.
    Semver,
}

impl Default for FileKind {
    fn default() -> (r: Self)
        ensures
            r == FileKind::Any,
    {
        FileKind::Any
    }
}

impl FileKind {
    /// The name of the variant, as it is shown in messages.
    pub open spec fn spec_name(self) -> Seq<char> {
        match self {
            FileKind::Any => "Any"@,
            FileKind::Simple => "Simple"@,
            FileKind::Python => "Python"@,
            FileKind::Semver => "Semver"@,
        }
    }

    /// The name of the variant, as it is shown in messages.
    pub fn name(self) -> (r: &'static str)
        ensures
            r@ == self.spec_name(),
    {
        match self {
            FileKind::Any => "Any",
            FileKind::Simple => "Simple",
            FileKind::Python => "Python",
            FileKind::Semver => "Semver",
        }
    }
}

/// What happens to a version that the grammar of a file rejects.
#[derive(Debug, Clone, Copy, PartialEq, Eq, Structural)]
pub enum OnInvalidVersion {
    /// The bump fails with the validator's reason.
    Error,
    /// The version is cast to the closest form that the grammar has.
    Cast,
}

impl Default for OnInvalidVersion {
    fn default() -> (r: Self)
        ensures
            r == OnInvalidVersion::Error,
    {
        OnInvalidVersion::Error
    }
}

/// Whether the pre-commit hooks run after the files were changed.
#[derive(Debug, Clone, Copy, PartialEq, Eq, Structural)]
pub enum RunPreCommit {
    /// They run, and it is an error if they cannot.
    Enabled,
    /// They never run.
    Disabled,
    /// They run where they are installed.
    WhenPresent,
}

impl Default for RunPreCommit {
    fn default() -> (r: Self)
        ensures
            r == RunPreCommit::WhenPresent,
    {
        RunPreCommit::WhenPresent
    }
}

/// One version-control step of a configured bump.
#[derive(Debug, Clone, Copy, PartialEq, Eq, Structural)]
pub enum Action {
    AddAll,
    Branch,
    Commit,
    Tag,
    Push,
    Pr,
}

/// How far the version-control commands go after a bump.
#[derive(Debug, Clone, Copy, PartialEq, Eq, Structural)]
pub enum GitAction {
    /// Nothing is run.
    Disabled,
    /// Stage everything and commit.
    Commit,
    /// Stage, commit and tag the commit with the new version.
    CommitAndTag,
    /// Stage, commit, tag, then push the branch and the tag.
    CommitTagAndPush,
}

/// The version-control part of the configuration.
#[derive(Debug)]
pub struct GitConfig {
    pub actions: Vec<Action>,
    pub run_pre_commit: RunPreCommit,
    pub tag_template: String,
    pub commit_template: String,
    pub branch_template: String,
}

/// The steps that run when none are configured.
pub fn default_actions() -> (r: Vec<Action>)
    ensures
        r@ == seq![Action::AddAll, Action::Commit, Action::Tag],
{
    let mut r: Vec<Action> = Vec::new();
    r.push(Action::AddAll);
    r.push(Action::Commit);
    r.push(Action::Tag);
    assert(r@ =~= seq![Action::AddAll, Action::Commit, Action::Tag]);
    r
}

/// The tag's name when none is configured.
pub fn default_tag_template() -> (r: String)
    ensures
        r@ == "{new-version}"@,
{
    String::from_str("{new-version}")
}

/// The commit message when none is configured.
pub fn default_commit_template() -> (r: String)
    ensures
        r@ == "Bump version from {current-version} to {new-version}"@,
{
    String::from_str("Bump version from {current-version} to {new-version}")
}

/// The branch's name when none is configured.
pub fn default_branch_template() -> (r: String)
    ensures
        r@ == "release/{new-version}"@,
{
    String::from_str("release/{new-version}")
}

impl Default for GitConfig {
    fn default() -> (r: Self)
        ensures
            r.actions@ == seq![Action::AddAll, Action::Commit, Action::Tag],
            r.run_pre_commit == RunPreCommit::WhenPresent,
            r.tag_template@ == "{new-version}"@,
            r.commit_template@ == "Bump version from {current-version} to {new-version}"@,
            r.branch_template@ == "release/{new-version}"@,
    {
        GitConfig {
            actions: default_actions(),
            run_pre_commit: RunPreCommit::WhenPresent,
            tag_template: default_tag_template(),
            commit_template: default_commit_template(),
            branch_template: default_branch_template(),
        }
    }
}

/// The first rule that a set of steps breaks, as the message it is reported
/// with. The rules are tried in this order: a tag needs a commit, a push
/// needs a commit, a pull request needs a push, a pull request needs a
/// branch, and a tag and a branch exclude each other.
pub open spec fn actions_verdict(actions: Seq<Action>) -> Result<(), Seq<char>> {
    if actions.contains(Action::Tag) && !actions.contains(Action::Commit) {
        Err("git action 'tag' requires 'commit'"@)
    } else if actions.contains(Action::Push) && !actions.contains(Action::Commit) {
        Err("git action 'push' requires 'commit'"@)
    } else if actions.contains(Action::Pr) && !actions.contains(Action::Push) {
        Err("git action 'pr' requires 'push'"@)
    } else if actions.contains(Action::Pr) && !actions.contains(Action::Branch) {
        Err("git action 'pr' requires 'branch'"@)
    } else if actions.contains(Action::Tag) && actions.contains(Action::Branch) {
        Err("git actions 'tag' and 'branch' cannot coexist"@)
    } else {
        Ok(())
    }
}

impl GitConfig {
    /// Tells whether `action` is among the configured steps.
    pub fn has(&self, action: Action) -> (r: bool)
        ensures
            r == self.actions@.contains(action),
    {
        let mut i: usize = 0;
        while i < self.actions.len()
            invariant
                i <= self.actions.len(),
                forall|j: int| 0 <= j < i ==> self.actions@[j] != action,
            decreases self.actions.len() - i,
        {
            if self.actions[i] == action {
                return true;
            }
            i += 1;
        }
        false
    }

    /// Checks that the configured steps can run together.
    pub fn validate(&self) -> (r: Result<(), String>)
        ensures
            unit_outcome(r) == actions_verdict(self.actions@),
    {
        if self.has(Action::Tag) && !self.has(Action::Commit) {
            return Err(String::from_str("git action 'tag' requires 'commit'"));
        }
        if self.has(Action::Push) && !self.has(Action::Commit) {
            return Err(String::from_str("git action 'push' requires 'commit'"));
        }
        if self.has(Action::Pr) && !self.has(Action::Push) {
            return Err(String::from_str("git action 'pr' requires 'push'"));
        }
        if self.has(Action::Pr) && !self.has(Action::Branch) {
            return Err(String::from_str("git action 'pr' requires 'branch'"));
        }
        if self.has(Action::Tag) && self.has(Action::Branch) {
            return Err(String::from_str("git actions 'tag' and 'branch' cannot coexist"));
        }
        Ok(())
    }
}

/// One file in which the version is written.
#[derive(Debug)]
pub struct FileConfig {
    /// The file's path, relative to the project root.
    pub src: String,
    /// The grammar of the version in this file; the configuration's default
    /// where none is given.
    pub kind: Option<FileKind>,
}

impl FileConfig {
    /// The grammar that governs this file under the given default.
    pub fn kind_or(&self, default_kind: FileKind) -> (r: FileKind)
        ensures
            r == match self.kind {
                Some(k) => k,
                None => default_kind,
            },
    {
        match self.kind {
            Some(k) => k,
            None => default_kind,
        }
    }
}

/// The whole configuration of a project.
#[derive(Debug)]
pub struct Config {
    pub current_version: Option<String>,
    pub context_lines: Option<usize>,
    pub default_kind: FileKind,
    pub on_invalid_version: OnInvalidVersion,
    pub git: GitConfig,
    pub files: Vec<FileConfig>,
}

impl Config {
    /// Takes `fallback` for the current version where the configuration
    /// names none. Nothing else changes.
    pub fn fill_version(&mut self, fallback: Option<String>)
        ensures
            final(self).current_version == if old(self).current_version is None {
                fallback
            } else {
                old(self).current_version
            },
            final(self).context_lines == old(self).context_lines,
            final(self).default_kind == old(self).default_kind,
            final(self).on_invalid_version == old(self).on_invalid_version,
            final(self).git == old(self).git,
            final(self).files == old(self).files,
    {
        if self.current_version.is_none() {
            self.current_version = fallback;
        }
    }
}

impl Default for Config {
    fn default() -> (r: Self)
        ensures
            r.current_version is None,
            r.context_lines is None,
            r.default_kind == FileKind::Any,
            r.on_invalid_version == OnInvalidVersion::Error,
            r.git.actions@ == seq![Action::AddAll, Action::Commit, Action::Tag],
            r.git.run_pre_commit == RunPreCommit::WhenPresent,
            r.files@.len() == 0,
    {
        Config {
            current_version: None,
            context_lines: None,
            default_kind: FileKind::Any,
            on_invalid_version: OnInvalidVersion::Error,
            git: GitConfig::default(),
            files: Vec::new(),
        }
    }
}

} // verus!
