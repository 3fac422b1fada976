//! The `git` invocations the library asks for, and the captured result of
//! running one. Running `git` itself is left to the caller; every module
//! that needs `git` describes its invocation here. `git config` runs with
//! its output captured, and the library interprets that; `git clone` and
//! `git pull` run with the terminal inherited, so their own output reaches
//! the user, and only their success is interpreted (`crate::git_ops`).
use vstd::prelude::*;
use vstd::string::*;

verus! {

/// What a finished `git` invocation reported: whether it exited with
/// success, its exit code if it had one, and its standard output and error
/// decoded as text.
#[derive(Debug, Clone)]
pub struct GitOutput {
    pub success: bool,
    pub code: Option<i32>,
    pub stdout: String,
    pub stderr: String,
}

/// One `git` invocation.
#[derive(Debug, Clone, PartialEq, Eq)]
pub enum GitCommand {
    /// `git config --get <key>`
    ConfigGet { key: String },
    /// `git config --get-all <key>`
    ConfigGetAll { key: String },
    /// `git config --get-regexp <pattern>`
    ConfigGetRegexp { pattern: String },
    /// `git config --global <key> <value>`
    ConfigSetGlobal { key: String, value: String },
    /// `git config --add --global <key> <value>`
    ConfigAddGlobal { key: String, value: String },
    /// `git config --unset --global <key>`
    ConfigUnsetGlobal { key: String },
    /// `git config --replace-all --global <key> <value>`
    ConfigReplaceAllGlobal { key: String, value: String },
    /// `git clone <url> <destination>`
    Clone { url: String, destination: String },
    /// `git -C <destination> pull`
    Pull { destination: String },
}

/// The argument list (after `git`) of an invocation.
pub open spec fn command_args(c: GitCommand) -> Seq<Seq<char>> {
    match c {
        GitCommand::ConfigGet { key } => seq!["config"@, "--get"@, key@],
        GitCommand::ConfigGetAll { key } => seq!["config"@, "--get-all"@, key@],
        GitCommand::ConfigGetRegexp { pattern } => seq!["config"@, "--get-regexp"@, pattern@],
        GitCommand::ConfigSetGlobal { key, value } => seq!["config"@, "--global"@, key@, value@],
        GitCommand::ConfigAddGlobal { key, value } => seq![
            "config"@,
            "--add"@,
            "--global"@,
            key@,
            value@,
        ],
        GitCommand::ConfigUnsetGlobal { key } => seq!["config"@, "--unset"@, "--global"@, key@],
        GitCommand::ConfigReplaceAllGlobal { key, value } => seq![
            "config"@,
            "--replace-all"@,
            "--global"@,
            key@,
            value@,
        ],
        GitCommand::Clone { url, destination } => seq!["clone"@, url@, destination@],
        GitCommand::Pull { destination } => seq!["-C"@, destination@, "pull"@],
    }
}

fn owned(s: &str) -> (r: String)
    ensures
        r@ == s@,
{
    s.to_owned()
}

impl GitCommand {
    /// The argument list (after `git`) of this invocation.
    pub fn args(&self) -> (r: Vec<String>)
        ensures
            r.deep_view() == command_args(*self),
    {
        let r = match self {
            GitCommand::ConfigGet { key } => vec![owned("config"), owned("--get"), key.clone()],
            GitCommand::ConfigGetAll { key } => vec![
                owned("config"),
                owned("--get-all"),
                key.clone(),
            ],
            GitCommand::ConfigGetRegexp { pattern } => vec![
                owned("config"),
                owned("--get-regexp"),
                pattern.clone(),
            ],
            GitCommand::ConfigSetGlobal { key, value } => vec![
                owned("config"),
                owned("--global"),
                key.clone(),
                value.clone(),
            ],
            GitCommand::ConfigAddGlobal { key, value } => vec![
                owned("config"),
                owned("--add"),
                owned("--global"),
                key.clone(),
                value.clone(),
            ],
            GitCommand::ConfigUnsetGlobal { key } => vec![
                owned("config"),
                owned("--unset"),
                owned("--global"),
                key.clone(),
            ],
            GitCommand::ConfigReplaceAllGlobal { key, value } => vec![
                owned("config"),
                owned("--replace-all"),
                owned("--global"),
                key.clone(),
                value.clone(),
            ],
            GitCommand::Clone { url, destination } => vec![
                owned("clone"),
                url.clone(),
                destination.clone(),
            ],
            GitCommand::Pull { destination } => vec![
                owned("-C"),
                destination.clone(),
                owned("pull"),
            ],
        };
        assert(r.deep_view() =~= command_args(*self));
        r
    }
}

} // verus!
