//! The errors every part of the library reports, each with its text.
use vstd::prelude::*;
use vstd::string::*;
use crate::text::{join_strings, join_with};

verus! {

/// A failure of a library operation. Each variant keeps what its text names.
#[derive(Debug, Clone, PartialEq, Eq)]
pub enum GigError {
    /// The URL is in neither accepted form.
    UnsupportedUrl { url: String },
    /// A `git` invocation exited unsuccessfully; `stderr` is its trimmed
    /// standard error.
    GitFailed { command: Vec<String>, stderr: String },
    /// A `--get-regexp` line whose key is not `gig.category.<name>.pattern`.
    UnexpectedConfigKey { key: String },
    /// A pattern list replaced by nothing.
    NoPatterns,
    /// A category name holding `/`, `\` or `..`.
    UnsafeCategoryName { name: String },
    /// A category pattern that does not compile; `detail` is the regex
    /// engine's own text.
    InvalidPattern { name: String, pattern: String, detail: String },
    /// A category used before it was declared.
    CategoryNotDeclared { name: String },
    /// The destination exists and is not a clone.
    Occupied { destination: String },
    /// `gig.root-dir` is not set.
    RootDirUnset,
    /// `config category` flags or patterns given without a name.
    NameRequired,
    /// `--add` together with `--flag-only`.
    AddWithFlagOnly { name: String },
    /// Patterns together with `--flag-only`.
    PatternWithFlagOnly { name: String },
    /// `--add` without a pattern.
    AddWithoutPattern,
    /// `--default` together with `--no-default`.
    DefaultWithNoDefault { name: String },
    /// `--add` together with `--default` or `--no-default`.
    AddWithDefault { name: String },
    /// A `gig.autocd-into` value other than `true` or `false`.
    InvalidAutocd { value: String },
    /// `--cd` together with `--no-cd`.
    CdConflict,
    /// `git clone` failed; git's own output already reached the user.
    CloneFailed { url: String, destination: String },
    /// `git -C <destination> pull` failed; git's own output already reached
    /// the user.
    PullFailed { destination: String },
}

/// The text of an error.
pub open spec fn error_text(e: GigError) -> Seq<char> {
    match e {
        GigError::UnsupportedUrl { url } => "unsupported URL form: `"@ + url@
            + "` (expected `git@host:path[.git]` or `https://host/path[.git]`)"@,
        GigError::GitFailed { command, stderr } => "git "@ + join_with(command.deep_view(), ' ')
            + " failed: "@ + stderr@,
        GigError::UnexpectedConfigKey { key } => "unexpected `git config --get-regexp` key: "@
            + key@,
        GigError::NoPatterns => "replace requires at least one pattern"@,
        GigError::UnsafeCategoryName { name } => "category name '"@ + name@
            + "' is not path-safe - it must not contain `/`, `\\`, or `..`"@,
        GigError::InvalidPattern { name, pattern, detail } => "category '"@ + name@
            + "' has an invalid pattern `"@ + pattern@ + "`: "@ + detail@,
        GigError::CategoryNotDeclared { name } => "category '"@ + name@
            + "' is not declared. Run `gig config category "@ + name@
            + " <pattern>` to declare it."@,
        GigError::Occupied { destination } => destination@
            + " already exists and is not a git repository (no .git directory) - refusing to clone into it"@,
        GigError::RootDirUnset => "gig.root-dir is not set. Run `gig config root-dir <path>` to set it."@,
        GigError::NameRequired => "--add, --flag-only, --default, --no-default, and <pattern> require a category <name>"@,
        GigError::AddWithFlagOnly { name } => "--add and --flag-only are mutually exclusive - `config category "@
            + name@ + "` was given both"@,
        GigError::PatternWithFlagOnly { name } => "<pattern> and --flag-only are mutually exclusive - `config category "@
            + name@ + "` was given both"@,
        GigError::AddWithoutPattern => "at least one pattern is required with --add"@,
        GigError::DefaultWithNoDefault { name } => "--default and --no-default are mutually exclusive - `config category "@
            + name@ + "` was given both"@,
        GigError::AddWithDefault { name } => "--add cannot be combined with --default or --no-default - `config category "@
            + name@ + "` was given both"@,
        GigError::InvalidAutocd { value } => "invalid value '"@ + value@
            + "' for gig.autocd-into - must be 'true' or 'false'"@,
        GigError::CdConflict => "--cd and --no-cd are mutually exclusive"@,
        GigError::CloneFailed { url, destination } => "git clone "@ + url@ + " "@ + destination@
            + " failed"@,
        GigError::PullFailed { destination } => "git -C "@ + destination@ + " pull failed"@,
    }
}

impl GigError {
    /// The error's text, as shown to the user.
    pub fn message(&self) -> (s: String)
        ensures
            s@ == error_text(*self),
    {
        match self {
            GigError::UnsupportedUrl { url } => {
                let mut s = "unsupported URL form: `".to_owned();
                s.append(url.as_str());
                s.append("` (expected `git@host:path[.git]` or `https://host/path[.git]`)");
                s
            },
            GigError::GitFailed { command, stderr } => {
                let mut s = "git ".to_owned();
                let joined = join_strings(command, ' ');
                s.append(joined.as_str());
                s.append(" failed: ");
                s.append(stderr.as_str());
                s
            },
            GigError::UnexpectedConfigKey { key } => {
                let mut s = "unexpected `git config --get-regexp` key: ".to_owned();
                s.append(key.as_str());
                s
            },
            GigError::NoPatterns => "replace requires at least one pattern".to_owned(),
            GigError::UnsafeCategoryName { name } => {
                let mut s = "category name '".to_owned();
                s.append(name.as_str());
                s.append("' is not path-safe - it must not contain `/`, `\\`, or `..`");
                s
            },
            GigError::InvalidPattern { name, pattern, detail } => {
                let mut s = "category '".to_owned();
                s.append(name.as_str());
                s.append("' has an invalid pattern `");
                s.append(pattern.as_str());
                s.append("`: ");
                s.append(detail.as_str());
                s
            },
            GigError::CategoryNotDeclared { name } => {
                let mut s = "category '".to_owned();
                s.append(name.as_str());
                s.append("' is not declared. Run `gig config category ");
                s.append(name.as_str());
                s.append(" <pattern>` to declare it.");
                s
            },
            GigError::Occupied { destination } => {
                let mut s = destination.clone();
                s.append(
                    " already exists and is not a git repository (no .git directory) - refusing to clone into it",
                );
                s
            },
            GigError::RootDirUnset => "gig.root-dir is not set. Run `gig config root-dir <path>` to set it.".to_owned(),
            GigError::NameRequired => "--add, --flag-only, --default, --no-default, and <pattern> require a category <name>".to_owned(),
            GigError::AddWithFlagOnly { name } => {
                let mut s = "--add and --flag-only are mutually exclusive - `config category ".to_owned();
                s.append(name.as_str());
                s.append("` was given both");
                s
            },
            GigError::PatternWithFlagOnly { name } => {
                let mut s = "<pattern> and --flag-only are mutually exclusive - `config category ".to_owned();
                s.append(name.as_str());
                s.append("` was given both");
                s
            },
            GigError::AddWithoutPattern => "at least one pattern is required with --add".to_owned(),
            GigError::DefaultWithNoDefault { name } => {
                let mut s = "--default and --no-default are mutually exclusive - `config category ".to_owned();
                s.append(name.as_str());
                s.append("` was given both");
                s
            },
            GigError::AddWithDefault { name } => {
                let mut s = "--add cannot be combined with --default or --no-default - `config category ".to_owned();
                s.append(name.as_str());
                s.append("` was given both");
                s
            },
            GigError::InvalidAutocd { value } => {
                let mut s = "invalid value '".to_owned();
                s.append(value.as_str());
                s.append("' for gig.autocd-into - must be 'true' or 'false'");
                s
            },
            GigError::CdConflict => "--cd and --no-cd are mutually exclusive".to_owned(),
            GigError::CloneFailed { url, destination } => {
                let mut s = "git clone ".to_owned();
                s.append(url.as_str());
                s.append(" ");
                s.append(destination.as_str());
                s.append(" failed");
                s
            },
            GigError::PullFailed { destination } => {
                let mut s = "git -C ".to_owned();
                s.append(destination.as_str());
                s.append(" pull failed");
                s
            },
        }
    }
}

} // verus!
