//! The command line: the parsed shape of every subcommand, and the rewrite
//! that makes `get` the default subcommand.
use vstd::prelude::*;
use vstd::string::*;
use crate::text::eq_str;

verus! {

/// A parsed command line.
#[derive(Debug, Clone)]
pub struct Cli {
    pub command: Commands,
    /// Print diagnostic detail to stderr.
    pub debug: bool,
}

/// The subcommands.
#[derive(Debug, Clone)]
pub enum Commands {
    /// Clone a repo by URL, or update it if already cloned.
    Get(GetArgs),
    /// View or set gig configuration.
    Config { command: ConfigCommand },
    /// List every repo already cloned under root-dir.
    List,
    /// Interactively pick a cloned repo and print its path.
    Cd(CdArgs),
    /// Print a shell completion script.
    Completion(CompletionArgs),
    /// Print the shell function for auto-cd.
    Shellenv(ShellenvArgs),
    /// Print the current version.
    Version,
}

/// Arguments of `completion`.
#[derive(Debug, Clone)]
pub struct CompletionArgs {
    pub shell: Shell,
}

/// Arguments of `cd`: text the picker starts filtered to.
#[derive(Debug, Clone)]
pub struct CdArgs {
    pub filter: Option<String>,
}

/// Arguments of `shellenv`.
#[derive(Debug, Clone)]
pub struct ShellenvArgs {
    pub shell: Shell,
}

/// The shells `completion` and `shellenv` generate output for.
#[derive(Debug, Clone, Copy, PartialEq, Eq, Structural)]
pub enum Shell {
    Bash,
    Zsh,
    Fish,
}

/// Arguments of `get`.
#[derive(Debug, Clone)]
pub struct GetArgs {
    pub url: String,
    pub pull: bool,
    pub category: Option<String>,
    /// Auto-cd into the destination, overriding `gig.autocd-into`.
    pub cd: bool,
    /// Skip auto-cd, overriding `gig.autocd-into`.
    pub no_cd: bool,
}

/// The `config` subcommands.
#[derive(Debug, Clone)]
pub enum ConfigCommand {
    /// View or set the root-dir where repos are cloned.
    RootDir { path: Option<String> },
    /// View, set, or list category routing rules.
    Category(CategoryArgs),
    /// View or set whether `get` auto-cds into the destination.
    AutocdInto { value: Option<String> },
}

/// Arguments of `config category`; see `config_category::run_config_category`
/// for the forms they select.
#[derive(Debug, Clone)]
pub struct CategoryArgs {
    pub name: Option<String>,
    pub patterns: Vec<String>,
    pub flag_only: bool,
    pub add: bool,
    pub default: bool,
    pub no_default: bool,
}

/// The global flags that may precede the subcommand.
pub open spec fn is_global_flag(a: Seq<char>) -> bool {
    a == "--debug"@
}

/// The words that already select a subcommand or ask for help/version.
pub open spec fn is_known_word(a: Seq<char>) -> bool {
    ||| a == "get"@
    ||| a == "config"@
    ||| a == "list"@
    ||| a == "ls"@
    ||| a == "cd"@
    ||| a == "completion"@
    ||| a == "shellenv"@
    ||| a == "version"@
    ||| a == "help"@
    ||| a == "-h"@
    ||| a == "--help"@
    ||| a == "-V"@
    ||| a == "--version"@
}

/// The first position at or after `i` that does not hold a global flag, or
/// the length of `args`.
pub open spec fn skip_global_flags(args: Seq<Seq<char>>, i: int) -> int
    decreases args.len() - i,
{
    if i >= args.len() {
        args.len() as int
    } else if is_global_flag(args[i]) {
        skip_global_flags(args, i + 1)
    } else {
        i
    }
}

/// Where `get` is inserted: at the first argument after the program name
/// that is not a global flag, unless that argument already names a
/// subcommand or asks for help/version.
pub open spec fn get_insertion(args: Seq<Seq<char>>) -> Option<int> {
    let i = skip_global_flags(args, 1);
    if i < args.len() && !is_known_word(args[i]) {
        Some(i)
    } else {
        None
    }
}

/// The arguments with `get` inserted where `get_insertion` says.
pub open spec fn normalized_args(args: Seq<Seq<char>>) -> Seq<Seq<char>> {
    match get_insertion(args) {
        Some(i) => args.insert(i, "get"@),
        None => args,
    }
}

fn is_known(a: &String) -> (b: bool)
    ensures
        b == is_known_word(a@),
{
    let s = a.as_str();
    eq_str(s, "get") || eq_str(s, "config") || eq_str(s, "list") || eq_str(s, "ls") || eq_str(
        s,
        "cd",
    ) || eq_str(s, "completion") || eq_str(s, "shellenv") || eq_str(s, "version") || eq_str(
        s,
        "help",
    ) || eq_str(s, "-h") || eq_str(s, "--help") || eq_str(s, "-V") || eq_str(s, "--version")
}

/// `get` is the default subcommand, so `gig <url>` must parse the same as
/// `gig get <url>`. Leading global flags (`--debug`) are skipped first, so
/// `gig --debug <url>` and `gig --debug config ...` both resolve correctly
/// rather than having `--debug` taken for the URL or subcommand.
pub fn normalize_args(args: Vec<String>) -> (r: Vec<String>)
    ensures
        r.deep_view() == normalized_args(args.deep_view()),
{
    let ghost a = args.deep_view();
    let n = args.len();
    let mut i: usize = 1;
    if n == 0 {
        return args;
    }
    while i < n && eq_str(args[i].as_str(), "--debug")
        invariant
            n == args@.len(),
            a == args.deep_view(),
            1 <= i <= n,
            skip_global_flags(a, 1) == skip_global_flags(a, i as int),
        decreases n - i,
    {
        assert(a[i as int] == args@[i as int]@);
        i = i + 1;
    }
    assert(skip_global_flags(a, i as int) == i) by {
        if i < n {
            assert(a[i as int] == args@[i as int]@);
        }
    }
    if i < n && !is_known(&args[i]) {
        let mut r = args;
        r.insert(i, "get".to_owned());
        assert(r.deep_view() =~= a.insert(i as int, "get"@));
        r
    } else {
        args
    }
}

proof fn lemma_skip_same(a: Seq<Seq<char>>, b: Seq<Seq<char>>, k: int, i: int)
    requires
        0 <= k <= i < b.len(),
        i <= a.len(),
        forall|j: int| k <= j < i ==> a[j] == b[j] && is_global_flag(#[trigger] b[j]),
        !is_global_flag(b[i]),
    ensures
        skip_global_flags(b, k) == i,
    decreases i - k,
{
    if k < i {
        lemma_skip_same(a, b, k + 1, i);
    }
}

proof fn lemma_skip_bounds(a: Seq<Seq<char>>, k: int)
    requires
        0 <= k,
    ensures
        k <= skip_global_flags(a, k) || skip_global_flags(a, k) == a.len(),
        skip_global_flags(a, k) <= a.len() || k > a.len(),
        skip_global_flags(a, k) < a.len() ==> !is_global_flag(a[skip_global_flags(a, k)]),
        forall|j: int| k <= j < skip_global_flags(a, k) ==> is_global_flag(#[trigger] a[j]),
    decreases a.len() - k,
{
    if k < a.len() && is_global_flag(a[k]) {
        lemma_skip_bounds(a, k + 1);
        assert forall|j: int| k <= j < skip_global_flags(a, k) implies is_global_flag(
            #[trigger] a[j],
        ) by {
            if j > k {
            }
        }
    }
}

/// Inserting the default subcommand is idempotent: normalizing an already
/// normalized command line changes nothing.
pub proof fn law_normalize_args_idempotent(args: Seq<Seq<char>>)
    ensures
        normalized_args(normalized_args(args)) == normalized_args(args),
{
    reveal_strlit("get");
    reveal_strlit("--debug");
    match get_insertion(args) {
        Some(i) => {
            lemma_skip_bounds(args, 1);
            let b = args.insert(i, "get"@);
            assert(b[i] == "get"@);
            assert(!is_global_flag(b[i])) by {
                assert("get"@.len() != "--debug"@.len());
            }
            assert forall|j: int| 1 <= j < i implies args[j] == b[j] && is_global_flag(
                #[trigger] b[j],
            ) by {
                assert(b[j] == args[j]);
            }
            lemma_skip_same(args, b, 1, i);
            assert(is_known_word(b[i]));
        },
        None => {},
    }
}

/// `k` copies of the global flag `--debug`.
pub open spec fn debug_flags(k: nat) -> Seq<Seq<char>> {
    Seq::new(k, |j: int| "--debug"@)
}

proof fn lemma_skip_debug_flags(prog: Seq<char>, k: nat, w: Seq<char>, rest: Seq<Seq<char>>)
    requires
        !is_global_flag(w),
    ensures
        ({
            let args = seq![prog] + debug_flags(k) + seq![w] + rest;
            &&& skip_global_flags(args, 1) == 1 + k
            &&& args[1 + k as int] == w
        }),
{
    let args = seq![prog] + debug_flags(k) + seq![w] + rest;
    let i = 1 + k as int;
    assert(args[i] == w);
    assert forall|j: int| 1 <= j < i implies args[j] == args[j] && is_global_flag(#[trigger] args[j]) by {
        assert(args[j] == debug_flags(k)[j - 1]);
    }
    lemma_skip_same(args, args, 1, i);
}

/// `gig [--debug...] <url> ...` is read as `gig [--debug...] get <url> ...`:
/// a URL (it always holds a `:`) in subcommand position gets `get`
/// inserted before it, and nothing else changes.
pub proof fn law_url_gets_get(prog: Seq<char>, k: nat, url: Seq<char>, rest: Seq<Seq<char>>)
    requires
        url.contains(':'),
    ensures
        normalized_args(seq![prog] + debug_flags(k) + seq![url] + rest) == seq![prog] + debug_flags(
            k,
        ) + seq!["get"@, url] + rest,
{
    reveal_strlit("get");
    reveal_strlit("config");
    reveal_strlit("list");
    reveal_strlit("ls");
    reveal_strlit("cd");
    reveal_strlit("completion");
    reveal_strlit("shellenv");
    reveal_strlit("version");
    reveal_strlit("help");
    reveal_strlit("-h");
    reveal_strlit("--help");
    reveal_strlit("-V");
    reveal_strlit("--version");
    reveal_strlit("--debug");
    let j = choose|j: int| 0 <= j < url.len() && url[j] == ':';
    assert(!is_known_word(url) && !is_global_flag(url)) by {
        if is_known_word(url) || is_global_flag(url) {
            assert(url[j] == ':');
        }
    }
    lemma_skip_debug_flags(prog, k, url, rest);
    let args = seq![prog] + debug_flags(k) + seq![url] + rest;
    assert(args.insert(1 + k as int, "get"@) =~= seq![prog] + debug_flags(k) + seq!["get"@, url] + rest);
}

/// A subcommand named in subcommand position is left alone:
/// `gig [--debug...] <subcommand> ...` is not rewritten.
pub proof fn law_subcommand_is_kept(prog: Seq<char>, k: nat, word: Seq<char>, rest: Seq<Seq<char>>)
    requires
        word == "get"@ || word == "config"@ || word == "list"@ || word == "ls"@ || word == "cd"@
            || word == "completion"@ || word == "shellenv"@ || word == "version"@,
    ensures
        normalized_args(seq![prog] + debug_flags(k) + seq![word] + rest) == seq![prog]
            + debug_flags(k) + seq![word] + rest,
{
    reveal_strlit("get");
    reveal_strlit("config");
    reveal_strlit("list");
    reveal_strlit("ls");
    reveal_strlit("cd");
    reveal_strlit("completion");
    reveal_strlit("shellenv");
    reveal_strlit("version");
    reveal_strlit("--debug");
    assert(!is_global_flag(word)) by {
        if is_global_flag(word) {
            assert(word[0] == '-');
        }
    }
    lemma_skip_debug_flags(prog, k, word, rest);
}

} // verus!
