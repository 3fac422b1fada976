//! Interpretation of `git config` results, so gig never parses gitconfig
//! files itself and git's own precedence/include rules keep applying
//! untouched. Each function takes what the matching `git config` invocation
//! (see [`crate::git_cmd::GitCommand`]) reported.
use vstd::prelude::*;
use vstd::string::*;
use crate::error::GigError;
use crate::git_cmd::{command_args, GitCommand, GitOutput};
use crate::category_config::{apply_edit, values_of, ConfigEdit};
use crate::text::{chars_of, is_white_space, leading_ws, lines, lines_of, opt_view, trailing_ws, trim, trim_str};

verus! {

/// `e` reports that the invocation with arguments `args` failed, carrying
/// its trimmed standard error.
pub open spec fn failed(e: GigError, args: Seq<Seq<char>>, out: GitOutput) -> bool {
    e matches GigError::GitFailed { command, stderr } && command.deep_view() == args && stderr@
        == trim(out.stderr@)
}

/// The failure of `cmd`, as reported by `out`.
pub fn failure(cmd: &GitCommand, out: &GitOutput) -> (e: GigError)
    ensures
        failed(e, command_args(*cmd), *out),
{
    GigError::GitFailed { command: cmd.args(), stderr: trim_str(out.stderr.as_str()) }
}

/// What `get` makes of a `git config --get` result: `Some(Some(value))`,
/// the trimmed output, on success; `Some(None)` (unset) for exit code 1;
/// `None` (an error) otherwise.
pub open spec fn get_outcome(out: GitOutput) -> Option<Option<Seq<char>>> {
    if out.success {
        Some(Some(trim(out.stdout@)))
    } else if out.code == Some(1i32) {
        Some(None)
    } else {
        None
    }
}

/// `git config --get <key>`: the trimmed value on success; `None` when the
/// key is unset, which `git config --get` reports by exit code 1; any other
/// failure (bad config file, invalid key, ...) is an error rather than
/// "unset".
pub fn get(key: &str, out: &GitOutput) -> (r: Result<Option<String>, GigError>)
    ensures
        out.success ==> (r matches Ok(Some(v)) && v@ == trim(out.stdout@)),
        !out.success && out.code == Some(1i32) ==> r == Ok::<Option<String>, GigError>(None),
        !out.success && out.code != Some(1i32) ==> (r matches Err(e) && failed(
            e,
            seq!["config"@, "--get"@, key@],
            *out,
        )),
        match get_outcome(*out) {
            Some(v) => r matches Ok(x) && opt_view(x) == v,
            None => r is Err,
        },
{
    if out.success {
        Ok(Some(trim_str(out.stdout.as_str())))
    } else if out.code == Some(1i32) {
        Ok(None)
    } else {
        Err(failure(&GitCommand::ConfigGet { key: key.to_owned() }, out))
    }
}

/// `git config --get-all <key>`: every value of a (possibly multi-valued)
/// key, one per output line, in declaration/add order. Empty when the key is
/// unset (exit code 1).
pub fn get_all(key: &str, out: &GitOutput) -> (r: Result<Vec<String>, GigError>)
    ensures
        out.success ==> (r matches Ok(v) && v.deep_view() == lines(out.stdout@)),
        !out.success && out.code == Some(1i32) ==> (r matches Ok(v) && v@.len() == 0),
        !out.success && out.code != Some(1i32) ==> (r matches Err(e) && failed(
            e,
            seq!["config"@, "--get-all"@, key@],
            *out,
        )),
{
    if out.success {
        Ok(lines_of(&chars_of(out.stdout.as_str())))
    } else if out.code == Some(1i32) {
        Ok(Vec::new())
    } else {
        Err(failure(&GitCommand::ConfigGetAll { key: key.to_owned() }, out))
    }
}

/// `git config --global <key> <value>`: succeeds exactly when git did.
pub fn set_global(key: &str, value: &str, out: &GitOutput) -> (r: Result<(), GigError>)
    ensures
        out.success <==> r is Ok,
        r matches Err(e) ==> failed(e, seq!["config"@, "--global"@, key@, value@], *out),
{
    if out.success {
        Ok(())
    } else {
        Err(
            failure(
                &GitCommand::ConfigSetGlobal { key: key.to_owned(), value: value.to_owned() },
                out,
            ),
        )
    }
}

/// `git config --add --global <key> <value>`: succeeds exactly when git did.
pub fn add_global(key: &str, value: &str, out: &GitOutput) -> (r: Result<(), GigError>)
    ensures
        out.success <==> r is Ok,
        r matches Err(e) ==> failed(e, seq!["config"@, "--add"@, "--global"@, key@, value@], *out),
{
    if out.success {
        Ok(())
    } else {
        Err(
            failure(
                &GitCommand::ConfigAddGlobal { key: key.to_owned(), value: value.to_owned() },
                out,
            ),
        )
    }
}

/// `git config --unset --global <key>`: a missing key is not an error -
/// git reports "nothing to unset" by exit code 1 or 5, and the end state the
/// caller wants (`key` absent) holds either way.
pub fn unset_global(key: &str, out: &GitOutput) -> (r: Result<(), GigError>)
    ensures
        (out.success || out.code == Some(1i32) || out.code == Some(5i32)) <==> r is Ok,
        r matches Err(e) ==> failed(e, seq!["config"@, "--unset"@, "--global"@, key@], *out),
{
    if out.success || out.code == Some(1i32) || out.code == Some(5i32) {
        Ok(())
    } else {
        Err(failure(&GitCommand::ConfigUnsetGlobal { key: key.to_owned() }, out))
    }
}

/// `git config --replace-all --global <key> <value>`: succeeds exactly when
/// git did.
pub fn replace_all_global(key: &str, value: &str, out: &GitOutput) -> (r: Result<(), GigError>)
    ensures
        out.success <==> r is Ok,
        r matches Err(e) ==> failed(
            e,
            seq!["config"@, "--replace-all"@, "--global"@, key@, value@],
            *out,
        ),
{
    if out.success {
        Ok(())
    } else {
        Err(
            failure(
                &GitCommand::ConfigReplaceAllGlobal {
                    key: key.to_owned(),
                    value: value.to_owned(),
                },
                out,
            ),
        )
    }
}

/// What `git config --get key` reports on a config store holding `store`:
/// success with the key's last value and a newline, or exit code 1 when the
/// key is unset.
pub open spec fn reports_get(out: GitOutput, store: Map<Seq<char>, Seq<Seq<char>>>, key: Seq<char>) -> bool {
    let vs = values_of(store, key);
    if vs.len() > 0 {
        out.success && out.stdout@ == vs.last() + seq!['\n']
    } else {
        !out.success && out.code == Some(1i32)
    }
}

proof fn lemma_ws_bounds(s: Seq<char>)
    ensures
        leading_ws(s) <= s.len(),
        trailing_ws(s) <= s.len(),
    decreases s.len(),
{
    if s.len() > 0 {
        lemma_ws_bounds(s.drop_first());
        lemma_ws_bounds(s.drop_last());
    }
}

/// A value that `trim` leaves as it is keeps that value through a trailing
/// newline.
proof fn lemma_trim_newline(v: Seq<char>)
    requires
        trim(v) == v,
    ensures
        trim(v + seq!['\n']) == v,
{
    let s = v + seq!['\n'];
    assert(is_white_space('\n'));
    if v.len() == 0 {
        assert(s.len() == 1 && s[0] == '\n');
        assert(s.drop_first() =~= Seq::<char>::empty());
        assert(leading_ws(Seq::<char>::empty()) == 0);
        assert(leading_ws(s) == 1);
        assert(s.skip(1) =~= Seq::<char>::empty());
    } else {
        let t = v.skip(leading_ws(v) as int);
        lemma_ws_bounds(v);
        lemma_ws_bounds(t);
        assert(trim(v).len() == t.len() - trailing_ws(t));
        assert(leading_ws(v) == 0);
        assert(t =~= v);
        assert(trailing_ws(v) == 0);
        assert(!is_white_space(v[0]));
        assert(s[0] == v[0]);
        assert(leading_ws(s) == 0);
        assert(s.skip(0) =~= s);
        assert(s.drop_last() =~= v);
        assert(trailing_ws(s) == 1);
        assert(s.take(s.len() - 1) =~= v);
    }
}

/// A value written with `git config --global <key> <value>` reads back:
/// once the write has been applied to the store (a key holding at most one
/// value, as plain `--global` requires), whatever `git config --get <key>`
/// then reports is read by `get` as exactly that value - for any value that
/// `get`'s trimming leaves unchanged.
pub proof fn law_set_then_get(
    store: Map<Seq<char>, Seq<Seq<char>>>,
    key: Seq<char>,
    value: Seq<char>,
    out: GitOutput,
)
    requires
        values_of(store, key).len() <= 1,
        trim(value) == value,
        apply_edit(store, ConfigEdit::SetValue { key, value }) matches Some(after) && reports_get(
            out,
            after,
            key,
        ),
    ensures
        apply_edit(store, ConfigEdit::SetValue { key, value }) is Some,
        get_outcome(out) == Some(Some(value)),
{
    let after = store.insert(key, seq![value]);
    assert(values_of(after, key) == seq![value]);
    assert(seq![value].last() == value);
    lemma_trim_newline(value);
}

/// Whether `out` reports that the config write `cmd` took effect as the
/// matching function above reads it: `--unset` also when there was nothing
/// to unset (exit code 1 or 5); the other writes only on success. A
/// command that writes nothing always counts.
pub open spec fn write_ok(cmd: GitCommand, out: GitOutput) -> bool {
    match cmd {
        GitCommand::ConfigUnsetGlobal { .. } => out.success || out.code == Some(1i32) || out.code
            == Some(5i32),
        GitCommand::ConfigSetGlobal { .. } => out.success,
        GitCommand::ConfigAddGlobal { .. } => out.success,
        GitCommand::ConfigReplaceAllGlobal { .. } => out.success,
        _ => true,
    }
}

/// What one planned write reported: `Ok` exactly when it took effect,
/// otherwise the error naming the invocation with git's trimmed stderr.
pub fn write_result(cmd: &GitCommand, out: &GitOutput) -> (r: Result<(), GigError>)
    ensures
        r is Ok <==> write_ok(*cmd, *out),
        r matches Err(e) ==> failed(e, command_args(*cmd), *out),
{
    match cmd {
        GitCommand::ConfigSetGlobal { key, value } => set_global(key.as_str(), value.as_str(), out),
        GitCommand::ConfigAddGlobal { key, value } => add_global(key.as_str(), value.as_str(), out),
        GitCommand::ConfigReplaceAllGlobal { key, value } => replace_all_global(
            key.as_str(),
            value.as_str(),
            out,
        ),
        GitCommand::ConfigUnsetGlobal { key } => unset_global(key.as_str(), out),
        _ => Ok(()),
    }
}

/// The next move while running a plan of config writes in order.
#[derive(Debug, Clone, PartialEq, Eq)]
pub enum PlanStep {
    /// Run the write at this position of the plan next.
    Run { index: usize },
    /// Every write took effect.
    Done,
    /// A write failed: stop, with this error; later writes are not run.
    Failed { error: GigError },
}

/// Whether the first `n` reported outcomes all took effect.
pub open spec fn all_ok(plan: Seq<GitCommand>, outcomes: Seq<GitOutput>, n: int) -> bool {
    forall|j: int| 0 <= j < n ==> write_ok(#[trigger] plan[j], outcomes[j])
}

/// Running `plan` in order and stopping at the first write that fails,
/// given the outcomes reported so far (one per write already run, in plan
/// order): the first failed write ends the run with its error; otherwise
/// the next write is run, until none is left.
pub fn plan_step(plan: &Vec<GitCommand>, outcomes: &Vec<GitOutput>) -> (r: PlanStep)
    ensures
        ({
            let n = if outcomes@.len() < plan@.len() {
                outcomes@.len() as int
            } else {
                plan@.len() as int
            };
            &&& r matches PlanStep::Failed { error } ==> exists|i: int|
                0 <= i < n && all_ok(plan@, outcomes@, i) && !write_ok(plan@[i], outcomes@[i])
                    && failed(error, command_args(plan@[i]), outcomes@[i])
            &&& (r is Failed <==> !all_ok(plan@, outcomes@, n))
            &&& all_ok(plan@, outcomes@, n) ==> (if outcomes@.len() < plan@.len() {
                r == PlanStep::Run { index: outcomes@.len() as usize }
            } else {
                r == PlanStep::Done
            })
        }),
{
    let n = if outcomes.len() < plan.len() {
        outcomes.len()
    } else {
        plan.len()
    };
    for i in 0..n
        invariant
            n <= plan@.len(),
            n <= outcomes@.len(),
            n == plan@.len() || n == outcomes@.len(),
            all_ok(plan@, outcomes@, i as int),
    {
        match write_result(&plan[i], &outcomes[i]) {
            Ok(()) => {},
            Err(error) => {
                return PlanStep::Failed { error };
            },
        }
    }
    if outcomes.len() < plan.len() {
        PlanStep::Run { index: outcomes.len() }
    } else {
        PlanStep::Done
    }
}

} // verus!
