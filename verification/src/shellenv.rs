//! Shell integration for `gig cd` and `gig get`: `gig` can't change its
//! parent shell's working directory, so `shellenv` prints a shell function -
//! meant to be `eval`'d into the user's shell - that runs the real `gig` and
//! `cd`s based on what it reports back. `gig cd` prints only the chosen path
//! on stdout; `gig get` writes its destination to the file named by
//! `GIG_CD_FILE`, which the function sets to a fresh temporary file.
use vstd::prelude::*;
use crate::cli::Shell;

verus! {

/// The shell function for bash and zsh.
pub const BASH_ZSH: &'static str = r#"gig() {
    if [ "$1" = "cd" ]; then
        local dir
        if dir=$(command gig "$@"); then
            cd "$dir" || return
        else
            return 1
        fi
    else
        local cd_file status
        cd_file=$(mktemp)
        GIG_CD_FILE="$cd_file" command gig "$@"
        status=$?
        if [ $status -eq 0 ] && [ -s "$cd_file" ]; then
            cd "$(cat "$cd_file")"
        fi
        rm -f "$cd_file"
        return $status
    fi
}
"#;

/// The shell function for fish.
pub const FISH: &'static str = r#"function gig
    if test "$argv[1]" = cd
        set -l dir (command gig $argv)
        if test $status -eq 0
            cd $dir
        else
            return 1
        end
    else
        set -l cd_file (mktemp)
        set -lx GIG_CD_FILE $cd_file
        command gig $argv
        set -l cmd_status $status
        if test $cmd_status -eq 0; and test -s $cd_file
            cd (cat $cd_file)
        end
        rm -f $cd_file
        return $cmd_status
    end
end
"#;

/// The shell function text for `shell`, ready to print for the user to
/// `eval`/`source`. Bash and zsh share one syntax; fish needs its own.
pub fn script(shell: Shell) -> (s: &'static str)
    ensures
        shell == Shell::Fish ==> s@ == FISH@,
        shell != Shell::Fish ==> s@ == BASH_ZSH@,
{
    match shell {
        Shell::Bash | Shell::Zsh => BASH_ZSH,
        Shell::Fish => FISH,
    }
}

} // verus!
