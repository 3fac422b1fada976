# gig

`gig` clones repos into a predictable `root-dir/host/owner/repo` workspace,
routes them into category subtrees by regex rules, and recognizes repos that
are already cloned instead of cloning them again or clobbering what is there.

## Layout

- `src/` - the library, verified with Verus: URL parsing and the destination
  it implies, category routing (patterns compiled and matched with the
  `regex` crate), the `git config` layout of categories and the edits each
  `config category` form makes (modelled both per key and as the ordered
  entries of the config file), where `get` lands and what it does there,
  the default-subcommand rewrite of the command line, the walk that finds
  cloned repos (decided directory by directory, with its overall result
  stated over a model of the directory tree) and their listing order,
  and the texts the program prints. Running `git` and reading the
  filesystem are left to the caller: the library describes each `git`
  invocation (`git_cmd::GitCommand`) and interprets what it reported.
- `app/` - the `gig` program around the library: argument parsing (`clap`),
  shell completion (`clap_complete`), the interactive picker (`dialoguer`),
  running `git`, reading directories, `--debug` output and printing.
- `tests/` - the library's tests, including whole-command scenarios run
  against an in-memory stand-in for `git` and the filesystem.

The main properties are stated as public proof functions named `law_*`
next to the functions they speak of.
