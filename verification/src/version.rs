//! The version text shared by `-V`/`--version` and `gig version`, so the
//! two stay identical by construction.
use vstd::prelude::*;
use vstd::string::*;

verus! {

/// `"<pkg-version> (<short-commit>[-dirty])"`, or
/// `"<pkg-version> (unknown)"` when no commit is known.
pub open spec fn version_text(pkg_version: Seq<char>, commit: Option<Seq<char>>, dirty: Option<bool>) -> Seq<
    char,
> {
    match commit {
        None => pkg_version + " (unknown)"@,
        Some(c) => pkg_version + " ("@ + c + (if dirty == Some(true) {
            "-dirty"@
        } else {
            Seq::empty()
        }) + ")"@,
    }
}

/// The version text from the package version and what the build knew of
/// the git commit it was built from (short hash, whether the tree was
/// dirty); `(unknown)` when the commit could not be determined (source
/// tarball, `cargo install`, a shallow or gitless checkout).
pub fn string(pkg_version: &str, commit: Option<&str>, dirty: Option<bool>) -> (s: String)
    ensures
        s@ == version_text(pkg_version@, crate::text::opt_str_view(commit), dirty),
{
    let mut s = pkg_version.to_owned();
    match commit {
        None => {
            s.append(" (unknown)");
        },
        Some(c) => {
            s.append(" (");
            s.append(c);
            if dirty == Some(true) {
                s.append("-dirty");
            } else {
                assert(s@ + Seq::<char>::empty() =~= s@);
            }
            s.append(")");
        },
    }
    s
}

} // verus!
