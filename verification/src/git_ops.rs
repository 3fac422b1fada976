//! Interpretation of the `git clone` and `git pull` that `get` runs. Both
//! run with the terminal inherited, so git's own progress and messages
//! reach the user directly; the library only learns whether git succeeded.
//! The clone and pull themselves are the system `git` binary's; no other git
//! implementation is involved.
use vstd::prelude::*;
use vstd::string::*;
use crate::error::GigError;

verus! {

/// `git clone <url> <destination>`, given whether git reported success:
/// `Ok` exactly then, otherwise an error naming the invocation.
pub fn clone(url: &str, destination: &str, succeeded: bool) -> (r: Result<(), GigError>)
    ensures
        succeeded <==> r is Ok,
        r matches Err(e) ==> (e matches GigError::CloneFailed { url: u, destination: d } && u@
            == url@ && d@ == destination@),
{
    if succeeded {
        Ok(())
    } else {
        Err(GigError::CloneFailed { url: url.to_owned(), destination: destination.to_owned() })
    }
}

/// `git -C <destination> pull`, given whether git reported success: `Ok`
/// exactly then, otherwise an error naming the destination.
pub fn pull(destination: &str, succeeded: bool) -> (r: Result<(), GigError>)
    ensures
        succeeded <==> r is Ok,
        r matches Err(e) ==> (e matches GigError::PullFailed { destination: d } && d@
            == destination@),
{
    if succeeded {
        Ok(())
    } else {
        Err(GigError::PullFailed { destination: destination.to_owned() })
    }
}

} // verus!
