//! Post-restart validation: decide which restored sessions survive.

use vstd::prelude::*;

verus! {

use crate::snapshot::PersistedTerminal;
use crate::snapshot::PersistError;
use crate::snapshot::SpecTerminal;

/// The errors a validation pass reports for one workspace, given for each
/// terminal whether its descriptor is still open and its process still
/// runs: a closed descriptor is reported first and hides the process
/// probe, as a dead descriptor makes the pid probe meaningless.
pub open spec fn spec_validate_errors(
    terms: Seq<SpecTerminal>,
    probes: Seq<(bool, bool)>,
    i: int,
) -> Seq<(usize, PersistError)>
    decreases terms.len() - i,
{
    if i < 0 || i >= terms.len() || i >= probes.len() {
        Seq::empty()
    } else {
        let rest = spec_validate_errors(terms, probes, i + 1);
        if !probes[i].0 {
            seq![(i as usize, PersistError::InvalidFd(terms[i].pty_fd))] + rest
        } else if !probes[i].1 {
            seq![(i as usize, PersistError::ProcessNotRunning(terms[i].pty_pid))] + rest
        } else {
            rest
        }
    }
}

/// Collect the validation failures among one workspace's terminals. The
/// probes come from the descriptor-flags and zero-signal checks; this
/// decides, for every outcome, exactly which sessions must be dropped.
#[verifier::rlimit(100)]
#[verifier::spinoff_prover]
pub fn validate_terminals(terms: &Vec<PersistedTerminal>, probes: &Vec<(bool, bool)>) -> (r: Vec<
    (usize, PersistError),
>)
    requires
        terms@.len() == probes@.len(),
    ensures
        r@ == spec_validate_errors(crate::snapshot::terms_view(terms@), probes@, 0),
{
    let mut r: Vec<(usize, PersistError)> = Vec::new();
    let mut i: usize = terms.len();
    proof {
        assert(spec_validate_errors(crate::snapshot::terms_view(terms@), probes@, i as int)
            =~= Seq::<(usize, PersistError)>::empty());
    }
    while i > 0
        invariant
            i <= terms@.len(),
            terms@.len() == probes@.len(),
            r@ == spec_validate_errors(crate::snapshot::terms_view(terms@), probes@, i as int),
        decreases i,
    {
        i = i - 1;
        let ghost before = r@;
        if !probes[i].0 {
            let mut nr: Vec<(usize, PersistError)> = Vec::new();
            nr.push((i, PersistError::InvalidFd(terms[i].pty_fd)));
            nr.append(&mut r);
            r = nr;
            proof {
                assert(r@ =~= seq![
                    (i as usize, PersistError::InvalidFd(crate::snapshot::terms_view(terms@)[i as int].pty_fd)),
                ] + before);
            }
        } else if !probes[i].1 {
            let mut nr: Vec<(usize, PersistError)> = Vec::new();
            nr.push((i, PersistError::ProcessNotRunning(terms[i].pty_pid)));
            nr.append(&mut r);
            r = nr;
            proof {
                assert(r@ =~= seq![
                    (
                        i as usize,
                        PersistError::ProcessNotRunning(crate::snapshot::terms_view(terms@)[i as int].pty_pid),
                    ),
                ] + before);
            }
        }
    }
    r
}

} // verus!
