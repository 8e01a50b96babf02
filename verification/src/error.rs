//! The error taxonomy of dependency resolution, and the accumulator that
//! folds the outcomes of parallel branches into one result: success only when
//! every branch succeeded, otherwise the complete, non-empty collection of
//! branch errors.

use vstd::prelude::*;

verus! {

/// Errors that can occur during dependency resolution.
#[derive(Debug, PartialEq, Eq)]
pub enum Error {
    /// A lock around the shared resolution state was poisoned: a
    /// participating task terminated abnormally while holding it. Fatal for
    /// the whole resolution.
    PoisonedMutex,
    /// An error pulling a database handle from the resource pool.
    R2D2(String),
    /// An error parsing a source manifest.
    Srcinfo(String),
    /// An error cloning or pulling a repo.
    Git(String),
    /// Multiple errors during concurrent dependency resolution.
    Resolutions(Vec<Error>),
    /// A named dependency does not exist.
    DoesntExist(String),
    /// A named dependency of some known package does not exist.
    DoesntExistWithParent(String, String),
    /// Contacting the remote metadata service somehow failed.
    Faur(String),
}

/// The errors of a sequence of branch outcomes, in branch order.
pub open spec fn branch_errors(s: Seq<Result<(), Error>>) -> Seq<Error>
    decreases s.len(),
{
    if s.len() == 0 {
        Seq::empty()
    } else {
        branch_errors(s.drop_last()) + (if s.last() is Err {
            seq![s.last()->Err_0]
        } else {
            Seq::empty()
        })
    }
}

/// Fold the outcomes of a parallel fan-out into one: `Ok` exactly when every
/// branch succeeded, otherwise the non-empty collection of every branch's
/// error, in branch order — no branch's failure hides another's.
pub fn combine_errors(results: Vec<Result<(), Error>>) -> (r: Result<(), Error>)
    ensures
        r is Ok <==> branch_errors(results@).len() == 0,
        r is Err ==> (r->Err_0 matches Error::Resolutions(es) && es@ == branch_errors(results@)
            && es@.len() > 0),
{
    let ghost all = results@;
    let mut rest = results;
    let mut errs: Vec<Error> = Vec::new();
    let ghost k: int = 0;
    while rest.len() > 0
        invariant
            0 <= k <= all.len(),
            rest@ =~= all.skip(k),
            errs@ =~= branch_errors(all.take(k)),
        decreases rest@.len(),
    {
        proof {
            assert(all.skip(k)[0] == all[k]);
            assert(all.skip(k).remove(0) =~= all.skip(k + 1));
            assert(all.take(k + 1).drop_last() =~= all.take(k));
            assert(all.take(k + 1).last() == all[k]);
        }
        match rest.remove(0) {
            Ok(_) => {
                proof {
                    assert(errs@ =~= branch_errors(all.take(k + 1)));
                }
            },
            Err(e) => {
                errs.push(e);
                proof {
                    assert(errs@ =~= branch_errors(all.take(k + 1)));
                }
            },
        }
        proof {
            k = k + 1;
        }
    }
    proof {
        assert(all.take(all.len() as int) =~= all);
    }
    if errs.len() == 0 {
        Ok(())
    } else {
        Err(Error::Resolutions(errs))
    }
}

} // verus!
