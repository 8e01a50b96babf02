//! The per-name decisions of the resolver. A driver leases database handles,
//! fetches remote metadata and reads manifests; every decision about what a
//! name is and what happens next is made here, against the answers the driver
//! hands in as plain values.

use vstd::prelude::*;

use crate::error::Error;
use crate::state::Resolution;
use crate::state::ResolutionView;
use crate::state::record_official_spec;
use crate::state::record_satisfied_spec;
use crate::state::string_views;

verus! {

/// What the sync database reported for a name: the canonical name of the
/// package that satisfies it, and that package's direct dependencies.
pub struct OfficialRecord {
    /// The canonical name, which may differ from the queried name via a
    /// "provides" relationship.
    pub name: String,
    /// The names of the package's direct dependencies.
    pub deps: Vec<String>,
}

/// What a leased database handle reported for one name. The local-install
/// test comes first: `official` is only consulted when `installed` is false,
/// so a driver that short-circuits the sync lookup may leave it `None`.
pub struct DbReport {
    /// The name is installed locally, or satisfied by an installed package's
    /// "provides" relationship.
    pub installed: bool,
    /// The sync-database package satisfying the name, if one was found.
    pub official: Option<OfficialRecord>,
}

/// What the driver must do next for a name, after its database report was
/// applied to the state.
pub enum NextStep {
    /// The name is satisfied locally; nothing further.
    Satisfied,
    /// The name is official: resolve each of `deps`, attributing failures to
    /// `parent` (the canonical name).
    Install {
        /// The canonical name, the parent for error attribution.
        parent: String,
        /// The official package's direct dependencies, still to resolve.
        deps: Vec<String>,
    },
    /// Neither installed nor official: resolve it as a buildable package.
    Build,
}

/// Apply a database report for `pkg` to the state and decide what follows.
///
/// Lookup order is significant and is fixed here: a name reported installed
/// is recorded as satisfied and the sync answer is never consulted, so a
/// locally satisfied name cannot end up scheduled for install; an official
/// name is recorded under its canonical name and never reaches the build
/// path.
pub fn resolve_decide(res: &mut Resolution, pkg: String, report: DbReport) -> (step: NextStep)
    requires
        old(res).wf(),
    ensures
        final(res).wf(),
        report.installed ==> final(res)@ == record_satisfied_spec(old(res)@, pkg@) && step
            is Satisfied,
        report.official matches Some(rec) ==> (!report.installed ==> final(res)@
            == record_official_spec(old(res)@, rec.name@) && (step matches NextStep::Install {
            parent,
            deps,
        } && parent == rec.name && deps == rec.deps)),
        !report.installed && report.official is None ==> final(res)@ == old(res)@ && step is Build,
{
    if report.installed {
        res.record_satisfied(pkg);
        NextStep::Satisfied
    } else {
        match report.official {
            Some(rec) => {
                let canonical = rec.name.clone();
                res.record_official(canonical);
                NextStep::Install { parent: rec.name, deps: rec.deps }
            },
            None => NextStep::Build,
        }
    }
}

/// Law: local priority. Applying an installed report for a name leaves
/// `to_install` untouched, and a name not classified otherwise lands in
/// `satisfied` — a locally installed name never becomes an official install,
/// whatever the sync database would have said about it.
pub proof fn lemma_local_priority(v: ResolutionView, name: Seq<char>)
    ensures
        record_satisfied_spec(v, name).to_install == v.to_install,
        !v.to_install.contains(name) && !v.to_build.contains(name) ==> record_satisfied_spec(
            v,
            name,
        ).satisfied.contains(name),
{
}

/// One record of remote metadata for a community package.
pub struct RemoteRecord {
    /// The package's own name.
    pub name: String,
    /// The source-package base that builds it.
    pub package_base: String,
    /// The names under which the package satisfies dependents.
    pub provides: Vec<String>,
}

/// Where the source tree of a buildable package is to come from.
#[derive(Debug, PartialEq, Eq)]
pub enum CloneSource {
    /// An existing local working tree of the requested name serves directly,
    /// with no network traffic.
    Local,
    /// The named package base: an existing tree of it serves, otherwise it is
    /// cloned fresh.
    Base(String),
}

/// True when the record declares `pkg` among the names it provides.
pub open spec fn record_provides(rec: RemoteRecord, pkg: Seq<char>) -> bool {
    string_views(rec.provides@).contains(pkg)
}

/// The first record of `s` that provides `pkg`, if any.
pub open spec fn find_provider(s: Seq<RemoteRecord>, pkg: Seq<char>) -> Option<RemoteRecord>
    decreases s.len(),
{
    if s.len() == 0 {
        None
    } else if record_provides(s[0], pkg) {
        Some(s[0])
    } else {
        find_provider(s.drop_first(), pkg)
    }
}

/// Decide where the source tree of the buildable package `pkg` comes from.
///
/// An existing working tree for the exact requested name wins outright (no
/// network, deliberately not refreshed). Otherwise the direct metadata fetch
/// decides; an empty fetch falls back to the search results, filtered for the
/// first record providing `pkg`. A name neither fetched nor provided by any
/// search result does not exist, attributed to `parent` when one is known.
pub fn pull_or_clone(
    tree_exists: bool,
    fetched: Result<Vec<RemoteRecord>, String>,
    searched: Vec<RemoteRecord>,
    parent: Option<String>,
    pkg: &str,
) -> (r: Result<CloneSource, Error>)
    ensures
        tree_exists ==> r matches Ok(CloneSource::Local),
        fetched matches Err(m) ==> (!tree_exists ==> (r matches Err(e) && e == Error::Faur(m))),
        fetched matches Ok(v) ==> (!tree_exists && v@.len() > 0 ==> (r matches Ok(
            CloneSource::Base(b),
        ) && b == v@.last().package_base)),
        find_provider(searched@, pkg@) matches Some(rec) ==> (!tree_exists && (fetched matches Ok(
            v,
        ) && v@.len() == 0) ==> (r matches Ok(CloneSource::Base(b)) && b == rec.package_base)),
        !tree_exists && (fetched matches Ok(v) && v@.len() == 0) && find_provider(searched@, pkg@)
            is None ==> (match parent {
            Some(par) => (r matches Err(e) && e matches Error::DoesntExistWithParent(p, n) && p
                == par && n@ == pkg@),
            None => (r matches Err(e) && e matches Error::DoesntExist(n) && n@ == pkg@),
        }),
{
    if tree_exists {
        return Ok(CloneSource::Local);
    }
    match fetched {
        Err(m) => Err(Error::Faur(m)),
        Ok(mut v) => {
            match v.pop() {
                Some(rec) => Ok(CloneSource::Base(rec.package_base)),
                None => {
                    let mut sr = searched;
                    let p: String = pkg.to_owned();
                    let mut i: usize = 0;
                    while i < sr.len()
                        invariant
                            !tree_exists,
                            fetched matches Ok(fv) && fv@.len() == 0,
                            sr@ == searched@,
                            i <= searched@.len(),
                            forall|j: int| 0 <= j < i ==> !record_provides(searched@[j], pkg@),
                            p@ == pkg@,
                        decreases searched@.len() - i,
                    {
                        if crate::state::contains_string(&sr[i].provides, &p) {
                            proof {
                                lemma_find_provider_index(searched@, pkg@, i as int);
                            }
                            let rec = sr.swap_remove(i);
                            return Ok(CloneSource::Base(rec.package_base));
                        }
                        i += 1;
                    }
                    proof {
                        lemma_find_provider_none(searched@, pkg@);
                    }
                    match parent {
                        Some(par) => Err(Error::DoesntExistWithParent(par, p)),
                        None => Err(Error::DoesntExist(p)),
                    }
                },
            }
        },
    }
}

proof fn lemma_find_provider_index(s: Seq<RemoteRecord>, pkg: Seq<char>, i: int)
    requires
        0 <= i < s.len(),
        record_provides(s[i], pkg),
        forall|j: int| 0 <= j < i ==> !record_provides(s[j], pkg),
    ensures
        find_provider(s, pkg) == Some(s[i]),
    decreases i,
{
    if i > 0 {
        assert(!record_provides(s[0], pkg));
        lemma_find_provider_index(s.drop_first(), pkg, i - 1);
        assert(s.drop_first()[i - 1] == s[i]);
    }
}

proof fn lemma_find_provider_none(s: Seq<RemoteRecord>, pkg: Seq<char>)
    requires
        forall|j: int| 0 <= j < s.len() ==> !record_provides(s[j], pkg),
    ensures
        find_provider(s, pkg) is None,
    decreases s.len(),
{
    if s.len() > 0 {
        assert(forall|j: int|
            0 <= j < s.drop_first().len() ==> s.drop_first()[j] == s[j + 1]
                && !record_provides(s[j + 1], pkg));
        lemma_find_provider_none(s.drop_first(), pkg);
    }
}

} // verus!
