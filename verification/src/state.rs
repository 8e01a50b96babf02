//! The shared accumulator of dependency resolution: which packages are to be
//! installed from the official database, which are to be built from source,
//! which are already satisfied, and under which alternate names a package is
//! otherwise accounted for.

use vstd::prelude::*;

verus! {

/// An official package: one resolvable from the system's package database.
#[derive(Debug, PartialEq, Eq, Hash)]
pub struct Official(pub String);

/// A package that must be built from source: the manifest's base name and
/// the normalized names of its dependencies.
#[derive(Debug, PartialEq, Eq)]
pub struct Buildable {
    /// The base name of the source package.
    pub name: String,
    /// The normalized names of its dependencies (version demands stripped).
    pub deps: Vec<String>,
}

/// The abstract value of a [`Resolution`]: each accumulator as a set of
/// package names.
#[verifier::ext_equal]
pub ghost struct ResolutionView {
    pub to_install: Set<Seq<char>>,
    pub to_build: Set<Seq<char>>,
    pub satisfied: Set<Seq<char>>,
    pub provided: Set<Seq<char>>,
}

/// The names of a sequence of official packages.
pub open spec fn install_names(s: Seq<Official>) -> Seq<Seq<char>> {
    s.map_values(|o: Official| o.0@)
}

/// The names of a sequence of buildable packages.
pub open spec fn build_names(s: Seq<Buildable>) -> Seq<Seq<char>> {
    s.map_values(|b: Buildable| b.name@)
}

/// The character sequences of a sequence of strings.
pub open spec fn string_views(s: Seq<String>) -> Seq<Seq<char>> {
    s.map_values(|x: String| x@)
}

/// True when no name occurs twice.
pub open spec fn unique_seq(s: Seq<Seq<char>>) -> bool {
    forall|i: int, j: int| 0 <= i < j < s.len() ==> s[i] != s[j]
}

/// Classification exclusivity: no name is in two of the three public
/// accumulators at once.
pub open spec fn exclusive(v: ResolutionView) -> bool {
    &&& forall|n: Seq<char>|
        #[trigger] v.to_install.contains(n) ==> !v.to_build.contains(n) && !v.satisfied.contains(n)
    &&& forall|n: Seq<char>| #[trigger] v.to_build.contains(n) ==> !v.satisfied.contains(n)
}

impl ResolutionView {
    /// Is the name accounted for by any accumulator?
    pub open spec fn seen(self, name: Seq<char>) -> bool {
        self.provided.contains(name) || self.satisfied.contains(name)
            || self.to_install.contains(name) || self.to_build.contains(name)
    }
}

/// The state after recording a locally satisfied name. The insertion is
/// guarded so that a name already classified otherwise keeps its class.
pub open spec fn record_satisfied_spec(v: ResolutionView, name: Seq<char>) -> ResolutionView {
    if v.to_install.contains(name) || v.to_build.contains(name) {
        v
    } else {
        ResolutionView { satisfied: v.satisfied.insert(name), ..v }
    }
}

/// The state after recording an official package under its canonical name.
pub open spec fn record_official_spec(v: ResolutionView, name: Seq<char>) -> ResolutionView {
    if v.satisfied.contains(name) || v.to_build.contains(name) {
        v
    } else {
        ResolutionView { to_install: v.to_install.insert(name), ..v }
    }
}

/// The state after recording a buildable package together with its provide
/// aliases. The base name and the aliases go in as one transition, so no
/// observer sees the package without its aliases.
pub open spec fn record_buildable_spec(
    v: ResolutionView,
    name: Seq<char>,
    aliases: Set<Seq<char>>,
) -> ResolutionView {
    let v1 = if v.satisfied.contains(name) || v.to_install.contains(name)
        || v.to_build.contains(name) {
        v
    } else {
        ResolutionView { to_build: v.to_build.insert(name), ..v }
    };
    ResolutionView { provided: v1.provided.union(aliases), ..v1 }
}

/// The empty accumulator.
pub open spec fn empty_view() -> ResolutionView {
    ResolutionView {
        to_install: Set::empty(),
        to_build: Set::empty(),
        satisfied: Set::empty(),
        provided: Set::empty(),
    }
}

/// The results of dependency resolution.
pub struct Resolution {
    /// Packages to be installed from official repos.
    pub to_install: Vec<Official>,
    /// Packages to be built.
    pub to_build: Vec<Buildable>,
    /// Packages already installed on the system.
    pub satisfied: Vec<String>,
    /// Packages that are somehow accounted for. A dependency might be provided
    /// by some package, but under a slightly different name. This also takes
    /// split packages into account.
    provided: Vec<String>,
}

impl View for Resolution {
    type V = ResolutionView;

    closed spec fn view(&self) -> ResolutionView {
        ResolutionView {
            to_install: install_names(self.to_install@).to_set(),
            to_build: build_names(self.to_build@).to_set(),
            satisfied: string_views(self.satisfied@).to_set(),
            provided: string_views(self.provided@).to_set(),
        }
    }
}

pub(crate) fn contains_string(v: &Vec<String>, name: &String) -> (r: bool)
    ensures
        r == string_views(v@).contains(name@),
{
    let mut i: usize = 0;
    while i < v.len()
        invariant
            i <= v.len(),
            forall|j: int| 0 <= j < i ==> string_views(v@)[j] != name@,
        decreases v.len() - i,
    {
        assert(string_views(v@)[i as int] == v@[i as int]@);
        if v[i] == *name {
            return true;
        }
        i += 1;
    }
    false
}

fn contains_official(v: &Vec<Official>, name: &String) -> (r: bool)
    ensures
        r == install_names(v@).contains(name@),
{
    let mut i: usize = 0;
    while i < v.len()
        invariant
            i <= v.len(),
            forall|j: int| 0 <= j < i ==> install_names(v@)[j] != name@,
        decreases v.len() - i,
    {
        assert(install_names(v@)[i as int] == v@[i as int].0@);
        if v[i].0 == *name {
            return true;
        }
        i += 1;
    }
    false
}

fn contains_buildable(v: &Vec<Buildable>, name: &String) -> (r: bool)
    ensures
        r == build_names(v@).contains(name@),
{
    let mut i: usize = 0;
    while i < v.len()
        invariant
            i <= v.len(),
            forall|j: int| 0 <= j < i ==> build_names(v@)[j] != name@,
        decreases v.len() - i,
    {
        assert(build_names(v@)[i as int] == v@[i as int].name@);
        if v[i].name == *name {
            return true;
        }
        i += 1;
    }
    false
}

impl Resolution {
    /// Well-formedness: no accumulator holds a name twice, and no name is
    /// classified twice. `default` establishes it and every recording
    /// operation preserves it.
    pub closed spec fn wf(self) -> bool {
        &&& unique_seq(install_names(self.to_install@))
        &&& unique_seq(build_names(self.to_build@))
        &&& unique_seq(string_views(self.satisfied@))
        &&& unique_seq(string_views(self.provided@))
        &&& exclusive(self@)
    }

    /// Have we already considered the given package?
    pub fn seen(&self, pkg: &str) -> (r: bool)
        ensures
            r == self@.seen(pkg@),
    {
        let p: String = pkg.to_owned();
        contains_string(&self.provided, &p) || contains_string(&self.satisfied, &p)
            || contains_official(&self.to_install, &p) || contains_buildable(&self.to_build, &p)
    }

    /// Record a name found installed, or otherwise satisfied, on the local
    /// system.
    pub fn record_satisfied(&mut self, pkg: String)
        requires
            old(self).wf(),
        ensures
            final(self).wf(),
            final(self)@ == record_satisfied_spec(old(self)@, pkg@),
    {
        if !contains_official(&self.to_install, &pkg) && !contains_buildable(&self.to_build, &pkg)
        {
            if !contains_string(&self.satisfied, &pkg) {
                self.satisfied.push(pkg);
                proof {
                    lemma_string_views_push(old(self).satisfied@, pkg);
                    string_views(old(self).satisfied@).lemma_push_to_set_commute(pkg@);
                    assert(self@ =~= record_satisfied_spec(old(self)@, pkg@));
                }
            } else {
                proof {
                    assert(old(self)@.satisfied.insert(pkg@) =~= old(self)@.satisfied);
                    assert(self@ =~= record_satisfied_spec(old(self)@, pkg@));
                }
            }
        } else {
            assert(self@ =~= record_satisfied_spec(old(self)@, pkg@));
        }
    }
}

impl Resolution {
    /// Record an official package under its canonical (database) name.
    pub fn record_official(&mut self, canonical: String)
        requires
            old(self).wf(),
        ensures
            final(self).wf(),
            final(self)@ == record_official_spec(old(self)@, canonical@),
    {
        if !contains_string(&self.satisfied, &canonical) && !contains_buildable(
            &self.to_build,
            &canonical,
        ) {
            if !contains_official(&self.to_install, &canonical) {
                self.to_install.push(Official(canonical));
                proof {
                    lemma_install_names_push(old(self).to_install@, Official(canonical));
                    install_names(old(self).to_install@).lemma_push_to_set_commute(canonical@);
                    assert(self@ =~= record_official_spec(old(self)@, canonical@));
                }
            } else {
                proof {
                    assert(old(self)@.to_install.insert(canonical@) =~= old(self)@.to_install);
                    assert(self@ =~= record_official_spec(old(self)@, canonical@));
                }
            }
        } else {
            assert(self@ =~= record_official_spec(old(self)@, canonical@));
        }
    }

    fn insert_provided(&mut self, alias: &String)
        requires
            old(self).wf(),
        ensures
            final(self).wf(),
            final(self)@ == (ResolutionView {
                provided: old(self)@.provided.insert(alias@),
                ..old(self)@
            }),
    {
        if !contains_string(&self.provided, alias) {
            self.provided.push(alias.clone());
            proof {
                lemma_string_views_push(old(self).provided@, *alias);
                string_views(old(self).provided@).lemma_push_to_set_commute(alias@);
                assert(self@ =~= (ResolutionView {
                    provided: old(self)@.provided.insert(alias@),
                    ..old(self)@
                }));
            }
        } else {
            proof {
                assert(old(self)@.provided.insert(alias@) =~= old(self)@.provided);
                assert(self@ =~= (ResolutionView {
                    provided: old(self)@.provided.insert(alias@),
                    ..old(self)@
                }));
            }
        }
    }

    /// Record a buildable package together with all the alternate names it
    /// provides, as one state transition: no caller of `seen` can observe the
    /// package without its aliases.
    pub fn record_buildable(&mut self, b: Buildable, aliases: Vec<String>)
        requires
            old(self).wf(),
        ensures
            final(self).wf(),
            final(self)@ == record_buildable_spec(
                old(self)@,
                b.name@,
                string_views(aliases@).to_set(),
            ),
    {
        let in_any = contains_string(&self.satisfied, &b.name) || contains_official(
            &self.to_install,
            &b.name,
        ) || contains_buildable(&self.to_build, &b.name);
        let ghost bname = b.name@;
        if !in_any {
            let ghost old_builds = self.to_build@;
            let ghost gb = b;
            self.to_build.push(b);
            proof {
                lemma_build_names_push(old_builds, gb);
                build_names(old_builds).lemma_push_to_set_commute(bname);
                lemma_unique_push(build_names(old_builds), bname);
                assert(unique_seq(build_names(self.to_build@)));
                assert(!old(self)@.satisfied.contains(bname));
                assert(!old(self)@.to_install.contains(bname));
                assert(self.wf());
            }
        }
        let ghost mid = self@;
        proof {
            assert(string_views(aliases@.take(0)).to_set() =~= Set::<Seq<char>>::empty());
            assert(mid.provided.union(string_views(aliases@.take(0)).to_set()) =~= mid.provided);
            assert(self@ =~= (ResolutionView {
                provided: mid.provided.union(string_views(aliases@.take(0)).to_set()),
                ..mid
            }));
        }
        let mut i: usize = 0;
        while i < aliases.len()
            invariant
                i <= aliases.len(),
                self.wf(),
                self@ == (ResolutionView {
                    provided: mid.provided.union(
                        string_views(aliases@.take(i as int)).to_set(),
                    ),
                    ..mid
                }),
            decreases aliases.len() - i,
        {
            proof {
                assert(aliases@.take(i + 1).drop_last() =~= aliases@.take(i as int));
                assert(aliases@.take(i + 1).last() == aliases@[i as int]);
                assert(aliases@.take(i + 1) =~= aliases@.take(i as int).push(aliases@[i as int]));
                lemma_string_views_push(aliases@.take(i as int), aliases@[i as int]);
                string_views(aliases@.take(i as int)).lemma_push_to_set_commute(
                    aliases@[i as int]@,
                );
            }
            self.insert_provided(&aliases[i]);
            proof {
                assert(self@.provided =~= mid.provided.union(
                    string_views(aliases@.take(i + 1)).to_set(),
                ));
            }
            i += 1;
        }
        proof {
            assert(aliases@.take(aliases@.len() as int) =~= aliases@);
            assert(self@ =~= record_buildable_spec(
                old(self)@,
                bname,
                string_views(aliases@).to_set(),
            ));
        }
    }
}

impl Default for Resolution {
    /// The empty accumulator, the state at the start of a resolve call.
    fn default() -> (r: Self)
        ensures
            r.wf(),
            r@ == empty_view(),
    {
        let r = Resolution {
            to_install: Vec::new(),
            to_build: Vec::new(),
            satisfied: Vec::new(),
            provided: Vec::new(),
        };
        proof {
            assert(r@.to_install =~= Set::<Seq<char>>::empty());
            assert(r@.to_build =~= Set::<Seq<char>>::empty());
            assert(r@.satisfied =~= Set::<Seq<char>>::empty());
            assert(r@.provided =~= Set::<Seq<char>>::empty());
            assert(r@ =~= empty_view());
        }
        r
    }
}

/// Law: recording a satisfied name twice leaves the state of one recording.
/// With every insertion idempotent, resolving a name reached twice changes
/// nothing the second time.
pub proof fn lemma_record_satisfied_idempotent(v: ResolutionView, name: Seq<char>)
    ensures
        record_satisfied_spec(record_satisfied_spec(v, name), name) == record_satisfied_spec(
            v,
            name,
        ),
{
    let v1 = record_satisfied_spec(v, name);
    assert(record_satisfied_spec(v1, name) =~= v1) by {
        if !(v.to_install.contains(name) || v.to_build.contains(name)) {
            assert(v1.satisfied.insert(name) =~= v1.satisfied);
        }
    }
}

/// Law: recording an official name twice leaves the state of one recording.
pub proof fn lemma_record_official_idempotent(v: ResolutionView, name: Seq<char>)
    ensures
        record_official_spec(record_official_spec(v, name), name) == record_official_spec(v, name),
{
    let v1 = record_official_spec(v, name);
    assert(record_official_spec(v1, name) =~= v1) by {
        if !(v.satisfied.contains(name) || v.to_build.contains(name)) {
            assert(v1.to_install.insert(name) =~= v1.to_install);
        }
    }
}

/// Law: recording a buildable with its aliases twice leaves the state of one
/// recording.
pub proof fn lemma_record_buildable_idempotent(
    v: ResolutionView,
    name: Seq<char>,
    aliases: Set<Seq<char>>,
)
    ensures
        record_buildable_spec(record_buildable_spec(v, name, aliases), name, aliases)
            == record_buildable_spec(v, name, aliases),
{
    let v1 = record_buildable_spec(v, name, aliases);
    assert(record_buildable_spec(v1, name, aliases) =~= v1) by {
        assert(v1.provided.union(aliases) =~= v1.provided);
        if !(v.satisfied.contains(name) || v.to_install.contains(name) || v.to_build.contains(
            name,
        )) {
            assert(v1.to_build.insert(name) =~= v1.to_build);
        }
    }
}

/// Law: every recording step preserves classification exclusivity, so a name
/// in the final state is in at most one of `to_install`, `to_build`,
/// `satisfied`.
pub proof fn lemma_record_satisfied_exclusive(v: ResolutionView, name: Seq<char>)
    requires
        exclusive(v),
    ensures
        exclusive(record_satisfied_spec(v, name)),
{
}

/// Law: recording an official name preserves classification exclusivity.
pub proof fn lemma_record_official_exclusive(v: ResolutionView, name: Seq<char>)
    requires
        exclusive(v),
    ensures
        exclusive(record_official_spec(v, name)),
{
}

/// Law: recording a buildable preserves classification exclusivity.
pub proof fn lemma_record_buildable_exclusive(
    v: ResolutionView,
    name: Seq<char>,
    aliases: Set<Seq<char>>,
)
    requires
        exclusive(v),
    ensures
        exclusive(record_buildable_spec(v, name, aliases)),
{
}

/// Law: after a buildable is recorded, its base name and each name it
/// provides are seen, so a dependent that names an alias of a split package
/// does not fetch or build it again.
pub proof fn lemma_alias_accounted(
    v: ResolutionView,
    name: Seq<char>,
    aliases: Set<Seq<char>>,
    alias: Seq<char>,
)
    requires
        aliases.contains(alias),
    ensures
        record_buildable_spec(v, name, aliases).seen(alias),
        record_buildable_spec(v, name, aliases).seen(name),
{
}

pub(crate) proof fn lemma_unique_push(s: Seq<Seq<char>>, x: Seq<char>)
    requires
        unique_seq(s),
        !s.contains(x),
    ensures
        unique_seq(s.push(x)),
{
    assert forall|i: int, j: int| 0 <= i < j < s.push(x).len() implies s.push(x)[i] != s.push(x)[j]
    by {
        assert(s.push(x)[i] == s[i]);
        if j < s.len() {
            assert(s.push(x)[j] == s[j]);
        } else {
            assert(s.push(x)[j] == x);
            assert(s[i] != x);
        }
    }
}

pub(crate) proof fn lemma_string_views_push(s: Seq<String>, x: String)
    ensures
        string_views(s.push(x)) =~= string_views(s).push(x@),
{
    assert forall|j: int| 0 <= j < s.len() + 1 implies string_views(s.push(x))[j] == string_views(
        s,
    ).push(x@)[j] by {
        if j < s.len() {
            assert(s.push(x)[j] == s[j]);
        } else {
            assert(s.push(x)[j] == x);
        }
    }
}

proof fn lemma_install_names_push(s: Seq<Official>, x: Official)
    ensures
        install_names(s.push(x)) =~= install_names(s).push(x.0@),
{
    assert forall|j: int| 0 <= j < s.len() + 1 implies install_names(s.push(x))[j]
        == install_names(s).push(x.0@)[j] by {
        if j < s.len() {
            assert(s.push(x)[j] == s[j]);
        } else {
            assert(s.push(x)[j] == x);
        }
    }
}

pub(crate) proof fn lemma_build_names_push(s: Seq<Buildable>, x: Buildable)
    ensures
        build_names(s.push(x)) =~= build_names(s).push(x.name@),
{
    assert forall|j: int| 0 <= j < s.len() + 1 implies build_names(s.push(x))[j] == build_names(
        s,
    ).push(x.name@)[j] by {
        if j < s.len() {
            assert(s.push(x)[j] == s[j]);
        } else {
            assert(s.push(x)[j] == x);
        }
    }
}

} // verus!
