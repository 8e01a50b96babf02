//! Source manifests of buildable packages: parsing the manifest text through
//! the srcinfo crate, and the verified aggregation of a manifest into a
//! buildable package with its dependency set and provide aliases.

use vstd::prelude::*;

use crate::error::Error;
use crate::normalize::normalized_set;
use crate::normalize::strip_spec;
use crate::state::Buildable;
use crate::state::Resolution;
use crate::state::contains_string;
use crate::state::lemma_string_views_push;
use crate::state::lemma_unique_push;
use crate::state::record_buildable_spec;
use crate::state::string_views;
use crate::state::unique_seq;

verus! {

/// One package a manifest produces besides the base description: its name is
/// an alias under which the built artifact satisfies dependents.
pub struct Subpackage {
    /// The package's name.
    pub name: String,
    /// Its run-time dependencies.
    pub deps: Vec<String>,
}

/// The fields of a parsed source manifest that resolution reads.
pub struct Manifest {
    /// The package base: the name the source tree and the buildable carry.
    pub base_name: String,
    /// The base's build-time (make) dependencies.
    pub base_deps: Vec<String>,
    /// The primary package section's run-time dependencies.
    pub primary_deps: Vec<String>,
    /// The names the primary package section declares to provide.
    pub primary_provides: Vec<String>,
    /// Every package the manifest produces.
    pub subpackages: Vec<Subpackage>,
}

/// The abstract value of a [`Subpackage`].
#[verifier::ext_equal]
pub ghost struct SubpackageView {
    pub name: Seq<char>,
    pub deps: Seq<Seq<char>>,
}

/// The abstract value of a [`Manifest`].
#[verifier::ext_equal]
pub ghost struct ManifestView {
    pub base_name: Seq<char>,
    pub base_deps: Seq<Seq<char>>,
    pub primary_deps: Seq<Seq<char>>,
    pub primary_provides: Seq<Seq<char>>,
    pub subpackages: Seq<SubpackageView>,
}

impl View for Subpackage {
    type V = SubpackageView;

    open spec fn view(&self) -> SubpackageView {
        SubpackageView { name: self.name@, deps: string_views(self.deps@) }
    }
}

impl View for Manifest {
    type V = ManifestView;

    open spec fn view(&self) -> ManifestView {
        ManifestView {
            base_name: self.base_name@,
            base_deps: string_views(self.base_deps@),
            primary_deps: string_views(self.primary_deps@),
            primary_provides: string_views(self.primary_provides@),
            subpackages: self.subpackages@.map_values(|p: Subpackage| p@),
        }
    }
}

/// What the srcinfo parser yields for a manifest text: the parse is a
/// function of the text alone, named here and otherwise unspecified.
pub uninterp spec fn parsed_manifest(text: Seq<char>) -> Option<ManifestView>;

/// Relies on the srcinfo crate's parser (`str::parse::<srcinfo::Srcinfo>`):
/// deterministic in the text, it yields the base section, the primary package
/// section and every produced package, or a parse error. Architecture-specific
/// dependency lists are flattened, every architecture included.
#[verifier::external_body]
fn parse_manifest_text(text: &str) -> (r: Result<Manifest, String>)
    ensures
        r matches Ok(m) ==> parsed_manifest(text@) == Some(m@),
        r is Err <==> parsed_manifest(text@) is None,
{
    let s: srcinfo::Srcinfo = text.parse().map_err(|e: srcinfo::Error| e.to_string())?;
    Ok(Manifest {
        base_name: s.base.pkgbase,
        base_deps: s.base.makedepends.into_iter().flat_map(|a| a.vec).collect(),
        primary_deps: s.pkg.depends.into_iter().flat_map(|a| a.vec).collect(),
        primary_provides: s.pkg.provides.into_iter().flat_map(|a| a.vec).collect(),
        subpackages: s.pkgs.into_iter().map(|p| Subpackage {
            name: p.pkgname,
            deps: p.depends.into_iter().flat_map(|a| a.vec).collect(),
        }).collect(),
    })
}

/// The run-time dependencies of the produced packages, as one set.
pub open spec fn sub_deps(s: Seq<SubpackageView>) -> Set<Seq<char>>
    decreases s.len(),
{
    if s.len() == 0 {
        Set::empty()
    } else {
        sub_deps(s.drop_last()).union(s.last().deps.to_set())
    }
}

/// The names of the produced packages.
pub open spec fn sub_names(s: Seq<SubpackageView>) -> Seq<Seq<char>> {
    s.map_values(|p: SubpackageView| p.name)
}

/// A manifest's aggregate dependency set: base make-dependencies, primary
/// run-dependencies, and every produced package's run-dependencies.
pub open spec fn manifest_dep_union(m: ManifestView) -> Set<Seq<char>> {
    m.base_deps.to_set().union(m.primary_deps.to_set()).union(sub_deps(m.subpackages))
}

/// A manifest's provide aliases: what the primary section provides, then the
/// name of each produced package.
pub open spec fn manifest_aliases(m: ManifestView) -> Seq<Seq<char>> {
    m.primary_provides + sub_names(m.subpackages)
}

proof fn lemma_normalized_insert(a: Set<Seq<char>>, d: Seq<char>)
    ensures
        normalized_set(a.insert(d)) == normalized_set(a).insert(strip_spec(d)),
{
    assert forall|n: Seq<char>| normalized_set(a.insert(d)).contains(n) implies normalized_set(
        a,
    ).insert(strip_spec(d)).contains(n) by {
        let w = choose|w: Seq<char>| #[trigger] a.insert(d).contains(w) && n == strip_spec(w);
        if a.contains(w) {
            assert(normalized_set(a).contains(n));
        }
    }
    assert forall|n: Seq<char>| normalized_set(a).insert(strip_spec(d)).contains(n)
        implies normalized_set(a.insert(d)).contains(n) by {
        if normalized_set(a).contains(n) {
            let w = choose|w: Seq<char>| #[trigger] a.contains(w) && n == strip_spec(w);
            assert(a.insert(d).contains(w));
        } else {
            assert(a.insert(d).contains(d));
        }
    }
    assert(normalized_set(a.insert(d)) =~= normalized_set(a).insert(strip_spec(d)));
}

proof fn lemma_normalized_union(a: Set<Seq<char>>, b: Set<Seq<char>>)
    ensures
        normalized_set(a.union(b)) == normalized_set(a).union(normalized_set(b)),
{
    assert forall|n: Seq<char>| normalized_set(a.union(b)).contains(n) implies normalized_set(
        a,
    ).union(normalized_set(b)).contains(n) by {
        let w = choose|w: Seq<char>| #[trigger] a.union(b).contains(w) && n == strip_spec(w);
        if a.contains(w) {
            assert(normalized_set(a).contains(n));
        } else {
            assert(normalized_set(b).contains(n));
        }
    }
    assert forall|n: Seq<char>| normalized_set(a).union(normalized_set(b)).contains(n)
        implies normalized_set(a.union(b)).contains(n) by {
        if normalized_set(a).contains(n) {
            let w = choose|w: Seq<char>| #[trigger] a.contains(w) && n == strip_spec(w);
            assert(a.union(b).contains(w));
        } else {
            let w = choose|w: Seq<char>| #[trigger] b.contains(w) && n == strip_spec(w);
            assert(a.union(b).contains(w));
        }
    }
    assert(normalized_set(a.union(b)) =~= normalized_set(a).union(normalized_set(b)));
}

fn push_normalized_all(acc: &mut Vec<String>, xs: &Vec<String>)
    requires
        unique_seq(string_views(old(acc)@)),
    ensures
        unique_seq(string_views(final(acc)@)),
        string_views(final(acc)@).to_set() == string_views(old(acc)@).to_set().union(
            normalized_set(string_views(xs@).to_set()),
        ),
{
    let mut i: usize = 0;
    while i < xs.len()
        invariant
            i <= xs@.len(),
            unique_seq(string_views(acc@)),
            string_views(acc@).to_set() =~= string_views(old(acc)@).to_set().union(
                normalized_set(string_views(xs@.take(i as int)).to_set()),
            ),
        decreases xs@.len() - i,
    {
        proof {
            assert(xs@.take(i + 1) =~= xs@.take(i as int).push(xs@[i as int]));
            lemma_string_views_push(xs@.take(i as int), xs@[i as int]);
            string_views(xs@.take(i as int)).lemma_push_to_set_commute(xs@[i as int]@);
            lemma_normalized_insert(
                string_views(xs@.take(i as int)).to_set(),
                xs@[i as int]@,
            );
        }
        let stripped = crate::normalize::strip_version(&xs[i]);
        if !contains_string(acc, &stripped) {
            let ghost prev = acc@;
            let ghost gs = stripped;
            acc.push(stripped);
            proof {
                lemma_string_views_push(prev, gs);
                string_views(prev).lemma_push_to_set_commute(gs@);
                lemma_unique_push(string_views(prev), gs@);
                assert(string_views(acc@).to_set() =~= string_views(old(acc)@).to_set().union(
                    normalized_set(string_views(xs@.take(i + 1)).to_set()),
                ));
            }
        } else {
            proof {
                assert(string_views(acc@).to_set() =~= string_views(old(acc)@).to_set().union(
                    normalized_set(string_views(xs@.take(i + 1)).to_set()),
                ));
            }
        }
        i += 1;
    }
    proof {
        assert(xs@.take(xs@.len() as int) =~= xs@);
    }
}

pub(crate) fn clone_strings(v: &Vec<String>) -> (r: Vec<String>)
    ensures
        r@ == v@,
{
    let mut r: Vec<String> = Vec::new();
    let mut i: usize = 0;
    while i < v.len()
        invariant
            i <= v@.len(),
            r@ =~= v@.take(i as int),
        decreases v@.len() - i,
    {
        r.push(v[i].clone());
        proof {
            assert(v@.take(i + 1) =~= v@.take(i as int).push(v@[i as int]));
        }
        i += 1;
    }
    proof {
        assert(v@.take(v@.len() as int) =~= v@);
    }
    r
}

/// Aggregate a manifest into the buildable package it describes and the
/// aliases it provides: the buildable carries the base name and the
/// deduplicated set of normalized names drawn from all the manifest's
/// dependency lists (version demands stripped); the aliases are the primary
/// section's provides followed by every produced package's name.
pub fn buildable_from_manifest(m: &Manifest) -> (r: (Buildable, Vec<String>))
    ensures
        r.0.name@ == m@.base_name,
        unique_seq(string_views(r.0.deps@)),
        string_views(r.0.deps@).to_set() == normalized_set(manifest_dep_union(m@)),
        string_views(r.1@) == manifest_aliases(m@),
{
    let mut deps: Vec<String> = Vec::new();
    push_normalized_all(&mut deps, &m.base_deps);
    push_normalized_all(&mut deps, &m.primary_deps);
    let mut k: usize = 0;
    while k < m.subpackages.len()
        invariant
            k <= m.subpackages@.len(),
            unique_seq(string_views(deps@)),
            string_views(deps@).to_set() =~= normalized_set(m@.base_deps.to_set()).union(
                normalized_set(m@.primary_deps.to_set()),
            ).union(normalized_set(sub_deps(m@.subpackages.take(k as int)))),
        decreases m.subpackages@.len() - k,
    {
        push_normalized_all(&mut deps, &m.subpackages[k].deps);
        proof {
            assert(m@.subpackages.take(k + 1).drop_last() =~= m@.subpackages.take(k as int));
            assert(m@.subpackages.take(k + 1).last() == m@.subpackages[k as int]);
            assert(m@.subpackages[k as int].deps == string_views(m.subpackages@[k as int].deps@));
            lemma_normalized_union(
                sub_deps(m@.subpackages.take(k as int)),
                m@.subpackages[k as int].deps.to_set(),
            );
            assert(string_views(deps@).to_set() =~= normalized_set(m@.base_deps.to_set()).union(
                normalized_set(m@.primary_deps.to_set()),
            ).union(normalized_set(sub_deps(m@.subpackages.take(k + 1)))));
        }
        k += 1;
    }
    proof {
        assert(m@.subpackages.take(m@.subpackages.len() as int) =~= m@.subpackages);
        lemma_normalized_union(m@.base_deps.to_set(), m@.primary_deps.to_set());
        lemma_normalized_union(
            m@.base_deps.to_set().union(m@.primary_deps.to_set()),
            sub_deps(m@.subpackages),
        );
        assert(string_views(deps@).to_set() =~= normalized_set(manifest_dep_union(m@)));
    }
    let mut aliases = clone_strings(&m.primary_provides);
    let mut k2: usize = 0;
    while k2 < m.subpackages.len()
        invariant
            k2 <= m.subpackages@.len(),
            string_views(aliases@) =~= m@.primary_provides + sub_names(
                m@.subpackages.take(k2 as int),
            ),
        decreases m.subpackages@.len() - k2,
    {
        let ghost prev = aliases@;
        aliases.push(m.subpackages[k2].name.clone());
        proof {
            lemma_string_views_push(prev, m.subpackages@[k2 as int].name);
            assert(m@.subpackages.take(k2 + 1) =~= m@.subpackages.take(k2 as int).push(
                m@.subpackages[k2 as int],
            ));
            assert(sub_names(m@.subpackages.take(k2 + 1)) =~= sub_names(
                m@.subpackages.take(k2 as int),
            ).push(m@.subpackages[k2 as int].name));
            assert(string_views(aliases@) =~= m@.primary_provides + sub_names(
                m@.subpackages.take(k2 + 1),
            ));
        }
        k2 += 1;
    }
    proof {
        assert(m@.subpackages.take(m@.subpackages.len() as int) =~= m@.subpackages);
    }
    let name = clone_string(&m.base_name);
    (Buildable { name, deps }, aliases)
}

fn clone_string(s: &String) -> (r: String)
    ensures
        r@ == s@,
{
    s.clone()
}

/// Resolve a buildable package from its manifest text: parse the text,
/// aggregate the dependency lists into normalized names, and record the
/// buildable together with its provide aliases in the state as one
/// transition. On success the returned pair carries the base name (the
/// parent for recursion) and the normalized dependency names still to
/// resolve; a text the parser rejects changes nothing and reports the
/// manifest-parse failure.
pub fn resolve_build(res: &mut Resolution, text: &str) -> (r: Result<(String, Vec<String>), Error>)
    requires
        old(res).wf(),
    ensures
        final(res).wf(),
        parsed_manifest(text@) matches Some(m) ==> (r matches Ok(pair)
            && pair.0@ == m.base_name
            && unique_seq(string_views(pair.1@))
            && string_views(pair.1@).to_set() == normalized_set(manifest_dep_union(m))
            && final(res)@ == record_buildable_spec(
            old(res)@,
            m.base_name,
            manifest_aliases(m).to_set(),
        )),
        parsed_manifest(text@) is None ==> (r matches Err(e) && e matches Error::Srcinfo(_))
            && final(res)@ == old(res)@,
{
    match parse_manifest_text(text) {
        Err(msg) => Err(Error::Srcinfo(msg)),
        Ok(m) => {
            let (b, aliases) = buildable_from_manifest(&m);
            let name = clone_string(&b.name);
            let deps = clone_strings(&b.deps);
            res.record_buildable(b, aliases);
            Ok((name, deps))
        },
    }
}

} // verus!
