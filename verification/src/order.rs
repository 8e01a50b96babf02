//! Tiered build ordering: turn a finished set of buildable packages into a
//! sequence of groups, each group buildable in parallel, such that every
//! dependency that is itself to be built lands in an earlier group — or
//! report the dependency cycle that makes such an order impossible.

use vstd::prelude::*;

use crate::state::Buildable;
use crate::state::build_names;
use crate::state::lemma_string_views_push;
use crate::state::lemma_unique_push;
use crate::state::string_views;
use crate::state::unique_seq;

verus! {

/// A dependency cycle among buildable packages: none of the named packages
/// can be built first, because each depends on another of them.
#[derive(Debug, PartialEq, Eq)]
pub struct CycleError {
    /// The unplaceable packages.
    pub names: Vec<String>,
}

/// The names placed in the groups before group `g`.
pub open spec fn prefix_names(plan: Seq<Vec<String>>, g: int) -> Set<Seq<char>>
    decreases g,
{
    if g <= 0 {
        Set::empty()
    } else {
        prefix_names(plan, g - 1).union(string_views(plan[g - 1]@).to_set())
    }
}

/// The dependencies of `input[k]` that are themselves buildable.
pub open spec fn in_set_deps(input: Seq<Buildable>, k: int) -> Set<Seq<char>> {
    string_views(input[k].deps@).to_set().intersect(build_names(input).to_set())
}

/// Readiness: every dependency of `b` that is in `all` is already in
/// `placed`.
pub open spec fn ready_spec(b: Buildable, all: Set<Seq<char>>, placed: Set<Seq<char>>) -> bool {
    forall|d: Seq<char>| #[trigger]
        string_views(b.deps@).contains(d) && all.contains(d) ==> placed.contains(d)
}

/// The shape of a valid plan over `input`, short of covering it: groups are
/// non-empty and duplicate-free, no name recurs across groups, every placed
/// package's buildable dependencies sit in strictly earlier groups, and each
/// group is as large as possible — whatever could have been placed in a group
/// is in it.
pub open spec fn plan_invariant(input: Seq<Buildable>, plan: Seq<Vec<String>>) -> bool {
    &&& forall|g: int| 0 <= g < plan.len() ==> #[trigger] plan[g]@.len() > 0
    &&& forall|g: int| 0 <= g < plan.len() ==> unique_seq(#[trigger] string_views(plan[g]@))
    &&& forall|g: int, n: Seq<char>|
        0 <= g < plan.len() && #[trigger] string_views(plan[g]@).to_set().contains(n)
            ==> !prefix_names(plan, g).contains(n)
    &&& forall|g: int, k: int|
        0 <= g < plan.len() && 0 <= k < input.len() && #[trigger] string_views(
            plan[g]@,
        ).to_set().contains(input[k].name@) ==> in_set_deps(input, k).subset_of(
            prefix_names(plan, g),
        )
    &&& forall|g: int, k: int|
        0 <= g < plan.len() && 0 <= k < input.len() && !prefix_names(plan, g).contains(
            input[k].name@,
        ) && #[trigger] in_set_deps(input, k).subset_of(prefix_names(plan, g))
            ==> string_views(plan[g]@).to_set().contains(input[k].name@)
}

/// A valid, complete tiered build order for `input`.
pub open spec fn ordered_plan(input: Seq<Buildable>, plan: Seq<Vec<String>>) -> bool {
    &&& plan_invariant(input, plan)
    &&& prefix_names(plan, plan.len() as int) == build_names(input).to_set()
}

/// The `i`th name of the certificate names a buildable of `input` that
/// depends on another of the named packages.
pub open spec fn names_cycle_member(input: Seq<Buildable>, names: Seq<Seq<char>>, i: int) -> bool {
    exists|k: int|
        0 <= k < input.len() && (#[trigger] input[k]).name@ == names[i] && exists|d: Seq<char>|
            #[trigger] string_views(input[k].deps@).contains(d) && names.contains(d)
}

/// A certificate of a dependency cycle: the names are non-empty, each names a
/// buildable of `input`, and each such buildable depends on another of the
/// named ones.
pub open spec fn cycle_witness(input: Seq<Buildable>, names: Seq<Seq<char>>) -> bool {
    &&& names.len() > 0
    &&& forall|i: int| 0 <= i < names.len() ==> names_cycle_member(input, names, i)
}

fn is_ready(b: &Buildable, all_names: &Vec<String>, placed: &Vec<String>) -> (r: bool)
    ensures
        r == ready_spec(
            *b,
            string_views(all_names@).to_set(),
            string_views(placed@).to_set(),
        ),
{
    let mut i: usize = 0;
    while i < b.deps.len()
        invariant
            i <= b.deps@.len(),
            forall|j: int|
                0 <= j < i ==> (string_views(all_names@).contains(
                    #[trigger] string_views(b.deps@)[j],
                ) ==> string_views(placed@).contains(string_views(b.deps@)[j])),
        decreases b.deps@.len() - i,
    {
        proof {
            assert(string_views(b.deps@)[i as int] == b.deps@[i as int]@);
        }
        if crate::state::contains_string(all_names, &b.deps[i]) && !crate::state::contains_string(
            placed,
            &b.deps[i],
        ) {
            proof {
                assert(string_views(b.deps@).contains(string_views(b.deps@)[i as int]));
            }
            return false;
        }
        i += 1;
    }
    proof {
        assert forall|d: Seq<char>| #[trigger]
            string_views(b.deps@).contains(d) && string_views(all_names@).to_set().contains(d)
            implies string_views(placed@).to_set().contains(d) by {
            let j = choose|j: int|
                0 <= j < string_views(b.deps@).len() && string_views(b.deps@)[j] == d;
            assert(string_views(placed@).contains(string_views(b.deps@)[j]));
        }
    }
    true
}

fn names_of(v: &Vec<Buildable>) -> (r: Vec<String>)
    ensures
        string_views(r@) == build_names(v@),
{
    let mut r: Vec<String> = Vec::new();
    let mut i: usize = 0;
    while i < v.len()
        invariant
            i <= v@.len(),
            string_views(r@) =~= build_names(v@.take(i as int)),
        decreases v@.len() - i,
    {
        let ghost prev = r@;
        r.push(v[i].name.clone());
        proof {
            lemma_string_views_push(prev, v@[i as int].name);
            assert(v@.take(i + 1) =~= v@.take(i as int).push(v@[i as int]));
            assert(build_names(v@.take(i + 1)) =~= build_names(v@.take(i as int)).push(
                v@[i as int].name@,
            ));
            assert(string_views(r@) =~= build_names(v@.take(i + 1)));
        }
        i += 1;
    }
    proof {
        assert(v@.take(v@.len() as int) =~= v@);
    }
    r
}

fn split_ready(remaining: Vec<Buildable>, all_names: &Vec<String>, placed: &Vec<String>) -> (r: (
    Vec<String>,
    Vec<Buildable>,
    Ghost<Seq<Buildable>>,
))
    requires
        unique_seq(build_names(remaining@)),
    ensures
        ({
            let all = string_views(all_names@).to_set();
            let pl = string_views(placed@).to_set();
            &&& string_views(r.0@) == build_names(r.2@)
            &&& r.0@.len() + r.1@.len() == remaining@.len()
            &&& string_views(r.0@).to_set().union(build_names(r.1@).to_set()) == build_names(
                remaining@,
            ).to_set()
            &&& unique_seq(string_views(r.0@))
            &&& unique_seq(build_names(r.1@))
            &&& forall|n: Seq<char>|
                string_views(r.0@).contains(n) ==> !build_names(r.1@).contains(n)
            &&& forall|i: int|
                0 <= i < r.2@.len() ==> remaining@.contains(#[trigger] r.2@[i]) && ready_spec(
                    r.2@[i],
                    all,
                    pl,
                )
            &&& forall|i: int|
                0 <= i < r.1@.len() ==> remaining@.contains(#[trigger] r.1@[i]) && !ready_spec(
                    r.1@[i],
                    all,
                    pl,
                )
        }),
{
    let ghost rem0 = remaining@;
    let ghost all = string_views(all_names@).to_set();
    let ghost pl = string_views(placed@).to_set();
    let mut remaining = remaining;
    let mut tier: Vec<String> = Vec::new();
    let mut rest: Vec<Buildable> = Vec::new();
    let ghost mut tier_src: Seq<Buildable> = Seq::empty();
    let ghost mut k: int = 0;
    while remaining.len() > 0
        invariant
            unique_seq(build_names(rem0)),
            all == string_views(all_names@).to_set(),
            pl == string_views(placed@).to_set(),
            0 <= k <= rem0.len(),
            remaining@ =~= rem0.skip(k),
            string_views(tier@) =~= build_names(tier_src),
            tier@.len() + rest@.len() == k,
            string_views(tier@).to_set().union(build_names(rest@).to_set()) =~= build_names(
                rem0.take(k),
            ).to_set(),
            unique_seq(string_views(tier@)),
            unique_seq(build_names(rest@)),
            forall|n: Seq<char>| string_views(tier@).contains(n) ==> !build_names(rest@).contains(n),
            forall|i: int|
                0 <= i < tier_src.len() ==> rem0.contains(#[trigger] tier_src[i]) && ready_spec(
                    tier_src[i],
                    all,
                    pl,
                ),
            forall|i: int|
                0 <= i < rest@.len() ==> rem0.contains(#[trigger] rest@[i]) && !ready_spec(
                    rest@[i],
                    all,
                    pl,
                ),
        decreases remaining@.len(),
    {
        proof {
            assert(rem0.skip(k)[0] == rem0[k]);
            assert(rem0.skip(k).remove(0) =~= rem0.skip(k + 1));
            assert(rem0.take(k + 1).drop_last() =~= rem0.take(k));
            assert(rem0.take(k + 1).last() == rem0[k]);
            assert(rem0.take(k + 1) =~= rem0.take(k).push(rem0[k]));
            crate::state::lemma_build_names_push(rem0.take(k), rem0[k]);
            build_names(rem0.take(k)).lemma_push_to_set_commute(rem0[k].name@);
            // the incoming name is fresh for both halves
            assert(!build_names(rem0.take(k)).to_set().contains(rem0[k].name@)) by {
                assert forall|j: int| 0 <= j < k implies build_names(rem0.take(k))[j]
                    != rem0[k].name@ by {
                    assert(build_names(rem0.take(k))[j] == rem0.take(k)[j].name@);
                    assert(rem0.take(k)[j] == rem0[j]);
                    assert(build_names(rem0)[j] == rem0[j].name@);
                    assert(build_names(rem0)[k] == rem0[k].name@);
                }
            }
            assert(rem0.contains(rem0[k]));
        }
        let b = remaining.remove(0);
        assert(b == rem0[k]);
        if is_ready(&b, all_names, placed) {
            let ghost prev = tier@;
            tier.push(b.name.clone());
            proof {
                let prev_src = tier_src;
                tier_src = tier_src.push(b);
                lemma_string_views_push(prev, b.name);
                crate::state::lemma_build_names_push(prev_src, b);
                assert(string_views(tier@) =~= build_names(tier_src));
                string_views(prev).lemma_push_to_set_commute(b.name@);
                lemma_unique_push(string_views(prev), b.name@);
                assert(string_views(tier@).to_set().union(build_names(rest@).to_set())
                    =~= build_names(rem0.take(k + 1)).to_set());
            }
        } else {
            let ghost prevr = rest@;
            rest.push(b);
            proof {
                crate::state::lemma_build_names_push(prevr, b);
                build_names(prevr).lemma_push_to_set_commute(b.name@);
                lemma_unique_push(build_names(prevr), b.name@);
                assert(string_views(tier@).to_set().union(build_names(rest@).to_set())
                    =~= build_names(rem0.take(k + 1)).to_set());
            }
        }
        proof {
            k = k + 1;
        }
    }
    proof {
        assert(rem0.take(rem0.len() as int) =~= rem0);
    }
    (tier, rest, Ghost(tier_src))
}

proof fn lemma_prefix_push(plan: Seq<Vec<String>>, t: Vec<String>, g: int)
    requires
        0 <= g <= plan.len(),
    ensures
        prefix_names(plan.push(t), g) == prefix_names(plan, g),
    decreases g,
{
    if g > 0 {
        lemma_prefix_push(plan, t, g - 1);
        assert(plan.push(t)[g - 1] == plan[g - 1]);
    }
}

proof fn lemma_concat_to_set(a: Seq<Seq<char>>, b: Seq<Seq<char>>)
    ensures
        (a + b).to_set() == a.to_set().union(b.to_set()),
{
    assert forall|x: Seq<char>| #[trigger] (a + b).contains(x) implies a.contains(x)
        || b.contains(x) by {
        let i = choose|i: int| 0 <= i < (a + b).len() && (a + b)[i] == x;
        if i < a.len() {
            assert(a[i] == x);
        } else {
            assert(b[i - a.len()] == x);
        }
    }
    assert forall|x: Seq<char>| a.contains(x) || b.contains(x) implies (a + b).contains(x) by {
        if a.contains(x) {
            let i = choose|i: int| 0 <= i < a.len() && a[i] == x;
            assert((a + b)[i] == x);
        } else {
            let i = choose|i: int| 0 <= i < b.len() && b[i] == x;
            assert((a + b)[i + a.len()] == x);
        }
    }
    assert((a + b).to_set() =~= a.to_set().union(b.to_set()));
}

proof fn lemma_string_views_concat(a: Seq<String>, b: Seq<String>)
    ensures
        string_views(a + b) == string_views(a) + string_views(b),
{
    assert forall|j: int| 0 <= j < a.len() + b.len() implies string_views(a + b)[j] == (
    string_views(a) + string_views(b))[j] by {
        if j < a.len() {
            assert((a + b)[j] == a[j]);
        } else {
            assert((a + b)[j] == b[j - a.len()]);
        }
    }
    assert(string_views(a + b) =~= string_views(a) + string_views(b));
}

/// Given a collection of [`Buildable`] packages, determine a tiered order in
/// which they should be built and installed together.
///
/// Each returned group can be built in parallel: every dependency of a
/// package in group `g` that is itself among the packages to build sits in a
/// group before `g`, and each group is as large as possible. Packages whose
/// dependencies cycle among themselves admit no such order; they are
/// returned as a [`CycleError`] instead.
pub fn build_order(to_build: Vec<Buildable>) -> (r: Result<Vec<Vec<String>>, CycleError>)
    requires
        unique_seq(build_names(to_build@)),
    ensures
        r matches Ok(plan) ==> ordered_plan(to_build@, plan@),
        r matches Err(ce) ==> cycle_witness(to_build@, string_views(ce.names@)) && unique_seq(
            string_views(ce.names@),
        ),
{
    let ghost input = to_build@;
    let all_names = names_of(&to_build);
    let mut plan: Vec<Vec<String>> = Vec::new();
    let mut placed: Vec<String> = Vec::new();
    let mut remaining = to_build;
    proof {
        assert(string_views(placed@).to_set() =~= prefix_names(plan@, plan@.len() as int));
        assert(string_views(placed@).to_set().union(build_names(remaining@).to_set())
            =~= build_names(input).to_set());
    }
    while remaining.len() > 0
        invariant
            input == to_build@,
            unique_seq(build_names(input)),
            string_views(all_names@) == build_names(input),
            forall|i: int| 0 <= i < remaining@.len() ==> input.contains(#[trigger] remaining@[i]),
            unique_seq(build_names(remaining@)),
            string_views(placed@).to_set().union(build_names(remaining@).to_set())
                == build_names(input).to_set(),
            forall|n: Seq<char>| #[trigger]
                string_views(placed@).to_set().contains(n) ==> !build_names(
                    remaining@,
                ).to_set().contains(n),
            string_views(placed@).to_set() == prefix_names(plan@, plan@.len() as int),
            plan_invariant(input, plan@),
        decreases remaining@.len(),
    {
        let ghost rem = remaining@;
        let ghost plan0 = plan@;
        let ghost placed0 = placed@;
        let ghost all = string_views(all_names@).to_set();
        let ghost pl = string_views(placed@).to_set();
        let (tier, rest, tier_src) = split_ready(remaining, &all_names, &placed);
        let ghost tset = string_views(tier@).to_set();
        proof {
            // every member of either half is a member of the input
            assert forall|i: int| 0 <= i < rest@.len() implies input.contains(
                #[trigger] rest@[i],
            ) by {
                let j = choose|j: int| 0 <= j < rem.len() && rem[j] == rest@[i];
                assert(input.contains(rem[j]));
            }
            assert forall|i: int| 0 <= i < tier_src@.len() implies input.contains(
                #[trigger] tier_src@[i],
            ) by {
                let j = choose|j: int| 0 <= j < rem.len() && rem[j] == tier_src@[i];
                assert(input.contains(rem[j]));
            }
            // both halves' names lie inside the remaining names
            assert(forall|n: Seq<char>| #[trigger]
                tset.contains(n) ==> build_names(rem).to_set().contains(n));
            assert(forall|n: Seq<char>| #[trigger]
                build_names(rest@).to_set().contains(n) ==> build_names(rem).to_set().contains(n));
        }
        if tier.len() == 0 {
            let names = names_of(&rest);
            proof {
                assert(rest@.len() == rem.len());
                assert(rem.len() > 0);
                assert(build_names(rest@).to_set() =~= build_names(rem).to_set());
                let nv = string_views(names@);
                assert(nv == build_names(rest@));
                assert(nv.len() > 0);
                assert forall|i: int| 0 <= i < nv.len() implies names_cycle_member(
                    input,
                    nv,
                    i,
                ) by {
                    let b = rest@[i];
                    let k0 = choose|k0: int| 0 <= k0 < input.len() && input[k0] == b;
                    assert(build_names(rest@)[i] == b.name@);
                    assert(input[k0].name@ == nv[i]);
                    assert(!ready_spec(b, all, pl));
                    let d0 = choose|d0: Seq<char>|
                        #[trigger] string_views(b.deps@).contains(d0) && all.contains(d0)
                            && !pl.contains(d0);
                    // d0 is an input name not yet placed, so it is a rest name
                    assert(build_names(input).to_set().contains(d0));
                    assert(build_names(rem).to_set().contains(d0));
                    assert(build_names(rest@).to_set().contains(d0));
                    assert(nv.contains(d0));
                    assert(string_views(input[k0].deps@).contains(d0) && nv.contains(d0));
                    assert(exists|d: Seq<char>| #[trigger]
                        string_views(input[k0].deps@).contains(d) && nv.contains(d));
                    assert(0 <= k0 < input.len() && input[k0].name@ == nv[i]);
                }
                assert(cycle_witness(input, string_views(names@)));
            }
            return Err(CycleError { names });
        }
        let placed_add = crate::manifest::clone_strings(&tier);
        let ghost tierv = string_views(tier@);
        plan.push(tier);
        let mut pa = placed_add;
        placed.append(&mut pa);
        remaining = rest;
        proof {
            let plan1 = plan@;
            let g0 = plan0.len() as int;
            assert(plan1 == plan0.push(plan1[g0]));
            assert(string_views(plan1[g0]@) == tierv);
            // prefixes of the old groups are untouched
            assert forall|g: int| 0 <= g <= plan0.len() implies prefix_names(plan1, g)
                == prefix_names(plan0, g) by {
                lemma_prefix_push(plan0, plan1[g0], g);
            }
            // the new top prefix is the old one plus the tier
            assert(prefix_names(plan1, g0 + 1) =~= pl.union(tset));
            // placed now carries exactly that
            lemma_string_views_concat(placed0, pa@);
            lemma_concat_to_set(string_views(placed0), tierv);
            assert(string_views(placed@) == string_views(placed0) + tierv);
            assert(string_views(placed@).to_set() =~= pl.union(tset));
            // partition of the input names, and disjointness from what remains
            assert(string_views(placed@).to_set().union(build_names(remaining@).to_set())
                =~= build_names(input).to_set()) by {
                assert(tset.union(build_names(rest@).to_set()) =~= build_names(rem).to_set());
            }
            assert forall|n: Seq<char>| #[trigger]
                string_views(placed@).to_set().contains(n) implies !build_names(
                remaining@,
            ).to_set().contains(n) by {
                if pl.contains(n) {
                    assert(!build_names(rem).to_set().contains(n));
                } else {
                    assert(tset.contains(n));
                    assert(string_views(tier@).contains(n));
                    assert(!build_names(rest@).contains(n));
                }
            }
            // the plan invariant carries to the extended plan
            assert(plan_invariant(input, plan1)) by {
                assert forall|g: int, n: Seq<char>|
                    0 <= g < plan1.len() && #[trigger] string_views(
                        plan1[g]@,
                    ).to_set().contains(n) implies !prefix_names(plan1, g).contains(n) by {
                    if g < g0 {
                        assert(plan1[g] == plan0[g]);
                    } else {
                        assert(string_views(plan1[g0]@).to_set() == tset);
                        assert(build_names(rem).to_set().contains(n));
                        assert(!pl.contains(n));
                    }
                }
                assert forall|g: int, k: int|
                    0 <= g < plan1.len() && 0 <= k < input.len() && #[trigger] string_views(
                        plan1[g]@,
                    ).to_set().contains(input[k].name@) implies in_set_deps(input, k).subset_of(
                    prefix_names(plan1, g),
                ) by {
                    if g < g0 {
                        assert(plan1[g] == plan0[g]);
                    } else {
                        let n = input[k].name@;
                        assert(tset.contains(n));
                        let i = choose|i: int| 0 <= i < tier_src@.len() && tier_src@[i].name@ == n;
                        lemma_same_name_same_element(input, tier_src@[i], k);
                        assert(ready_spec(input[k], all, pl));
                        assert forall|d: Seq<char>| #[trigger]
                            in_set_deps(input, k).contains(d) implies prefix_names(
                            plan1,
                            g,
                        ).contains(d) by {
                            assert(string_views(input[k].deps@).to_set().contains(d));
                            assert(string_views(input[k].deps@).contains(d));
                            assert(all.contains(d));
                            assert(pl.contains(d));
                        }
                    }
                }
                assert forall|g: int, k: int|
                    0 <= g < plan1.len() && 0 <= k < input.len() && !prefix_names(
                        plan1,
                        g,
                    ).contains(input[k].name@) && #[trigger] in_set_deps(input, k).subset_of(
                        prefix_names(plan1, g),
                    ) implies string_views(plan1[g]@).to_set().contains(input[k].name@) by {
                    if g < g0 {
                        assert(plan1[g] == plan0[g]);
                        assert(prefix_names(plan1, g) == prefix_names(plan0, g));
                    } else {
                        let n = input[k].name@;
                        assert(prefix_names(plan1, g0) == pl);
                        assert(build_names(input).to_set().contains(n)) by {
                            assert(build_names(input)[k] == n);
                        }
                        assert(build_names(rem).to_set().contains(n));
                        assert(tset.contains(n) || build_names(rest@).to_set().contains(n));
                        if build_names(rest@).to_set().contains(n) {
                            let i = choose|i: int|
                                0 <= i < rest@.len() && build_names(rest@)[i] == n;
                            assert(rest@[i].name@ == n);
                            lemma_same_name_same_element(input, rest@[i], k);
                            assert(!ready_spec(input[k], all, pl));
                            let d0 = choose|d0: Seq<char>|
                                #[trigger] string_views(input[k].deps@).contains(d0)
                                    && all.contains(d0) && !pl.contains(d0);
                            assert(in_set_deps(input, k).contains(d0)) by {
                                assert(string_views(input[k].deps@).to_set().contains(d0));
                                assert(build_names(input).to_set().contains(d0));
                            }
                            assert(pl.contains(d0));
                        }
                        assert(tset.contains(n));
                        assert(string_views(plan1[g0]@).to_set() == tset);
                    }
                }
            }
        }
    }
    proof {
        assert(build_names(remaining@).to_set() =~= Set::<Seq<char>>::empty());
        assert(string_views(placed@).to_set() =~= build_names(input).to_set());
        assert(prefix_names(plan@, plan@.len() as int) =~= build_names(input).to_set());
    }
    Ok(plan)
}

proof fn lemma_no_cycle_in_prefix(
    input: Seq<Buildable>,
    plan: Seq<Vec<String>>,
    names: Seq<Seq<char>>,
    g: int,
)
    requires
        plan_invariant(input, plan),
        cycle_witness(input, names),
        0 <= g <= plan.len(),
    ensures
        forall|i: int|
            0 <= i < names.len() ==> !prefix_names(plan, g).contains(#[trigger] names[i]),
    decreases g,
{
    if g > 0 {
        lemma_no_cycle_in_prefix(input, plan, names, g - 1);
        assert forall|i: int| 0 <= i < names.len() implies !prefix_names(plan, g).contains(
            #[trigger] names[i],
        ) by {
            if prefix_names(plan, g).contains(names[i]) {
                // the name is not in any earlier group, so it sits in group g - 1
                assert(string_views(plan[g - 1]@).to_set().contains(names[i]));
                assert(names_cycle_member(input, names, i));
                let k = choose|k: int|
                    0 <= k < input.len() && (#[trigger] input[k]).name@ == names[i] && exists|
                        d: Seq<char>,
                    |
                        #[trigger] string_views(input[k].deps@).contains(d) && names.contains(d);
                assert(in_set_deps(input, k).subset_of(prefix_names(plan, g - 1)));
                let d = choose|d: Seq<char>|
                    #[trigger] string_views(input[k].deps@).contains(d) && names.contains(d);
                let j = choose|j: int| 0 <= j < names.len() && names[j] == d;
                assert(names_cycle_member(input, names, j));
                let kd = choose|kd: int|
                    0 <= kd < input.len() && (#[trigger] input[kd]).name@ == names[j] && exists|
                        d2: Seq<char>,
                    |
                        #[trigger] string_views(input[kd].deps@).contains(d2) && names.contains(d2);
                assert(build_names(input)[kd] == d);
                assert(build_names(input).to_set().contains(d));
                assert(in_set_deps(input, k).contains(d));
                assert(prefix_names(plan, g - 1).contains(d));
                assert(!prefix_names(plan, g - 1).contains(names[j]));
                assert(false);
            }
        }
    }
}

/// Law: a dependency cycle admits no tiered order. An input with a valid
/// plan carries no cycle certificate, so the orderer's success and failure
/// cases exclude each other: a cyclic input can only be reported as a cycle,
/// never ordered.
pub proof fn lemma_plan_excludes_cycle(
    input: Seq<Buildable>,
    plan: Seq<Vec<String>>,
    names: Seq<Seq<char>>,
)
    requires
        ordered_plan(input, plan),
    ensures
        !cycle_witness(input, names),
{
    if cycle_witness(input, names) {
        lemma_no_cycle_in_prefix(input, plan, names, plan.len() as int);
        assert(names_cycle_member(input, names, 0));
        let k = choose|k: int|
            0 <= k < input.len() && (#[trigger] input[k]).name@ == names[0] && exists|d: Seq<char>|
                #[trigger] string_views(input[k].deps@).contains(d) && names.contains(d);
        assert(build_names(input)[k] == names[0]);
        assert(build_names(input).to_set().contains(names[0]));
        assert(prefix_names(plan, plan.len() as int).contains(names[0]));
        assert(false);
    }
}

proof fn lemma_same_name_same_element(input: Seq<Buildable>, b: Buildable, k: int)
    requires
        unique_seq(build_names(input)),
        input.contains(b),
        0 <= k < input.len(),
        input[k].name@ == b.name@,
    ensures
        input[k] == b,
{
    let j = choose|j: int| 0 <= j < input.len() && input[j] == b;
    assert(build_names(input)[j] == b.name@);
    assert(build_names(input)[k] == input[k].name@);
}

} // verus!
