//! Aggregation helpers: deterministic, sorted, deduplicated name lists.
use vstd::prelude::*;
use vstd::slice::slice_index_get;
use crate::graph::PkgSource;
use crate::graph::SourcedPackage;
use crate::graph::SourcedPackageView;
use crate::graph::views_of;
use crate::strcmp::lemma_str_lt_connected;
use crate::strcmp::lemma_str_lt_transitive;
use crate::strcmp::str_less;
use crate::strcmp::str_lt;
use crate::strcmp::string_eq;

verus! {

/// The name sequence is strictly increasing: sorted, with no
/// duplicates.
pub open spec fn strictly_sorted(v: Seq<Seq<char>>) -> bool {
    forall|i: int, j: int| 0 <= i < j < v.len() ==> str_lt(v[i], v[j])
}

/// The character sequences of a list of strings.
pub open spec fn name_views(v: Seq<String>) -> Seq<Seq<char>> {
    v.map_values(|s: String| s@)
}

/// `n` occurs in the list.
pub open spec fn has_name(v: Seq<Seq<char>>, n: Seq<char>) -> bool {
    exists|k: int| 0 <= k < v.len() && v[k] == n
}

/// Some package of `s` with classification `source` is named `n`.
pub open spec fn source_has_name(s: Seq<SourcedPackageView>, source: PkgSource, n: Seq<char>) -> bool {
    exists|i: int| #![trigger s[i]] 0 <= i < s.len() && s[i].source == source && s[i].package.name == n
}

/// Insert `name` into a strictly increasing list, keeping it strictly
/// increasing; a name already present is not inserted again.
#[verifier::loop_isolation(false)]
fn insert_sorted_unique(v: &mut Vec<String>, name: String)
    requires
        strictly_sorted(name_views(old(v)@)),
    ensures
        strictly_sorted(name_views(final(v)@)),
        forall|n: Seq<char>|
            has_name(name_views(final(v)@), n) <==> (has_name(name_views(old(v)@), n) || n
                == name@),
{
    let ghost vs0 = name_views(v@);
    let mut i: usize = 0;
    while i < v.len() && str_less(v[i].as_str(), name.as_str())
        invariant
            i <= v@.len(),
            v@ == old(v)@,
            forall|k: int| 0 <= k < i ==> str_lt(vs0[k], name@),
        decreases v@.len() - i,
    {
        i = i + 1;
    }
    if i < v.len() && string_eq(&v[i], &name) {
        proof {
            assert forall|n: Seq<char>|
                has_name(name_views(v@), n) <==> (has_name(vs0, n) || n == name@) by {
                if n == name@ {
                    assert(vs0[i as int] == name@);
                }
            }
        }
        return ;
    }
    proof {
        if i < v@.len() {
            assert(!str_lt(vs0[i as int], name@));
            assert(vs0[i as int] != name@);
            if !str_lt(name@, vs0[i as int]) {
                lemma_str_lt_connected(vs0[i as int], name@);
                assert(false);
            }
            assert(str_lt(name@, vs0[i as int]));
        }
    }
    v.insert(i, name);
    proof {
        let vs = name_views(v@);
        assert(vs.len() == vs0.len() + 1);
        assert(forall|k: int| 0 <= k < i ==> vs[k] == vs0[k]);
        assert(vs[i as int] == name@);
        assert(forall|k: int| i < k < vs.len() ==> vs[k] == vs0[k - 1]);
        assert forall|k1: int, k2: int| 0 <= k1 < k2 < vs.len() implies str_lt(vs[k1], vs[k2]) by {
            if k2 == i {
                assert(str_lt(vs0[k1], name@));
            } else if k1 == i {
                assert(str_lt(name@, vs0[i as int]));
                if k2 - 1 > i {
                    lemma_str_lt_transitive(name@, vs0[i as int], vs0[k2 - 1]);
                }
            } else if k1 < i && k2 > i {
                assert(str_lt(vs0[k1], name@));
                if k2 - 1 == i {
                    assert(str_lt(name@, vs0[i as int]));
                    lemma_str_lt_transitive(vs0[k1], name@, vs0[k2 - 1]);
                } else {
                    assert(str_lt(vs0[k1], vs0[k2 - 1]));
                }
            } else if k2 < i {
                assert(str_lt(vs0[k1], vs0[k2]));
            } else {
                assert(str_lt(vs0[k1 - 1], vs0[k2 - 1]));
            }
        }
        assert forall|n: Seq<char>|
            has_name(vs, n) <==> (has_name(vs0, n) || n == name@) by {
            if has_name(vs, n) {
                let k = choose|k: int| 0 <= k < vs.len() && vs[k] == n;
                if k < i {
                    assert(vs0[k] == n);
                } else if k > i {
                    assert(vs0[k - 1] == n);
                }
            }
            if has_name(vs0, n) {
                let k = choose|k: int| 0 <= k < vs0.len() && vs0[k] == n;
                if k < i {
                    assert(vs[k] == n);
                } else {
                    assert(vs[k + 1] == n);
                }
            }
            if n == name@ {
                assert(vs[i as int] == n);
            }
        }
    }
}

/// The sorted, deduplicated list of the names of the packages carrying
/// the given classification: a name occurs in the result exactly when
/// some package with that classification bears it, in strictly
/// increasing lexicographic order.
#[verifier::loop_isolation(false)]
pub fn crate_names_from_source(crates: &[SourcedPackage], source: PkgSource) -> (r: Vec<String>)
    ensures
        strictly_sorted(name_views(r@)),
        forall|n: Seq<char>|
            has_name(name_views(r@), n) <==> source_has_name(views_of(crates@), source, n),
{
    let ghost views = views_of(crates@);
    let mut r: Vec<String> = Vec::new();
    let mut i: usize = 0;
    proof {
        assert(forall|n: Seq<char>| !has_name(name_views(r@), n));
    }
    while i < crates.len()
        invariant
            i <= crates@.len(),
            strictly_sorted(name_views(r@)),
            forall|n: Seq<char>|
                has_name(name_views(r@), n) <==> exists|k: int| #![trigger views[k]]
                    0 <= k < i && views[k].source == source && views[k].package.name == n,
        decreases crates@.len() - i,
    {
        let p = slice_index_get(crates, i);
        let ghost r_before = name_views(r@);
        if p.source == source {
            insert_sorted_unique(&mut r, p.name_of());
            proof {
                assert(views[i as int] == crates@[i as int]@);
                assert forall|n: Seq<char>|
                    has_name(name_views(r@), n) <==> exists|k: int| #![trigger views[k]]
                        0 <= k < i + 1 && views[k].source == source && views[k].package.name
                        == n by {
                    if has_name(name_views(r@), n) {
                        if has_name(r_before, n) {
                            let k = choose|k: int|
                                0 <= k < i && #[trigger] views[k].source == source && views[
                                    k].package.name == n;
                            assert(views[k].source == source && views[k].package.name == n);
                        } else {
                            assert(n == views[i as int].package.name);
                        }
                    }
                    if exists|k: int| #![trigger views[k]]
                        0 <= k < i + 1 && views[k].source == source && views[k].package.name
                        == n {
                        let k = choose|k: int| #![trigger views[k]]
                            0 <= k < i + 1 && views[k].source == source && views[k].package.name
                                == n;
                        if k < i {
                            assert(has_name(r_before, n));
                        } else {
                            assert(n == views[i as int].package.name);
                        }
                    }
                }
            }
        } else {
            proof {
                assert(views[i as int] == crates@[i as int]@);
                assert(views[i as int].source != source);
            }
        }
        i = i + 1;
    }
    r
}

impl SourcedPackage {
    /// A copy of the package's name.
    pub fn name_of(&self) -> (r: String)
        ensures
            r@ == self@.package.name,
    {
        self.package.name.clone()
    }
}

/// The list joined with ", " between consecutive names.
pub open spec fn comma_join(names: Seq<Seq<char>>) -> Seq<char>
    decreases names.len(),
{
    if names.len() == 0 {
        Seq::empty()
    } else if names.len() == 1 {
        names[0]
    } else {
        comma_join(names.drop_last()) + ", "@ + names.last()
    }
}

/// Join the names into one string, ", " between consecutive entries.
#[verifier::loop_isolation(false)]
pub fn comma_separated_list(list: &[String]) -> (r: String)
    ensures
        r@ == comma_join(name_views(list@)),
{
    let ghost names = name_views(list@);
    let mut result = String::new();
    let mut first_loop = true;
    let mut i: usize = 0;
    proof {
        assert(names.subrange(0, 0) =~= Seq::<Seq<char>>::empty());
    }
    while i < list.len()
        invariant
            i <= list@.len(),
            result@ == comma_join(names.subrange(0, i as int)),
            first_loop == (i == 0),
        decreases list@.len() - i,
    {
        let ghost pre = names.subrange(0, i as int);
        if !first_loop {
            result.append(", ");
        }
        first_loop = false;
        let crate_name = slice_index_get(list, i);
        result.append(crate_name.as_str());
        proof {
            let cur = names.subrange(0, i + 1);
            assert(cur.drop_last() =~= pre);
            assert(cur.last() == names[i as int]);
            if i == 0 {
                assert(cur.len() == 1);
                assert(result@ =~= cur[0]);
            } else {
                assert(result@ =~= comma_join(pre) + ", "@ + names[i as int]);
            }
        }
        i = i + 1;
    }
    proof {
        assert(names.subrange(0, names.len() as int) =~= names);
    }
    result
}

} // verus!
