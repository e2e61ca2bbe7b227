//! Ore tables: vectors of per-ore rows with pairwise distinct names,
//! viewed as maps from ore name to its three counters.
use vstd::prelude::*;

use crate::catalog::clone_string;
use crate::types::OreData;

verus! {

/// The three counters kept for one ore.
pub ghost struct OreTriple {
    pub non_crit: int,
    pub crit: int,
    pub residue: int,
}

/// All three counters zero.
pub open spec fn zero_triple() -> OreTriple {
    OreTriple { non_crit: 0, crit: 0, residue: 0 }
}

/// The counters under `k`, or zero when `k` is absent.
pub open spec fn ore_get(m: Map<Seq<char>, OreTriple>, k: Seq<char>) -> OreTriple {
    if m.dom().contains(k) {
        m[k]
    } else {
        zero_triple()
    }
}

/// Componentwise sum.
pub open spec fn triple_add(a: OreTriple, b: OreTriple) -> OreTriple {
    OreTriple {
        non_crit: a.non_crit + b.non_crit,
        crit: a.crit + b.crit,
        residue: a.residue + b.residue,
    }
}

/// The counters of one table row.
pub open spec fn triple_of(o: OreData) -> OreTriple {
    OreTriple { non_crit: o.non_crit as int, crit: o.crit as int, residue: o.residue as int }
}

/// The map an ore table denotes.
pub open spec fn ores_view(s: Seq<OreData>) -> Map<Seq<char>, OreTriple>
    decreases s.len(),
{
    if s.len() == 0 {
        Map::empty()
    } else {
        ores_view(s.drop_last()).insert(s.last().ore_name@, triple_of(s.last()))
    }
}

/// Rows carry pairwise distinct ore names.
pub open spec fn ore_names_unique(s: Seq<OreData>) -> bool {
    forall|i: int, j: int|
        0 <= i < j < s.len() ==> (#[trigger] s[i].ore_name@) != (#[trigger] s[j].ore_name@)
}

/// Some row of the table carries the name `k`.
pub open spec fn has_ore(s: Seq<OreData>, k: Seq<char>) -> bool {
    exists|i: int| 0 <= i < s.len() && (#[trigger] s[i].ore_name@) == k
}

/// The view's domain is exactly the set of row names.
pub proof fn lemma_ores_view_dom(s: Seq<OreData>)
    ensures
        forall|k: Seq<char>| #[trigger] ores_view(s).dom().contains(k) <==> has_ore(s, k),
    decreases s.len(),
{
    if s.len() > 0 {
        lemma_ores_view_dom(s.drop_last());
        assert forall|k: Seq<char>| #[trigger] ores_view(s).dom().contains(k) implies has_ore(
            s,
            k,
        ) by {
            if k == s.last().ore_name@ {
                assert(s[s.len() - 1].ore_name@ == k);
            } else {
                assert(ores_view(s.drop_last()).dom().contains(k));
                assert(has_ore(s.drop_last(), k));
                let i = choose|i: int|
                    0 <= i < s.drop_last().len() && (#[trigger] s.drop_last()[i].ore_name@) == k;
                assert(s.drop_last()[i] == s[i]);
                assert(s[i].ore_name@ == k);
            }
        }
        assert forall|k: Seq<char>| has_ore(s, k) implies #[trigger] ores_view(s).dom().contains(
            k,
        ) by {
            let i = choose|i: int| 0 <= i < s.len() && (#[trigger] s[i].ore_name@) == k;
            if i < s.len() - 1 {
                assert(s.drop_last()[i] == s[i]);
                assert(s.drop_last()[i].ore_name@ == k);
                assert(has_ore(s.drop_last(), k));
                assert(ores_view(s.drop_last()).dom().contains(k));
            } else {
                assert(k == s.last().ore_name@);
            }
        }
    }
}

/// In a table with distinct names, row `i` gives the view's value at
/// its name.
pub proof fn lemma_ores_view_index(s: Seq<OreData>, i: int)
    requires
        ore_names_unique(s),
        0 <= i < s.len(),
    ensures
        ores_view(s).dom().contains(s[i].ore_name@),
        ores_view(s)[s[i].ore_name@] == triple_of(s[i]),
    decreases s.len(),
{
    if i == s.len() - 1 {
    } else {
        assert(ore_names_unique(s.drop_last())) by {
            assert(forall|p: int, q: int|
                0 <= p < q < s.drop_last().len() ==> s.drop_last()[p] == s[p] && s.drop_last()[q]
                    == s[q]);
        }
        lemma_ores_view_index(s.drop_last(), i);
        assert(s.drop_last()[i] == s[i]);
        assert(s[i].ore_name@ != s.last().ore_name@);
    }
}

/// Updating row `i` without changing its name updates the view at that
/// name alone.
pub proof fn lemma_ores_view_update(s: Seq<OreData>, i: int, o2: OreData)
    requires
        ore_names_unique(s),
        0 <= i < s.len(),
        o2.ore_name@ == s[i].ore_name@,
    ensures
        ores_view(s.update(i, o2)) == ores_view(s).insert(o2.ore_name@, triple_of(o2)),
        ore_names_unique(s.update(i, o2)),
    decreases s.len(),
{
    let s2 = s.update(i, o2);
    assert(ore_names_unique(s2)) by {
        assert(forall|p: int|
            0 <= p < s.len() ==> (#[trigger] s2[p].ore_name@) == s[p].ore_name@);
    }
    if i == s.len() - 1 {
        assert(s2.drop_last() =~= s.drop_last());
        assert(s2.last() == o2);
        assert(ores_view(s2) == ores_view(s.drop_last()).insert(o2.ore_name@, triple_of(o2)));
        assert(ores_view(s).insert(o2.ore_name@, triple_of(o2)) =~= ores_view(
            s.drop_last(),
        ).insert(o2.ore_name@, triple_of(o2)));
    } else {
        assert(ore_names_unique(s.drop_last())) by {
            assert(forall|p: int, q: int|
                0 <= p < q < s.drop_last().len() ==> s.drop_last()[p] == s[p] && s.drop_last()[q]
                    == s[q]);
        }
        assert(s2.drop_last() =~= s.drop_last().update(i, o2));
        assert(s2.last() == s.last());
        lemma_ores_view_update(s.drop_last(), i, o2);
        assert(s.drop_last()[i] == s[i]);
        assert(o2.ore_name@ != s.last().ore_name@);
        assert(ores_view(s2) == ores_view(s.drop_last()).insert(o2.ore_name@, triple_of(o2)).insert(
            s.last().ore_name@,
            triple_of(s.last()),
        ));
        assert(ores_view(s.drop_last()).insert(o2.ore_name@, triple_of(o2)).insert(
            s.last().ore_name@,
            triple_of(s.last()),
        ) =~= ores_view(s.drop_last()).insert(s.last().ore_name@, triple_of(s.last())).insert(
            o2.ore_name@,
            triple_of(o2),
        ));
    }
}

/// The row of the table named `name`, if any.
pub fn ore_index(ores: &Vec<OreData>, name: &String) -> (r: Option<usize>)
    ensures
        match r {
            Some(i) => i < ores@.len() && ores@[i as int].ore_name@ == name@,
            None => forall|i: int| 0 <= i < ores@.len() ==> (#[trigger] ores@[i].ore_name@) != name@,
        },
{
    let mut i: usize = 0;
    while i < ores.len()
        invariant
            i <= ores.len(),
            forall|j: int| 0 <= j < i ==> (#[trigger] ores@[j].ore_name@) != name@,
        decreases ores.len() - i,
    {
        if ores[i].ore_name == *name {
            return Some(i);
        }
        i = i + 1;
    }
    None
}

/// Adds the given deltas to the counters of ore `name`, creating its
/// row with zeroed counters first when absent.
pub fn ore_add(ores: &mut Vec<OreData>, name: &String, dn: u64, dc: u64, dr: u64)
    requires
        ore_names_unique(old(ores)@),
        ore_get(ores_view(old(ores)@), name@).non_crit + dn <= u64::MAX,
        ore_get(ores_view(old(ores)@), name@).crit + dc <= u64::MAX,
        ore_get(ores_view(old(ores)@), name@).residue + dr <= u64::MAX,
    ensures
        ore_names_unique(final(ores)@),
        ores_view(final(ores)@) == ores_view(old(ores)@).insert(
            name@,
            triple_add(
                ore_get(ores_view(old(ores)@), name@),
                OreTriple { non_crit: dn as int, crit: dc as int, residue: dr as int },
            ),
        ),
{
    let ghost s = ores@;
    match ore_index(ores, name) {
        Some(i) => {
            proof {
                lemma_ores_view_index(s, i as int);
            }
            let row = ores.remove(i);
            let row2 = OreData {
                ore_name: row.ore_name,
                non_crit: row.non_crit + dn,
                crit: row.crit + dc,
                residue: row.residue + dr,
            };
            ores.insert(i, row2);
            proof {
                assert(ores@ =~= s.update(i as int, row2));
                lemma_ores_view_update(s, i as int, row2);
            }
        },
        None => {
            let row = OreData { ore_name: clone_string(name), non_crit: dn, crit: dc, residue: dr };
            ores.push(row);
            proof {
                lemma_ores_view_dom(s);
                assert(!has_ore(s, name@));
                assert(!ores_view(s).dom().contains(name@));
                assert(ore_get(ores_view(s), name@) == zero_triple());
                assert(ores@.drop_last() =~= s);
                assert(ores@.last() == row);
                assert(ores_view(ores@) == ores_view(s).insert(name@, triple_of(row)));
                assert(triple_of(row) == triple_add(
                    zero_triple(),
                    OreTriple { non_crit: dn as int, crit: dc as int, residue: dr as int },
                ));
                assert forall|p: int, q: int| 0 <= p < q < ores@.len() implies (#[trigger] ores@[
                    p
                ].ore_name@) != (#[trigger] ores@[q].ore_name@) by {
                    if q == ores@.len() - 1 {
                        assert(ores@[p] == s[p]);
                        assert(s[p].ore_name@ != name@);
                    } else {
                        assert(ores@[p] == s[p] && ores@[q] == s[q]);
                    }
                }
            }
        },
    }
}

} // verus!
