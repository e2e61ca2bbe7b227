//! Merging per-file extraction results into the global tables: the
//! per-character table, the per-ore table, and the nested breakdown.
use vstd::prelude::*;

use crate::catalog::clone_string;
use crate::tables::OreTriple;
use crate::tables::ore_add;
use crate::tables::ore_get;
use crate::tables::ore_names_unique;
use crate::tables::ores_view;
use crate::tables::lemma_ores_view_dom;
use crate::tables::lemma_ores_view_index;
use crate::tables::has_ore;
use crate::tables::triple_add;
use crate::tables::triple_of;
use crate::tables::zero_triple;
use crate::types::CharacterMiningData;
use crate::types::CharacterOreRow;
use crate::types::OreData;

verus! {

/// The five per-character counters.
pub ghost struct CharCounts {
    pub mined: int,
    pub crit_mined: int,
    pub cycles: int,
    pub crit_cycles: int,
    pub residue: int,
}

/// All five counters zero.
pub open spec fn zero_counts() -> CharCounts {
    CharCounts { mined: 0, crit_mined: 0, cycles: 0, crit_cycles: 0, residue: 0 }
}

/// Componentwise sum.
pub open spec fn counts_add(a: CharCounts, b: CharCounts) -> CharCounts {
    CharCounts {
        mined: a.mined + b.mined,
        crit_mined: a.crit_mined + b.crit_mined,
        cycles: a.cycles + b.cycles,
        crit_cycles: a.crit_cycles + b.crit_cycles,
        residue: a.residue + b.residue,
    }
}

/// Componentwise order.
pub open spec fn counts_le(a: CharCounts, b: CharCounts) -> bool {
    &&& a.mined <= b.mined
    &&& a.crit_mined <= b.crit_mined
    &&& a.cycles <= b.cycles
    &&& a.crit_cycles <= b.crit_cycles
    &&& a.residue <= b.residue
}

/// The counters of one character row.
pub open spec fn counts_of(c: CharacterMiningData) -> CharCounts {
    CharCounts {
        mined: c.total_mined as int,
        crit_mined: c.crit_mined as int,
        cycles: c.total_cycles as int,
        crit_cycles: c.crit_cycles as int,
        residue: c.total_residue as int,
    }
}

/// The counters under `k`, or zero when `k` is absent.
pub open spec fn counts_get(m: Map<Seq<char>, CharCounts>, k: Seq<char>) -> CharCounts {
    if m.dom().contains(k) {
        m[k]
    } else {
        zero_counts()
    }
}

/// The map a character table denotes.
pub open spec fn chars_view(s: Seq<CharacterMiningData>) -> Map<Seq<char>, CharCounts>
    decreases s.len(),
{
    if s.len() == 0 {
        Map::empty()
    } else {
        chars_view(s.drop_last()).insert(s.last().character_name@, counts_of(s.last()))
    }
}

/// Rows carry pairwise distinct character names.
pub open spec fn char_names_unique(s: Seq<CharacterMiningData>) -> bool {
    forall|i: int, j: int|
        0 <= i < j < s.len() ==> (#[trigger] s[i].character_name@) != (#[trigger] s[
            j
        ].character_name@)
}

/// Some row of the table carries the name `k`.
pub open spec fn has_char(s: Seq<CharacterMiningData>, k: Seq<char>) -> bool {
    exists|i: int| 0 <= i < s.len() && (#[trigger] s[i].character_name@) == k
}

/// The sum of the counters over all rows of the table.
pub open spec fn counts_sum(s: Seq<CharacterMiningData>) -> CharCounts
    decreases s.len(),
{
    if s.len() == 0 {
        zero_counts()
    } else {
        counts_add(counts_sum(s.drop_last()), counts_of(s.last()))
    }
}

/// The view's domain is exactly the set of row names.
pub proof fn lemma_chars_view_dom(s: Seq<CharacterMiningData>)
    ensures
        forall|k: Seq<char>| #[trigger] chars_view(s).dom().contains(k) <==> has_char(s, k),
    decreases s.len(),
{
    if s.len() > 0 {
        lemma_chars_view_dom(s.drop_last());
        assert forall|k: Seq<char>| #[trigger] chars_view(s).dom().contains(k) implies has_char(
            s,
            k,
        ) by {
            if k == s.last().character_name@ {
                assert(s[s.len() - 1].character_name@ == k);
            } else {
                assert(chars_view(s.drop_last()).dom().contains(k));
                assert(has_char(s.drop_last(), k));
                let i = choose|i: int|
                    0 <= i < s.drop_last().len() && (#[trigger] s.drop_last()[
                        i
                    ].character_name@) == k;
                assert(s.drop_last()[i] == s[i]);
                assert(s[i].character_name@ == k);
            }
        }
        assert forall|k: Seq<char>| has_char(s, k) implies #[trigger] chars_view(
            s,
        ).dom().contains(k) by {
            let i = choose|i: int| 0 <= i < s.len() && (#[trigger] s[i].character_name@) == k;
            if i < s.len() - 1 {
                assert(s.drop_last()[i] == s[i]);
                assert(s.drop_last()[i].character_name@ == k);
                assert(has_char(s.drop_last(), k));
                assert(chars_view(s.drop_last()).dom().contains(k));
            } else {
                assert(k == s.last().character_name@);
            }
        }
    }
}

/// In a table with distinct names, row `i` gives the view's value at
/// its name.
pub proof fn lemma_chars_view_index(s: Seq<CharacterMiningData>, i: int)
    requires
        char_names_unique(s),
        0 <= i < s.len(),
    ensures
        chars_view(s).dom().contains(s[i].character_name@),
        chars_view(s)[s[i].character_name@] == counts_of(s[i]),
    decreases s.len(),
{
    if i == s.len() - 1 {
    } else {
        assert(char_names_unique(s.drop_last())) by {
            assert(forall|p: int, q: int|
                0 <= p < q < s.drop_last().len() ==> s.drop_last()[p] == s[p] && s.drop_last()[q]
                    == s[q]);
        }
        lemma_chars_view_index(s.drop_last(), i);
        assert(s.drop_last()[i] == s[i]);
        assert(s[i].character_name@ != s.last().character_name@);
    }
}

/// Updating row `i` without changing its name updates the view at that
/// name alone, and moves the table's sum by the difference.
pub proof fn lemma_chars_view_update(s: Seq<CharacterMiningData>, i: int, c2: CharacterMiningData)
    requires
        char_names_unique(s),
        0 <= i < s.len(),
        c2.character_name@ == s[i].character_name@,
    ensures
        chars_view(s.update(i, c2)) == chars_view(s).insert(c2.character_name@, counts_of(c2)),
        char_names_unique(s.update(i, c2)),
        counts_sum(s.update(i, c2)) == counts_add(
            counts_sum(s),
            CharCounts {
                mined: counts_of(c2).mined - counts_of(s[i]).mined,
                crit_mined: counts_of(c2).crit_mined - counts_of(s[i]).crit_mined,
                cycles: counts_of(c2).cycles - counts_of(s[i]).cycles,
                crit_cycles: counts_of(c2).crit_cycles - counts_of(s[i]).crit_cycles,
                residue: counts_of(c2).residue - counts_of(s[i]).residue,
            },
        ),
    decreases s.len(),
{
    let s2 = s.update(i, c2);
    assert(char_names_unique(s2)) by {
        assert(forall|p: int|
            0 <= p < s.len() ==> (#[trigger] s2[p].character_name@) == s[p].character_name@);
    }
    if i == s.len() - 1 {
        assert(s2.drop_last() =~= s.drop_last());
        assert(s2.last() == c2);
        assert(chars_view(s).insert(c2.character_name@, counts_of(c2)) =~= chars_view(
            s.drop_last(),
        ).insert(c2.character_name@, counts_of(c2)));
    } else {
        assert(char_names_unique(s.drop_last())) by {
            assert(forall|p: int, q: int|
                0 <= p < q < s.drop_last().len() ==> s.drop_last()[p] == s[p] && s.drop_last()[q]
                    == s[q]);
        }
        assert(s2.drop_last() =~= s.drop_last().update(i, c2));
        assert(s2.last() == s.last());
        lemma_chars_view_update(s.drop_last(), i, c2);
        assert(s.drop_last()[i] == s[i]);
        assert(c2.character_name@ != s.last().character_name@);
        assert(chars_view(s.drop_last()).insert(c2.character_name@, counts_of(c2)).insert(
            s.last().character_name@,
            counts_of(s.last()),
        ) =~= chars_view(s.drop_last()).insert(s.last().character_name@, counts_of(s.last())).insert(
            c2.character_name@,
            counts_of(c2),
        ));
    }
}

/// The row of the character table named `name`, if any.
pub fn char_index(table: &Vec<CharacterMiningData>, name: &String) -> (r: Option<usize>)
    ensures
        match r {
            Some(i) => i < table@.len() && table@[i as int].character_name@ == name@,
            None => forall|i: int|
                0 <= i < table@.len() ==> (#[trigger] table@[i].character_name@) != name@,
        },
{
    let mut i: usize = 0;
    while i < table.len()
        invariant
            i <= table@.len(),
            forall|j: int| 0 <= j < i ==> (#[trigger] table@[j].character_name@) != name@,
        decreases table@.len() - i,
    {
        if table[i].character_name == *name {
            return Some(i);
        }
        i = i + 1;
    }
    None
}

/// The row of the breakdown named `name`, if any.
pub fn row_index(bd: &Vec<CharacterOreRow>, name: &String) -> (r: Option<usize>)
    ensures
        match r {
            Some(i) => i < bd@.len() && bd@[i as int].character_name@ == name@,
            None => forall|i: int|
                0 <= i < bd@.len() ==> (#[trigger] bd@[i].character_name@) != name@,
        },
{
    let mut i: usize = 0;
    while i < bd.len()
        invariant
            i <= bd@.len(),
            forall|j: int| 0 <= j < i ==> (#[trigger] bd@[j].character_name@) != name@,
        decreases bd@.len() - i,
    {
        if bd[i].character_name == *name {
            return Some(i);
        }
        i = i + 1;
    }
    None
}

/// Adds the given deltas to the counters of character `name`, creating
/// the row with zeroed counters first when absent.
pub fn char_add(
    table: &mut Vec<CharacterMiningData>,
    name: &String,
    mined: u64,
    crit_mined: u64,
    cycles: u64,
    crit_cycles: u64,
    residue: u64,
)
    requires
        char_names_unique(old(table)@),
        counts_get(chars_view(old(table)@), name@).mined + mined <= u64::MAX,
        counts_get(chars_view(old(table)@), name@).crit_mined + crit_mined <= u64::MAX,
        counts_get(chars_view(old(table)@), name@).cycles + cycles <= u64::MAX,
        counts_get(chars_view(old(table)@), name@).crit_cycles + crit_cycles <= u64::MAX,
        counts_get(chars_view(old(table)@), name@).residue + residue <= u64::MAX,
    ensures
        char_names_unique(final(table)@),
        chars_view(final(table)@) == chars_view(old(table)@).insert(
            name@,
            counts_add(
                counts_get(chars_view(old(table)@), name@),
                CharCounts {
                    mined: mined as int,
                    crit_mined: crit_mined as int,
                    cycles: cycles as int,
                    crit_cycles: crit_cycles as int,
                    residue: residue as int,
                },
            ),
        ),
        counts_sum(final(table)@) == counts_add(
            counts_sum(old(table)@),
            CharCounts {
                mined: mined as int,
                crit_mined: crit_mined as int,
                cycles: cycles as int,
                crit_cycles: crit_cycles as int,
                residue: residue as int,
            },
        ),
{
    let ghost s = table@;
    let idx = char_index(table, name);
    match idx {
        Some(j) => {
            proof {
                lemma_chars_view_index(s, j as int);
            }
            let row = table.remove(j);
            let row2 = CharacterMiningData {
                character_name: row.character_name,
                total_mined: row.total_mined + mined,
                crit_mined: row.crit_mined + crit_mined,
                total_cycles: row.total_cycles + cycles,
                crit_cycles: row.crit_cycles + crit_cycles,
                total_residue: row.total_residue + residue,
            };
            table.insert(j, row2);
            proof {
                assert(table@ =~= s.update(j as int, row2));
                lemma_chars_view_update(s, j as int, row2);
            }
        },
        None => {
            let row = CharacterMiningData {
                character_name: clone_string(name),
                total_mined: mined,
                crit_mined,
                total_cycles: cycles,
                crit_cycles,
                total_residue: residue,
            };
            table.push(row);
            proof {
                lemma_chars_view_dom(s);
                assert(!has_char(s, name@));
                assert(counts_get(chars_view(s), name@) == zero_counts());
                assert(table@.drop_last() =~= s);
                assert(table@.last() == row);
                assert forall|p: int, q: int| 0 <= p < q < table@.len() implies (
                #[trigger] table@[p].character_name@) != (#[trigger] table@[
                    q
                ].character_name@) by {
                    if q == table@.len() - 1 {
                        assert(table@[p] == s[p]);
                        assert(s[p].character_name@ != name@);
                    } else {
                        assert(table@[p] == s[p] && table@[q] == s[q]);
                    }
                }
            }
        },
    }
}

/// Pointwise sum of two ore maps.
pub open spec fn ores_plus(
    m1: Map<Seq<char>, OreTriple>,
    m2: Map<Seq<char>, OreTriple>,
) -> Map<Seq<char>, OreTriple> {
    Map::new(
        |k: Seq<char>| m1.dom().contains(k) || m2.dom().contains(k),
        |k: Seq<char>| triple_add(ore_get(m1, k), ore_get(m2, k)),
    )
}

/// The table-row fold of additions equals the pointwise sum.
pub open spec fn ores_plus_rows(m: Map<Seq<char>, OreTriple>, rows: Seq<OreData>) -> Map<
    Seq<char>,
    OreTriple,
>
    decreases rows.len(),
{
    if rows.len() == 0 {
        m
    } else {
        let m2 = ores_plus_rows(m, rows.drop_last());
        let o = rows.last();
        m2.insert(o.ore_name@, triple_add(ore_get(m2, o.ore_name@), triple_of(o)))
    }
}

/// Folding a table with distinct names into `m` adds its view
/// pointwise.
pub proof fn lemma_ores_plus_rows(m: Map<Seq<char>, OreTriple>, rows: Seq<OreData>)
    requires
        ore_names_unique(rows),
    ensures
        ores_plus_rows(m, rows) == ores_plus(m, ores_view(rows)),
    decreases rows.len(),
{
    if rows.len() == 0 {
        assert(ores_plus_rows(m, rows) =~= ores_plus(m, ores_view(rows)));
    } else {
        let r = rows.drop_last();
        let o = rows.last();
        assert(ore_names_unique(r)) by {
            assert(forall|p: int, q: int|
                0 <= p < q < r.len() ==> r[p] == rows[p] && r[q] == rows[q]);
        }
        lemma_ores_plus_rows(m, r);
        lemma_ores_view_dom(r);
        assert(!has_ore(r, o.ore_name@)) by {
            if has_ore(r, o.ore_name@) {
                let i = choose|i: int|
                    0 <= i < r.len() && (#[trigger] r[i].ore_name@) == o.ore_name@;
                assert(rows[i] == r[i]);
                assert(rows[rows.len() - 1].ore_name@ == o.ore_name@);
            }
        }
        assert(!ores_view(r).dom().contains(o.ore_name@));
        assert(ores_plus_rows(m, rows) =~= ores_plus(m, ores_view(rows)));
    }
}

/// The map a breakdown table denotes: character name to that
/// character's per-ore counters.
pub open spec fn rows_view(s: Seq<CharacterOreRow>) -> Map<Seq<char>, Map<Seq<char>, OreTriple>>
    decreases s.len(),
{
    if s.len() == 0 {
        Map::empty()
    } else {
        rows_view(s.drop_last()).insert(s.last().character_name@, ores_view(s.last().ores@))
    }
}

/// Breakdown rows carry pairwise distinct character names, and each
/// row's ore table carries pairwise distinct ore names.
pub open spec fn rows_wf(s: Seq<CharacterOreRow>) -> bool {
    &&& forall|i: int, j: int|
        0 <= i < j < s.len() ==> (#[trigger] s[i].character_name@) != (#[trigger] s[
            j
        ].character_name@)
    &&& forall|i: int| 0 <= i < s.len() ==> ore_names_unique(#[trigger] s[i].ores@)
}

/// Some row of the breakdown carries the name `k`.
pub open spec fn has_row(s: Seq<CharacterOreRow>, k: Seq<char>) -> bool {
    exists|i: int| 0 <= i < s.len() && (#[trigger] s[i].character_name@) == k
}

/// The inner map under `k`, or the empty map when `k` is absent.
pub open spec fn row_get(m: Map<Seq<char>, Map<Seq<char>, OreTriple>>, k: Seq<char>) -> Map<
    Seq<char>,
    OreTriple,
> {
    if m.dom().contains(k) {
        m[k]
    } else {
        Map::empty()
    }
}

/// The view's domain is exactly the set of row names.
pub proof fn lemma_rows_view_dom(s: Seq<CharacterOreRow>)
    ensures
        forall|k: Seq<char>| #[trigger] rows_view(s).dom().contains(k) <==> has_row(s, k),
    decreases s.len(),
{
    if s.len() > 0 {
        lemma_rows_view_dom(s.drop_last());
        assert forall|k: Seq<char>| #[trigger] rows_view(s).dom().contains(k) implies has_row(
            s,
            k,
        ) by {
            if k == s.last().character_name@ {
                assert(s[s.len() - 1].character_name@ == k);
            } else {
                assert(rows_view(s.drop_last()).dom().contains(k));
                assert(has_row(s.drop_last(), k));
                let i = choose|i: int|
                    0 <= i < s.drop_last().len() && (#[trigger] s.drop_last()[
                        i
                    ].character_name@) == k;
                assert(s.drop_last()[i] == s[i]);
                assert(s[i].character_name@ == k);
            }
        }
        assert forall|k: Seq<char>| has_row(s, k) implies #[trigger] rows_view(s).dom().contains(
            k,
        ) by {
            let i = choose|i: int| 0 <= i < s.len() && (#[trigger] s[i].character_name@) == k;
            if i < s.len() - 1 {
                assert(s.drop_last()[i] == s[i]);
                assert(s.drop_last()[i].character_name@ == k);
                assert(has_row(s.drop_last(), k));
                assert(rows_view(s.drop_last()).dom().contains(k));
            } else {
                assert(k == s.last().character_name@);
            }
        }
    }
}

/// In a well-formed breakdown, row `i` gives the view's value at its
/// name.
pub proof fn lemma_rows_view_index(s: Seq<CharacterOreRow>, i: int)
    requires
        rows_wf(s),
        0 <= i < s.len(),
    ensures
        rows_view(s).dom().contains(s[i].character_name@),
        rows_view(s)[s[i].character_name@] == ores_view(s[i].ores@),
    decreases s.len(),
{
    if i == s.len() - 1 {
    } else {
        assert(rows_wf(s.drop_last())) by {
            assert(forall|p: int|
                0 <= p < s.drop_last().len() ==> s.drop_last()[p] == s[p]);
        }
        lemma_rows_view_index(s.drop_last(), i);
        assert(s.drop_last()[i] == s[i]);
        assert(s[i].character_name@ != s.last().character_name@);
    }
}

/// Updating row `i` without changing its name updates the view at that
/// name alone.
pub proof fn lemma_rows_view_update(s: Seq<CharacterOreRow>, i: int, r2: CharacterOreRow)
    requires
        rows_wf(s),
        0 <= i < s.len(),
        r2.character_name@ == s[i].character_name@,
        ore_names_unique(r2.ores@),
    ensures
        rows_view(s.update(i, r2)) == rows_view(s).insert(r2.character_name@, ores_view(r2.ores@)),
        rows_wf(s.update(i, r2)),
    decreases s.len(),
{
    let s2 = s.update(i, r2);
    assert(rows_wf(s2)) by {
        assert(forall|p: int|
            0 <= p < s.len() && p != i ==> s2[p] == s[p]);
        assert(forall|p: int|
            0 <= p < s.len() ==> (#[trigger] s2[p].character_name@) == s[p].character_name@);
        assert(s2[i].ores@ == r2.ores@);
    }
    if i == s.len() - 1 {
        assert(s2.drop_last() =~= s.drop_last());
        assert(s2.last() == r2);
        assert(rows_view(s).insert(r2.character_name@, ores_view(r2.ores@)) =~= rows_view(
            s.drop_last(),
        ).insert(r2.character_name@, ores_view(r2.ores@)));
    } else {
        assert(rows_wf(s.drop_last())) by {
            assert(forall|p: int|
                0 <= p < s.drop_last().len() ==> s.drop_last()[p] == s[p]);
        }
        assert(s2.drop_last() =~= s.drop_last().update(i, r2));
        assert(s2.last() == s.last());
        lemma_rows_view_update(s.drop_last(), i, r2);
        assert(s.drop_last()[i] == s[i]);
        assert(r2.character_name@ != s.last().character_name@);
        assert(rows_view(s.drop_last()).insert(r2.character_name@, ores_view(r2.ores@)).insert(
            s.last().character_name@,
            ores_view(s.last().ores@),
        ) =~= rows_view(s.drop_last()).insert(
            s.last().character_name@,
            ores_view(s.last().ores@),
        ).insert(r2.character_name@, ores_view(r2.ores@)));
    }
}

/// Adds a file's per-ore counters into the global ore table.
pub fn merge_ores(global: &mut Vec<OreData>, part: &Vec<OreData>)
    requires
        ore_names_unique(old(global)@),
        ore_names_unique(part@),
        forall|k: Seq<char>| {
            let t = triple_add(
                ore_get(ores_view(old(global)@), k),
                #[trigger] ore_get(ores_view(part@), k),
            );
            t.non_crit <= u64::MAX && t.crit <= u64::MAX && t.residue <= u64::MAX
        },
    ensures
        ore_names_unique(final(global)@),
        ores_view(final(global)@) == ores_plus(ores_view(old(global)@), ores_view(part@)),
{
    let ghost g0 = ores_view(global@);
    let mut j: usize = 0;
    while j < part.len()
        invariant
            j <= part@.len(),
            ore_names_unique(part@),
            ore_names_unique(global@),
            g0 == ores_view(old(global)@),
            ores_view(global@) == ores_plus_rows(g0, part@.subrange(0, j as int)),
            forall|k: Seq<char>| {
                let t = triple_add(ore_get(g0, k), #[trigger] ore_get(ores_view(part@), k));
                t.non_crit <= u64::MAX && t.crit <= u64::MAX && t.residue <= u64::MAX
            },
        decreases part@.len() - j,
    {
        let ghost pre = part@.subrange(0, j as int);
        let ghost cur = ores_view(global@);
        proof {
            assert(ore_names_unique(pre)) by {
                assert(forall|p: int, q: int|
                    0 <= p < q < pre.len() ==> pre[p] == part@[p] && pre[q] == part@[q]);
            }
            lemma_ores_plus_rows(g0, pre);
            lemma_ores_view_dom(pre);
            assert(!has_ore(pre, part@[j as int].ore_name@)) by {
                if has_ore(pre, part@[j as int].ore_name@) {
                    let p = choose|p: int|
                        0 <= p < pre.len() && (#[trigger] pre[p].ore_name@) == part@[
                            j as int
                        ].ore_name@;
                    assert(part@[p].ore_name@ == part@[j as int].ore_name@);
                }
            }
            assert(!ores_view(pre).dom().contains(part@[j as int].ore_name@));
            assert(ore_get(cur, part@[j as int].ore_name@) == triple_add(
                ore_get(g0, part@[j as int].ore_name@),
                zero_triple(),
            ) || ore_get(cur, part@[j as int].ore_name@) == ore_get(
                g0,
                part@[j as int].ore_name@,
            ));
            lemma_ores_view_index(part@, j as int);
            assert(ore_get(ores_view(part@), part@[j as int].ore_name@) == triple_of(
                part@[j as int],
            ));
        }
        let row = &part[j];
        ore_add(global, &row.ore_name, row.non_crit, row.crit, row.residue);
        proof {
            assert(part@.subrange(0, j + 1).drop_last() =~= pre);
            assert(part@.subrange(0, j + 1).last() == part@[j as int]);
            assert(ores_view(global@) == ores_plus_rows(g0, part@.subrange(0, j + 1)));
        }
        j = j + 1;
    }
    proof {
        assert(part@.subrange(0, part@.len() as int) =~= part@);
        lemma_ores_plus_rows(g0, part@);
    }
}

/// Adds a file's per-ore counters into one character's breakdown row,
/// creating the row first when absent.
pub fn breakdown_add(bd: &mut Vec<CharacterOreRow>, name: &String, part: &Vec<OreData>)
    requires
        rows_wf(old(bd)@),
        ore_names_unique(part@),
        forall|k: Seq<char>| {
            let t = triple_add(
                ore_get(row_get(rows_view(old(bd)@), name@), k),
                #[trigger] ore_get(ores_view(part@), k),
            );
            t.non_crit <= u64::MAX && t.crit <= u64::MAX && t.residue <= u64::MAX
        },
    ensures
        rows_wf(final(bd)@),
        rows_view(final(bd)@) == rows_view(old(bd)@).insert(
            name@,
            ores_plus(row_get(rows_view(old(bd)@), name@), ores_view(part@)),
        ),
{
    let ghost s = bd@;
    let idx = row_index(bd, name);
    match idx {
        Some(j) => {
            proof {
                lemma_rows_view_index(s, j as int);
            }
            let mut row = bd.remove(j);
            merge_ores(&mut row.ores, part);
            let ghost row2 = row;
            bd.insert(j, row);
            proof {
                assert(bd@ =~= s.update(j as int, row2));
                lemma_rows_view_update(s, j as int, row2);
            }
        },
        None => {
            proof {
                lemma_rows_view_dom(s);
                assert(!has_row(s, name@));
                assert(!rows_view(s).dom().contains(name@));
            }
            let mut row = CharacterOreRow { character_name: clone_string(name), ores: Vec::new() };
            proof {
                assert(ores_view(row.ores@) =~= Map::<Seq<char>, OreTriple>::empty());
                assert forall|k: Seq<char>| {
                    let t = triple_add(
                        ore_get(ores_view(row.ores@), k),
                        #[trigger] ore_get(ores_view(part@), k),
                    );
                    t.non_crit <= u64::MAX && t.crit <= u64::MAX && t.residue <= u64::MAX
                } by {
                    assert(ore_get(ores_view(row.ores@), k) == zero_triple());
                    assert(ore_get(row_get(rows_view(s), name@), k) == zero_triple());
                }
            }
            merge_ores(&mut row.ores, part);
            let ghost row2 = row;
            bd.push(row);
            proof {
                assert(bd@.drop_last() =~= s);
                assert(bd@.last() == row2);
                assert(rows_view(bd@) == rows_view(s).insert(name@, ores_view(row2.ores@)));
                assert(ores_view(row2.ores@) == ores_plus(
                    ores_view(Seq::<OreData>::empty()),
                    ores_view(part@),
                ));
                assert(ores_plus(ores_view(Seq::<OreData>::empty()), ores_view(part@)) =~= ores_plus(
                    row_get(rows_view(s), name@),
                    ores_view(part@),
                ));
                assert forall|p: int, q: int| 0 <= p < q < bd@.len() implies (#[trigger] bd@[
                    p
                ].character_name@) != (#[trigger] bd@[q].character_name@) by {
                    if q == bd@.len() - 1 {
                        assert(bd@[p] == s[p]);
                        assert(s[p].character_name@ != name@);
                    } else {
                        assert(bd@[p] == s[p] && bd@[q] == s[q]);
                    }
                }
                assert forall|p: int| 0 <= p < bd@.len() implies ore_names_unique(
                    #[trigger] bd@[p].ores@,
                ) by {
                    if p < bd@.len() - 1 {
                        assert(bd@[p] == s[p]);
                    }
                }
            }
        },
    }
}

} // verus!
