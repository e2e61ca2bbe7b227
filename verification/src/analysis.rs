//! The full analysis run over the selected files: parse each file,
//! merge the per-file tallies, derive overall statistics, the active
//! days, and the resolved date range.
use vstd::prelude::*;

use crate::catalog::clone_string;
use crate::catalog::get_active_days;
use crate::catalog::has_day;
use crate::catalog::mtimes_in_range;
use crate::extract::LineTally;
use crate::extract::file_tally;
use crate::extract::listener_within;
use crate::extract::parse_log_file;
use crate::extract::tally_fits;
use crate::extract::tally_wf;
use crate::extract::lemma_tally_upto_wf;
use crate::merge::CharCounts;
use crate::merge::breakdown_add;
use crate::merge::char_add;
use crate::merge::char_names_unique;
use crate::merge::chars_view;
use crate::merge::counts_add;
use crate::merge::counts_get;
use crate::merge::counts_le;
use crate::merge::counts_sum;
use crate::merge::merge_ores;
use crate::merge::ores_plus;
use crate::merge::row_get;
use crate::merge::rows_view;
use crate::merge::rows_wf;
use crate::merge::zero_counts;
use crate::scope::day_in_bounds;
use crate::scope::file_selected;
use crate::scope::selected_upto;
use crate::tables::OreTriple;
use crate::tables::ore_get;
use crate::tables::ore_names_unique;
use crate::tables::ores_view;
use crate::timefmt::day_end;
use crate::timefmt::day_end_exec;
use crate::timefmt::day_in_range;
use crate::timefmt::day_of;
use crate::timefmt::day_start;
use crate::timefmt::day_start_exec;
use crate::timefmt::instant_in_range;
use crate::timefmt::lemma_day_of_range;
use crate::timefmt::render_instant;
use crate::timefmt::rfc3339_render;
use crate::types::CharacterMiningData;
use crate::types::CharacterOreRow;
use crate::types::DateRange;
use crate::types::DateRangeResult;
use crate::types::LogAnalysisResult;
use crate::types::LogError;
use crate::types::LogFileInfo;
use crate::types::OreData;
use crate::types::OverallStats;
use crate::types::string_views;

verus! {

/// The per-file line views of the selected files' contents.
pub open spec fn contents_views(cs: Seq<Vec<String>>) -> Seq<Seq<Seq<char>>> {
    Seq::new(cs.len(), |i: int| string_views(cs[i]@))
}

/// The character a file's whole text announces, if any.
pub open spec fn file_lst(lines: Seq<Seq<char>>) -> Option<Seq<char>> {
    listener_within(lines, 0, lines.len() as int)
}

/// The five counters of a file's tally.
pub open spec fn counts_of_tally(t: LineTally) -> CharCounts {
    CharCounts {
        mined: t.mined,
        crit_mined: t.crit_mined,
        cycles: t.cycles,
        crit_cycles: t.crit_cycles,
        residue: t.residue,
    }
}

/// Every component fits the counter width.
pub open spec fn totals_fit(c: CharCounts) -> bool {
    &&& c.mined <= u64::MAX
    &&& c.crit_mined <= u64::MAX
    &&& c.cycles <= u64::MAX
    &&& c.crit_cycles <= u64::MAX
    &&& c.residue <= u64::MAX
}

/// The sums of all counters over the first `n` files.
pub open spec fn totals_upto(cv: Seq<Seq<Seq<char>>>, n: int) -> CharCounts
    decreases n,
{
    if n <= 0 {
        zero_counts()
    } else {
        counts_add(totals_upto(cv, n - 1), counts_of_tally(file_tally(cv[n - 1])))
    }
}

/// The merged per-character map over the first `n` files.
pub open spec fn merge_chars_upto(cv: Seq<Seq<Seq<char>>>, n: int) -> Map<Seq<char>, CharCounts>
    decreases n,
{
    if n <= 0 {
        Map::empty()
    } else {
        let m = merge_chars_upto(cv, n - 1);
        match file_lst(cv[n - 1]) {
            None => m,
            Some(nm) => m.insert(
                nm,
                counts_add(counts_get(m, nm), counts_of_tally(file_tally(cv[n - 1]))),
            ),
        }
    }
}

/// The merged per-ore map over the first `n` files.
pub open spec fn merge_ores_upto(cv: Seq<Seq<Seq<char>>>, n: int) -> Map<Seq<char>, OreTriple>
    decreases n,
{
    if n <= 0 {
        Map::empty()
    } else {
        let m = merge_ores_upto(cv, n - 1);
        match file_lst(cv[n - 1]) {
            None => m,
            Some(nm) => ores_plus(m, file_tally(cv[n - 1]).ores),
        }
    }
}

/// The merged nested breakdown over the first `n` files.
pub open spec fn merge_rows_upto(cv: Seq<Seq<Seq<char>>>, n: int) -> Map<
    Seq<char>,
    Map<Seq<char>, OreTriple>,
>
    decreases n,
{
    if n <= 0 {
        Map::empty()
    } else {
        let m = merge_rows_upto(cv, n - 1);
        match file_lst(cv[n - 1]) {
            None => m,
            Some(nm) => m.insert(nm, ores_plus(row_get(m, nm), file_tally(cv[n - 1]).ores)),
        }
    }
}

/// The merged tables agree on their keys: a character has a breakdown
/// row exactly when it has a totals entry, and every ore named in any
/// breakdown row also has an entry in the merged ore map.
pub proof fn lemma_merged_keys_consistent(cv: Seq<Seq<Seq<char>>>, n: int)
    ensures
        merge_rows_upto(cv, n).dom() == merge_chars_upto(cv, n).dom(),
        forall|c: Seq<char>, k: Seq<char>|
            merge_rows_upto(cv, n).dom().contains(c) && #[trigger] merge_rows_upto(cv, n)[
                c
            ].dom().contains(k) ==> merge_ores_upto(cv, n).dom().contains(k),
    decreases n,
{
    if n <= 0 {
        assert(merge_rows_upto(cv, n).dom() =~= merge_chars_upto(cv, n).dom());
    } else {
        lemma_merged_keys_consistent(cv, n - 1);
        let rm = merge_rows_upto(cv, n - 1);
        let cm = merge_chars_upto(cv, n - 1);
        let om = merge_ores_upto(cv, n - 1);
        let rm2 = merge_rows_upto(cv, n);
        let om2 = merge_ores_upto(cv, n);
        match file_lst(cv[n - 1]) {
            None => {},
            Some(nm) => {
                let t = file_tally(cv[n - 1]);
                assert(rm2.dom() =~= merge_chars_upto(cv, n).dom());
                assert forall|c: Seq<char>, k: Seq<char>|
                    rm2.dom().contains(c) && #[trigger] rm2[c].dom().contains(k) implies om2
                    .dom().contains(k) by {
                    if c == nm {
                        assert(rm2[c] == ores_plus(row_get(rm, nm), t.ores));
                        if t.ores.dom().contains(k) {
                        } else {
                            assert(row_get(rm, nm).dom().contains(k));
                            assert(rm.dom().contains(nm));
                            assert(om.dom().contains(k));
                        }
                    } else {
                        assert(rm2[c] == rm[c]);
                        assert(om.dom().contains(k));
                    }
                }
            },
        }
    }
}

/// The first file, from `i` on, at which the run aborts: its text
/// announces no character, or the running totals through it no longer
/// fit the counter width.
pub open spec fn first_failure_from(cv: Seq<Seq<Seq<char>>>, i: int) -> Option<int>
    decreases cv.len() - i,
{
    if i < 0 || i >= cv.len() {
        None
    } else if file_lst(cv[i]) is None {
        Some(i)
    } else if !totals_fit(totals_upto(cv, i + 1)) {
        Some(i)
    } else {
        first_failure_from(cv, i + 1)
    }
}

/// Every entry of the three global maps stays below the running
/// totals of its kind.
pub open spec fn globals_bounded(
    cm: Map<Seq<char>, CharCounts>,
    om: Map<Seq<char>, OreTriple>,
    rm: Map<Seq<char>, Map<Seq<char>, OreTriple>>,
    tot: CharCounts,
) -> bool {
    &&& forall|k: Seq<char>| cm.dom().contains(k) ==> counts_le(#[trigger] cm[k], tot)
    &&& forall|k: Seq<char>|
        om.dom().contains(k) ==> {
            let t = #[trigger] om[k];
            t.non_crit <= tot.mined && t.crit <= tot.crit_mined && t.residue <= tot.residue
        }
    &&& forall|c: Seq<char>, k: Seq<char>|
        rm.dom().contains(c) && #[trigger] rm[c].dom().contains(k) ==> {
            let t = rm[c][k];
            t.non_crit <= tot.mined && t.crit <= tot.crit_mined && t.residue <= tot.residue
        }
}

/// Merging one well-formed file tally preserves the bound against the
/// grown totals.
proof fn lemma_bounded_insert(
    cm: Map<Seq<char>, CharCounts>,
    om: Map<Seq<char>, OreTriple>,
    rm: Map<Seq<char>, Map<Seq<char>, OreTriple>>,
    tot: CharCounts,
    nm: Seq<char>,
    t: LineTally,
)
    requires
        globals_bounded(cm, om, rm, tot),
        counts_le(zero_counts(), tot),
        tally_wf(t),
    ensures
        globals_bounded(
            cm.insert(nm, counts_add(counts_get(cm, nm), counts_of_tally(t))),
            ores_plus(om, t.ores),
            rm.insert(nm, ores_plus(row_get(rm, nm), t.ores)),
            counts_add(tot, counts_of_tally(t)),
        ),
{
    let fc = counts_of_tally(t);
    let tot2 = counts_add(tot, fc);
    let cm2 = cm.insert(nm, counts_add(counts_get(cm, nm), fc));
    let om2 = ores_plus(om, t.ores);
    let rm2 = rm.insert(nm, ores_plus(row_get(rm, nm), t.ores));
    assert forall|k: Seq<char>| cm2.dom().contains(k) implies counts_le(
        #[trigger] cm2[k],
        tot2,
    ) by {
        if k != nm {
            assert(cm2[k] == cm[k]);
        }
    }
    assert forall|k: Seq<char>| om2.dom().contains(k) implies {
        let v = #[trigger] om2[k];
        v.non_crit <= tot2.mined && v.crit <= tot2.crit_mined && v.residue <= tot2.residue
    } by {
        assert(om2[k] == crate::tables::triple_add(ore_get(om, k), ore_get(t.ores, k)));
    }
    assert forall|c: Seq<char>, k: Seq<char>|
        rm2.dom().contains(c) && #[trigger] rm2[c].dom().contains(k) implies {
        let v = rm2[c][k];
        v.non_crit <= tot2.mined && v.crit <= tot2.crit_mined && v.residue <= tot2.residue
    } by {
        if c == nm {
            assert(rm2[c][k] == crate::tables::triple_add(
                ore_get(row_get(rm, nm), k),
                ore_get(t.ores, k),
            ));
        } else {
            assert(rm2[c] == rm[c]);
        }
    }
}

/// Prefix sums over a character table never exceed the whole sum.
proof fn lemma_counts_sum_prefix(s: Seq<CharacterMiningData>, k: int)
    requires
        0 <= k <= s.len(),
    ensures
        counts_le(counts_sum(s.subrange(0, k)), counts_sum(s)),
        counts_le(zero_counts(), counts_sum(s.subrange(0, k))),
    decreases s.len() - k,
{
    if k == s.len() {
        assert(s.subrange(0, k) =~= s);
        lemma_counts_sum_nonneg(s);
    } else {
        lemma_counts_sum_prefix(s, k + 1);
        assert(s.subrange(0, k + 1).drop_last() =~= s.subrange(0, k));
        assert(s.subrange(0, k + 1).last() == s[k]);
        lemma_counts_sum_nonneg(s.subrange(0, k));
    }
}

/// Sums of counter rows are never negative.
proof fn lemma_counts_sum_nonneg(s: Seq<CharacterMiningData>)
    ensures
        counts_le(zero_counts(), counts_sum(s)),
    decreases s.len(),
{
    if s.len() > 0 {
        lemma_counts_sum_nonneg(s.drop_last());
    }
}

/// Sums the five counters over all rows of the character table.
///
/// The overall totals equal, field by field, the sum of the same field
/// across all entries of the per-character table.
pub fn compute_overall(table: &Vec<CharacterMiningData>) -> (r: OverallStats)
    requires
        totals_fit(counts_sum(table@)),
    ensures
        r.total_mined as int == counts_sum(table@).mined,
        r.total_crit as int == counts_sum(table@).crit_mined,
        r.total_cycles as int == counts_sum(table@).cycles,
        r.total_crit_cycles as int == counts_sum(table@).crit_cycles,
        r.total_residue as int == counts_sum(table@).residue,
{
    let mut mined: u64 = 0;
    let mut crit: u64 = 0;
    let mut cycles: u64 = 0;
    let mut crit_cycles: u64 = 0;
    let mut residue: u64 = 0;
    let mut i: usize = 0;
    while i < table.len()
        invariant
            i <= table@.len(),
            totals_fit(counts_sum(table@)),
            mined as int == counts_sum(table@.subrange(0, i as int)).mined,
            crit as int == counts_sum(table@.subrange(0, i as int)).crit_mined,
            cycles as int == counts_sum(table@.subrange(0, i as int)).cycles,
            crit_cycles as int == counts_sum(table@.subrange(0, i as int)).crit_cycles,
            residue as int == counts_sum(table@.subrange(0, i as int)).residue,
        decreases table@.len() - i,
    {
        proof {
            lemma_counts_sum_prefix(table@, i + 1);
            assert(table@.subrange(0, i + 1).drop_last() =~= table@.subrange(0, i as int));
            assert(table@.subrange(0, i + 1).last() == table@[i as int]);
            lemma_counts_sum_nonneg(table@.subrange(0, i as int));
        }
        let row = &table[i];
        mined = mined + row.total_mined;
        crit = crit + row.crit_mined;
        cycles = cycles + row.total_cycles;
        crit_cycles = crit_cycles + row.crit_cycles;
        residue = residue + row.total_residue;
        i = i + 1;
    }
    proof {
        assert(table@.subrange(0, i as int) =~= table@);
    }
    OverallStats { total_mined: mined, total_crit: crit, total_cycles: cycles,
        total_crit_cycles: crit_cycles, total_residue: residue }
}

impl OverallStats {
    /// The critical-cycle rate in hundredths of a percent, rounded
    /// down; zero when no cycles were counted.
    pub fn overall_crit_rate_centi(&self) -> (r: u128)
        ensures
            self.total_cycles == 0 ==> r == 0,
            self.total_cycles > 0 ==> r == (self.total_crit_cycles * 10000) as int
                / self.total_cycles as int,
    {
        if self.total_cycles == 0 {
            0
        } else {
            (self.total_crit_cycles as u128) * 10000 / (self.total_cycles as u128)
        }
    }

    /// The residue rate in hundredths of a percent, rounded down; zero
    /// when nothing was mined or depleted.
    pub fn overall_residue_rate_centi(&self) -> (r: u128)
        ensures
            self.total_mined + self.total_crit + self.total_residue == 0 ==> r == 0,
            self.total_mined + self.total_crit + self.total_residue > 0 ==> r == (
            self.total_residue * 10000) as int / (self.total_mined + self.total_crit
                + self.total_residue) as int,
    {
        let denom: u128 = self.total_mined as u128 + self.total_crit as u128
            + self.total_residue as u128;
        if denom == 0 {
            0
        } else {
            (self.total_residue as u128) * 10000 / denom
        }
    }
}

/// The integer values of a day vector.
pub open spec fn int_days(ds: Seq<i64>) -> Seq<int> {
    Seq::new(ds.len(), |i: int| ds[i] as int)
}

/// `ds` is exactly the set of calendar days of `files`, strictly
/// ascending, each within the supported range.
pub open spec fn days_ok(ds: Seq<int>, files: Seq<LogFileInfo>) -> bool {
    &&& forall|i: int, j: int| 0 <= i < j < ds.len() ==> ds[i] < ds[j]
    &&& forall|i: int| 0 <= i < ds.len() ==> has_day(files, #[trigger] ds[i])
    &&& forall|k: int|
        0 <= k < files.len() ==> ds.contains(day_of(#[trigger] files[k].mtime_secs as int))
    &&& forall|i: int| 0 <= i < ds.len() ==> day_in_range(#[trigger] ds[i])
}

/// The strings render the days' midnight instants, in order.
pub open spec fn renders_days(ds: Seq<int>, strs: Seq<String>) -> bool {
    &&& strs.len() == ds.len()
    &&& forall|i: int|
        0 <= i < ds.len() ==> (#[trigger] strs[i]@) == rfc3339_render(day_start(ds[i]) as i64)
}

/// The resolved date range: both given bounds are echoed; an absent
/// bound is filled from the first or last active day; with no bounds
/// the full span of active days is used.
pub open spec fn range_ok(range: Option<DateRange>, ds: Seq<int>, out: DateRangeResult) -> bool {
    match range {
        Some(dr) => {
            if dr.start is Some && dr.end is Some {
                out.start@ == dr.start->0@ && out.end@ == dr.end->0@
            } else if dr.start is Some {
                out.start@ == dr.start->0@ && (if ds.len() > 0 {
                    out.end@ == rfc3339_render(day_end(ds.last()) as i64)
                } else {
                    out.end@ == dr.start->0@
                })
            } else if dr.end is Some {
                out.end@ == dr.end->0@ && (if ds.len() > 0 {
                    out.start@ == rfc3339_render(day_start(ds.first()) as i64)
                } else {
                    out.start@ == dr.end->0@
                })
            } else {
                ds.len() > 0 && out.start@ == rfc3339_render(day_start(ds.first()) as i64)
                    && out.end@ == rfc3339_render(day_end(ds.last()) as i64)
            }
        },
        None => ds.len() > 0 && out.start@ == rfc3339_render(day_start(ds.first()) as i64)
            && out.end@ == rfc3339_render(day_end(ds.last()) as i64),
    }
}

/// Renders each active day as its midnight instant.
pub fn render_active_days(days: &Vec<i64>) -> (r: Vec<String>)
    requires
        forall|i: int| 0 <= i < days@.len() ==> day_in_range(#[trigger] days@[i] as int),
    ensures
        renders_days(int_days(days@), r@),
{
    let mut out: Vec<String> = Vec::new();
    let mut i: usize = 0;
    while i < days.len()
        invariant
            i <= days@.len(),
            out@.len() == i,
            forall|j: int| 0 <= j < days@.len() ==> day_in_range(#[trigger] days@[j] as int),
            forall|j: int|
                0 <= j < i ==> (#[trigger] out@[j]@) == rfc3339_render(
                    day_start(days@[j] as int) as i64,
                ),
        decreases days@.len() - i,
    {
        let s = render_instant(day_start_exec(days[i]));
        out.push(s);
        i = i + 1;
    }
    out
}

/// Resolves the output date range from the request and the active
/// days, echoing given bounds and filling absent ones from the span of
/// active days.
pub fn resolve_date_range(range: &Option<DateRange>, days: &Vec<i64>) -> (r: DateRangeResult)
    requires
        forall|i: int| 0 <= i < days@.len() ==> day_in_range(#[trigger] days@[i] as int),
        match *range {
            Some(dr) => dr.start is Some || dr.end is Some || days@.len() > 0,
            None => days@.len() > 0,
        },
    ensures
        range_ok(*range, int_days(days@), r),
{
    match range {
        Some(dr) => match (&dr.start, &dr.end) {
            (Some(s), Some(e)) => DateRangeResult { start: clone_string(s), end: clone_string(e) },
            (Some(s), None) => {
                let end = if days.len() > 0 {
                    render_instant(day_end_exec(days[days.len() - 1]))
                } else {
                    clone_string(s)
                };
                DateRangeResult { start: clone_string(s), end }
            },
            (None, Some(e)) => {
                let start = if days.len() > 0 {
                    render_instant(day_start_exec(days[0]))
                } else {
                    clone_string(e)
                };
                DateRangeResult { start, end: clone_string(e) }
            },
            (None, None) => DateRangeResult {
                start: render_instant(day_start_exec(days[0])),
                end: render_instant(day_end_exec(days[days.len() - 1])),
            },
        },
        None => DateRangeResult {
            start: render_instant(day_start_exec(days[0])),
            end: render_instant(day_end_exec(days[days.len() - 1])),
        },
    }
}

/// Some strictly ascending day sequence captures exactly the selected
/// files' days, is rendered into the day strings, and resolves the
/// output range.
pub open spec fn days_range_witness(
    range: Option<DateRange>,
    files: Seq<LogFileInfo>,
    strs: Seq<String>,
    out: DateRangeResult,
) -> bool {
    exists|ds: Seq<int>|
        #[trigger] days_ok(ds, files) && renders_days(ds, strs) && range_ok(range, ds, out)
}

/// Analyzes the selected files: extracts every file's events, merges
/// them into per-character, per-ore, and nested tables, and derives
/// the overall statistics, active days, and resolved date range.
///
/// Yields `Ok(None)` when no files were selected; aborts at the first
/// file that announces no character or whose contribution overflows
/// the counters.
pub fn analyze_logs(
    range: &Option<DateRange>,
    selected: &Vec<LogFileInfo>,
    contents: &Vec<Vec<String>>,
) -> (r: Result<Option<LogAnalysisResult>, LogError>)
    requires
        selected@.len() == contents@.len(),
        mtimes_in_range(selected@),
    ensures
        ({
            let cv = contents_views(contents@);
            let n = selected@.len() as int;
            match r {
                Ok(opt) => first_failure_from(cv, 0) is None && (match opt {
                    None => n == 0,
                    Some(res) => {
                        &&& n > 0
                        &&& char_names_unique(res.characters@)
                        &&& chars_view(res.characters@) == merge_chars_upto(cv, n)
                        &&& ore_names_unique(res.ore_breakdown@)
                        &&& ores_view(res.ore_breakdown@) == merge_ores_upto(cv, n)
                        &&& rows_wf(res.character_ore_breakdown@)
                        &&& rows_view(res.character_ore_breakdown@) == merge_rows_upto(cv, n)
                        &&& counts_sum(res.characters@) == totals_upto(cv, n)
                        &&& res.overall.total_mined as int == counts_sum(res.characters@).mined
                        &&& res.overall.total_crit as int == counts_sum(res.characters@).crit_mined
                        &&& res.overall.total_cycles as int == counts_sum(res.characters@).cycles
                        &&& res.overall.total_crit_cycles as int == counts_sum(
                            res.characters@,
                        ).crit_cycles
                        &&& res.overall.total_residue as int == counts_sum(
                            res.characters@,
                        ).residue
                        &&& days_range_witness(*range, selected@, res.active_days@, res.date_range)
                    },
                }),
                Err(e) => ({
                    let ff = first_failure_from(cv, 0);
                    ff is Some && (match e {
                        LogError::MissingCharacter(f) => f@ == selected@[ff->0].name@ && file_lst(
                            cv[ff->0],
                        ) is None,
                        LogError::AmountOverflow(f) => f@ == selected@[ff->0].name@ && file_lst(
                            cv[ff->0],
                        ) is Some && !totals_fit(totals_upto(cv, ff->0 + 1)),
                    })
                }),
            }
        }),
{
    let ghost cv = contents_views(contents@);
    let n = selected.len();
    if n == 0 {
        return Ok(None);
    }
    let mut chars_t: Vec<CharacterMiningData> = Vec::new();
    let mut ores_t: Vec<OreData> = Vec::new();
    let mut bd_t: Vec<CharacterOreRow> = Vec::new();
    let mut tot_mined: u64 = 0;
    let mut tot_crit: u64 = 0;
    let mut tot_cycles: u64 = 0;
    let mut tot_crit_cycles: u64 = 0;
    let mut tot_residue: u64 = 0;
    let mut i: usize = 0;
    while i < n
        invariant
            n == selected@.len(),
            selected@.len() == contents@.len(),
            i <= n,
            cv == contents_views(contents@),
            first_failure_from(cv, 0) == first_failure_from(cv, i as int),
            tot_mined as int == totals_upto(cv, i as int).mined,
            tot_crit as int == totals_upto(cv, i as int).crit_mined,
            tot_cycles as int == totals_upto(cv, i as int).cycles,
            tot_crit_cycles as int == totals_upto(cv, i as int).crit_cycles,
            tot_residue as int == totals_upto(cv, i as int).residue,
            char_names_unique(chars_t@),
            chars_view(chars_t@) == merge_chars_upto(cv, i as int),
            counts_sum(chars_t@) == totals_upto(cv, i as int),
            ore_names_unique(ores_t@),
            ores_view(ores_t@) == merge_ores_upto(cv, i as int),
            rows_wf(bd_t@),
            rows_view(bd_t@) == merge_rows_upto(cv, i as int),
            globals_bounded(
                chars_view(chars_t@),
                ores_view(ores_t@),
                rows_view(bd_t@),
                totals_upto(cv, i as int),
            ),
        decreases n - i,
    {
        let ghost lines = cv[i as int];
        let ghost tot0 = totals_upto(cv, i as int);
        proof {
            assert(lines == string_views(contents@[i as int]@));
            lemma_tally_upto_wf(lines, lines.len() as int);
            assert(tally_wf(file_tally(lines)));
        }
        let ghost t = file_tally(lines);
        let ft = match parse_log_file(selected[i].name.as_str(), &contents[i]) {
            Err(e) => {
                proof {
                    assert(counts_le(zero_counts(), tot0)) by {
                        lemma_totals_nonneg(cv, i as int);
                    }
                    match e {
                        LogError::MissingCharacter(_) => {
                            assert(file_lst(lines) is None);
                            assert(first_failure_from(cv, i as int) == Some(i as int));
                        },
                        LogError::AmountOverflow(_) => {
                            assert(!tally_fits(t));
                            assert(!totals_fit(totals_upto(cv, i + 1)));
                            assert(first_failure_from(cv, i as int) == Some(i as int));
                        },
                    }
                }
                return Err(e);
            },
            Ok(ft) => ft,
        };
        let ghost nm = file_lst(lines)->0;
        proof {
            assert(ft.character_name@ == nm);
            assert(ft.total_mined as int == t.mined);
            lemma_totals_nonneg(cv, i as int);
        }
        let overflow: bool = tot_mined > u64::MAX - ft.total_mined || tot_crit > u64::MAX
            - ft.crit_mined || tot_cycles > u64::MAX - ft.total_cycles || tot_crit_cycles
            > u64::MAX - ft.crit_cycles || tot_residue > u64::MAX - ft.total_residue;
        if overflow {
            proof {
                assert(!totals_fit(totals_upto(cv, i + 1)));
                assert(first_failure_from(cv, i as int) == Some(i as int));
            }
            return Err(LogError::AmountOverflow(clone_string(&selected[i].name)));
        }
        tot_mined = tot_mined + ft.total_mined;
        tot_crit = tot_crit + ft.crit_mined;
        tot_cycles = tot_cycles + ft.total_cycles;
        tot_crit_cycles = tot_crit_cycles + ft.crit_cycles;
        tot_residue = tot_residue + ft.total_residue;
        let ghost tot1 = totals_upto(cv, i + 1);
        proof {
            assert(tot1 == counts_add(tot0, counts_of_tally(t)));
            assert(totals_fit(tot1));
            assert(counts_get(chars_view(chars_t@), nm).mined + ft.total_mined <= u64::MAX) by {
                if chars_view(chars_t@).dom().contains(nm) {
                    assert(counts_le(chars_view(chars_t@)[nm], tot0));
                }
            }
            assert(counts_get(chars_view(chars_t@), nm).crit_mined + ft.crit_mined
                <= u64::MAX) by {
                if chars_view(chars_t@).dom().contains(nm) {
                    assert(counts_le(chars_view(chars_t@)[nm], tot0));
                }
            }
            assert(counts_get(chars_view(chars_t@), nm).cycles + ft.total_cycles <= u64::MAX) by {
                if chars_view(chars_t@).dom().contains(nm) {
                    assert(counts_le(chars_view(chars_t@)[nm], tot0));
                }
            }
            assert(counts_get(chars_view(chars_t@), nm).crit_cycles + ft.crit_cycles
                <= u64::MAX) by {
                if chars_view(chars_t@).dom().contains(nm) {
                    assert(counts_le(chars_view(chars_t@)[nm], tot0));
                }
            }
            assert(counts_get(chars_view(chars_t@), nm).residue + ft.total_residue
                <= u64::MAX) by {
                if chars_view(chars_t@).dom().contains(nm) {
                    assert(counts_le(chars_view(chars_t@)[nm], tot0));
                }
            }
        }
        let ghost old_chars = chars_t@;
        let ghost old_ores = ores_t@;
        let ghost old_bd = bd_t@;
        char_add(
            &mut chars_t,
            &ft.character_name,
            ft.total_mined,
            ft.crit_mined,
            ft.total_cycles,
            ft.crit_cycles,
            ft.total_residue,
        );
        proof {
            assert(ores_view(ft.ores@) == t.ores);
            assert forall|k: Seq<char>| {
                let v = crate::tables::triple_add(
                    ore_get(ores_view(old_ores), k),
                    #[trigger] ore_get(ores_view(ft.ores@), k),
                );
                v.non_crit <= u64::MAX && v.crit <= u64::MAX && v.residue <= u64::MAX
            } by {
                if ores_view(old_ores).dom().contains(k) {
                }
                if t.ores.dom().contains(k) {
                }
            }
        }
        merge_ores(&mut ores_t, &ft.ores);
        proof {
            assert forall|k: Seq<char>| {
                let v = crate::tables::triple_add(
                    ore_get(row_get(rows_view(old_bd), nm), k),
                    #[trigger] ore_get(ores_view(ft.ores@), k),
                );
                v.non_crit <= u64::MAX && v.crit <= u64::MAX && v.residue <= u64::MAX
            } by {
                if rows_view(old_bd).dom().contains(nm) && row_get(
                    rows_view(old_bd),
                    nm,
                ).dom().contains(k) {
                }
                if t.ores.dom().contains(k) {
                }
            }
        }
        breakdown_add(&mut bd_t, &ft.character_name, &ft.ores);
        proof {
            lemma_bounded_insert(
                chars_view(old_chars),
                ores_view(old_ores),
                rows_view(old_bd),
                tot0,
                nm,
                t,
            );
            assert(merge_chars_upto(cv, i + 1) == chars_view(chars_t@));
            assert(merge_ores_upto(cv, i + 1) == ores_view(ores_t@));
            assert(merge_rows_upto(cv, i + 1) == rows_view(bd_t@));
            assert(first_failure_from(cv, i as int) == first_failure_from(cv, i + 1));
        }
        i = i + 1;
    }
    let days = get_active_days(selected);
    proof {
        assert(days@.contains(day_of(selected@[0].mtime_secs as int) as i64));
        assert(days@.len() > 0);
    }
    let day_strings = render_active_days(&days);
    let date_range = resolve_date_range(range, &days);
    proof {
        assert(totals_fit(counts_sum(chars_t@)));
    }
    let overall = compute_overall(&chars_t);
    let res = LogAnalysisResult {
        characters: chars_t,
        ore_breakdown: ores_t,
        character_ore_breakdown: bd_t,
        date_range,
        active_days: day_strings,
        overall,
    };
    proof {
        assert(days@.len() > 0) by {
            assert(days@.contains(day_of(selected@[0].mtime_secs as int) as i64));
        }
        let ds = int_days(days@);
        assert(days_ok(ds, selected@)) by {
            assert forall|p: int, q: int| 0 <= p < q < ds.len() implies ds[p] < ds[q] by {
                assert(days@[p] < days@[q]);
            }
            assert forall|p: int| 0 <= p < ds.len() implies has_day(selected@, #[trigger] ds[p])
                && day_in_range(ds[p]) by {
                assert(has_day(selected@, days@[p] as int));
                assert(day_in_range(days@[p] as int));
            }
            assert forall|k: int| 0 <= k < selected@.len() implies ds.contains(
                day_of(#[trigger] selected@[k].mtime_secs as int),
            ) by {
                let v = day_of(selected@[k].mtime_secs as int) as i64;
                assert(days@.contains(v));
                let j = choose|j: int| 0 <= j < days@.len() && days@[j] == v;
                assert(instant_in_range(selected@[k].mtime_secs as int));
                lemma_day_of_range(selected@[k].mtime_secs as int);
                assert(ds[j] == day_of(selected@[k].mtime_secs as int));
            }
        }
        assert(renders_days(ds, res.active_days@));
        assert(range_ok(*range, ds, res.date_range));
        assert(days_range_witness(*range, selected@, res.active_days@, res.date_range));
        assert(first_failure_from(cv, selected@.len() as int) is None);
    }
    Ok(Some(res))
}

/// A character set that correctly seeds the session: no duplicates,
/// every member resolved from some file of the check set, and every
/// resolved identity of the check set a member.
pub open spec fn session_set_ok(
    chars: Seq<Seq<char>>,
    files: Seq<LogFileInfo>,
    names: Seq<Option<String>>,
    range: Option<DateRange>,
) -> bool {
    &&& forall|p: int, q: int| 0 <= p < q < chars.len() ==> chars[p] != chars[q]
    &&& forall|j: int|
        0 <= j < chars.len() ==> crate::scope::seeded_by_some_file(
            files,
            range,
            names,
            #[trigger] chars[j],
        )
    &&& forall|i: int|
        0 <= i < files.len() && #[trigger] crate::scope::in_check_set(files, range, i)
            && names[i] is Some ==> chars.contains(names[i]->0@)
}

/// Decides which files an analysis run parses: seeds the session
/// characters, then selects the files that pass the date filter and
/// belong to a session character.  `None` means there is nothing to
/// analyze.
pub fn plan_analysis(
    files: &Vec<LogFileInfo>,
    names: &Vec<Option<String>>,
    range: &Option<DateRange>,
) -> (r: Option<Vec<String>>)
    requires
        names@.len() == files@.len(),
        mtimes_in_range(files@),
        *range is None && files@.len() > 0 ==> files@[0].name@.len() >= 11,
    ensures
        exists|chars: Seq<Seq<char>>|
            #[trigger] session_set_ok(chars, files@, names@, *range) && (match r {
                None => selected_upto(
                    files@,
                    names@,
                    chars,
                    crate::scope::start_day(*range),
                    crate::scope::end_day(*range),
                    files@.len() as int,
                ).len() == 0,
                Some(v) => string_views(v@) == selected_upto(
                    files@,
                    names@,
                    chars,
                    crate::scope::start_day(*range),
                    crate::scope::end_day(*range),
                    files@.len() as int,
                ) && v@.len() > 0,
            }),
{
    let chars = crate::scope::identify_session_characters(files, names, range);
    let picked = crate::scope::get_files_for_date_range(files, names, &chars, range);
    let ghost cviews = string_views(chars@);
    proof {
        assert(session_set_ok(cviews, files@, names@, *range)) by {
            assert forall|p: int, q: int| 0 <= p < q < cviews.len() implies cviews[p]
                != cviews[q] by {
                assert(chars@[p]@ != chars@[q]@);
            }
        }
        assert(string_views(picked@).len() == picked@.len());
    }
    if picked.len() == 0 {
        None
    } else {
        Some(picked)
    }
}

/// A file whose calendar day lies outside the requested bounds is
/// never selected, whatever its name: every selected file name comes
/// from a catalog entry whose day passes the date filter.
pub proof fn lemma_selected_within_bounds(
    files: Seq<LogFileInfo>,
    names: Seq<Option<String>>,
    chars: Seq<Seq<char>>,
    lo: Option<int>,
    hi: Option<int>,
    n: int,
)
    ensures
        forall|j: int|
            0 <= j < selected_upto(files, names, chars, lo, hi, n).len()
                ==> selection_witness(
                files,
                names,
                chars,
                lo,
                hi,
                #[trigger] selected_upto(files, names, chars, lo, hi, n)[j],
            ),
    decreases n,
{
    if n > 0 {
        lemma_selected_within_bounds(files, names, chars, lo, hi, n - 1);
        let prev = selected_upto(files, names, chars, lo, hi, n - 1);
        let cur = selected_upto(files, names, chars, lo, hi, n);
        if cur.len() > prev.len() {
            assert(cur == prev.push(files[n - 1].name@));
            assert(file_selected(files[n - 1], names[n - 1], chars, lo, hi));
            assert forall|j: int| 0 <= j < cur.len() implies selection_witness(
                files,
                names,
                chars,
                lo,
                hi,
                #[trigger] cur[j],
            ) by {
                if j < prev.len() {
                    assert(cur[j] == prev[j]);
                } else {
                    assert(cur[j] == files[n - 1].name@);
                    assert(0 <= n - 1 < files.len() && files[n - 1].name@ == cur[j]
                        && day_in_bounds(day_of(files[n - 1].mtime_secs as int), lo, hi));
                }
            }
        }
    }
}

/// Some catalog entry carries this selected name and passes the date
/// filter.
pub open spec fn selection_witness(
    files: Seq<LogFileInfo>,
    names: Seq<Option<String>>,
    chars: Seq<Seq<char>>,
    lo: Option<int>,
    hi: Option<int>,
    v: Seq<char>,
) -> bool {
    exists|i: int|
        0 <= i < files.len() && (#[trigger] files[i].name@) == v && day_in_bounds(
            day_of(files[i].mtime_secs as int),
            lo,
            hi,
        )
}

/// Re-running the analysis on the same selection and contents yields
/// the same aggregate numbers: all three merged maps and the overall
/// totals are functions of the inputs alone.
pub proof fn lemma_analysis_deterministic(
    cv: Seq<Seq<Seq<char>>>,
    n: int,
    a: LogAnalysisResult,
    b: LogAnalysisResult,
)
    requires
        chars_view(a.characters@) == merge_chars_upto(cv, n),
        chars_view(b.characters@) == merge_chars_upto(cv, n),
        ores_view(a.ore_breakdown@) == merge_ores_upto(cv, n),
        ores_view(b.ore_breakdown@) == merge_ores_upto(cv, n),
        rows_view(a.character_ore_breakdown@) == merge_rows_upto(cv, n),
        rows_view(b.character_ore_breakdown@) == merge_rows_upto(cv, n),
        counts_sum(a.characters@) == totals_upto(cv, n),
        counts_sum(b.characters@) == totals_upto(cv, n),
        a.overall.total_mined as int == counts_sum(a.characters@).mined,
        a.overall.total_crit as int == counts_sum(a.characters@).crit_mined,
        a.overall.total_cycles as int == counts_sum(a.characters@).cycles,
        a.overall.total_crit_cycles as int == counts_sum(a.characters@).crit_cycles,
        a.overall.total_residue as int == counts_sum(a.characters@).residue,
        b.overall.total_mined as int == counts_sum(b.characters@).mined,
        b.overall.total_crit as int == counts_sum(b.characters@).crit_mined,
        b.overall.total_cycles as int == counts_sum(b.characters@).cycles,
        b.overall.total_crit_cycles as int == counts_sum(b.characters@).crit_cycles,
        b.overall.total_residue as int == counts_sum(b.characters@).residue,
    ensures
        chars_view(a.characters@) == chars_view(b.characters@),
        ores_view(a.ore_breakdown@) == ores_view(b.ore_breakdown@),
        rows_view(a.character_ore_breakdown@) == rows_view(b.character_ore_breakdown@),
        a.overall == b.overall,
{
}

/// Running totals over files are never negative.
proof fn lemma_totals_nonneg(cv: Seq<Seq<Seq<char>>>, n: int)
    ensures
        counts_le(zero_counts(), totals_upto(cv, n)),
    decreases n,
{
    if n > 0 {
        lemma_totals_nonneg(cv, n - 1);
        lemma_tally_upto_wf(cv[n - 1], cv[n - 1].len() as int);
    }
}

} // verus!
