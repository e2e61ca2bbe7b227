//! Per-file event extraction: the line-by-line tally a file's text
//! denotes, and the executable extractor proved against it.
//!
//! A file is read in line order.  A normal or critical mining line adds
//! its amount to the owner's totals and to its ore's counters and makes
//! that ore the most recently mined one; a residue line adds its amount
//! to the most recently mined ore, or is dropped when no ore has been
//! seen yet.
use vstd::prelude::*;

use crate::patterns::crit_capture;
use crate::patterns::listener_capture;
use crate::patterns::match_crit_line;
use crate::patterns::match_listener_line;
use crate::patterns::match_mining_line;
use crate::patterns::match_residue_line;
use crate::patterns::mining_capture;
use crate::patterns::residue_capture;
use crate::tables::OreTriple;
use crate::tables::ore_add;
use crate::tables::ore_get;
use crate::tables::ore_names_unique;
use crate::tables::ores_view;
use crate::text::after_find;
use crate::text::digit_run_end;
use crate::text::digits_val;
use crate::text::is_ascii_digit;
use crate::text::lemma_digit_run;
use crate::text::lemma_digits_val_nonneg;
use crate::text::lemma_find_from_bounds;
use crate::text::match_at;
use crate::text::skip_spaces;
use crate::text::to_chars;
use crate::types::LogError;
use crate::types::OreData;
use crate::types::string_views;

verus! {

/// The running state of one file's line scan.
pub ghost struct LineTally {
    pub mined: int,
    pub crit_mined: int,
    pub cycles: int,
    pub crit_cycles: int,
    pub residue: int,
    pub last_ore: Option<Seq<char>>,
    pub ores: Map<Seq<char>, OreTriple>,
}

/// The state before any line has been read.
pub open spec fn tally_init() -> LineTally {
    LineTally {
        mined: 0,
        crit_mined: 0,
        cycles: 0,
        crit_cycles: 0,
        residue: 0,
        last_ore: None,
        ores: Map::empty(),
    }
}

/// A mining yield of `amt` units of `ore`, normal or critical.
pub open spec fn apply_yield(t: LineTally, amt: int, ore: Seq<char>, crit: bool) -> LineTally {
    let prev = ore_get(t.ores, ore);
    if crit {
        LineTally {
            mined: t.mined,
            crit_mined: t.crit_mined + amt,
            cycles: t.cycles,
            crit_cycles: t.crit_cycles + 1,
            residue: t.residue,
            last_ore: Some(ore),
            ores: t.ores.insert(
                ore,
                OreTriple { non_crit: prev.non_crit, crit: prev.crit + amt, residue: prev.residue },
            ),
        }
    } else {
        LineTally {
            mined: t.mined + amt,
            crit_mined: t.crit_mined,
            cycles: t.cycles + 1,
            crit_cycles: t.crit_cycles,
            residue: t.residue,
            last_ore: Some(ore),
            ores: t.ores.insert(
                ore,
                OreTriple { non_crit: prev.non_crit + amt, crit: prev.crit, residue: prev.residue },
            ),
        }
    }
}

/// Residue of `amt` units, attributed to the most recently mined ore,
/// or dropped when none has been seen.
pub open spec fn apply_residue(t: LineTally, amt: int) -> LineTally {
    match t.last_ore {
        None => t,
        Some(ore) => {
            let prev = ore_get(t.ores, ore);
            LineTally {
                mined: t.mined,
                crit_mined: t.crit_mined,
                cycles: t.cycles,
                crit_cycles: t.crit_cycles,
                residue: t.residue + amt,
                last_ore: t.last_ore,
                ores: t.ores.insert(
                    ore,
                    OreTriple {
                        non_crit: prev.non_crit,
                        crit: prev.crit,
                        residue: prev.residue + amt,
                    },
                ),
            }
        },
    }
}

/// The normal-mining contribution of one line.
pub open spec fn step_mining(t: LineTally, line: Seq<char>) -> LineTally {
    match mining_capture(line) {
        None => t,
        Some(cap) => apply_yield(t, digits_val(cap.0), cap.1, false),
    }
}

/// The critical-mining contribution of one line.
pub open spec fn step_crit(t: LineTally, line: Seq<char>) -> LineTally {
    match crit_capture(line) {
        None => t,
        Some(cap) => apply_yield(t, digits_val(cap.0), cap.1, true),
    }
}

/// The residue contribution of one line.
pub open spec fn step_residue(t: LineTally, line: Seq<char>) -> LineTally {
    match residue_capture(line) {
        None => t,
        Some(ds) => apply_residue(t, digits_val(ds)),
    }
}

/// One line's full contribution, in the order the events are applied.
pub open spec fn tally_step(t: LineTally, line: Seq<char>) -> LineTally {
    step_residue(step_crit(step_mining(t, line), line), line)
}

/// The state after the first `n` lines.
pub open spec fn tally_upto(lines: Seq<Seq<char>>, n: int) -> LineTally
    decreases n,
{
    if n <= 0 {
        tally_init()
    } else {
        tally_step(tally_upto(lines, n - 1), lines[n - 1])
    }
}

/// The state after the whole file.
pub open spec fn file_tally(lines: Seq<Seq<char>>) -> LineTally {
    tally_upto(lines, lines.len() as int)
}

/// Every counter of the tally fits in the width of the kept counters.
pub open spec fn tally_fits(t: LineTally) -> bool {
    &&& t.mined <= u64::MAX
    &&& t.crit_mined <= u64::MAX
    &&& t.cycles <= u64::MAX
    &&& t.crit_cycles <= u64::MAX
    &&& t.residue <= u64::MAX
}

/// Reachable tallies: counters are non-negative and each ore's
/// counters are bounded by the file counters of the same kind.
pub open spec fn tally_wf(t: LineTally) -> bool {
    &&& 0 <= t.mined
    &&& 0 <= t.crit_mined
    &&& 0 <= t.cycles
    &&& 0 <= t.crit_cycles
    &&& 0 <= t.residue
    &&& forall|k: Seq<char>|
        t.ores.dom().contains(k) ==> {
            let tr = #[trigger] t.ores[k];
            0 <= tr.non_crit <= t.mined && 0 <= tr.crit <= t.crit_mined && 0 <= tr.residue
                <= t.residue
        }
}

/// The first counters never exceed the second, componentwise, and the
/// same for each ore.
pub open spec fn tally_le(a: LineTally, b: LineTally) -> bool {
    &&& a.mined <= b.mined
    &&& a.crit_mined <= b.crit_mined
    &&& a.cycles <= b.cycles
    &&& a.crit_cycles <= b.crit_cycles
    &&& a.residue <= b.residue
}

/// The name on the first marker line among lines `i` through `k`.
pub open spec fn listener_within(lines: Seq<Seq<char>>, i: int, k: int) -> Option<Seq<char>>
    decreases k - i,
{
    if i < 0 || i >= k || i >= lines.len() {
        None
    } else {
        match listener_capture(lines[i]) {
            Some(nm) => Some(nm),
            None => listener_within(lines, i + 1, k),
        }
    }
}

/// The amount on a normal mining line, zero when there is none.
pub open spec fn mining_amt(line: Seq<char>) -> int {
    match mining_capture(line) {
        None => 0,
        Some(cap) => digits_val(cap.0),
    }
}

/// The amount on a critical mining line, zero when there is none.
pub open spec fn crit_amt(line: Seq<char>) -> int {
    match crit_capture(line) {
        None => 0,
        Some(cap) => digits_val(cap.0),
    }
}

/// The amount on a residue line, zero when there is none.
pub open spec fn residue_amt(line: Seq<char>) -> int {
    match residue_capture(line) {
        None => 0,
        Some(ds) => digits_val(ds),
    }
}

/// A digit window of the line has a non-negative value.
proof fn lemma_window_val_nonneg(line: Seq<char>, c: int, d: int)
    requires
        0 <= c <= d <= line.len(),
        forall|j: int| c <= j < d ==> is_ascii_digit(line[j]),
    ensures
        digits_val(line.subrange(c, d)) >= 0,
{
    let w = line.subrange(c, d);
    assert(forall|j: int| 0 <= j < w.len() ==> is_ascii_digit(w[j]));
    lemma_digits_val_nonneg(w);
}

/// Captured amounts are never negative.
pub proof fn lemma_amounts_nonneg(line: Seq<char>)
    ensures
        mining_amt(line) >= 0,
        crit_amt(line) >= 0,
        residue_amt(line) >= 0,
{
    if mining_capture(line) is Some {
        let a = after_find(line, "(mining)"@, 0);
        lemma_find_from_bounds(line, "(mining)"@, 0);
        let b = after_find(line, "You mined"@, a->0);
        lemma_find_from_bounds(line, "You mined"@, a->0);
        let c = after_find(line, "<color=#ff8dc169>"@, b->0);
        lemma_find_from_bounds(line, "<color=#ff8dc169>"@, b->0);
        let d = digit_run_end(line, c->0, line.len() as int);
        lemma_digit_run(line, c->0, line.len() as int);
        lemma_window_val_nonneg(line, c->0, d);
    }
    if crit_capture(line) is Some {
        let a = after_find(line, "(mining)"@, 0);
        lemma_find_from_bounds(line, "(mining)"@, 0);
        let b = after_find(line, "Critical mining success!"@, a->0);
        lemma_find_from_bounds(line, "Critical mining success!"@, a->0);
        let b2 = after_find(line, "You mined an additional"@, b->0);
        lemma_find_from_bounds(line, "You mined an additional"@, b->0);
        let c = after_find(line, "<color=#fff0ff45><font size=12>"@, b2->0);
        lemma_find_from_bounds(line, "<color=#fff0ff45><font size=12>"@, b2->0);
        let d = digit_run_end(line, c->0, line.len() as int);
        lemma_digit_run(line, c->0, line.len() as int);
        lemma_window_val_nonneg(line, c->0, d);
    }
    if residue_capture(line) is Some {
        let a = after_find(line, "(mining)"@, 0);
        lemma_find_from_bounds(line, "(mining)"@, 0);
        let h = after_find(line, "Additional"@, a->0);
        lemma_find_from_bounds(line, "Additional"@, a->0);
        let w = skip_spaces(line, h->0, line.len() as int);
        crate::text::lemma_skip_spaces_bounds(line, h->0, line.len() as int);
        let t = w + "<font size=12><color=#ffff454b>"@.len();
        let d = digit_run_end(line, t, line.len() as int);
        assert(match_at(line, "<font size=12><color=#ffff454b>"@, w));
        assert(t <= line.len());
        lemma_digit_run(line, t, line.len() as int);
        lemma_window_val_nonneg(line, t, d);
    }
}

/// A yield keeps the tally well formed and never shrinks it.
proof fn lemma_apply_yield(t: LineTally, amt: int, ore: Seq<char>, crit: bool)
    requires
        tally_wf(t),
        amt >= 0,
    ensures
        tally_wf(apply_yield(t, amt, ore, crit)),
        tally_le(t, apply_yield(t, amt, ore, crit)),
{
    let t2 = apply_yield(t, amt, ore, crit);
    assert forall|k: Seq<char>| t2.ores.dom().contains(k) implies {
        let tr = #[trigger] t2.ores[k];
        0 <= tr.non_crit <= t2.mined && 0 <= tr.crit <= t2.crit_mined && 0 <= tr.residue
            <= t2.residue
    } by {
        if k == ore {
        } else {
            assert(t2.ores[k] == t.ores[k]);
        }
    }
}

/// Residue attribution keeps the tally well formed and never shrinks it.
proof fn lemma_apply_residue(t: LineTally, amt: int)
    requires
        tally_wf(t),
        amt >= 0,
    ensures
        tally_wf(apply_residue(t, amt)),
        tally_le(t, apply_residue(t, amt)),
{
    let t2 = apply_residue(t, amt);
    if t.last_ore is Some {
        let ore = t.last_ore->0;
        assert forall|k: Seq<char>| t2.ores.dom().contains(k) implies {
            let tr = #[trigger] t2.ores[k];
            0 <= tr.non_crit <= t2.mined && 0 <= tr.crit <= t2.crit_mined && 0 <= tr.residue
                <= t2.residue
        } by {
            if k == ore {
            } else {
                assert(t2.ores[k] == t.ores[k]);
            }
        }
    }
}

/// One line keeps the tally well formed and never shrinks it.
pub proof fn lemma_tally_step(t: LineTally, line: Seq<char>)
    requires
        tally_wf(t),
    ensures
        tally_wf(tally_step(t, line)),
        tally_le(t, tally_step(t, line)),
{
    lemma_amounts_nonneg(line);
    let t1 = step_mining(t, line);
    if mining_capture(line) is Some {
        let cap = mining_capture(line)->0;
        lemma_apply_yield(t, mining_amt(line), cap.1, false);
    }
    let t2 = step_crit(t1, line);
    if crit_capture(line) is Some {
        let cap = crit_capture(line)->0;
        lemma_apply_yield(t1, crit_amt(line), cap.1, true);
    }
    if residue_capture(line) is Some {
        lemma_apply_residue(t2, residue_amt(line));
    }
}

/// Every reachable tally is well formed.
pub proof fn lemma_tally_upto_wf(lines: Seq<Seq<char>>, n: int)
    ensures
        tally_wf(tally_upto(lines, n)),
    decreases n,
{
    if n <= 0 {
    } else {
        lemma_tally_upto_wf(lines, n - 1);
        lemma_tally_step(tally_upto(lines, n - 1), lines[n - 1]);
    }
}

/// Reading more lines never shrinks the counters.
pub proof fn lemma_tally_upto_le(lines: Seq<Seq<char>>, n: int, m: int)
    requires
        n <= m,
    ensures
        tally_le(tally_upto(lines, n), tally_upto(lines, m)),
    decreases m - n,
{
    lemma_tally_upto_wf(lines, n);
    if n < m {
        lemma_tally_upto_le(lines, n, m - 1);
        lemma_tally_upto_wf(lines, m - 1);
        lemma_tally_step(tally_upto(lines, m - 1), lines[m - 1]);
        if n <= 0 {
            assert(tally_upto(lines, n) == tally_init());
        }
    } else {
        assert(tally_upto(lines, n) == tally_upto(lines, m));
    }
}

/// The first marker name among lines `0` through `k`, as a string.
pub fn find_listener(lines: &Vec<String>, k: usize) -> (r: Option<String>)
    requires
        k <= lines@.len(),
    ensures
        match listener_within(string_views(lines@), 0, k as int) {
            Some(nm) => r is Some && r->0@ == nm,
            None => r is None,
        },
{
    let ghost lv = string_views(lines@);
    let mut i: usize = 0;
    while i < k
        invariant
            i <= k <= lines@.len(),
            lv == string_views(lines@),
            listener_within(lv, 0, k as int) == listener_within(lv, i as int, k as int),
        decreases k - i,
    {
        let s = &lines[i];
        let hay = to_chars(s.as_str());
        proof {
            assert(hay@ == lv[i as int]);
        }
        match match_listener_line(s.as_str(), &hay) {
            Some(nm) => {
                proof {
                    assert(listener_capture(lv[i as int]) is Some);
                    assert(listener_within(lv, i as int, k as int) == Some(
                        listener_capture(lv[i as int])->0,
                    ));
                }
                return Some(nm);
            },
            None => {
                proof {
                    assert(listener_capture(lv[i as int]) is None);
                    assert(listener_within(lv, i as int, k as int) == listener_within(
                        lv,
                        i + 1,
                        k as int,
                    ));
                }
            },
        }
        i = i + 1;
    }
    proof {
        assert(listener_within(lv, i as int, k as int) is None);
    }
    None
}

/// The character that produced this file, read from the first marker
/// line among the first five lines.
pub fn extract_character_name(lines: &Vec<String>) -> (r: Option<String>)
    ensures
        ({
            let lv = string_views(lines@);
            let k = if lv.len() < 5 {
                lv.len() as int
            } else {
                5
            };
            match listener_within(lv, 0, k) {
                Some(nm) => r is Some && r->0@ == nm,
                None => r is None,
            }
        }),
{
    let k = if lines.len() < 5 {
        lines.len()
    } else {
        5
    };
    find_listener(lines, k)
}

/// One file's extraction result: the owning character's name, the five
/// per-character counters, and the per-ore counters.
#[derive(Debug)]
pub struct FileTally {
    pub character_name: String,
    pub total_mined: u64,
    pub crit_mined: u64,
    pub total_cycles: u64,
    pub crit_cycles: u64,
    pub total_residue: u64,
    pub ores: Vec<OreData>,
}

/// The exec state agrees with the ghost tally.
pub open spec fn state_matches(
    t: LineTally,
    mined: u64,
    crit_mined: u64,
    cycles: u64,
    crit_cycles: u64,
    residue: u64,
    last_ore: Option<String>,
    ores: Seq<OreData>,
) -> bool {
    &&& t.mined == mined as int
    &&& t.crit_mined == crit_mined as int
    &&& t.cycles == cycles as int
    &&& t.crit_cycles == crit_cycles as int
    &&& t.residue == residue as int
    &&& (last_ore is Some <==> t.last_ore is Some)
    &&& (last_ore is Some ==> last_ore->0@ == t.last_ore->0)
    &&& ore_names_unique(ores)
    &&& ores_view(ores) == t.ores
}

/// Extracts one file's mining events.
///
/// Succeeds exactly when the file announces its character somewhere and
/// every counter of the file's tally fits the counter width; the result
/// then equals the tally of the file's lines.
pub fn parse_log_file(file_name: &str, lines: &Vec<String>) -> (r: Result<FileTally, LogError>)
    ensures
        ({
            let lv = string_views(lines@);
            let t = file_tally(lv);
            let lst = listener_within(lv, 0, lv.len() as int);
            match r {
                Ok(ft) => {
                    &&& lst is Some
                    &&& ft.character_name@ == lst->0
                    &&& ft.total_mined as int == t.mined
                    &&& ft.crit_mined as int == t.crit_mined
                    &&& ft.total_cycles as int == t.cycles
                    &&& ft.crit_cycles as int == t.crit_cycles
                    &&& ft.total_residue as int == t.residue
                    &&& ore_names_unique(ft.ores@)
                    &&& ores_view(ft.ores@) == t.ores
                    &&& tally_fits(t)
                },
                Err(e) => match e {
                    LogError::MissingCharacter(f) => f@ == file_name@ && lst is None,
                    LogError::AmountOverflow(f) => f@ == file_name@ && lst is Some && !tally_fits(
                        t,
                    ),
                },
            }
        }),
{
    let ghost lv = string_views(lines@);
    let character_name = match find_listener(lines, lines.len()) {
        None => {
            return Err(LogError::MissingCharacter(file_name.to_owned()));
        },
        Some(nm) => nm,
    };
    let mut mined: u64 = 0;
    let mut crit_mined: u64 = 0;
    let mut cycles: u64 = 0;
    let mut crit_cycles: u64 = 0;
    let mut residue: u64 = 0;
    let mut last_ore: Option<String> = None;
    let mut ores: Vec<OreData> = Vec::new();
    let mut i: usize = 0;
    while i < lines.len()
        invariant
            i <= lines@.len(),
            lv == string_views(lines@),
            listener_within(lv, 0, lv.len() as int) is Some,
            state_matches(
                tally_upto(lv, i as int),
                mined,
                crit_mined,
                cycles,
                crit_cycles,
                residue,
                last_ore,
                ores@,
            ),
        decreases lines.len() - i,
    {
        let ghost t0 = tally_upto(lv, i as int);
        proof {
            lemma_tally_upto_wf(lv, i as int);
            lemma_amounts_nonneg(lv[i as int]);
        }
        let s = &lines[i];
        let hay = to_chars(s.as_str());
        proof {
            assert(hay@ == lv[i as int]);
        }
        let ghost line = lv[i as int];
        let ghost t1 = step_mining(t0, line);
        let ghost t2 = step_crit(t1, line);
        let ghost t3 = step_residue(t2, line);
        proof {
            assert(t3 == tally_upto(lv, i + 1));
        }
        match match_mining_line(s.as_str(), &hay) {
            None => {
                proof {
                    assert(t1 == t0);
                }
            },
            Some((amt_opt, ore_str)) => {
                let amt = match amt_opt {
                    None => {
                        proof {
                            assert(t1.mined == t0.mined + mining_amt(line));
                            assert(t3.mined >= t1.mined);
                            overflow_implies_unfit(lv, i as int);
                        }
                        return Err(LogError::AmountOverflow(file_name.to_owned()));
                    },
                    Some(a) => a,
                };
                if mined > u64::MAX - amt {
                    proof {
                        assert(t1.mined == t0.mined + mining_amt(line));
                        assert(t3.mined >= t1.mined);
                        overflow_implies_unfit(lv, i as int);
                    }
                    return Err(LogError::AmountOverflow(file_name.to_owned()));
                }
                if cycles == u64::MAX {
                    proof {
                        assert(t1.cycles == t0.cycles + 1);
                        assert(t3.cycles >= t1.cycles);
                        overflow_implies_unfit(lv, i as int);
                    }
                    return Err(LogError::AmountOverflow(file_name.to_owned()));
                }
                mined = mined + amt;
                cycles = cycles + 1;
                proof {
                    assert(ore_get(ores_view(ores@), ore_str@).non_crit + amt <= u64::MAX);
                    assert(ore_get(ores_view(ores@), ore_str@).crit + 0 <= u64::MAX);
                    assert(ore_get(ores_view(ores@), ore_str@).residue + 0 <= u64::MAX);
                }
                ore_add(&mut ores, &ore_str, amt, 0, 0);
                last_ore = Some(ore_str);
                proof {
                    assert(state_matches(
                        t1,
                        mined,
                        crit_mined,
                        cycles,
                        crit_cycles,
                        residue,
                        last_ore,
                        ores@,
                    ));
                }
            },
        }
        match match_crit_line(s.as_str(), &hay) {
            None => {
                proof {
                    assert(t2 == t1);
                }
            },
            Some((amt_opt, ore_str)) => {
                proof {
                    lemma_tally_step_wf_mid(t0, line);
                }
                let amt = match amt_opt {
                    None => {
                        proof {
                            assert(t2.crit_mined == t1.crit_mined + crit_amt(line));
                            assert(t3.crit_mined >= t2.crit_mined);
                            overflow_implies_unfit(lv, i as int);
                        }
                        return Err(LogError::AmountOverflow(file_name.to_owned()));
                    },
                    Some(a) => a,
                };
                if crit_mined > u64::MAX - amt {
                    proof {
                        assert(t2.crit_mined == t1.crit_mined + crit_amt(line));
                        assert(t3.crit_mined >= t2.crit_mined);
                        overflow_implies_unfit(lv, i as int);
                    }
                    return Err(LogError::AmountOverflow(file_name.to_owned()));
                }
                if crit_cycles == u64::MAX {
                    proof {
                        assert(t2.crit_cycles == t1.crit_cycles + 1);
                        assert(t3.crit_cycles >= t2.crit_cycles);
                        overflow_implies_unfit(lv, i as int);
                    }
                    return Err(LogError::AmountOverflow(file_name.to_owned()));
                }
                crit_mined = crit_mined + amt;
                crit_cycles = crit_cycles + 1;
                ore_add(&mut ores, &ore_str, 0, amt, 0);
                last_ore = Some(ore_str);
                proof {
                    assert(state_matches(
                        t2,
                        mined,
                        crit_mined,
                        cycles,
                        crit_cycles,
                        residue,
                        last_ore,
                        ores@,
                    ));
                }
            },
        }
        match match_residue_line(s.as_str(), &hay) {
            None => {
                proof {
                    assert(t3 == t2);
                }
            },
            Some(amt_opt) => {
                proof {
                    lemma_tally_step_wf_mid2(t0, line);
                }
                match &last_ore {
                    None => {
                        proof {
                            assert(t3 == t2);
                        }
                    },
                    Some(ore_ref) => {
                        let amt = match amt_opt {
                            None => {
                                proof {
                                    assert(t2.last_ore is Some);
                                    assert(t3.residue == t2.residue + residue_amt(line));
                                    overflow_implies_unfit(lv, i as int);
                                }
                                return Err(LogError::AmountOverflow(file_name.to_owned()));
                            },
                            Some(a) => a,
                        };
                        if residue > u64::MAX - amt {
                            proof {
                                assert(t2.last_ore is Some);
                                assert(t3.residue == t2.residue + residue_amt(line));
                                overflow_implies_unfit(lv, i as int);
                            }
                            return Err(LogError::AmountOverflow(file_name.to_owned()));
                        }
                        residue = residue + amt;
                        ore_add(&mut ores, ore_ref, 0, 0, amt);
                        proof {
                            assert(state_matches(
                                t3,
                                mined,
                                crit_mined,
                                cycles,
                                crit_cycles,
                                residue,
                                last_ore,
                                ores@,
                            ));
                        }
                    },
                }
            },
        }
        i = i + 1;
    }
    proof {
        assert(tally_upto(lv, lv.len() as int) == file_tally(lv));
    }
    Ok(
        FileTally {
            character_name,
            total_mined: mined,
            crit_mined,
            total_cycles: cycles,
            crit_cycles,
            total_residue: residue,
            ores,
        },
    )
}

/// The tally reached after the normal-mining part of line `n` is well
/// formed.
proof fn lemma_tally_step_wf_mid(t0: LineTally, line: Seq<char>)
    requires
        tally_wf(t0),
    ensures
        tally_wf(step_mining(t0, line)),
{
    lemma_amounts_nonneg(line);
    if mining_capture(line) is Some {
        let cap = mining_capture(line)->0;
        lemma_apply_yield(t0, mining_amt(line), cap.1, false);
    }
}

/// The tally reached after the critical-mining part of line `n` is
/// well formed.
proof fn lemma_tally_step_wf_mid2(t0: LineTally, line: Seq<char>)
    requires
        tally_wf(t0),
    ensures
        tally_wf(step_crit(step_mining(t0, line), line)),
{
    lemma_tally_step_wf_mid(t0, line);
    lemma_amounts_nonneg(line);
    if crit_capture(line) is Some {
        let cap = crit_capture(line)->0;
        lemma_apply_yield(step_mining(t0, line), crit_amt(line), cap.1, true);
    }
}

/// If some counter already exceeds the counter width after line `i`,
/// the whole file's tally does not fit.
proof fn overflow_implies_unfit(lines: Seq<Seq<char>>, i: int)
    requires
        0 <= i < lines.len(),
        !tally_fits(tally_upto(lines, i + 1)),
    ensures
        !tally_fits(file_tally(lines)),
{
    lemma_tally_upto_le(lines, i + 1, lines.len() as int);
}

} // verus!
