//! Session scoping: which characters and which files an analysis run
//! covers, from an optional explicit date range or, failing that, from
//! the hour prefix of the most recently modified file.
use vstd::prelude::*;

use crate::catalog::clone_string;
use crate::catalog::mtimes_in_range;
use crate::timefmt::day_in_range;
use crate::timefmt::day_of;
use crate::timefmt::day_of_exec;
use crate::timefmt::rfc3339_parse;
use crate::timefmt::parse_instant;
use crate::text::to_chars;
use crate::types::DateRange;
use crate::types::LogFileInfo;
use crate::types::string_views;

verus! {

/// The calendar day of the requested start bound: `None` when no range
/// or no start string was given, or when the string does not parse.
pub open spec fn start_day(r: Option<DateRange>) -> Option<int> {
    match r {
        None => None,
        Some(dr) => match dr.start {
            None => None,
            Some(s) => match rfc3339_parse(s@) {
                None => None,
                Some(secs) => Some(day_of(secs as int)),
            },
        },
    }
}

/// The calendar day of the requested end bound, as for `start_day`.
pub open spec fn end_day(r: Option<DateRange>) -> Option<int> {
    match r {
        None => None,
        Some(dr) => match dr.end {
            None => None,
            Some(s) => match rfc3339_parse(s@) {
                None => None,
                Some(secs) => Some(day_of(secs as int)),
            },
        },
    }
}

/// A day lies within the given bounds; an absent bound is unbounded.
pub open spec fn day_in_bounds(d: int, lo: Option<int>, hi: Option<int>) -> bool {
    &&& (lo is Some ==> d >= lo->0)
    &&& (hi is Some ==> d <= hi->0)
}

/// Two file names share the eleven-character hour prefix.
pub open spec fn hour_prefix_match(a: Seq<char>, b: Seq<char>) -> bool {
    a.len() >= 11 && b.len() >= 11 && a.subrange(0, 11) == b.subrange(0, 11)
}

/// File `i` of the catalog belongs to the check set that seeds the
/// session characters: with a requested range, its day lies in the
/// bounds; with none, its name shares the hour prefix of the most
/// recent file.
pub open spec fn in_check_set(files: Seq<LogFileInfo>, r: Option<DateRange>, i: int) -> bool {
    match r {
        None => hour_prefix_match(files[i].name@, files[0].name@),
        Some(_) => day_in_bounds(day_of(files[i].mtime_secs as int), start_day(r), end_day(r)),
    }
}

/// The start bound of the requested range as a day number.
pub fn range_start_day(range: &Option<DateRange>) -> (r: Option<i64>)
    ensures
        match start_day(*range) {
            None => r is None,
            Some(d) => r is Some && r->0 as int == d && day_in_range(d),
        },
{
    match range {
        None => None,
        Some(dr) => match &dr.start {
            None => None,
            Some(s) => match parse_instant(s.as_str()) {
                None => None,
                Some(secs) => Some(day_of_exec(secs)),
            },
        },
    }
}

/// The end bound of the requested range as a day number.
pub fn range_end_day(range: &Option<DateRange>) -> (r: Option<i64>)
    ensures
        match end_day(*range) {
            None => r is None,
            Some(d) => r is Some && r->0 as int == d && day_in_range(d),
        },
{
    match range {
        None => None,
        Some(dr) => match &dr.end {
            None => None,
            Some(s) => match parse_instant(s.as_str()) {
                None => None,
                Some(secs) => Some(day_of_exec(secs)),
            },
        },
    }
}

/// Whether `d` lies within the optional inclusive bounds.
pub fn day_in_bounds_exec(d: i64, lo: &Option<i64>, hi: &Option<i64>) -> (b: bool)
    ensures
        b == day_in_bounds(
            d as int,
            match lo {
                None => None,
                Some(x) => Some(*x as int),
            },
            match hi {
                None => None,
                Some(x) => Some(*x as int),
            },
        ),
{
    let lo_ok = match lo {
        None => true,
        Some(x) => d >= *x,
    };
    let hi_ok = match hi {
        None => true,
        Some(x) => d <= *x,
    };
    lo_ok && hi_ok
}

/// Whether the names `a` and `b` share the eleven-character hour prefix.
pub fn hour_prefix_eq(a: &String, b: &String) -> (r: bool)
    ensures
        r == hour_prefix_match(a@, b@),
{
    let ca = to_chars(a.as_str());
    let cb = to_chars(b.as_str());
    if ca.len() < 11 || cb.len() < 11 {
        return false;
    }
    let mut i: usize = 0;
    while i < 11
        invariant
            i <= 11,
            ca@ == a@,
            cb@ == b@,
            ca.len() >= 11,
            cb.len() >= 11,
            forall|j: int| 0 <= j < i ==> a@[j] == b@[j],
        decreases 11 - i,
    {
        if ca[i] != cb[i] {
            proof {
                assert(a@.subrange(0, 11)[i as int] != b@.subrange(0, 11)[i as int]);
            }
            return false;
        }
        i = i + 1;
    }
    proof {
        assert(a@.subrange(0, 11) =~= b@.subrange(0, 11));
    }
    true
}

/// Whether some string of `v` has the view of `s`.
pub fn contains_string(v: &Vec<String>, s: &String) -> (b: bool)
    ensures
        b == string_views(v@).contains(s@),
{
    let mut i: usize = 0;
    while i < v.len()
        invariant
            i <= v.len(),
            forall|j: int| 0 <= j < i ==> v@[j]@ != s@,
        decreases v.len() - i,
    {
        if v[i] == *s {
            proof {
                assert(string_views(v@)[i as int] == s@);
            }
            return true;
        }
        i = i + 1;
    }
    proof {
        assert forall|j: int| 0 <= j < string_views(v@).len() implies string_views(v@)[j]
            != s@ by {
            assert(v@[j]@ != s@);
        }
        if string_views(v@).contains(s@) {
            let j = choose|j: int|
                0 <= j < string_views(v@).len() && string_views(v@)[j] == s@;
        }
    }
    false
}

/// Some file of the check set resolves to the character named `v`.
pub open spec fn seeded_by_some_file(
    files: Seq<LogFileInfo>,
    r: Option<DateRange>,
    names: Seq<Option<String>>,
    v: Seq<char>,
) -> bool {
    exists|i: int|
        0 <= i < files.len() && #[trigger] in_check_set(files, r, i) && names[i] is Some
            && names[i]->0@ == v
}

/// The set of characters that seed the session: every resolved identity
/// among the files of the check set, each name listed once.
pub fn identify_session_characters(
    files: &Vec<LogFileInfo>,
    names: &Vec<Option<String>>,
    range: &Option<DateRange>,
) -> (r: Vec<String>)
    requires
        names@.len() == files@.len(),
        mtimes_in_range(files@),
        range is None && files@.len() > 0 ==> files@[0].name@.len() >= 11,
    ensures
        forall|p: int, q: int| 0 <= p < q < r@.len() ==> (#[trigger] r@[p]@) != (#[trigger] r@[q]@),
        forall|j: int|
            0 <= j < r@.len() ==> #[trigger] seeded_by_some_file(files@, *range, names@, r@[j]@),
        forall|i: int|
            0 <= i < files@.len() && #[trigger] in_check_set(files@, *range, i)
                && names@[i] is Some ==> string_views(r@).contains(names@[i]->0@),
{
    let mut out: Vec<String> = Vec::new();
    if files.len() == 0 {
        return out;
    }
    let lo = range_start_day(range);
    let hi = range_end_day(range);
    let mut i: usize = 0;
    while i < files.len()
        invariant
            i <= files.len(),
            names@.len() == files@.len(),
            mtimes_in_range(files@),
            range is None && files@.len() > 0 ==> files@[0].name@.len() >= 11,
            files@.len() > 0,
            match start_day(*range) {
                None => lo is None,
                Some(d) => lo is Some && lo->0 as int == d,
            },
            match end_day(*range) {
                None => hi is None,
                Some(d) => hi is Some && hi->0 as int == d,
            },
            forall|p: int, q: int| 0 <= p < q < out@.len() ==> (#[trigger] out@[p]@) != (#[trigger] out@[q]@),
            forall|j: int|
                0 <= j < out@.len() ==> #[trigger] seeded_by_some_file(
                    files@,
                    *range,
                    names@,
                    out@[j]@,
                ),
            forall|i2: int|
                0 <= i2 < i && #[trigger] in_check_set(files@, *range, i2)
                    && names@[i2] is Some ==> string_views(out@).contains(names@[i2]->0@),
        decreases files.len() - i,
    {
        let ok: bool = match range {
            None => hour_prefix_eq(&files[i].name, &files[0].name),
            Some(_) => {
                let d = day_of_exec(files[i].mtime_secs);
                day_in_bounds_exec(d, &lo, &hi)
            },
        };
        proof {
            assert(ok == in_check_set(files@, *range, i as int));
        }
        if ok {
            match &names[i] {
                Some(nm) => {
                    let ghost old_out = out@;
                    if !contains_string(&out, nm) {
                        out.push(clone_string(nm));
                        proof {
                            assert(out@[old_out.len() as int]@ == nm@);
                            assert forall|p: int, q: int| 0 <= p < q < out@.len() implies (
                            #[trigger] out@[p]@) != (#[trigger] out@[q]@) by {
                                if q == old_out.len() {
                                    assert(out@[p] == old_out[p]);
                                    assert(string_views(old_out)[p] == old_out[p]@);
                                    assert(!string_views(old_out).contains(nm@));
                                } else {
                                    assert(out@[p] == old_out[p] && out@[q] == old_out[q]);
                                }
                            }
                            assert forall|j: int| 0 <= j < out@.len() implies #[trigger]
                                seeded_by_some_file(files@, *range, names@, out@[j]@) by {
                                if j < old_out.len() {
                                    assert(old_out[j] == out@[j]);
                                    assert(seeded_by_some_file(files@, *range, names@, old_out[j]@));
                                } else {
                                    assert(in_check_set(files@, *range, i as int));
                                    assert(names@[i as int] is Some && names@[i as int]->0@
                                        == out@[j]@);
                                }
                            }
                        }
                    }
                    proof {
                        assert(string_views(out@).contains(names@[i as int]->0@)) by {
                            if old_out == out@ {
                                assert(string_views(out@).contains(nm@));
                            } else {
                                assert(string_views(out@)[old_out.len() as int] == nm@);
                            }
                        }
                        assert forall|i2: int|
                            0 <= i2 < i + 1 && #[trigger] in_check_set(files@, *range, i2)
                                && names@[i2] is Some implies string_views(out@).contains(
                            names@[i2]->0@,
                        ) by {
                            if i2 < i {
                                assert(string_views(old_out).contains(names@[i2]->0@));
                                let j = choose|j: int|
                                    0 <= j < string_views(old_out).len() && string_views(
                                        old_out,
                                    )[j] == names@[i2]->0@;
                                assert(string_views(out@)[j] == names@[i2]->0@);
                            }
                        }
                    }
                },
                None => {},
            }
        }
        i = i + 1;
    }
    out
}

/// File `i` is selected for parsing: its day lies in the requested
/// bounds (unbounded when no range was given) and its resolved
/// character belongs to the session set.
pub open spec fn file_selected(
    f: LogFileInfo,
    nm: Option<String>,
    chars: Seq<Seq<char>>,
    lo: Option<int>,
    hi: Option<int>,
) -> bool {
    &&& day_in_bounds(day_of(f.mtime_secs as int), lo, hi)
    &&& nm is Some
    &&& chars.contains(nm->0@)
}

/// The names of the selected files among the first `n` catalog entries,
/// in catalog order.
pub open spec fn selected_upto(
    files: Seq<LogFileInfo>,
    names: Seq<Option<String>>,
    chars: Seq<Seq<char>>,
    lo: Option<int>,
    hi: Option<int>,
    n: int,
) -> Seq<Seq<char>>
    decreases n,
{
    if n <= 0 {
        Seq::empty()
    } else {
        let prefix = selected_upto(files, names, chars, lo, hi, n - 1);
        if 0 <= n - 1 < files.len() && n - 1 < names.len() && file_selected(
            files[n - 1],
            names[n - 1],
            chars,
            lo,
            hi,
        ) {
            prefix.push(files[n - 1].name@)
        } else {
            prefix
        }
    }
}

/// The files an analysis run parses: those whose day passes the
/// requested bounds and whose character is in the session set, in
/// catalog order.
pub fn get_files_for_date_range(
    files: &Vec<LogFileInfo>,
    names: &Vec<Option<String>>,
    session_characters: &Vec<String>,
    range: &Option<DateRange>,
) -> (r: Vec<String>)
    requires
        names@.len() == files@.len(),
        mtimes_in_range(files@),
    ensures
        string_views(r@) == selected_upto(
            files@,
            names@,
            string_views(session_characters@),
            start_day(*range),
            end_day(*range),
            files@.len() as int,
        ),
{
    let lo = range_start_day(range);
    let hi = range_end_day(range);
    let mut out: Vec<String> = Vec::new();
    let mut i: usize = 0;
    while i < files.len()
        invariant
            i <= files.len(),
            names@.len() == files@.len(),
            mtimes_in_range(files@),
            match start_day(*range) {
                None => lo is None,
                Some(d) => lo is Some && lo->0 as int == d,
            },
            match end_day(*range) {
                None => hi is None,
                Some(d) => hi is Some && hi->0 as int == d,
            },
            string_views(out@) == selected_upto(
                files@,
                names@,
                string_views(session_characters@),
                start_day(*range),
                end_day(*range),
                i as int,
            ),
        decreases files.len() - i,
    {
        let ghost chars = string_views(session_characters@);
        let ghost prev = string_views(out@);
        let d = day_of_exec(files[i].mtime_secs);
        let in_days = day_in_bounds_exec(d, &lo, &hi);
        let mut pick = false;
        if in_days {
            match &names[i] {
                Some(nm) => {
                    if contains_string(session_characters, nm) {
                        out.push(clone_string(&files[i].name));
                        pick = true;
                        proof {
                            assert(string_views(out@) =~= prev.push(files@[i as int].name@));
                        }
                    }
                },
                None => {},
            }
        }
        proof {
            assert(pick == file_selected(
                files@[i as int],
                names@[i as int],
                chars,
                start_day(*range),
                end_day(*range),
            ));
            if !pick {
                assert(string_views(out@) =~= prev);
            }
        }
        i = i + 1;
    }
    out
}

/// The catalog entries whose names were picked, in catalog order.
pub fn select_catalog_entries(catalog: Vec<LogFileInfo>, names: &Vec<String>) -> (r: Vec<
    LogFileInfo,
>)
    ensures
        r@ == catalog@.filter(
            |f: LogFileInfo| string_views(names@).contains(f.name@),
        ),
{
    let ghost whole = catalog@;
    let mut rest = catalog;
    let mut out: Vec<LogFileInfo> = Vec::new();
    let ghost mut i: int = 0;
    while rest.len() > 0
        invariant
            0 <= i <= whole.len(),
            rest@ =~= whole.subrange(i, whole.len() as int),
            out@ == whole.subrange(0, i).filter(
                |f: LogFileInfo| string_views(names@).contains(f.name@),
            ),
        decreases rest.len(),
    {
        let e = rest.remove(0);
        proof {
            reveal_with_fuel(Seq::<LogFileInfo>::filter, 2);
            assert(e == whole[i]);
            assert(rest@ =~= whole.subrange(i + 1, whole.len() as int));
            assert(whole.subrange(0, i + 1).drop_last() =~= whole.subrange(0, i));
            assert(whole.subrange(0, i + 1).last() == whole[i]);
        }
        if contains_string(names, &e.name) {
            out.push(e);
            proof {
                assert(whole.subrange(0, i + 1).filter(
                    |f: LogFileInfo| string_views(names@).contains(f.name@),
                ) =~= whole.subrange(0, i).filter(
                    |f: LogFileInfo| string_views(names@).contains(f.name@),
                ).push(whole[i]));
            }
        } else {
            proof {
                assert(whole.subrange(0, i + 1).filter(
                    |f: LogFileInfo| string_views(names@).contains(f.name@),
                ) =~= whole.subrange(0, i).filter(
                    |f: LogFileInfo| string_views(names@).contains(f.name@),
                ));
            }
        }
        proof {
            i = i + 1;
        }
    }
    proof {
        assert(whole.subrange(0, whole.len() as int) =~= whole);
    }
    out
}

} // verus!
