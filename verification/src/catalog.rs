//! The file catalog: which directory entries are session logs, ordered
//! by modification time, and the calendar days they fall on.
use vstd::prelude::*;

use crate::text::is_ascii_digit;
use crate::text::check_digit;
use crate::text::to_chars;
use crate::timefmt::day_of;
use crate::timefmt::day_in_range;
use crate::timefmt::instant_in_range;
use crate::timefmt::day_of_exec;
use crate::types::LogFileInfo;

verus! {

/// The session-log naming convention: eight digits, an underscore, six
/// digits, an optional underscore-and-digits suffix, and a `.txt`
/// extension.
pub open spec fn is_log_name(s: Seq<char>) -> bool {
    &&& s.len() == 19 || s.len() >= 21
    &&& forall|i: int| 0 <= i < 8 ==> is_ascii_digit(#[trigger] s[i])
    &&& s[8] == '_'
    &&& forall|i: int| 9 <= i < 15 ==> is_ascii_digit(#[trigger] s[i])
    &&& s[s.len() - 4] == '.'
    &&& s[s.len() - 3] == 't'
    &&& s[s.len() - 2] == 'x'
    &&& s[s.len() - 1] == 't'
    &&& s.len() >= 21 ==> (s[15] == '_' && forall|i: int|
        16 <= i < s.len() - 4 ==> is_ascii_digit(#[trigger] s[i]))
}

/// Whether `name` follows the session-log naming convention.
pub fn is_log_name_exec(name: &str) -> (b: bool)
    ensures
        b == is_log_name(name@),
{
    let cs = to_chars(name);
    let n = cs.len();
    if !(n == 19 || n >= 21) {
        return false;
    }
    let mut i: usize = 0;
    while i < 8
        invariant
            i <= 8,
            n == cs.len() >= 19,
            cs@ == name@,
            forall|j: int| 0 <= j < i ==> is_ascii_digit(#[trigger] cs@[j]),
        decreases 8 - i,
    {
        if !check_digit(cs[i]) {
            return false;
        }
        i = i + 1;
    }
    if cs[8] != '_' {
        return false;
    }
    let mut i: usize = 9;
    while i < 15
        invariant
            9 <= i <= 15,
            n == cs.len() >= 19,
            cs@ == name@,
            forall|j: int| 9 <= j < i ==> is_ascii_digit(#[trigger] cs@[j]),
        decreases 15 - i,
    {
        if !check_digit(cs[i]) {
            return false;
        }
        i = i + 1;
    }
    if cs[n - 4] != '.' || cs[n - 3] != 't' || cs[n - 2] != 'x' || cs[n - 1] != 't' {
        return false;
    }
    if n >= 21 {
        if cs[15] != '_' {
            return false;
        }
        let mut i: usize = 16;
        while i < n - 4
            invariant
                16 <= i <= n - 4,
                n == cs.len() >= 21,
                cs@ == name@,
                forall|j: int| 16 <= j < i ==> is_ascii_digit(#[trigger] cs@[j]),
            decreases n - 4 - i,
        {
            if !check_digit(cs[i]) {
                return false;
            }
            i = i + 1;
        }
    }
    true
}

/// The catalog predicate on one entry.
pub open spec fn entry_is_log(f: LogFileInfo) -> bool {
    is_log_name(f.name@)
}

/// A catalog ordered from the most recently modified file down.
pub open spec fn sorted_desc(s: Seq<LogFileInfo>) -> bool {
    forall|i: int, j: int|
        0 <= i < j < s.len() ==> #[trigger] s[i].mtime_secs >= #[trigger] s[j].mtime_secs
}

/// Inserting an element anywhere adds exactly it to the multiset.
proof fn lemma_insert_to_multiset(s: Seq<LogFileInfo>, i: int, a: LogFileInfo)
    requires
        0 <= i <= s.len(),
    ensures
        s.insert(i, a).to_multiset() =~= s.to_multiset().insert(a),
{
    broadcast use vstd::seq_lib::group_to_multiset_ensures;

    let s2 = s.insert(i, a);
    assert(s2.remove(i) =~= s);
    assert(s2[i] == a);
    assert(s.to_multiset() =~= s2.to_multiset().remove(a));
    assert(s2.contains(a)) by {
        assert(s2[i] == a);
    }
    assert(s2.to_multiset().count(a) > 0);
    assert forall|x: LogFileInfo|
        s2.to_multiset().count(x) == s.to_multiset().insert(a).count(x) by {
    }
}

/// Keeps every entry whose name follows the log naming convention,
/// ordered by modification time, most recent first.
pub fn find_log_files(entries: Vec<LogFileInfo>) -> (r: Vec<LogFileInfo>)
    ensures
        sorted_desc(r@),
        forall|i: int| 0 <= i < r@.len() ==> is_log_name(#[trigger] r@[i].name@),
        r@.to_multiset() == entries@.filter(|f: LogFileInfo| entry_is_log(f)).to_multiset(),
{
    broadcast use vstd::seq_lib::group_to_multiset_ensures;

    let ghost whole = entries@;
    let mut rest = entries;
    let mut out: Vec<LogFileInfo> = Vec::new();
    let ghost mut i: int = 0;
    while rest.len() > 0
        invariant
            0 <= i <= whole.len(),
            rest@ =~= whole.subrange(i, whole.len() as int),
            sorted_desc(out@),
            forall|k: int| 0 <= k < out@.len() ==> is_log_name(#[trigger] out@[k].name@),
            out@.to_multiset() == whole.subrange(0, i).filter(|f: LogFileInfo| entry_is_log(f))
                .to_multiset(),
        decreases rest.len(),
    {
        let e = rest.remove(0);
        proof {
            assert(e == whole[i]);
            assert(rest@ =~= whole.subrange(i + 1, whole.len() as int));
            assert(whole.subrange(0, i + 1).drop_last() =~= whole.subrange(0, i));
            assert(whole.subrange(0, i + 1).last() == whole[i]);
        }
        if is_log_name_exec(e.name.as_str()) {
            proof {
                reveal_with_fuel(Seq::<LogFileInfo>::filter, 2);
                assert(entry_is_log(whole[i]));
                assert(whole.subrange(0, i + 1).filter(|f: LogFileInfo| entry_is_log(f))
                    =~= whole.subrange(0, i).filter(|f: LogFileInfo| entry_is_log(f)).push(
                    whole[i],
                ));
            }
            let mut k: usize = 0;
            while k < out.len() && out[k].mtime_secs >= e.mtime_secs
                invariant
                    k <= out.len(),
                    forall|j: int| 0 <= j < k ==> #[trigger] out@[j].mtime_secs >= e.mtime_secs,
                decreases out.len() - k,
            {
                k = k + 1;
            }
            proof {
                assert(k == out@.len() || out@[k as int].mtime_secs < e.mtime_secs);
                lemma_insert_to_multiset(out@, k as int, e);
            }
            let ghost old_out = out@;
            let ghost kk = k as int;
            out.insert(k, e);
            proof {
                assert forall|p: int, q: int| 0 <= p < q < out@.len() implies out@[p].mtime_secs
                    >= out@[q].mtime_secs by {
                    if q < kk {
                        assert(out@[p] == old_out[p] && out@[q] == old_out[q]);
                    } else if p < kk && q == kk {
                        assert(out@[p] == old_out[p]);
                    } else if p < kk && q > kk {
                        assert(out@[p] == old_out[p] && out@[q] == old_out[q - 1]);
                    } else if p == kk {
                        assert(out@[q] == old_out[q - 1]);
                        assert(q - 1 >= kk);
                        assert(kk < old_out.len());
                        assert(old_out[kk].mtime_secs < e.mtime_secs);
                        if q - 1 > kk {
                            assert(old_out[kk].mtime_secs >= old_out[q - 1].mtime_secs);
                        }
                    } else {
                        assert(out@[p] == old_out[p - 1] && out@[q] == old_out[q - 1]);
                    }
                }
                let prev = whole.subrange(0, i).filter(|f: LogFileInfo| entry_is_log(f));
                let curr = whole.subrange(0, i + 1).filter(|f: LogFileInfo| entry_is_log(f));
                assert(curr == prev.push(whole[i]));
                prev.to_multiset_ensures();
                assert(prev.push(whole[i]).to_multiset() =~= prev.to_multiset().insert(whole[i]));
                assert(out@.to_multiset() =~= curr.to_multiset());
            }
        } else {
            proof {
                reveal_with_fuel(Seq::<LogFileInfo>::filter, 2);
                assert(!entry_is_log(whole[i]));
                assert(whole.subrange(0, i + 1).filter(|f: LogFileInfo| entry_is_log(f))
                    =~= whole.subrange(0, i).filter(|f: LogFileInfo| entry_is_log(f)));
                assert(out@.to_multiset() == whole.subrange(0, i + 1).filter(
                    |f: LogFileInfo| entry_is_log(f),
                ).to_multiset());
            }
        }
        proof {
            i = i + 1;
        }
    }
    proof {
        assert(whole.subrange(0, whole.len() as int) =~= whole);
    }
    out
}

/// Copies a string, preserving its view.
pub fn clone_string(s: &String) -> (r: String)
    ensures
        r@ == s@,
{
    String::from_str(s.as_str())
}

/// A day on which some file of the set was modified.
pub open spec fn has_day(files: Seq<LogFileInfo>, d: int) -> bool {
    exists|k: int| 0 <= k < files.len() && day_of(#[trigger] files[k].mtime_secs as int) == d
}

/// All modification instants of the set lie in the supported range.
pub open spec fn mtimes_in_range(files: Seq<LogFileInfo>) -> bool {
    forall|k: int| 0 <= k < files.len() ==> instant_in_range(#[trigger] files[k].mtime_secs as int)
}

/// The distinct calendar days on which the given files were modified,
/// in ascending order.
pub fn get_active_days(files: &Vec<LogFileInfo>) -> (r: Vec<i64>)
    requires
        mtimes_in_range(files@),
    ensures
        forall|i: int, j: int| 0 <= i < j < r@.len() ==> r@[i] < r@[j],
        forall|i: int| 0 <= i < r@.len() ==> has_day(files@, #[trigger] r@[i] as int),
        forall|k: int|
            0 <= k < files@.len() ==> r@.contains(
                day_of(#[trigger] files@[k].mtime_secs as int) as i64,
            ),
        forall|i: int| 0 <= i < r@.len() ==> day_in_range(#[trigger] r@[i] as int),
{
    let mut out: Vec<i64> = Vec::new();
    let mut i: usize = 0;
    while i < files.len()
        invariant
            i <= files.len(),
            mtimes_in_range(files@),
            forall|p: int, q: int| 0 <= p < q < out@.len() ==> out@[p] < out@[q],
            forall|p: int| 0 <= p < out@.len() ==> has_day(files@, #[trigger] out@[p] as int),
            forall|k: int|
                0 <= k < i ==> out@.contains(
                    day_of(#[trigger] files@[k].mtime_secs as int) as i64,
                ),
            forall|p: int| 0 <= p < out@.len() ==> day_in_range(#[trigger] out@[p] as int),
        decreases files.len() - i,
    {
        let d = day_of_exec(files[i].mtime_secs);
        let ghost old_out = out@;
        let mut k: usize = 0;
        while k < out.len() && out[k] < d
            invariant
                k <= out.len(),
                out@ == old_out,
                forall|j: int| 0 <= j < k ==> #[trigger] out@[j] < d,
            decreases out.len() - k,
        {
            k = k + 1;
        }
        let ghost kk = k as int;
        let dup = k < out.len() && out[k] == d;
        if !dup {
            proof {
                assert(kk == old_out.len() || old_out[kk] > d);
            }
            out.insert(k, d);
            proof {
                assert(out@[kk] == d);
                assert forall|p: int, q: int| 0 <= p < q < out@.len() implies out@[p] < out@[
                    q
                ] by {
                    if q < kk {
                        assert(out@[p] == old_out[p] && out@[q] == old_out[q]);
                    } else if p < kk && q == kk {
                        assert(out@[p] == old_out[p]);
                    } else if p < kk && q > kk {
                        assert(out@[p] == old_out[p] && out@[q] == old_out[q - 1]);
                        if q - 1 > kk {
                            assert(old_out[kk] < out@[q]);
                        }
                        assert(out@[p] < d);
                        assert(old_out[q - 1] > d);
                    } else if p == kk {
                        assert(out@[q] == old_out[q - 1]);
                        if q - 1 > kk {
                            assert(old_out[kk] < old_out[q - 1]);
                        }
                    } else {
                        assert(out@[p] == old_out[p - 1] && out@[q] == old_out[q - 1]);
                    }
                }
                assert forall|p: int| 0 <= p < out@.len() implies has_day(
                    files@,
                    out@[p] as int,
                ) && day_in_range(out@[p] as int) by {
                    if p < kk {
                        assert(out@[p] == old_out[p]);
                    } else if p == kk {
                        assert(out@[p] == d);
                        assert(day_of(files@[i as int].mtime_secs as int) == d as int);
                    } else {
                        assert(out@[p] == old_out[p - 1]);
                    }
                }
            }
        }
        proof {
            assert(out@.contains(d)) by {
                if dup {
                    assert(out@[kk] == d);
                } else {
                    assert(out@[kk] == d);
                }
            }
            assert forall|k2: int| 0 <= k2 < i + 1 implies out@.contains(
                day_of(files@[k2].mtime_secs as int) as i64,
            ) by {
                if k2 < i {
                    let v = day_of(files@[k2].mtime_secs as int) as i64;
                    assert(old_out.contains(v));
                    let jj = choose|jj: int| 0 <= jj < old_out.len() && old_out[jj] == v;
                    if dup {
                        assert(out@[jj] == v);
                    } else {
                        if jj < kk {
                            assert(out@[jj] == v);
                        } else {
                            assert(out@[jj + 1] == v);
                        }
                    }
                } else {
                    assert(day_of(files@[k2].mtime_secs as int) as i64 == d);
                }
            }
        }
        i = i + 1;
    }
    out
}

} // verus!
