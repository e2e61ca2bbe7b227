//! Character-level text utilities: substring search, digit runs,
//! numeric values of digit strings, and whitespace trimming.
//!
//! Everything here is verified against spec functions over `Seq<char>`;
//! the exec functions work on `Vec<char>` copies of a line so that
//! indexing is cheap.
use vstd::prelude::*;

verus! {

/// True of the characters `'0'` through `'9'`.
pub open spec fn is_ascii_digit(c: char) -> bool {
    '0' <= c && c <= '9'
}

/// The plain whitespace characters recognised between log-markup tokens
/// and stripped from captured names.
pub open spec fn is_space_char(c: char) -> bool {
    c == ' ' || c == '\t' || c == '\r' || c == '\n'
}

/// Executable test for `is_ascii_digit`.
pub fn check_digit(c: char) -> (b: bool)
    ensures
        b == is_ascii_digit(c),
{
    '0' <= c && c <= '9'
}

/// Executable test for `is_space_char`.
pub fn check_space(c: char) -> (b: bool)
    ensures
        b == is_space_char(c),
{
    c == ' ' || c == '\t' || c == '\r' || c == '\n'
}

/// Collects the characters of `s` into a vector, preserving the view.
pub fn to_chars(s: &str) -> (r: Vec<char>)
    ensures
        r@ == s@,
{
    let n: usize = s.unicode_len();
    let mut v: Vec<char> = Vec::new();
    let mut i: usize = 0;
    while i < n
        invariant
            i <= n,
            n == s@.len(),
            v@ == s@.subrange(0, i as int),
        decreases n - i,
    {
        let c = s.get_char(i);
        v.push(c);
        i = i + 1;
        proof {
            assert(v@ =~= s@.subrange(0, i as int));
        }
    }
    proof {
        assert(v@ =~= s@);
    }
    v
}

/// The pattern `pat` occurs in `hay` starting at index `i`.
pub open spec fn match_at(hay: Seq<char>, pat: Seq<char>, i: int) -> bool {
    0 <= i && i + pat.len() <= hay.len() && hay.subrange(i, i + pat.len()) == pat
}

/// Index of the first occurrence of `pat` in `hay` at or after `from`,
/// or `None` when there is none.
pub open spec fn find_from(hay: Seq<char>, pat: Seq<char>, from: int) -> Option<int>
    decreases hay.len() + 1 - from,
{
    if from < 0 || from + pat.len() > hay.len() {
        None
    } else if match_at(hay, pat, from) {
        Some(from)
    } else {
        find_from(hay, pat, from + 1)
    }
}

/// Index just past the first occurrence of `pat` at or after `from`.
pub open spec fn after_find(hay: Seq<char>, pat: Seq<char>, from: int) -> Option<int> {
    match find_from(hay, pat, from) {
        Some(i) => Some(i + pat.len()),
        None => None,
    }
}

/// A found occurrence lies within the text and at or after `from`.
pub proof fn lemma_find_from_bounds(hay: Seq<char>, pat: Seq<char>, from: int)
    requires
        find_from(hay, pat, from) is Some,
    ensures
        from <= find_from(hay, pat, from)->0,
        find_from(hay, pat, from)->0 + pat.len() <= hay.len(),
        match_at(hay, pat, find_from(hay, pat, from)->0),
    decreases hay.len() + 1 - from,
{
    if from < 0 || from + pat.len() > hay.len() {
    } else if match_at(hay, pat, from) {
    } else {
        lemma_find_from_bounds(hay, pat, from + 1);
    }
}

/// Whether `pat` occurs in `hay` exactly at index `i`.
pub fn match_at_exec(hay: &Vec<char>, pat: &Vec<char>, i: usize) -> (b: bool)
    ensures
        b == match_at(hay@, pat@, i as int),
{
    if i > hay.len() || pat.len() > hay.len() - i {
        proof {
            assert(!match_at(hay@, pat@, i as int));
        }
        return false;
    }
    let mut j: usize = 0;
    while j < pat.len()
        invariant
            j <= pat.len(),
            i + pat.len() <= hay.len(),
            forall|k: int| 0 <= k < j ==> hay@[i + k] == pat@[k],
        decreases pat.len() - j,
    {
        if hay[i + j] != pat[j] {
            proof {
                assert(hay@.subrange(i as int, i + pat@.len())[j as int] != pat@[j as int]);
            }
            return false;
        }
        j = j + 1;
    }
    proof {
        assert(hay@.subrange(i as int, i + pat@.len()) =~= pat@);
    }
    true
}

/// First occurrence of `pat` in `hay` at or after `from`, as `find_from` says.
pub fn find_pat_from(hay: &Vec<char>, pat: &Vec<char>, from: usize) -> (r: Option<usize>)
    ensures
        match r {
            Some(i) => find_from(hay@, pat@, from as int) == Some(i as int),
            None => find_from(hay@, pat@, from as int) is None,
        },
{
    let mut i: usize = from;
    loop
        invariant
            from <= i,
            find_from(hay@, pat@, from as int) == find_from(hay@, pat@, i as int),
        decreases hay@.len() + 1 - i,
    {
        if i > hay.len() || pat.len() > hay.len() - i {
            proof {
                assert(find_from(hay@, pat@, i as int) is None);
            }
            return None;
        }
        if match_at_exec(hay, pat, i) {
            proof {
                assert(find_from(hay@, pat@, i as int) == Some(i as int));
            }
            return Some(i);
        }
        proof {
            assert(pat@.len() > 0) by {
                if pat@.len() == 0 {
                    assert(hay@.subrange(i as int, i as int) =~= pat@);
                }
            }
            assert(find_from(hay@, pat@, i as int) == find_from(hay@, pat@, i + 1));
        }
        i = i + 1;
    }
}

/// Index of the first non-digit character at or after `from` (or `to`
/// when the run extends to the end of the window).
pub open spec fn digit_run_end(s: Seq<char>, from: int, to: int) -> int
    decreases to - from,
{
    if from < 0 || from >= to {
        from
    } else if is_ascii_digit(s[from]) {
        digit_run_end(s, from + 1, to)
    } else {
        from
    }
}

/// Shape of a digit run: it stays inside the window, every character in
/// it is a digit, and it stops at the first non-digit.
pub proof fn lemma_digit_run(s: Seq<char>, from: int, to: int)
    requires
        0 <= from <= to <= s.len(),
    ensures
        from <= digit_run_end(s, from, to) <= to,
        forall|j: int| from <= j < digit_run_end(s, from, to) ==> is_ascii_digit(s[j]),
        digit_run_end(s, from, to) < to ==> !is_ascii_digit(s[digit_run_end(s, from, to)]),
    decreases to - from,
{
    if from < to && is_ascii_digit(s[from]) {
        lemma_digit_run(s, from + 1, to);
    }
}

/// End of the digit run starting at `from` within `hay[from..to]`.
pub fn digit_run_end_exec(hay: &Vec<char>, from: usize, to: usize) -> (r: usize)
    requires
        from <= to <= hay.len(),
    ensures
        r == digit_run_end(hay@, from as int, to as int),
        from <= r <= to,
{
    let mut i: usize = from;
    loop
        invariant
            from <= i <= to <= hay.len(),
            digit_run_end(hay@, from as int, to as int) == digit_run_end(hay@, i as int, to as int),
        decreases to - i,
    {
        if i >= to {
            return i;
        }
        if !check_digit(hay[i]) {
            return i;
        }
        proof {
            assert(digit_run_end(hay@, i as int, to as int) == digit_run_end(hay@, i + 1, to as int));
        }
        i = i + 1;
    }
}

/// Characters that end a captured name: the start of a markup tag or a
/// line terminator.
pub open spec fn is_capture_stop(c: char) -> bool {
    c == '<' || c == '\r' || c == '\n'
}

/// Index of the first capture-stopping character at or after `from`
/// (or `to` when the capture extends to the end of the window).
pub open spec fn capture_run_end(s: Seq<char>, from: int, to: int) -> int
    decreases to - from,
{
    if from < 0 || from >= to {
        from
    } else if !is_capture_stop(s[from]) {
        capture_run_end(s, from + 1, to)
    } else {
        from
    }
}

/// Shape of a capture run: inside the window, free of stop characters,
/// ended by a stop character or the window edge.
pub proof fn lemma_capture_run(s: Seq<char>, from: int, to: int)
    requires
        0 <= from <= to <= s.len(),
    ensures
        from <= capture_run_end(s, from, to) <= to,
        forall|j: int| from <= j < capture_run_end(s, from, to) ==> !is_capture_stop(s[j]),
        capture_run_end(s, from, to) < to ==> is_capture_stop(s[capture_run_end(s, from, to)]),
    decreases to - from,
{
    if from < to && !is_capture_stop(s[from]) {
        lemma_capture_run(s, from + 1, to);
    }
}

/// End of the capture run starting at `from` within `hay[from..to]`.
pub fn capture_run_end_exec(hay: &Vec<char>, from: usize, to: usize) -> (r: usize)
    requires
        from <= to <= hay.len(),
    ensures
        r == capture_run_end(hay@, from as int, to as int),
        from <= r <= to,
{
    let mut i: usize = from;
    loop
        invariant
            from <= i <= to <= hay.len(),
            capture_run_end(hay@, from as int, to as int) == capture_run_end(
                hay@,
                i as int,
                to as int,
            ),
        decreases to - i,
    {
        if i >= to {
            return i;
        }
        let c = hay[i];
        if c == '<' || c == '\r' || c == '\n' {
            return i;
        }
        proof {
            assert(capture_run_end(hay@, i as int, to as int) == capture_run_end(
                hay@,
                i + 1,
                to as int,
            ));
        }
        i = i + 1;
    }
}

/// End of the whitespace run starting at `from` within `hay[from..to]`.
pub fn skip_spaces_exec(hay: &Vec<char>, from: usize, to: usize) -> (r: usize)
    requires
        from <= to <= hay.len(),
    ensures
        r == skip_spaces(hay@, from as int, to as int),
        from <= r <= to,
{
    let mut i: usize = from;
    loop
        invariant
            from <= i <= to <= hay.len(),
            skip_spaces(hay@, from as int, to as int) == skip_spaces(hay@, i as int, to as int),
        decreases to - i,
    {
        if i >= to {
            return i;
        }
        if !check_space(hay[i]) {
            return i;
        }
        proof {
            assert(skip_spaces(hay@, i as int, to as int) == skip_spaces(hay@, i + 1, to as int));
        }
        i = i + 1;
    }
}

/// Numeric value of the digit character `c`.
pub open spec fn digit_of(c: char) -> int {
    c as int - '0' as int
}

/// Value of a digit string read in base ten.
pub open spec fn digits_val(s: Seq<char>) -> int
    decreases s.len(),
{
    if s.len() == 0 {
        0
    } else {
        digits_val(s.drop_last()) * 10 + digit_of(s.last())
    }
}

/// A digit string's value is at least the value of any of its prefixes.
pub proof fn lemma_digits_val_prefix(s: Seq<char>, k: int)
    requires
        0 <= k <= s.len(),
        forall|j: int| 0 <= j < s.len() ==> is_ascii_digit(s[j]),
    ensures
        0 <= digits_val(s.subrange(0, k)) <= digits_val(s),
    decreases s.len() - k,
{
    if k == s.len() {
        assert(s.subrange(0, k) =~= s);
        lemma_digits_val_nonneg(s);
    } else {
        lemma_digits_val_prefix(s, k + 1);
        let p1 = s.subrange(0, k + 1);
        assert(p1.drop_last() =~= s.subrange(0, k));
        lemma_digits_val_nonneg(s.subrange(0, k));
        assert(digits_val(p1) == digits_val(s.subrange(0, k)) * 10 + digit_of(p1.last()));
        assert(digit_of(p1.last()) >= 0);
        assert(digits_val(s.subrange(0, k)) * 10 >= digits_val(s.subrange(0, k))) by (nonlinear_arith)
            requires digits_val(s.subrange(0, k)) >= 0;
    }
}

/// The value of a digit string is never negative.
pub proof fn lemma_digits_val_nonneg(s: Seq<char>)
    requires
        forall|j: int| 0 <= j < s.len() ==> is_ascii_digit(s[j]),
    ensures
        digits_val(s) >= 0,
    decreases s.len(),
{
    if s.len() > 0 {
        lemma_digits_val_nonneg(s.drop_last());
    }
}

/// Reads the digit run `hay[from..to]` as a `u64`, or `None` when its
/// value does not fit.
pub fn parse_amount(hay: &Vec<char>, from: usize, to: usize) -> (r: Option<u64>)
    requires
        from <= to <= hay.len(),
        forall|j: int| from <= j < to ==> is_ascii_digit(hay@[j]),
    ensures
        ({
            let v = digits_val(hay@.subrange(from as int, to as int));
            match r {
                Some(a) => a == v,
                None => v > u64::MAX,
            }
        }),
{
    let ghost whole = hay@.subrange(from as int, to as int);
    let mut acc: u64 = 0;
    let mut i: usize = from;
    while i < to
        invariant
            from <= i <= to <= hay.len(),
            forall|j: int| from <= j < to ==> is_ascii_digit(hay@[j]),
            whole == hay@.subrange(from as int, to as int),
            acc == digits_val(hay@.subrange(from as int, i as int)),
        decreases to - i,
    {
        let c = hay[i];
        proof {
            assert(is_ascii_digit(hay@[i as int]));
        }
        let d: u64 = (c as u32 - '0' as u32) as u64;
        proof {
            assert(d == digit_of(hay@[i as int]));
            assert(d <= 9);
        }
        if acc > (u64::MAX - d) / 10 {
            proof {
                assert(hay@.subrange(from as int, i + 1).drop_last() =~= hay@.subrange(
                    from as int,
                    i as int,
                ));
                assert(digits_val(hay@.subrange(from as int, i + 1)) == acc * 10 + d);
                assert(acc * 10 + d > u64::MAX) by (nonlinear_arith)
                    requires
                        acc > (u64::MAX - d) / 10,
                        d <= 9,
                ;
                let sub = hay@.subrange(from as int, to as int);
                assert(forall|j: int| 0 <= j < sub.len() ==> is_ascii_digit(sub[j]));
                assert(sub.subrange(0, i + 1 - from) =~= hay@.subrange(from as int, i + 1));
                lemma_digits_val_prefix(sub, i + 1 - from);
            }
            return None;
        }
        proof {
            assert(acc * 10 + d <= u64::MAX) by (nonlinear_arith)
                requires
                    acc <= (u64::MAX - d) / 10,
                    d <= 9,
                    acc >= 0,
            ;
        }
        acc = acc * 10 + d;
        i = i + 1;
        proof {
            assert(hay@.subrange(from as int, i as int).drop_last() =~= hay@.subrange(
                from as int,
                i - 1,
            ));
        }
    }
    proof {
        assert(hay@.subrange(from as int, i as int) =~= whole);
    }
    Some(acc)
}

/// Index of the first non-whitespace character in `s[from..to]`.
pub open spec fn skip_spaces(s: Seq<char>, from: int, to: int) -> int
    decreases to - from,
{
    if from < 0 || from >= to {
        from
    } else if is_space_char(s[from]) {
        skip_spaces(s, from + 1, to)
    } else {
        from
    }
}

/// Index just past the last non-whitespace character in `s[from..to]`.
pub open spec fn drop_trailing_spaces(s: Seq<char>, from: int, to: int) -> int
    decreases to - from,
{
    if to <= from {
        to
    } else if is_space_char(s[to - 1]) {
        drop_trailing_spaces(s, from, to - 1)
    } else {
        to
    }
}

/// The window `s[from..to]` with leading and trailing whitespace removed.
pub open spec fn trimmed(s: Seq<char>, from: int, to: int) -> Seq<char> {
    let a = skip_spaces(s, from, to);
    s.subrange(a, drop_trailing_spaces(s, a, to))
}

/// The skipped prefix stays inside the window.
pub proof fn lemma_skip_spaces_bounds(s: Seq<char>, from: int, to: int)
    requires
        0 <= from <= to <= s.len(),
    ensures
        from <= skip_spaces(s, from, to) <= to,
    decreases to - from,
{
    if from < to && is_space_char(s[from]) {
        lemma_skip_spaces_bounds(s, from + 1, to);
    }
}

/// The kept end index stays inside the window.
pub proof fn lemma_drop_trailing_bounds(s: Seq<char>, from: int, to: int)
    requires
        0 <= from <= to <= s.len(),
    ensures
        from <= drop_trailing_spaces(s, from, to) <= to,
    decreases to - from,
{
    if to > from && is_space_char(s[to - 1]) {
        lemma_drop_trailing_bounds(s, from, to - 1);
    }
}

/// The string `line[from..to]` with surrounding whitespace removed.
pub fn trimmed_string(line: &str, hay: &Vec<char>, from: usize, to: usize) -> (r: String)
    requires
        hay@ == line@,
        from <= to <= hay.len(),
    ensures
        r@ == trimmed(line@, from as int, to as int),
{
    let mut a: usize = from;
    while a < to && check_space(hay[a])
        invariant
            from <= a <= to <= hay.len(),
            hay@ == line@,
            skip_spaces(hay@, from as int, to as int) == skip_spaces(hay@, a as int, to as int),
        decreases to - a,
    {
        proof {
            assert(skip_spaces(hay@, a as int, to as int) == skip_spaces(hay@, a + 1, to as int));
        }
        a = a + 1;
    }
    proof {
        assert(skip_spaces(hay@, from as int, to as int) == a as int);
    }
    let mut e: usize = to;
    while e > a && check_space(hay[e - 1])
        invariant
            a <= e <= to <= hay.len(),
            hay@ == line@,
            drop_trailing_spaces(hay@, a as int, to as int) == drop_trailing_spaces(
                hay@,
                a as int,
                e as int,
            ),
        decreases e,
    {
        proof {
            assert(drop_trailing_spaces(hay@, a as int, e as int) == drop_trailing_spaces(
                hay@,
                a as int,
                e - 1,
            ));
        }
        e = e - 1;
    }
    proof {
        assert(drop_trailing_spaces(hay@, a as int, to as int) == e as int);
    }
    let piece = line.substring_char(a, e);
    piece.to_owned()
}

} // verus!
