//! The line grammar of the session-log markup.
//!
//! A log line reports a normal mining yield, a critical mining yield, or
//! asteroid residue, using fixed markup tokens around the amount and the
//! ore name; a file's owner is announced on a `Listener:` line.  Each
//! pattern is specified by chaining first-occurrence searches for its
//! tokens, and the executable matchers are proved to follow the specs.
use vstd::prelude::*;

use crate::text::after_find;
use crate::text::capture_run_end;
use crate::text::digit_run_end;
use crate::text::digits_val;
use crate::text::find_from;
use crate::text::is_ascii_digit;
use crate::text::lemma_capture_run;
use crate::text::lemma_digit_run;
use crate::text::lemma_find_from_bounds;
use crate::text::match_at;
use crate::text::skip_spaces;
use crate::text::trimmed;
use crate::text::capture_run_end_exec;
use crate::text::digit_run_end_exec;
use crate::text::find_pat_from;
use crate::text::match_at_exec;
use crate::text::parse_amount;
use crate::text::skip_spaces_exec;
use crate::text::to_chars;
use crate::text::trimmed_string;

verus! {

/// The name on a `Listener:` line: everything after the marker with
/// surrounding whitespace removed, provided at least one character
/// follows the marker.
pub open spec fn listener_capture(line: Seq<char>) -> Option<Seq<char>> {
    match after_find(line, "Listener:"@, 0) {
        None => None,
        Some(p) => if p < line.len() {
            Some(trimmed(line, p, line.len() as int))
        } else {
            None
        },
    }
}

/// The amount digits and trimmed ore name of a normal mining line: the
/// mining tag, the yield phrase, the amount in its highlight colour
/// followed by a closing tag, and the ore name in its font tag, in that
/// order.
pub open spec fn mining_capture(line: Seq<char>) -> Option<(Seq<char>, Seq<char>)> {
    match after_find(line, "(mining)"@, 0) {
        None => None,
        Some(a) => match after_find(line, "You mined"@, a) {
            None => None,
            Some(b) => match after_find(line, "<color=#ff8dc169>"@, b) {
                None => None,
                Some(c) => {
                    let d = digit_run_end(line, c, line.len() as int);
                    if d == c || d >= line.len() || line[d] != '<' {
                        None
                    } else {
                        match after_find(line, "units of"@, d + 1) {
                            None => None,
                            Some(e) => match after_find(line, "<font size=12>"@, e) {
                                None => None,
                                Some(f) => {
                                    let g = capture_run_end(line, f, line.len() as int);
                                    if g == f {
                                        None
                                    } else {
                                        Some((line.subrange(c, d), trimmed(line, f, g)))
                                    }
                                },
                            },
                        }
                    }
                },
            },
        },
    }
}

/// The amount digits and trimmed ore name of a critical mining line:
/// like a normal mining line but keyed to the critical-success phrase
/// and the critical highlight colour.
pub open spec fn crit_capture(line: Seq<char>) -> Option<(Seq<char>, Seq<char>)> {
    match after_find(line, "(mining)"@, 0) {
        None => None,
        Some(a) => match after_find(line, "Critical mining success!"@, a) {
            None => None,
            Some(b) => match after_find(line, "You mined an additional"@, b) {
                None => None,
                Some(b2) => match after_find(line, "<color=#fff0ff45><font size=12>"@, b2) {
                    None => None,
                    Some(c) => {
                        let d = digit_run_end(line, c, line.len() as int);
                        if d == c || d >= line.len() || line[d] != '<' {
                            None
                        } else {
                            match after_find(line, "units of"@, d + 1) {
                                None => None,
                                Some(e) => match after_find(line, "<font size=12>"@, e) {
                                    None => None,
                                    Some(f) => {
                                        let g = capture_run_end(line, f, line.len() as int);
                                        if g == f {
                                            None
                                        } else {
                                            Some((line.subrange(c, d), trimmed(line, f, g)))
                                        }
                                    },
                                },
                            }
                        }
                    },
                },
            },
        },
    }
}

/// The amount digits of a residue line: the mining tag, the word
/// `Additional`, at least one whitespace character, the residue tags
/// immediately after, the amount, and the depletion phrase.
pub open spec fn residue_capture(line: Seq<char>) -> Option<Seq<char>> {
    match after_find(line, "(mining)"@, 0) {
        None => None,
        Some(a) => match after_find(line, "Additional"@, a) {
            None => None,
            Some(h) => {
                let w = skip_spaces(line, h, line.len() as int);
                if w == h || !match_at(line, "<font size=12><color=#ffff454b>"@, w) {
                    None
                } else {
                    let t = w + "<font size=12><color=#ffff454b>"@.len();
                    let d = digit_run_end(line, t, line.len() as int);
                    if d == t || d >= line.len() || line[d] != '<' {
                        None
                    } else {
                        match after_find(line, "units depleted from asteroid as residue"@, d + 1) {
                            None => None,
                            Some(z) => Some(line.subrange(t, d)),
                        }
                    }
                }
            },
        },
    }
}

/// First occurrence of `pat` at or after `from`, reported as the index
/// just past it.
fn find_after_exec(hay: &Vec<char>, pat: &Vec<char>, from: usize) -> (r: Option<usize>)
    ensures
        match r {
            Some(e) => after_find(hay@, pat@, from as int) == Some(e as int) && from <= e
                && e <= hay.len(),
            None => after_find(hay@, pat@, from as int) is None,
        },
{
    match find_pat_from(hay, pat, from) {
        None => None,
        Some(i) => {
            let n = hay.len();
            proof {
                lemma_find_from_bounds(hay@, pat@, from as int);
                assert(i + pat@.len() <= n);
            }
            Some(i + pat.len())
        },
    }
}

/// Scans past the amount digits: returns the run end when the run is
/// non-empty and immediately closed by a `<`.
fn amount_end_exec(hay: &Vec<char>, c: usize) -> (r: Option<usize>)
    requires
        c <= hay.len(),
    ensures
        ({
            let d = digit_run_end(hay@, c as int, hay@.len() as int);
            match r {
                Some(d2) => d2 == d && c < d2 && d2 < hay.len() && hay@[d2 as int] == '<'
                    && (forall|j: int| c <= j < d2 ==> is_ascii_digit(hay@[j])),
                None => d == c || d >= hay@.len() || hay@[d] != '<',
            }
        }),
{
    let d = digit_run_end_exec(hay, c, hay.len());
    proof {
        lemma_digit_run(hay@, c as int, hay@.len() as int);
    }
    if d == c || d >= hay.len() {
        return None;
    }
    if hay[d] != '<' {
        return None;
    }
    Some(d)
}

/// The listener name announced on this line, if any.
pub fn match_listener_line(line: &str, hay: &Vec<char>) -> (r: Option<String>)
    requires
        hay@ == line@,
    ensures
        match listener_capture(line@) {
            Some(name) => r is Some && r->0@ == name,
            None => r is None,
        },
{
    let marker = to_chars("Listener:");
    match find_after_exec(hay, &marker, 0) {
        None => None,
        Some(p) => {
            if p < hay.len() {
                Some(trimmed_string(line, hay, p, hay.len()))
            } else {
                None
            }
        },
    }
}

/// The normal-mining event on this line, if any: the amount (`None`
/// inside when its digits exceed `u64`) and the trimmed ore name.
pub fn match_mining_line(line: &str, hay: &Vec<char>) -> (r: Option<(Option<u64>, String)>)
    requires
        hay@ == line@,
    ensures
        r is Some <==> mining_capture(line@) is Some,
        r is Some ==> ({
            let cap = mining_capture(line@)->0;
            let got = r->0;
            got.1@ == cap.1 && (match got.0 {
                Some(v) => v == digits_val(cap.0),
                None => digits_val(cap.0) > u64::MAX,
            })
        }),
{
    let p_mining = to_chars("(mining)");
    let p_mined = to_chars("You mined");
    let p_color = to_chars("<color=#ff8dc169>");
    let p_units = to_chars("units of");
    let p_font = to_chars("<font size=12>");
    let a = match find_after_exec(hay, &p_mining, 0) {
        None => { return None; },
        Some(a) => a,
    };
    let b = match find_after_exec(hay, &p_mined, a) {
        None => { return None; },
        Some(b) => b,
    };
    let c = match find_after_exec(hay, &p_color, b) {
        None => { return None; },
        Some(c) => c,
    };
    let d = match amount_end_exec(hay, c) {
        None => { return None; },
        Some(d) => d,
    };
    let e = match find_after_exec(hay, &p_units, d + 1) {
        None => { return None; },
        Some(e) => e,
    };
    let f = match find_after_exec(hay, &p_font, e) {
        None => { return None; },
        Some(f) => f,
    };
    let g = capture_run_end_exec(hay, f, hay.len());
    if g == f {
        return None;
    }
    let amount = parse_amount(hay, c, d);
    let ore = trimmed_string(line, hay, f, g);
    Some((amount, ore))
}

/// The critical-mining event on this line, if any: the amount (`None`
/// inside when its digits exceed `u64`) and the trimmed ore name.
pub fn match_crit_line(line: &str, hay: &Vec<char>) -> (r: Option<(Option<u64>, String)>)
    requires
        hay@ == line@,
    ensures
        r is Some <==> crit_capture(line@) is Some,
        r is Some ==> ({
            let cap = crit_capture(line@)->0;
            let got = r->0;
            got.1@ == cap.1 && (match got.0 {
                Some(v) => v == digits_val(cap.0),
                None => digits_val(cap.0) > u64::MAX,
            })
        }),
{
    let p_mining = to_chars("(mining)");
    let p_crit = to_chars("Critical mining success!");
    let p_addl = to_chars("You mined an additional");
    let p_color = to_chars("<color=#fff0ff45><font size=12>");
    let p_units = to_chars("units of");
    let p_font = to_chars("<font size=12>");
    let a = match find_after_exec(hay, &p_mining, 0) {
        None => { return None; },
        Some(a) => a,
    };
    let b = match find_after_exec(hay, &p_crit, a) {
        None => { return None; },
        Some(b) => b,
    };
    let b2 = match find_after_exec(hay, &p_addl, b) {
        None => { return None; },
        Some(b2) => b2,
    };
    let c = match find_after_exec(hay, &p_color, b2) {
        None => { return None; },
        Some(c) => c,
    };
    let d = match amount_end_exec(hay, c) {
        None => { return None; },
        Some(d) => d,
    };
    let e = match find_after_exec(hay, &p_units, d + 1) {
        None => { return None; },
        Some(e) => e,
    };
    let f = match find_after_exec(hay, &p_font, e) {
        None => { return None; },
        Some(f) => f,
    };
    let g = capture_run_end_exec(hay, f, hay.len());
    if g == f {
        return None;
    }
    let amount = parse_amount(hay, c, d);
    let ore = trimmed_string(line, hay, f, g);
    Some((amount, ore))
}

/// The residue event on this line, if any: the depleted amount, `None`
/// inside when its digits exceed `u64`.
pub fn match_residue_line(line: &str, hay: &Vec<char>) -> (r: Option<Option<u64>>)
    requires
        hay@ == line@,
    ensures
        match residue_capture(line@) {
            None => r is None,
            Some(ds) => r is Some && (match r->0 {
                Some(v) => v == digits_val(ds),
                None => digits_val(ds) > u64::MAX,
            }),
        },
{
    let p_mining = to_chars("(mining)");
    let p_addl = to_chars("Additional");
    let p_tags = to_chars("<font size=12><color=#ffff454b>");
    let p_depl = to_chars("units depleted from asteroid as residue");
    let a = match find_after_exec(hay, &p_mining, 0) {
        None => { return None; },
        Some(a) => a,
    };
    let h = match find_after_exec(hay, &p_addl, a) {
        None => { return None; },
        Some(h) => h,
    };
    let w = skip_spaces_exec(hay, h, hay.len());
    if w == h {
        return None;
    }
    if !match_at_exec(hay, &p_tags, w) {
        return None;
    }
    let t = w + p_tags.len();
    proof {
        assert(t <= hay@.len());
    }
    let d = match amount_end_exec(hay, t) {
        None => { return None; },
        Some(d) => d,
    };
    match find_after_exec(hay, &p_depl, d + 1) {
        None => None,
        Some(_z) => {
            let amount = parse_amount(hay, t, d);
            Some(amount)
        },
    }
}

} // verus!
