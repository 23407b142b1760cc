//! Diff statistics of an agent session's working tree, parsed from the
//! one-line output of `git diff --shortstat HEAD`.
//!
//! Git writes ` 2 files changed, 10 insertions(+), 3 deletions(-)`,
//! pluralises inconsistently and omits zero clauses; an empty line is
//! a clean tree. Output of any other shape is rejected rather than
//! read as zeros.

use vstd::prelude::*;
use crate::text::{
    chars_of, seq_trim, trim_string, split_once, split_on, split_chars, find_char, sub_chars, string_of,
    parse_unsigned, parse_unsigned_chars, seq_starts_with, chars_starts_with, lemma_first_index_of,
    first_index_of, all_digits, is_ascii_digit, digits_value, unsigned_digits,
};

verus! {

/// `git diff --shortstat HEAD` for one working tree.
#[derive(Debug, Clone, Copy, PartialEq, Eq, Default, Structural)]
pub struct DiffStats {
    pub files_changed: u32,
    pub insertions: u32,
    pub deletions: u32,
}

impl DiffStats {
    pub fn is_zero(&self) -> (r: bool)
        ensures
            r == (self.files_changed == 0 && self.insertions == 0 && self.deletions == 0),
    {
        self.files_changed == 0 && self.insertions == 0 && self.deletions == 0
    }
}

pub open spec fn zero_stats() -> DiffStats {
    DiffStats { files_changed: 0, insertions: 0, deletions: 0 }
}

/// Effect of one comma-separated clause (`<n> file…`, `<n> insertion…`,
/// `<n> deletion…`) on the stats read so far and on whether any clause
/// was recognised.
pub open spec fn apply_clause(st: (DiffStats, bool), part: Seq<char>) -> (DiffStats, bool) {
    match split_once(seq_trim(part), ' ') {
        None => st,
        Some((num, rest0)) => {
            let rest = seq_trim(rest0);
            match parse_unsigned(num, u32::MAX as nat) {
                None => st,
                Some(n) => {
                    if seq_starts_with(rest, "file"@) {
                        (DiffStats { files_changed: n as u32, ..st.0 }, true)
                    } else if seq_starts_with(rest, "insertion"@) {
                        (DiffStats { insertions: n as u32, ..st.0 }, true)
                    } else if seq_starts_with(rest, "deletion"@) {
                        (DiffStats { deletions: n as u32, ..st.0 }, true)
                    } else {
                        st
                    }
                },
            }
        },
    }
}

/// The stats after the first `k` clauses.
pub open spec fn apply_clauses(parts: Seq<Seq<char>>, k: int) -> (DiffStats, bool)
    decreases k,
{
    if k <= 0 {
        (zero_stats(), false)
    } else {
        apply_clause(apply_clauses(parts, k - 1), parts[k - 1])
    }
}

/// What `parse_shortstat` returns for `output`.
pub open spec fn spec_parse_shortstat(output: Seq<char>) -> Option<DiffStats> {
    let line = seq_trim(output);
    if line.len() == 0 {
        Some(zero_stats())
    } else {
        let parts = split_on(line, ',');
        let (st, any) = apply_clauses(parts, parts.len() as int);
        if any { Some(st) } else { None }
    }
}

fn parse_clause(st: (DiffStats, bool), part: &Vec<char>) -> (r: (DiffStats, bool))
    ensures
        r == apply_clause(st, part@),
{
    let p = trim_string(string_of(part).as_str());
    let pv = chars_of(p.as_str());
    proof {
        lemma_first_index_of(pv@, ' ');
    }
    let found = find_char(&pv, ' ');
    if found.is_none() {
        return st;
    }
    let sp = found.unwrap();
    assert(sp < pv.len());
    let num = sub_chars(&pv, 0, sp);
    let rest0 = sub_chars(&pv, sp + 1, pv.len());
    assert(num@ =~= pv@.take(sp as int));
    assert(rest0@ =~= pv@.skip(sp + 1));
    let rest = chars_of(trim_string(string_of(&rest0).as_str()).as_str());
    let n = match parse_unsigned_chars(&num, 4294967295u64) {
        None => {
            return st;
        },
        Some(n) => n as u32,
    };
    let file = chars_of("file");
    let insertion = chars_of("insertion");
    let deletion = chars_of("deletion");
    let (stats, any) = st;
    if chars_starts_with(&rest, &file) {
        (DiffStats { files_changed: n, ..stats }, true)
    } else if chars_starts_with(&rest, &insertion) {
        (DiffStats { insertions: n, ..stats }, true)
    } else if chars_starts_with(&rest, &deletion) {
        (DiffStats { deletions: n, ..stats }, true)
    } else {
        (stats, any)
    }
}

/// Parses the output of `git diff --shortstat HEAD`: `Some` zeros for
/// a blank line, `Some` stats when at least one clause is recognised,
/// `None` for output of any other shape.
pub fn parse_shortstat(output: &str) -> (r: Option<DiffStats>)
    ensures
        r == spec_parse_shortstat(output@),
{
    let line = trim_string(output);
    let lv = chars_of(line.as_str());
    if lv.len() == 0 {
        return Some(DiffStats { files_changed: 0, insertions: 0, deletions: 0 });
    }
    let parts = split_chars(&lv, ',');
    let ghost ps = parts@.map_values(|x: Vec<char>| x@);
    let mut st: (DiffStats, bool) = (DiffStats { files_changed: 0, insertions: 0, deletions: 0 }, false);
    let mut k: usize = 0;
    while k < parts.len()
        invariant
            k <= parts@.len(),
            ps == parts@.map_values(|x: Vec<char>| x@),
            st == apply_clauses(ps, k as int),
        decreases parts@.len() - k,
    {
        assert(ps[k as int] == parts@[k as int]@);
        st = parse_clause(st, &parts[k]);
        k += 1;
    }
    let (stats, any) = st;
    if any { Some(stats) } else { None }
}

// ---- laws ---------------------------------------------------------

/// `d w` splits at the space after `d` when `d` holds none.
proof fn lemma_split_after_digits(d: Seq<char>, w: Seq<char>)
    requires
        all_digits(d),
    ensures
        split_once(d + seq![' '] + w, ' ') == Some((d, w)),
{
    let s = d + seq![' '] + w;
    lemma_first_index_of(s, ' ');
    assert(s[d.len() as int] == ' ');
    match first_index_of(s, ' ') {
        Some(i) => {
            if i < d.len() {
                assert(s[i] == d[i]);
                assert(is_ascii_digit(d[i]));
            }
            assert(i == d.len());
            assert(s.take(i) =~= d);
            assert(s.skip(i + 1) =~= w);
        },
        None => {},
    }
}

/// The count a clause `<n> <word>` carries, where `n` is the decimal
/// digits `d`, is stored whole in the field the word names, whatever
/// its size up to `u32::MAX`, and the clause counts as recognised:
/// `files_changed` for `file…`, `insertions` for `insertion…`,
/// `deletions` for `deletion…`. A count past `u32::MAX` leaves the
/// stats as they were.
pub proof fn lemma_clause_stores_count(st: (DiffStats, bool), part: Seq<char>, d: Seq<char>, w: Seq<char>)
    requires
        d.len() > 0,
        all_digits(d),
        seq_trim(part) == d + seq![' '] + w,
    ensures
        digits_value(d) <= u32::MAX && seq_starts_with(seq_trim(w), "file"@) ==> apply_clause(st, part) == (
            DiffStats { files_changed: digits_value(d) as u32, ..st.0 },
            true,
        ),
        digits_value(d) <= u32::MAX && seq_starts_with(seq_trim(w), "insertion"@) ==> apply_clause(st, part) == (
            DiffStats { insertions: digits_value(d) as u32, ..st.0 },
            true,
        ),
        digits_value(d) <= u32::MAX && seq_starts_with(seq_trim(w), "deletion"@) ==> apply_clause(st, part) == (
            DiffStats { deletions: digits_value(d) as u32, ..st.0 },
            true,
        ),
        digits_value(d) > u32::MAX ==> apply_clause(st, part) == st,
{
    reveal_strlit("file");
    reveal_strlit("insertion");
    reveal_strlit("deletion");
    lemma_split_after_digits(d, w);
    assert(d[0] != '+');
    assert(unsigned_digits(d) == d);
    let rest = seq_trim(w);
    if seq_starts_with(rest, "insertion"@) {
        assert(rest[0] == "insertion"@[0]);
        assert(!seq_starts_with(rest, "file"@)) by {
            if seq_starts_with(rest, "file"@) {
                assert(rest[0] == "file"@[0]);
            }
        }
    }
    if seq_starts_with(rest, "deletion"@) {
        assert(rest[0] == "deletion"@[0]);
        assert(!seq_starts_with(rest, "file"@)) by {
            if seq_starts_with(rest, "file"@) {
                assert(rest[0] == "file"@[0]);
            }
        }
        assert(!seq_starts_with(rest, "insertion"@)) by {
            if seq_starts_with(rest, "insertion"@) {
                assert(rest[0] == "insertion"@[0]);
            }
        }
    }
}

} // verus!
