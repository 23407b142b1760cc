//! Completion backends: filesystem, environment variables, history
//! and git refs.
//!
//! Each backend turns what it lists (directory entries, variable
//! names, history entries, `git for-each-ref` output) into
//! [`CompletionCandidate`]s that replace an `anchor` range of the
//! input. Listing the directory, the environment or the refs is the
//! caller's job; the functions here decide which entries match and in
//! what order they come.

use vstd::prelude::*;
use crate::ast::{GitScope, Range};
use crate::completion::{is_stable_sort_of, CompletionCandidate, CompletionSet, CompletionSource, InsertAction};
use crate::history::{CommandHistory, HistoryEntry};
use crate::text::{
    chars_of, chars_starts_with, push_str, seq_starts_with, seq_trim, split_chars, split_on,
    string_from_chars, string_of, str_is_empty, trim_string,
};

verus! {

/// Whether `h` begins with `n`.
pub fn str_starts_with(h: &str, n: &str) -> (r: bool)
    ensures
        r == seq_starts_with(h@, n@),
{
    let hv = chars_of(h);
    let nv = chars_of(n);
    chars_starts_with(&hv, &nv)
}

/// `c` replaces `anchor` with `label`, from `source`, with `icon`.
pub open spec fn candidate_is(
    c: CompletionCandidate,
    source: CompletionSource,
    label: Seq<char>,
    anchor: Range,
    icon: &'static str,
) -> bool {
    &&& c.label@ == label
    &&& c.detail is None
    &&& c.icon == Some(icon)
    &&& c.source == source
    &&& c.score == 0
    &&& c.action matches InsertAction::Replace { range, replacement } && range == anchor
        && replacement@ == label
}

fn make_candidate(source: CompletionSource, label: &str, anchor: Range, icon: &'static str) -> (c: CompletionCandidate)
    ensures
        candidate_is(c, source, label@, anchor, icon),
{
    CompletionCandidate::replace(source, label, anchor).with_icon(icon)
}

/// Sorts candidates by label (they share a source and a score).
fn sort_candidates(v: Vec<CompletionCandidate>) -> (r: Vec<CompletionCandidate>)
    ensures
        is_stable_sort_of(r@, v@),
{
    let mut set = CompletionSet::new();
    set.candidates = v;
    set.sort();
    set.candidates
}

// ---- history ----------------------------------------------------------

/// Indices of the entries offered for `prefix`: newest first, those
/// whose command starts with `prefix`, until `cap` are found.
pub open spec fn history_hits(es: Seq<HistoryEntry>, prefix: Seq<char>, cap: nat, i: int, acc: Seq<int>) -> Seq<int>
    decreases i,
{
    if i <= 0 || acc.len() >= cap {
        acc
    } else {
        let next = if seq_starts_with(es[i - 1].command@, prefix) { acc.push(i - 1) } else { acc };
        history_hits(es, prefix, cap, i - 1, next)
    }
}

/// At least one candidate is offered even for `limit == 0`.
pub open spec fn cap_of(limit: usize) -> nat {
    if limit == 0 { 1 } else { limit as nat }
}

/// History completion: the commands starting with `prefix`, newest
/// first, at most `limit` (at least one).
pub fn history_candidates(history: &CommandHistory, prefix: &str, anchor: Range, limit: usize) -> (out: Vec<CompletionCandidate>)
    ensures
        ({
            let es = history.view_entries();
            let hits = history_hits(es, prefix@, cap_of(limit), es.len() as int, Seq::empty());
            &&& out@.len() == hits.len()
            &&& forall|j: int|
                0 <= j < hits.len() ==> candidate_is(
                    #[trigger] out@[j],
                    CompletionSource::History,
                    es[hits[j]].command@,
                    anchor,
                    "history",
                )
        }),
{
    let es = history.entries();
    let ghost ev = history.view_entries();
    let cap: usize = if limit == 0 { 1 } else { limit };
    let mut out: Vec<CompletionCandidate> = Vec::new();
    let ghost mut acc: Seq<int> = Seq::empty();
    let mut i: usize = es.len();
    while i > 0
        invariant_except_break
            history_hits(ev, prefix@, cap as nat, i as int, acc) == history_hits(
                ev,
                prefix@,
                cap as nat,
                ev.len() as int,
                Seq::empty(),
            ),
        invariant
            es@ == ev,
            i <= ev.len(),
            cap as nat == cap_of(limit),
            out@.len() == acc.len(),
            forall|j: int| 0 <= j < acc.len() ==> 0 <= #[trigger] acc[j] < ev.len(),
            forall|j: int|
                0 <= j < acc.len() ==> candidate_is(
                    #[trigger] out@[j],
                    CompletionSource::History,
                    ev[acc[j]].command@,
                    anchor,
                    "history",
                ),
        ensures
            acc == history_hits(ev, prefix@, cap as nat, ev.len() as int, Seq::empty()),
        decreases i,
    {
        if out.len() >= cap {
            break;
        }
        let e = &es[i - 1];
        if str_starts_with(e.command.as_str(), prefix) {
            out.push(make_candidate(CompletionSource::History, e.command.as_str(), anchor, "history"));
            proof {
                acc = acc.push(i - 1);
            }
        }
        i -= 1;
    }
    out
}

// ---- filesystem -------------------------------------------------------

/// Index of the last `c` in `s`.
pub open spec fn last_index_of(s: Seq<char>, c: char) -> Option<int>
    decreases s.len(),
{
    if s.len() == 0 {
        None
    } else if s.last() == c {
        Some(s.len() - 1)
    } else {
        last_index_of(s.drop_last(), c)
    }
}

/// `prefix` split at its last `/` into the directory part (with the
/// `/`) and the name stem.
pub open spec fn path_split(prefix: Seq<char>) -> (Seq<char>, Seq<char>) {
    match last_index_of(prefix, '/') {
        Some(i) => (prefix.take(i + 1), prefix.skip(i + 1)),
        None => (Seq::empty(), prefix),
    }
}

proof fn lemma_last_index_of(s: Seq<char>, c: char)
    ensures
        last_index_of(s, c) matches Some(i) ==> 0 <= i < s.len() && s[i] == c,
    decreases s.len(),
{
    if s.len() > 0 && s.last() != c {
        lemma_last_index_of(s.drop_last(), c);
    }
}

/// The directory part and the stem of a path prefix.
pub fn split_path_prefix(prefix: &str) -> (r: (String, String))
    ensures
        r.0@ == path_split(prefix@).0,
        r.1@ == path_split(prefix@).1,
{
    let v = chars_of(prefix);
    let mut i: usize = v.len();
    assert(v@.take(i as int) =~= v@);
    while i > 0 && v[i - 1] != '/'
        invariant
            i <= v@.len(),
            last_index_of(v@, '/') == last_index_of(v@.take(i as int), '/'),
        decreases i,
    {
        proof {
            assert(v@.take(i as int).drop_last() =~= v@.take(i - 1));
        }
        i -= 1;
    }
    if i == 0 {
        assert(v@.take(0) =~= Seq::<char>::empty());
        (String::new(), string_of(&v))
    } else {
        proof {
            assert(v@.take(i as int).last() == '/');
        }
        (string_from_chars(&v, 0, i), string_from_chars(&v, i, v.len()))
    }
}

/// Indices of the directory entries (`(name, is_dir)`) whose name
/// starts with `stem`, in listing order, until `limit` are found (at
/// least one).
pub open spec fn entry_hits(entries: Seq<(String, bool)>, stem: Seq<char>, cap: nat, k: int, acc: Seq<int>) -> Seq<int>
    decreases entries.len() - k,
{
    if k < 0 || k >= entries.len() || acc.len() >= cap {
        acc
    } else {
        let next = if seq_starts_with(entries[k].0@, stem) { acc.push(k) } else { acc };
        entry_hits(entries, stem, cap, k + 1, next)
    }
}

/// The candidate for directory entry `e` under directory part `dir`:
/// directories end in `/` and carry the `folder` icon, files `file`.
pub open spec fn entry_candidate(c: CompletionCandidate, e: (String, bool), dir: Seq<char>, anchor: Range) -> bool {
    if e.1 {
        candidate_is(c, CompletionSource::Filesystem, dir + e.0@ + seq!['/'], anchor, "folder")
    } else {
        candidate_is(c, CompletionSource::Filesystem, dir + e.0@, anchor, "file")
    }
}

/// Filesystem completion over the entries of the directory named by
/// `prefix`'s directory part (listed by the caller as `(name,
/// is_dir)`): the matching entries, sorted by label.
pub fn filesystem_candidates_from(
    entries: &Vec<(String, bool)>,
    prefix: &str,
    anchor: Range,
    limit: usize,
) -> (out: Vec<CompletionCandidate>)
    ensures
        ({
            let (dir, stem) = path_split(prefix@);
            let hits = entry_hits(entries@, stem, cap_of(limit), 0, Seq::empty());
            exists|inp: Seq<CompletionCandidate>|
                #![trigger is_stable_sort_of(out@, inp)]
                inp.len() == hits.len() && (forall|j: int|
                    0 <= j < hits.len() ==> entry_candidate(#[trigger] inp[j], entries@[hits[j]], dir, anchor))
                    && is_stable_sort_of(out@, inp)
        }),
{
    let (dir, stem) = split_path_prefix(prefix);
    let cap: usize = if limit == 0 { 1 } else { limit };
    let mut found: Vec<CompletionCandidate> = Vec::new();
    let ghost mut acc: Seq<int> = Seq::empty();
    let n = entries.len();
    let mut k: usize = 0;
    while k < n
        invariant_except_break
            entry_hits(entries@, stem@, cap as nat, k as int, acc) == entry_hits(
                entries@,
                stem@,
                cap as nat,
                0,
                Seq::empty(),
            ),
        invariant
            n == entries@.len(),
            k <= n,
            cap as nat == cap_of(limit),
            found@.len() == acc.len(),
            forall|j: int| 0 <= j < acc.len() ==> 0 <= #[trigger] acc[j] < n,
            forall|j: int|
                0 <= j < acc.len() ==> entry_candidate(#[trigger] found@[j], entries@[acc[j]], dir@, anchor),
        ensures
            acc == entry_hits(entries@, stem@, cap as nat, 0, Seq::empty()),
        decreases n - k,
    {
        if found.len() >= cap {
            break;
        }
        let (name, is_dir) = &entries[k];
        if str_starts_with(name.as_str(), stem.as_str()) {
            let mut label = dir.clone();
            push_str(&mut label, name.as_str());
            let ghost e = entries@[k as int];
            assert(e.0 == *name && e.1 == *is_dir);
            let c = if *is_dir {
                push_str(&mut label, "/");
                proof {
                    reveal_strlit("/");
                    assert(label@ =~= dir@ + e.0@ + seq!['/']);
                }
                make_candidate(CompletionSource::Filesystem, label.as_str(), anchor, "folder")
            } else {
                make_candidate(CompletionSource::Filesystem, label.as_str(), anchor, "file")
            };
            assert(entry_candidate(c, e, dir@, anchor));
            found.push(c);
            proof {
                acc = acc.push(k as int);
            }
        }
        k += 1;
    }
    let ghost inp = found@;
    let out = sort_candidates(found);
    out
}

// ---- environment variables --------------------------------------------

/// `prefix` without one leading `$`.
pub open spec fn bare_name(prefix: Seq<char>) -> Seq<char> {
    if prefix.len() > 0 && prefix[0] == '$' { prefix.skip(1) } else { prefix }
}

/// Indices of the names starting with `bare`, in listing order.
pub open spec fn name_hits(names: Seq<String>, bare: Seq<char>, k: int) -> Seq<int>
    decreases k,
{
    if k <= 0 {
        Seq::empty()
    } else {
        let rest = name_hits(names, bare, k - 1);
        if seq_starts_with(names[k - 1]@, bare) { rest.push(k - 1) } else { rest }
    }
}

/// Environment-variable completion over the variable names the
/// caller listed: `$name` for each name starting with `prefix` (a
/// leading `$` dropped), sorted, the first `limit` kept.
pub fn envvar_candidates_from(names: &Vec<String>, prefix: &str, anchor: Range, limit: usize) -> (out: Vec<CompletionCandidate>)
    ensures
        ({
            let hits = name_hits(names@, bare_name(prefix@), names@.len() as int);
            exists|inp: Seq<CompletionCandidate>, sorted: Seq<CompletionCandidate>|
                #![trigger is_stable_sort_of(sorted, inp)]
                inp.len() == hits.len() && (forall|j: int|
                    0 <= j < hits.len() ==> candidate_is(
                        #[trigger] inp[j],
                        CompletionSource::EnvVar,
                        seq!['$'] + names@[hits[j]]@,
                        anchor,
                        "variable",
                    )) && is_stable_sort_of(sorted, inp) && out@ == sorted.take(
                    if limit < sorted.len() { limit as int } else { sorted.len() as int },
                )
        }),
{
    let pv = chars_of(prefix);
    let bare = if pv.len() > 0 && pv[0] == '$' {
        string_from_chars(&pv, 1, pv.len())
    } else {
        string_of(&pv)
    };
    assert(bare@ =~= bare_name(prefix@));
    let mut found: Vec<CompletionCandidate> = Vec::new();
    let ghost mut acc: Seq<int> = Seq::empty();
    let n = names.len();
    let mut k: usize = 0;
    while k < n
        invariant
            n == names@.len(),
            k <= n,
            bare@ == bare_name(prefix@),
            acc == name_hits(names@, bare@, k as int),
            found@.len() == acc.len(),
            forall|j: int| 0 <= j < acc.len() ==> 0 <= #[trigger] acc[j] < k,
            forall|j: int|
                0 <= j < acc.len() ==> candidate_is(
                    #[trigger] found@[j],
                    CompletionSource::EnvVar,
                    seq!['$'] + names@[acc[j]]@,
                    anchor,
                    "variable",
                ),
        decreases n - k,
    {
        let name = &names[k];
        if str_starts_with(name.as_str(), bare.as_str()) {
            let mut label = String::new();
            push_str(&mut label, "$");
            push_str(&mut label, name.as_str());
            proof {
                reveal_strlit("$");
                assert(label@ =~= seq!['$'] + name@);
            }
            found.push(make_candidate(CompletionSource::EnvVar, label.as_str(), anchor, "variable"));
            proof {
                acc = acc.push(k as int);
            }
        }
        k += 1;
    }
    let ghost inp = found@;
    let mut sorted = sort_candidates(found);
    let ghost all = sorted@;
    if limit < sorted.len() {
        sorted.truncate(limit);
    }
    assert(sorted@ =~= all.take(if limit < all.len() { limit as int } else { all.len() as int }));
    sorted
}

// ---- git refs -----------------------------------------------------------

/// The `git` arguments listing the refs of `scope`; `None` for
/// commits, which are not enumerated.
pub fn git_ref_args(scope: GitScope) -> (r: Option<Vec<&'static str>>)
    ensures
        match scope {
            GitScope::Commit => r is None,
            GitScope::Branch => r matches Some(v) && v@ == seq!["for-each-ref", "--format=%(refname:short)", "refs/heads/"],
            GitScope::Tag => r matches Some(v) && v@ == seq!["for-each-ref", "--format=%(refname:short)", "refs/tags/"],
            GitScope::Remote => r matches Some(v) && v@ == seq!["for-each-ref", "--format=%(refname:short)", "refs/remotes/"],
            GitScope::Any => r matches Some(v) && v@ == seq![
                "for-each-ref",
                "--format=%(refname:short)",
                "refs/heads/",
                "refs/tags/",
                "refs/remotes/",
            ],
        },
{
    let mut args: Vec<&'static str> = Vec::new();
    args.push("for-each-ref");
    args.push("--format=%(refname:short)");
    match scope {
        GitScope::Commit => return None,
        GitScope::Branch => args.push("refs/heads/"),
        GitScope::Tag => args.push("refs/tags/"),
        GitScope::Remote => args.push("refs/remotes/"),
        GitScope::Any => {
            args.push("refs/heads/");
            args.push("refs/tags/");
            args.push("refs/remotes/");
        },
    }
    Some(args)
}

/// Icon of a git candidate of `scope`.
pub open spec fn spec_git_icon(scope: GitScope) -> &'static str {
    match scope {
        GitScope::Branch => "git-branch",
        GitScope::Tag => "tag",
        GitScope::Remote => "cloud",
        GitScope::Commit | GitScope::Any => "git-ref",
    }
}

pub fn git_icon(scope: GitScope) -> (r: &'static str)
    ensures
        r == spec_git_icon(scope),
{
    match scope {
        GitScope::Branch => "git-branch",
        GitScope::Tag => "tag",
        GitScope::Remote => "cloud",
        GitScope::Commit | GitScope::Any => "git-ref",
    }
}

/// The ref names of `git for-each-ref` output: its lines, trimmed.
pub open spec fn ref_names(text: Seq<char>) -> Seq<Seq<char>> {
    split_on(text, '\n').map_values(|l: Seq<char>| seq_trim(l))
}

/// Indices of the non-empty ref names starting with `prefix`, in
/// output order, until `cap` are found.
pub open spec fn ref_hits(names: Seq<Seq<char>>, prefix: Seq<char>, cap: nat, k: int, acc: Seq<int>) -> Seq<int>
    decreases names.len() - k,
{
    if k < 0 || k >= names.len() || acc.len() >= cap {
        acc
    } else {
        let next = if names[k].len() > 0 && seq_starts_with(names[k], prefix) { acc.push(k) } else { acc };
        ref_hits(names, prefix, cap, k + 1, next)
    }
}

/// Git-ref completion over the output of `git for-each-ref` run with
/// [`git_ref_args`]: the refs starting with `prefix`, at most `limit`
/// (at least one), sorted by name. Commits give nothing.
pub fn git_candidates_from_output(
    text: &str,
    scope: GitScope,
    prefix: &str,
    anchor: Range,
    limit: usize,
) -> (out: Vec<CompletionCandidate>)
    ensures
        scope == GitScope::Commit ==> out@.len() == 0,
        scope != GitScope::Commit ==> ({
            let names = ref_names(text@);
            let hits = ref_hits(names, prefix@, cap_of(limit), 0, Seq::empty());
            exists|inp: Seq<CompletionCandidate>|
                #![trigger is_stable_sort_of(out@, inp)]
                inp.len() == hits.len() && (forall|j: int|
                    0 <= j < hits.len() ==> candidate_is(
                        #[trigger] inp[j],
                        CompletionSource::Git,
                        names[hits[j]],
                        anchor,
                        spec_git_icon(scope),
                    )) && is_stable_sort_of(out@, inp)
        }),
{
    if scope == GitScope::Commit {
        return Vec::new();
    }
    let icon = git_icon(scope);
    let tv = chars_of(text);
    let lines = split_chars(&tv, '\n');
    let ghost names = ref_names(text@);
    proof {
        assert forall|j: int| 0 <= j < lines@.len() implies names[j] == seq_trim(#[trigger] lines@[j]@) by {
            assert(lines@.map_values(|x: Vec<char>| x@)[j] == lines@[j]@);
        }
    }
    let cap: usize = if limit == 0 { 1 } else { limit };
    let mut found: Vec<CompletionCandidate> = Vec::new();
    let ghost mut acc: Seq<int> = Seq::empty();
    let n = lines.len();
    let mut k: usize = 0;
    while k < n
        invariant_except_break
            ref_hits(names, prefix@, cap as nat, k as int, acc) == ref_hits(names, prefix@, cap as nat, 0, Seq::empty()),
        invariant
            n == lines@.len(),
            names.len() == n,
            forall|j: int| 0 <= j < n ==> names[j] == seq_trim(#[trigger] lines@[j]@),
            k <= n,
            cap as nat == cap_of(limit),
            found@.len() == acc.len(),
            forall|j: int| 0 <= j < acc.len() ==> 0 <= #[trigger] acc[j] < n,
            forall|j: int|
                0 <= j < acc.len() ==> candidate_is(
                    #[trigger] found@[j],
                    CompletionSource::Git,
                    names[acc[j]],
                    anchor,
                    icon,
                ),
        ensures
            acc == ref_hits(names, prefix@, cap as nat, 0, Seq::empty()),
        decreases n - k,
    {
        if found.len() >= cap {
            break;
        }
        let line = string_of(&lines[k]);
        let name = trim_string(line.as_str());
        assert(name@ == names[k as int]);
        if !str_is_empty(name.as_str()) && str_starts_with(name.as_str(), prefix) {
            found.push(make_candidate(CompletionSource::Git, name.as_str(), anchor, icon));
            proof {
                acc = acc.push(k as int);
            }
        }
        k += 1;
    }
    sort_candidates(found)
}

} // verus!
