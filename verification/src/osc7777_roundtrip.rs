//! What `osc7777::parse` gives back for the output of `osc7777::encode`:
//! the metadata itself, whatever its text fields hold. The main lemma
//! is `lemma_parse_encode`.

use vstd::prelude::*;
use vstd::utf8::{encode_utf8, valid_utf8, is_ascii_chars, is_scalar, char_u32_cast, encode_utf8_decode_utf8};
use crate::osc7777::{
    BlockMetadata, GitView, MetaView, ErrView, GitField, MetaField, meta_view, escaped, escape_char,
    json_string, json_bool, member, git_member, meta_member, git_entries, meta_entries, git_parts,
    meta_parts, joined_parts, json_object, json_text, hex_text, hex_char, spec_encode, spec_parse,
    spec_decode_hex, hex_pairs, hex_pair, hex_digit_value, string_body, read_string, read_bool,
    read_number_token, number_end, is_number_char, is_json_digit, read_unsigned,
    read_i32, parse_unsigned_text, parse_i32_text, scan_digits, digit_of, invalid_digit,
    read_git_field, git_fields, read_git, read_meta_field, meta_fields, spec_parse_json, expect,
    empty_git, empty_meta, cwd_entry, git_entry, user_entry, host_entry, shell_entry, exit_entry,
    runtime_entry, json_ws_end, is_json_ws, hex_char_value, code_escape,
};
use crate::text::{decimal_chars, signed_decimal_chars};

verus! {

/// The characters `t` stand at `i` in `b`.
pub open spec fn text_at(b: Seq<char>, i: int, t: Seq<char>) -> bool {
    &&& 0 <= i
    &&& i + t.len() <= b.len()
    &&& forall|k: int| 0 <= k < t.len() ==> b[i + k] == #[trigger] t[k]
}

proof fn lemma_text_at_split(b: Seq<char>, i: int, a: Seq<char>, c: Seq<char>)
    ensures
        text_at(b, i, a + c) == (text_at(b, i, a) && text_at(b, i + a.len(), c)),
{
    if text_at(b, i, a + c) {
        assert forall|k: int| 0 <= k < a.len() implies b[i + k] == #[trigger] a[k] by {
            assert((a + c)[k] == a[k]);
        }
        assert forall|k: int| 0 <= k < c.len() implies b[i + a.len() + k] == #[trigger] c[k] by {
            assert((a + c)[a.len() + k] == c[k]);
        }
    }
    if text_at(b, i, a) && text_at(b, i + a.len(), c) {
        assert forall|k: int| 0 <= k < (a + c).len() implies b[i + k] == #[trigger] (a + c)[k] by {
            if k < a.len() {
                assert(a[k] == (a + c)[k]);
            } else {
                let k2 = k - a.len();
                assert(c[k2] == (a + c)[k]);
            }
        }
    }
}

proof fn lemma_ws_stop(b: Seq<char>, i: int)
    requires
        0 <= i < b.len(),
        !is_json_ws(b[i]),
    ensures
        json_ws_end(b, i) == i,
{
}

// ---- strings ------------------------------------------------------

proof fn lemma_escaped_concat(a: Seq<char>, c: Seq<char>)
    ensures
        escaped(a + c) == escaped(a) + escaped(c),
    decreases c.len(),
{
    if c.len() == 0 {
        assert(a + c =~= a);
        assert(escaped(a) + escaped(c) =~= escaped(a));
    } else {
        lemma_escaped_concat(a, c.drop_last());
        assert((a + c).drop_last() =~= a + c.drop_last());
        assert((a + c).last() == c.last());
        assert(escaped(a) + escaped(c) =~= escaped(a) + escaped(c.drop_last()) + escape_char(c.last()));
    }
}

proof fn lemma_escaped_first(s: Seq<char>)
    requires
        s.len() > 0,
    ensures
        escaped(s) == escape_char(s[0]) + escaped(s.drop_first()),
{
    let h = seq![s[0]];
    lemma_escaped_concat(h, s.drop_first());
    assert(h + s.drop_first() =~= s);
    assert(h.drop_last() =~= Seq::<char>::empty());
    assert(escaped(h.drop_last()) =~= Seq::<char>::empty());
    assert(h.last() == s[0]);
    assert(escaped(h) =~= escape_char(s[0]));
}

/// A hex digit written by `hex_char` reads back as its value.
proof fn lemma_hex_char_value(v: nat)
    requires
        v < 16,
    ensures
        hex_char_value(hex_char(v)) == Some(v),
{
}

/// The tail of the `\u00XX` escape written for a control character reads
/// back as that character.
proof fn lemma_code_escape(b: Seq<char>, j: int, c: char)
    requires
        (c as int) < 32,
        0 <= j,
        j + 4 <= b.len(),
        b[j] == '0',
        b[j + 1] == '0',
        b[j + 2] == hex_char((c as int / 16) as nat),
        b[j + 3] == hex_char((c as int % 16) as nat),
    ensures
        code_escape(b, j) == Some(c),
{
    lemma_hex_char_value((c as int / 16) as nat);
    lemma_hex_char_value((c as int % 16) as nat);
    let v: nat = (c as int / 16) as nat * 16 + (c as int % 16) as nat;
    assert(v == c as int);
    assert(is_scalar(v as u32));
    assert((v as u32) == (c as u32));
    char_u32_cast(c, v as u32);
}

proof fn lemma_string_body(b: Seq<char>, i: int, acc: Seq<char>, s: Seq<char>)
    requires
        text_at(b, i, escaped(s) + seq!['"']),
    ensures
        string_body(b, i, acc) == Ok::<(Seq<char>, int), ErrView>((acc + s, i + escaped(s).len() + 1)),
    decreases s.len(),
{
    if s.len() == 0 {
        assert(escaped(s) + seq!['"'] =~= seq!['"']);
        assert(seq!['"'][0] == '"');
        assert(acc + s =~= acc);
    } else {
        let c = s[0];
        let rest = s.drop_first();
        lemma_escaped_first(s);
        let e = escape_char(c);
        assert(escaped(s) + seq!['"'] =~= e + (escaped(rest) + seq!['"']));
        lemma_text_at_split(b, i, e, escaped(rest) + seq!['"']);
        assert(acc.push(c) + rest =~= acc + s);
        if c == '"' || c == '\\' || c == '\n' || c == '\r' || c == '\t' {
            assert(e.len() == 2);
            assert(b[i] == e[0]);
            assert(b[i + 1] == e[1]);
            lemma_string_body(b, i + 2, acc.push(c), rest);
        } else if c >= '\0' && ' ' > c {
            assert(e.len() == 6);
            assert(b[i] == e[0]);
            assert(b[i + 1] == e[1]);
            assert(b[i + 2] == e[2]);
            assert(b[i + 3] == e[3]);
            assert(b[i + 4] == e[4]);
            assert(b[i + 5] == e[5]);
            lemma_code_escape(b, i + 2, c);
            lemma_string_body(b, i + 6, acc.push(c), rest);
        } else {
            assert(e =~= seq![c]);
            assert(b[i] == e[0]);
            lemma_string_body(b, i + 1, acc.push(c), rest);
        }
    }
}

pub proof fn lemma_read_string(b: Seq<char>, p: int, s: Seq<char>)
    requires
        text_at(b, p, json_string(s)),
    ensures
        read_string(b, p) == Ok::<(Seq<char>, int), ErrView>((s, p + json_string(s).len())),
{
    assert(json_string(s) =~= seq!['"'] + (escaped(s) + seq!['"']));
    lemma_text_at_split(b, p, seq!['"'], escaped(s) + seq!['"']);
    assert(b[p] == seq!['"'][0]);
    lemma_ws_stop(b, p);
    lemma_string_body(b, p + 1, Seq::empty(), s);
    assert(Seq::<char>::empty() + s =~= s);
}

// ---- numbers and booleans ------------------------------------------

pub open spec fn is_digit_char(c: char) -> bool {
    48 <= c as int && c as int <= 57
}

proof fn lemma_decimal_digits(n: nat)
    ensures
        decimal_chars(n).len() >= 1,
        forall|k: int| 0 <= k < decimal_chars(n).len() ==> is_digit_char(#[trigger] decimal_chars(n)[k]),
    decreases n,
{
    if n >= 10 {
        lemma_decimal_digits(n / 10);
        let d = decimal_chars(n / 10);
        assert forall|k: int| 0 <= k < decimal_chars(n).len() implies is_digit_char(#[trigger] decimal_chars(n)[k]) by {
            if k < d.len() {
                assert(decimal_chars(n)[k] == d[k]);
            }
        }
    }
}

proof fn lemma_scan_push(d: Seq<char>, x: char, i: int, acc: nat, max: nat, o: Seq<char>, a: nat, v: nat)
    requires
        0 <= i <= d.len(),
        scan_digits(d, i, acc, max, o) == Ok::<nat, Seq<char>>(a),
        digit_of(x) == Some(v),
        a * 10 + v <= max,
    ensures
        scan_digits(d.push(x), i, acc, max, o) == Ok::<nat, Seq<char>>(a * 10 + v),
    decreases d.len() - i,
{
    if i < d.len() {
        assert(d.push(x)[i] == d[i]);
        match digit_of(d[i]) {
            None => {},
            Some(w) => {
                if acc * 10 + w <= max {
                    lemma_scan_push(d, x, i + 1, acc * 10 + w, max, o, a, v);
                }
            },
        }
    } else {
        assert(d.push(x)[i] == x);
        assert(scan_digits(d.push(x), i + 1, a * 10 + v, max, o) == Ok::<nat, Seq<char>>(a * 10 + v));
    }
}

proof fn lemma_scan_decimal(n: nat, max: nat, o: Seq<char>)
    requires
        n <= max,
    ensures
        scan_digits(decimal_chars(n), 0, 0, max, o) == Ok::<nat, Seq<char>>(n),
    decreases n,
{
    if n < 10 {
        let d = decimal_chars(n);
        assert(d[0] as int == 48 + n);
        assert(digit_of(d[0]) == Some(n));
        assert(scan_digits(d, 1, n, max, o) == Ok::<nat, Seq<char>>(n));
    } else {
        lemma_scan_decimal(n / 10, max, o);
        let c = ((48 + n % 10)) as char;
        assert(c as int == 48 + n % 10);
        assert(digit_of(c) == Some((n % 10) as nat));
        lemma_scan_push(decimal_chars(n / 10), c, 0, 0, max, o, n / 10, (n % 10) as nat);
    }
}

proof fn lemma_scan_shift(pre: Seq<char>, d: Seq<char>, i: int, acc: nat, max: nat, o: Seq<char>)
    requires
        0 <= i <= d.len(),
    ensures
        scan_digits(pre + d, pre.len() + i, acc, max, o) == scan_digits(d, i, acc, max, o),
    decreases d.len() - i,
{
    if i < d.len() {
        assert((pre + d)[pre.len() + i] == d[i]);
        match digit_of(d[i]) {
            None => {},
            Some(w) => {
                lemma_scan_shift(pre, d, i + 1, acc * 10 + w, max, o);
            },
        }
    }
}

proof fn lemma_parse_decimal(n: nat, max: nat)
    requires
        n <= max,
    ensures
        parse_unsigned_text(decimal_chars(n), max) == Ok::<nat, Seq<char>>(n),
{
    lemma_decimal_digits(n);
    lemma_scan_decimal(n, max, "number too large to fit in target type"@);
    assert(is_digit_char(decimal_chars(n)[0]));
}

proof fn lemma_parse_signed(e: i32)
    ensures
        parse_i32_text(signed_decimal_chars(e as int)) == Ok::<i32, Seq<char>>(e),
{
    if e >= 0 {
        lemma_decimal_digits(e as nat);
        lemma_scan_decimal(e as nat, 2147483647, "number too large to fit in target type"@);
        assert(is_digit_char(decimal_chars(e as nat)[0]));
    } else {
        let m = (-(e as int)) as nat;
        let d = decimal_chars(m);
        lemma_decimal_digits(m);
        lemma_scan_decimal(m, 2147483648, "number too small to fit in target type"@);
        lemma_scan_shift(seq!['-'], d, 0, 0, 2147483648, "number too small to fit in target type"@);
        assert((seq!['-'] + d)[0] == '-');
    }
}

proof fn lemma_number_run(b: Seq<char>, p: int, e: int)
    requires
        0 <= p <= e < b.len(),
        forall|k: int| p <= k < e ==> is_number_char(#[trigger] b[k]),
        !is_number_char(b[e]),
    ensures
        number_end(b, p) == e,
    decreases e - p,
{
    if p < e {
        lemma_number_run(b, p + 1, e);
    }
}

/// A number token `t` (digits, `-` first at most) at `p`, ended by a
/// byte that is no part of a number.
proof fn lemma_number_token(b: Seq<char>, p: int, t: Seq<char>)
    requires
        t.len() >= 1,
        forall|k: int| 0 <= k < t.len() ==> is_digit_char(#[trigger] t[k]) || (k == 0 && t[k] == '-'),
        text_at(b, p, t),
        p + t.len() < b.len(),
        !is_number_char(b[p + t.len()]),
    ensures
        read_number_token(b, p) == Ok::<(Seq<char>, int), ErrView>((t, p + t.len())),
{
    assert forall|k: int| p <= k < p + t.len() implies is_number_char(#[trigger] b[k]) by {
        let j = k - p;
        assert(b[p + j] == t[j]);
        assert(is_digit_char(t[j]) || (j == 0 && t[j] == '-'));
    }
    assert(is_number_char(b[p]));
    lemma_ws_stop(b, p);
    lemma_number_run(b, p, p + t.len());
    assert(b.subrange(p, p + t.len()) =~= t) by {
        assert forall|k: int| 0 <= k < t.len() implies #[trigger] b.subrange(p, p + t.len())[k] == t[k] by {
            assert(b[p + k] == t[k]);
            assert(is_digit_char(t[k]) || (k == 0 && t[k] == '-'));
        }
    }
}

pub proof fn lemma_read_unsigned(b: Seq<char>, p: int, n: nat, max: nat)
    requires
        n <= max,
        text_at(b, p, decimal_chars(n)),
        p + decimal_chars(n).len() < b.len(),
        !is_number_char(b[p + decimal_chars(n).len()]),
    ensures
        read_unsigned(b, p, max) == Ok::<(nat, int), ErrView>((n, p + decimal_chars(n).len())),
{
    lemma_decimal_digits(n);
    lemma_number_token(b, p, decimal_chars(n));
    lemma_parse_decimal(n, max);
}

pub proof fn lemma_read_i32(b: Seq<char>, p: int, e: i32)
    requires
        text_at(b, p, signed_decimal_chars(e as int)),
        p + signed_decimal_chars(e as int).len() < b.len(),
        !is_number_char(b[p + signed_decimal_chars(e as int).len()]),
    ensures
        read_i32(b, p) == Ok::<(i32, int), ErrView>((e, p + signed_decimal_chars(e as int).len())),
{
    let t = signed_decimal_chars(e as int);
    if e >= 0 {
        lemma_decimal_digits(e as nat);
    } else {
        let d = decimal_chars((-(e as int)) as nat);
        lemma_decimal_digits((-(e as int)) as nat);
        assert forall|k: int| 0 <= k < t.len() implies is_digit_char(#[trigger] t[k]) || (k == 0 && t[k] == '-') by {
            if k > 0 {
                assert(t[k] == d[k - 1]);
            }
        }
    }
    lemma_number_token(b, p, t);
    lemma_parse_signed(e);
}

pub proof fn lemma_read_bool(b: Seq<char>, p: int, v: bool)
    requires
        text_at(b, p, json_bool(v)),
    ensures
        read_bool(b, p) == Ok::<(bool, int), ErrView>((v, p + json_bool(v).len())),
{
    reveal_strlit("true");
    reveal_strlit("false");
    let t = json_bool(v);
    assert(b[p] == t[0]);
    lemma_ws_stop(b, p);
    if v {
        assert(b.subrange(p, p + 4) =~= seq!['t', 'r', 'u', 'e']) by {
            assert(b[p + 1] == t[1]);
            assert(b[p + 2] == t[2]);
            assert(b[p + 3] == t[3]);
        }
    } else {
        assert(b.subrange(p, p + 5) =~= seq!['f', 'a', 'l', 's', 'e']) by {
            assert(b[p + 1] == t[1]);
            assert(b[p + 2] == t[2]);
            assert(b[p + 3] == t[3]);
            assert(b[p + 4] == t[4]);
        }
        assert(b.subrange(p, p + 4)[0] == b[p]);
    }
}

// ---- objects ------------------------------------------------------

/// What reading member `f` does to a git view.
pub open spec fn apply_git(g: GitView, f: GitField) -> GitView {
    match f {
        GitField::Branch(s) => GitView { branch: Some(s), ..g },
        GitField::Dirty(d) => GitView { dirty: Some(d), ..g },
        GitField::Ahead(a) => GitView { ahead: Some(a), ..g },
        GitField::Behind(x) => GitView { behind: Some(x), ..g },
    }
}

pub open spec fn apply_git_all(g: GitView, fs: Seq<GitField>) -> GitView
    decreases fs.len(),
{
    if fs.len() == 0 {
        g
    } else {
        apply_git_all(apply_git(g, fs[0]), fs.drop_first())
    }
}

/// What reading member `f` does to metadata.
pub open spec fn apply_meta(m: MetaView, f: MetaField) -> MetaView {
    match f {
        MetaField::Cwd(s) => MetaView { cwd: Some(s), ..m },
        MetaField::Git(g) => MetaView { git: Some(g), ..m },
        MetaField::User(s) => MetaView { user: Some(s), ..m },
        MetaField::Host(s) => MetaView { host: Some(s), ..m },
        MetaField::Shell(s) => MetaView { shell: Some(s), ..m },
        MetaField::Exit(e) => MetaView { exit: Some(e), ..m },
        MetaField::RuntimeMs(r) => MetaView { runtime_ms: Some(r), ..m },
    }
}

pub open spec fn apply_meta_all(m: MetaView, fs: Seq<MetaField>) -> MetaView
    decreases fs.len(),
{
    if fs.len() == 0 {
        m
    } else {
        apply_meta_all(apply_meta(m, fs[0]), fs.drop_first())
    }
}

pub open spec fn git_key(f: GitField) -> Seq<char> {
    match f {
        GitField::Branch(_) => "branch"@,
        GitField::Dirty(_) => "dirty"@,
        GitField::Ahead(_) => "ahead"@,
        GitField::Behind(_) => "behind"@,
    }
}

pub open spec fn git_value(f: GitField) -> Seq<char> {
    match f {
        GitField::Branch(s) => json_string(s),
        GitField::Dirty(d) => json_bool(d),
        GitField::Ahead(a) => decimal_chars(a as nat),
        GitField::Behind(x) => decimal_chars(x as nat),
    }
}

pub open spec fn meta_key(f: MetaField) -> Seq<char> {
    match f {
        MetaField::Cwd(_) => "cwd"@,
        MetaField::Git(_) => "git"@,
        MetaField::User(_) => "user"@,
        MetaField::Host(_) => "host"@,
        MetaField::Shell(_) => "shell"@,
        MetaField::Exit(_) => "exit"@,
        MetaField::RuntimeMs(_) => "runtime_ms"@,
    }
}

pub open spec fn meta_value(f: MetaField) -> Seq<char> {
    match f {
        MetaField::Cwd(s) => json_string(s),
        MetaField::Git(g) => json_object(git_parts(g)),
        MetaField::User(s) => json_string(s),
        MetaField::Host(s) => json_string(s),
        MetaField::Shell(s) => json_string(s),
        MetaField::Exit(e) => signed_decimal_chars(e as int),
        MetaField::RuntimeMs(r) => decimal_chars(r as nat),
    }
}

/// Ends a member: `,` or `}`.
pub open spec fn ends_member(b: Seq<char>, e: int) -> bool {
    0 <= e < b.len() && (b[e] == ',' || b[e] == '}')
}

proof fn lemma_keys()
    ensures
        "branch"@ =~= seq!['b', 'r', 'a', 'n', 'c', 'h'],
        "dirty"@ =~= seq!['d', 'i', 'r', 't', 'y'],
        "ahead"@ =~= seq!['a', 'h', 'e', 'a', 'd'],
        "behind"@ =~= seq!['b', 'e', 'h', 'i', 'n', 'd'],
        "cwd"@ =~= seq!['c', 'w', 'd'],
        "git"@ =~= seq!['g', 'i', 't'],
        "user"@ =~= seq!['u', 's', 'e', 'r'],
        "host"@ =~= seq!['h', 'o', 's', 't'],
        "shell"@ =~= seq!['s', 'h', 'e', 'l', 'l'],
        "exit"@ =~= seq!['e', 'x', 'i', 't'],
        "runtime_ms"@ =~= seq!['r', 'u', 'n', 't', 'i', 'm', 'e', '_', 'm', 's'],
{
    reveal_strlit("branch");
    reveal_strlit("dirty");
    reveal_strlit("ahead");
    reveal_strlit("behind");
    reveal_strlit("cwd");
    reveal_strlit("git");
    reveal_strlit("user");
    reveal_strlit("host");
    reveal_strlit("shell");
    reveal_strlit("exit");
    reveal_strlit("runtime_ms");
}

/// Reading a member's key and colon at `i`.
proof fn lemma_member_key(b: Seq<char>, i: int, key: Seq<char>, value: Seq<char>)
    requires
        text_at(b, i, member(key, value)),
    ensures
        read_string(b, i) == Ok::<(Seq<char>, int), ErrView>((key, i + json_string(key).len())),
        expect(b, i + json_string(key).len(), ':') == Ok::<int, ErrView>(i + json_string(key).len() + 1),
        text_at(b, i + json_string(key).len() + 1, value),
        b[i] == '"',
        member(key, value).len() == json_string(key).len() + 1 + value.len(),
{
    let js = json_string(key);
    lemma_text_at_split(b, i, js + seq![':'], value);
    lemma_text_at_split(b, i, js, seq![':']);
    lemma_read_string(b, i, key);
    assert(b[i] == js[0]);
    let k = i + js.len();
    assert(b[k] == seq![':'][0]);
    lemma_ws_stop(b, k);
}

proof fn lemma_git_member(b: Seq<char>, i: int, f: GitField, g: GitView)
    requires
        text_at(b, i, git_member(f)),
        ends_member(b, i + git_member(f).len()),
    ensures
        read_string(b, i) == Ok::<(Seq<char>, int), ErrView>((git_key(f), i + json_string(git_key(f)).len())),
        expect(b, i + json_string(git_key(f)).len(), ':') == Ok::<int, ErrView>(
            i + json_string(git_key(f)).len() + 1,
        ),
        read_git_field(b, i + json_string(git_key(f)).len() + 1, git_key(f), g) == Ok::<(GitView, int), ErrView>(
            (apply_git(g, f), i + git_member(f).len()),
        ),
        b[i] == '"',
{
    lemma_keys();
    let key = git_key(f);
    let value = git_value(f);
    assert(git_member(f) == member(key, value));
    lemma_member_key(b, i, key, value);
    let p = i + json_string(key).len() + 1;
    let e = i + git_member(f).len();
    assert(!is_number_char(b[e]));
    match f {
        GitField::Branch(s) => {
            lemma_read_string(b, p, s);
        },
        GitField::Dirty(d) => {
            lemma_read_bool(b, p, d);
        },
        GitField::Ahead(a) => {
            lemma_read_unsigned(b, p, a as nat, u32::MAX as nat);
        },
        GitField::Behind(x) => {
            lemma_read_unsigned(b, p, x as nat, u32::MAX as nat);
        },
    }
}

proof fn lemma_joined_first(ps: Seq<Seq<char>>)
    requires
        ps.len() >= 2,
    ensures
        joined_parts(ps) == ps[0] + seq![','] + joined_parts(ps.drop_first()),
    decreases ps.len(),
{
    let dl = ps.drop_last();
    if ps.len() == 2 {
        assert(dl.len() == 1);
        assert(joined_parts(dl) == dl[0]);
        assert(ps.drop_first().len() == 1);
        assert(joined_parts(ps.drop_first()) == ps.drop_first()[0]);
    } else {
        lemma_joined_first(dl);
        let df = ps.drop_first();
        assert(df.drop_last() =~= dl.drop_first());
        assert(df.last() == ps.last());
        assert(dl[0] == ps[0]);
        assert(joined_parts(df) == joined_parts(df.drop_last()) + seq![','] + df.last());
        assert(joined_parts(ps) =~= ps[0] + seq![','] + joined_parts(df));
    }
}

/// The members of `fs`, joined, then `}`, read from `i` into `g`.
proof fn lemma_git_fields_run(b: Seq<char>, i: int, g: GitView, fs: Seq<GitField>)
    requires
        text_at(b, i, joined_parts(fs.map_values(|f: GitField| git_member(f))) + seq!['}']),
    ensures
        git_fields(b, i, g) == Ok::<(GitView, int), ErrView>(
            (apply_git_all(g, fs), i + joined_parts(fs.map_values(|f: GitField| git_member(f))).len() + 1),
        ),
    decreases fs.len(),
{
    let ms = fs.map_values(|f: GitField| git_member(f));
    let t = joined_parts(ms);
    if fs.len() == 0 {
        assert(t =~= Seq::<char>::empty());
        assert(b[i + 0] == (t + seq!['}'])[0]);
        lemma_ws_stop(b, i);
    } else {
        let f = fs[0];
        let m0 = git_member(f);
        let rest = fs.drop_first();
        let mr = rest.map_values(|f: GitField| git_member(f));
        assert(ms.drop_first() =~= mr);
        assert(ms[0] == m0);
        let e = i + m0.len();
        let g2 = apply_git(g, f);
        if fs.len() == 1 {
            assert(t == m0);
            lemma_text_at_split(b, i, m0, seq!['}']);
            assert(b[e + 0] == seq!['}'][0]);
            lemma_git_member(b, i, f, g);
            lemma_ws_stop(b, i);
            lemma_ws_stop(b, e);
            assert(git_fields(b, e, g2) == Ok::<(GitView, int), ErrView>((g2, e + 1)));
            assert(rest =~= Seq::<GitField>::empty());
            assert(apply_git_all(g, fs) == apply_git_all(g2, rest));
        } else {
            lemma_joined_first(ms);
            assert(t + seq!['}'] =~= m0 + (seq![','] + (joined_parts(mr) + seq!['}'])));
            lemma_text_at_split(b, i, m0, seq![','] + (joined_parts(mr) + seq!['}']));
            lemma_text_at_split(b, e, seq![','], joined_parts(mr) + seq!['}']);
            assert(b[e + 0] == seq![','][0]);
            lemma_git_member(b, i, f, g);
            lemma_ws_stop(b, i);
            lemma_ws_stop(b, e);
            lemma_git_fields_run(b, e + 1, g2, rest);
        }
    }
}

proof fn lemma_apply_git_concat(g: GitView, a: Seq<GitField>, c: Seq<GitField>)
    ensures
        apply_git_all(g, a + c) == apply_git_all(apply_git_all(g, a), c),
    decreases a.len(),
{
    if a.len() == 0 {
        assert(a + c =~= c);
    } else {
        assert((a + c).drop_first() =~= a.drop_first() + c);
        assert((a + c)[0] == a[0]);
        lemma_apply_git_concat(apply_git(g, a[0]), a.drop_first(), c);
    }
}

proof fn lemma_apply_git_one(g: GitView, f: GitField)
    ensures
        apply_git_all(g, seq![f]) == apply_git(g, f),
        apply_git_all(g, Seq::empty()) == g,
{
    assert(seq![f].drop_first() =~= Seq::<GitField>::empty());
    assert(apply_git_all(apply_git(g, f), Seq::<GitField>::empty()) == apply_git(g, f));
}

/// Reading the members written for `g` into an empty view gives `g`.
proof fn lemma_git_entries(g: GitView)
    ensures
        apply_git_all(empty_git(), git_entries(g)) == g,
{
    let o1: Seq<GitField> = match g.branch { Some(s) => seq![GitField::Branch(s)], None => Seq::empty() };
    let o2: Seq<GitField> = match g.dirty { Some(d) => seq![GitField::Dirty(d)], None => Seq::empty() };
    let o3: Seq<GitField> = match g.ahead { Some(a) => seq![GitField::Ahead(a)], None => Seq::empty() };
    let o4: Seq<GitField> = match g.behind { Some(x) => seq![GitField::Behind(x)], None => Seq::empty() };
    assert(git_entries(g) == o1 + o2 + o3 + o4);
    lemma_apply_git_concat(empty_git(), o1 + o2 + o3, o4);
    lemma_apply_git_concat(empty_git(), o1 + o2, o3);
    lemma_apply_git_concat(empty_git(), o1, o2);
    let g0 = empty_git();
    match g.branch { Some(s) => lemma_apply_git_one(g0, GitField::Branch(s)), None => lemma_apply_git_one(g0, GitField::Dirty(true)) }
    let g1 = apply_git_all(g0, o1);
    match g.dirty { Some(d) => lemma_apply_git_one(g1, GitField::Dirty(d)), None => lemma_apply_git_one(g1, GitField::Dirty(true)) }
    let g2 = apply_git_all(g1, o2);
    match g.ahead { Some(a) => lemma_apply_git_one(g2, GitField::Ahead(a)), None => lemma_apply_git_one(g2, GitField::Dirty(true)) }
    let g3 = apply_git_all(g2, o3);
    match g.behind { Some(x) => lemma_apply_git_one(g3, GitField::Behind(x)), None => lemma_apply_git_one(g3, GitField::Dirty(true)) }
}

proof fn lemma_read_git(b: Seq<char>, p: int, g: GitView)
    requires
        text_at(b, p, json_object(git_parts(g))),
    ensures
        read_git(b, p) == Ok::<(GitView, int), ErrView>((g, p + json_object(git_parts(g)).len())),
{
    let t = joined_parts(git_parts(g));
    assert(json_object(git_parts(g)) =~= seq!['{'] + (t + seq!['}']));
    lemma_text_at_split(b, p, seq!['{'], t + seq!['}']);
    assert(b[p + 0] == seq!['{'][0]);
    lemma_ws_stop(b, p);
    lemma_git_entries(g);
    lemma_git_fields_run(b, p + 1, empty_git(), git_entries(g));
}

proof fn lemma_meta_member(b: Seq<char>, i: int, f: MetaField, m: MetaView)
    requires
        text_at(b, i, meta_member(f)),
        ends_member(b, i + meta_member(f).len()),
    ensures
        read_string(b, i) == Ok::<(Seq<char>, int), ErrView>((meta_key(f), i + json_string(meta_key(f)).len())),
        expect(b, i + json_string(meta_key(f)).len(), ':') == Ok::<int, ErrView>(
            i + json_string(meta_key(f)).len() + 1,
        ),
        read_meta_field(b, i + json_string(meta_key(f)).len() + 1, meta_key(f), m) == Ok::<(MetaView, int), ErrView>(
            (apply_meta(m, f), i + meta_member(f).len()),
        ),
        b[i] == '"',
{
    lemma_keys();
    let key = meta_key(f);
    let value = meta_value(f);
    assert(meta_member(f) == member(key, value));
    lemma_member_key(b, i, key, value);
    let p = i + json_string(key).len() + 1;
    let e = i + meta_member(f).len();
    assert(!is_number_char(b[e]));
    match f {
        MetaField::Cwd(s) => {
            lemma_read_string(b, p, s);
        },
        MetaField::Git(g) => {
            lemma_read_git(b, p, g);
        },
        MetaField::User(s) => {
            lemma_read_string(b, p, s);
        },
        MetaField::Host(s) => {
            lemma_read_string(b, p, s);
        },
        MetaField::Shell(s) => {
            lemma_read_string(b, p, s);
        },
        MetaField::Exit(x) => {
            lemma_read_i32(b, p, x);
        },
        MetaField::RuntimeMs(r) => {
            lemma_read_unsigned(b, p, r as nat, u64::MAX as nat);
        },
    }
}

/// The members of `fs`, joined, then `}`, read from `i` into `m`.
proof fn lemma_meta_fields_run(b: Seq<char>, i: int, m: MetaView, fs: Seq<MetaField>)
    requires
        text_at(b, i, joined_parts(fs.map_values(|f: MetaField| meta_member(f))) + seq!['}']),
    ensures
        meta_fields(b, i, m) == Ok::<MetaView, ErrView>(apply_meta_all(m, fs)),
    decreases fs.len(),
{
    let ms = fs.map_values(|f: MetaField| meta_member(f));
    let t = joined_parts(ms);
    if fs.len() == 0 {
        assert(t =~= Seq::<char>::empty());
        assert(b[i + 0] == (t + seq!['}'])[0]);
        lemma_ws_stop(b, i);
    } else {
        let f = fs[0];
        let m0 = meta_member(f);
        let rest = fs.drop_first();
        let mr = rest.map_values(|f: MetaField| meta_member(f));
        assert(ms.drop_first() =~= mr);
        assert(ms[0] == m0);
        let e = i + m0.len();
        let m2 = apply_meta(m, f);
        if fs.len() == 1 {
            assert(t == m0);
            lemma_text_at_split(b, i, m0, seq!['}']);
            assert(b[e + 0] == seq!['}'][0]);
            lemma_meta_member(b, i, f, m);
            lemma_ws_stop(b, i);
            lemma_ws_stop(b, e);
            assert(meta_fields(b, e, m2) == Ok::<MetaView, ErrView>(m2));
            assert(rest =~= Seq::<MetaField>::empty());
            assert(apply_meta_all(m, fs) == apply_meta_all(m2, rest));
        } else {
            lemma_joined_first(ms);
            assert(t + seq!['}'] =~= m0 + (seq![','] + (joined_parts(mr) + seq!['}'])));
            lemma_text_at_split(b, i, m0, seq![','] + (joined_parts(mr) + seq!['}']));
            lemma_text_at_split(b, e, seq![','], joined_parts(mr) + seq!['}']);
            assert(b[e + 0] == seq![','][0]);
            lemma_meta_member(b, i, f, m);
            lemma_ws_stop(b, i);
            lemma_ws_stop(b, e);
            lemma_meta_fields_run(b, e + 1, m2, rest);
        }
    }
}

proof fn lemma_apply_meta_concat(m: MetaView, a: Seq<MetaField>, c: Seq<MetaField>)
    ensures
        apply_meta_all(m, a + c) == apply_meta_all(apply_meta_all(m, a), c),
    decreases a.len(),
{
    if a.len() == 0 {
        assert(a + c =~= c);
    } else {
        assert((a + c).drop_first() =~= a.drop_first() + c);
        assert((a + c)[0] == a[0]);
        lemma_apply_meta_concat(apply_meta(m, a[0]), a.drop_first(), c);
    }
}

proof fn lemma_apply_meta_opt(m: MetaView, o: Seq<MetaField>)
    requires
        o.len() <= 1,
    ensures
        apply_meta_all(m, o) == if o.len() == 0 { m } else { apply_meta(m, o[0]) },
{
    if o.len() == 1 {
        assert(o.drop_first() =~= Seq::<MetaField>::empty());
        assert(apply_meta_all(apply_meta(m, o[0]), Seq::<MetaField>::empty()) == apply_meta(m, o[0]));
    }
}

/// Reading the members written for `m` into empty metadata gives `m`.
proof fn lemma_meta_entries(m: MetaView)
    ensures
        apply_meta_all(empty_meta(), meta_entries(m)) == m,
{
    let e1 = cwd_entry(m);
    let e2 = e1 + git_entry(m);
    let e3 = e2 + user_entry(m);
    let e4 = e3 + host_entry(m);
    let e5 = e4 + shell_entry(m);
    let e6 = e5 + exit_entry(m);
    let m0 = empty_meta();
    lemma_apply_meta_concat(m0, e6, runtime_entry(m));
    lemma_apply_meta_concat(m0, e5, exit_entry(m));
    lemma_apply_meta_concat(m0, e4, shell_entry(m));
    lemma_apply_meta_concat(m0, e3, host_entry(m));
    lemma_apply_meta_concat(m0, e2, user_entry(m));
    lemma_apply_meta_concat(m0, e1, git_entry(m));
    lemma_apply_meta_opt(m0, e1);
    lemma_apply_meta_opt(apply_meta_all(m0, e1), git_entry(m));
    lemma_apply_meta_opt(apply_meta_all(m0, e2), user_entry(m));
    lemma_apply_meta_opt(apply_meta_all(m0, e3), host_entry(m));
    lemma_apply_meta_opt(apply_meta_all(m0, e4), shell_entry(m));
    lemma_apply_meta_opt(apply_meta_all(m0, e5), exit_entry(m));
    lemma_apply_meta_opt(apply_meta_all(m0, e6), runtime_entry(m));
}

/// The JSON text written for metadata reads back as that metadata.
pub proof fn lemma_parse_json_text(m: MetaView)
    ensures
        spec_parse_json(json_text(m)) == Ok::<MetaView, ErrView>(m),
{
    let t = json_text(m);
    let j = joined_parts(meta_parts(m));
    assert(t =~= seq!['{'] + (j + seq!['}']));
    assert(text_at(t, 0, t));
    lemma_text_at_split(t, 0, seq!['{'], j + seq!['}']);
    assert(t[0int] == seq!['{'][0]);
    lemma_ws_stop(t, 0);
    lemma_meta_entries(m);
    lemma_meta_fields_run(t, 1, empty_meta(), meta_entries(m));
}

// ---- hex ----------------------------------------------------------

proof fn lemma_hex_text(bs: Seq<u8>)
    ensures
        hex_text(bs).len() == 2 * bs.len(),
        forall|k: int|
            #![trigger bs[k]]
            0 <= k < bs.len() ==> hex_text(bs)[2 * k] == hex_char((bs[k] / 16) as nat) && hex_text(bs)[2 * k + 1]
                == hex_char((bs[k] % 16) as nat),
    decreases bs.len(),
{
    if bs.len() > 0 {
        let d = bs.drop_last();
        lemma_hex_text(d);
        assert forall|k: int|
            #![trigger bs[k]]
            0 <= k < bs.len() implies hex_text(bs)[2 * k] == hex_char((bs[k] / 16) as nat) && hex_text(bs)[2 * k
                + 1] == hex_char((bs[k] % 16) as nat) by {
            if k < d.len() {
                assert(d[k] == bs[k]);
            }
        }
    }
}

proof fn lemma_hex_char(v: nat)
    requires
        v < 16,
    ensures
        hex_char(v) as int <= 127,
        hex_digit_value(hex_char(v) as u8) == Some(v),
        hex_char(v) as u8 != 0x2b,
{
}

proof fn lemma_hex_pair(x: u8)
    ensures
        hex_pair(hex_char((x / 16) as nat) as u8, hex_char((x % 16) as nat) as u8) == Ok::<u8, ErrView>(x),
{
    lemma_hex_char((x / 16) as nat);
    lemma_hex_char((x % 16) as nat);
    assert((x / 16) * 16 + x % 16 == x);
}

proof fn lemma_hex_pairs(h: Seq<u8>, bs: Seq<u8>, n: int)
    requires
        0 <= n <= bs.len(),
        h.len() == 2 * bs.len(),
        forall|k: int|
            #![trigger bs[k]]
            0 <= k < bs.len() ==> h[2 * k] == hex_char((bs[k] / 16) as nat) as u8 && h[2 * k + 1] == hex_char(
                (bs[k] % 16) as nat,
            ) as u8,
    ensures
        hex_pairs(h, n) == Ok::<Seq<u8>, ErrView>(bs.take(n)),
    decreases n,
{
    if n > 0 {
        lemma_hex_pairs(h, bs, n - 1);
        let x = bs[n - 1];
        assert(h[2 * (n - 1)] == hex_char((x / 16) as nat) as u8);
        assert(h[2 * n - 2] == hex_char((x / 16) as nat) as u8);
        assert(h[2 * n - 1] == hex_char((x % 16) as nat) as u8);
        assert(hex_pairs(h, n) == match hex_pair(h[2 * n - 2], h[2 * n - 1]) {
            Ok(y) => Ok::<Seq<u8>, ErrView>(bs.take(n - 1).push(y)),
            Err(e) => Err(e),
        });
        lemma_hex_pair(x);
        assert(bs.take(n - 1).push(x) =~= bs.take(n));
    } else {
        assert(bs.take(0) =~= Seq::<u8>::empty());
    }
}

/// Decoding the hex written for `bs` gives `bs` back.
pub proof fn lemma_decode_hex_text(bs: Seq<u8>)
    ensures
        spec_decode_hex(encode_utf8(hex_text(bs))) == Ok::<Seq<u8>, ErrView>(bs),
{
    let t = hex_text(bs);
    lemma_hex_text(bs);
    assert forall|k: int| 0 <= k < t.len() implies 0 <= (#[trigger] t[k]) as int <= 127 by {
        let j = k / 2;
        assert(bs[j] == bs[j]);
        lemma_hex_char((bs[j] / 16) as nat);
        lemma_hex_char((bs[j] % 16) as nat);
        if k % 2 == 0 {
            assert(k == 2 * j);
        } else {
            assert(k == 2 * j + 1);
        }
    }
    assert(is_ascii_chars(t)) by {
        assert forall|k: int| 0 <= k < t.len() implies '\0' <= #[trigger] t[k] <= '\u{7f}' by {
            assert(t[k] as int <= 127);
            assert('\u{7f}' as int == 127);
        }
    }
    vstd::utf8::is_ascii_chars_encode_utf8(t);
    let h = encode_utf8(t);
    assert forall|k: int|
        #![trigger bs[k]]
        0 <= k < bs.len() implies h[2 * k] == hex_char((bs[k] / 16) as nat) as u8 && h[2 * k + 1] == hex_char(
            (bs[k] % 16) as nat,
        ) as u8 by {
        assert(h[2 * k] == t[2 * k] as u8);
        assert(h[2 * k + 1] == t[2 * k + 1] as u8);
    }
    lemma_hex_pairs(h, bs, bs.len() as int);
    assert(bs.take(bs.len() as int) =~= bs);
}

// ---- the trip -----------------------------------------------------

/// Encoding metadata and parsing the result gives the metadata back,
/// whatever its text fields hold.
pub proof fn lemma_parse_encode(md: BlockMetadata)
    ensures
        spec_parse(encode_utf8(spec_encode(meta_view(md)))) == Ok::<MetaView, ErrView>(meta_view(md)),
{
    let m = meta_view(md);
    let b = encode_utf8(json_text(m));
    lemma_decode_hex_text(b);
    vstd::utf8::encode_utf8_valid_utf8(json_text(m));
    encode_utf8_decode_utf8(json_text(m));
    lemma_parse_json_text(m);
}

} // verus!
