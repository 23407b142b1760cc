//! Character- and byte-level string helpers shared by every module.
//!
//! Strings are modelled by their `Seq<char>` view; byte offsets into
//! an input are modelled over the UTF-8 encoding of that view.

use vstd::prelude::*;
use vstd::string::StringExecFns;
use vstd::string::StringSliceAdditionalSpecFns;
use vstd::utf8::*;

verus! {

/// Rust's `char::is_whitespace`: the Unicode `White_Space` property.
pub open spec fn is_unicode_whitespace(c: char) -> bool {
    let u: u32 = c as u32;
    ||| (0x09 <= u && u <= 0x0D)
    ||| u == 0x20
    ||| u == 0x85
    ||| u == 0xA0
    ||| u == 0x1680
    ||| (0x2000 <= u && u <= 0x200A)
    ||| u == 0x2028
    ||| u == 0x2029
    ||| u == 0x202F
    ||| u == 0x205F
    ||| u == 0x3000
}

/// Rust's `u8::is_ascii_whitespace`: space, tab, LF, FF, CR.
pub open spec fn is_ascii_ws_byte(b: u8) -> bool {
    b == 0x20 || b == 0x09 || b == 0x0A || b == 0x0C || b == 0x0D
}

/// `char::is_whitespace`.
pub fn char_is_whitespace(c: char) -> (r: bool)
    ensures
        r == is_unicode_whitespace(c),
{
    let u: u32 = c as u32;
    (0x09 <= u && u <= 0x0D) || u == 0x20 || u == 0x85 || u == 0xA0 || u == 0x1680 || (0x2000
        <= u && u <= 0x200A) || u == 0x2028 || u == 0x2029 || u == 0x202F || u == 0x205F || u
        == 0x3000
}

/// `u8::is_ascii_whitespace`.
pub fn byte_is_ascii_whitespace(b: u8) -> (r: bool)
    ensures
        r == is_ascii_ws_byte(b),
{
    b == 0x20 || b == 0x09 || b == 0x0A || b == 0x0C || b == 0x0D
}

/// Appends one character to a `String` (std's `String::push`).
#[verifier::external_body]
pub fn push_char(s: &mut String, c: char)
    ensures
        final(s)@ == old(s)@.push(c),
{
    s.push(c);
}

/// Appends a string slice to a `String`.
pub fn push_str(s: &mut String, t: &str)
    ensures
        final(s)@ == old(s)@ + t@,
{
    s.append(t);
}

/// The characters of `s`, in order.
pub fn chars_of(s: &str) -> (r: Vec<char>)
    ensures
        r@ == s@,
{
    let mut out: Vec<char> = Vec::new();
    for c in it: s.chars()
        invariant
            out@ == it.seq().take(it.index() as int),
            it.seq() == s@,
    {
        out.push(c);
    }
    out
}

/// Builds a `String` from the characters `v[from..to]`.
pub fn string_from_chars(v: &Vec<char>, from: usize, to: usize) -> (r: String)
    requires
        from <= to <= v.len(),
    ensures
        r@ == v@.subrange(from as int, to as int),
{
    let mut out = String::new();
    let mut i: usize = from;
    while i < to
        invariant
            from <= i <= to <= v.len(),
            out@ == v@.subrange(from as int, i as int),
        decreases to - i,
    {
        push_char(&mut out, v[i]);
        i += 1;
    }
    out
}

/// Equality of two string slices by their characters.
pub fn str_eq(a: &str, b: &str) -> (r: bool)
    ensures
        r == (a@ == b@),
{
    let av = chars_of(a);
    let bv = chars_of(b);
    if av.len() != bv.len() {
        return false;
    }
    let mut i: usize = 0;
    while i < av.len()
        invariant
            av@ == a@,
            bv@ == b@,
            av.len() == bv.len(),
            i <= av.len(),
            forall|j: int| 0 <= j < i ==> av@[j] == bv@[j],
        decreases av.len() - i,
    {
        if av[i] != bv[i] {
            return false;
        }
        i += 1;
    }
    assert(av@ =~= bv@);
    true
}

/// The characters encoded by `b[a..e]`.
pub open spec fn text_of(b: Seq<u8>, a: int, e: int) -> Seq<char> {
    decode_utf8(b.subrange(a, e))
}

/// A byte below 0x80 sits on a character boundary.
pub proof fn lemma_ascii_boundary(b: Seq<u8>, q: int)
    requires
        valid_utf8(b),
        0 <= q < b.len(),
        b[q] <= 0x7f,
    ensures
        is_char_boundary(b, q),
{
    is_char_boundary_iff_not_is_continuation_byte(b, q);
}

/// The position right after an ASCII byte is a character boundary.
pub proof fn lemma_after_ascii_boundary(b: Seq<u8>, q: int)
    requires
        valid_utf8(b),
        0 <= q < b.len(),
        b[q] <= 0x7f,
    ensures
        is_char_boundary(b, q + 1),
{
    lemma_ascii_boundary(b, q);
    if q + 1 == b.len() {
        is_char_boundary_start_end_of_seq(b);
    } else {
        valid_utf8_split(b, q);
        let s = b.subrange(q, b.len() as int);
        assert(s[0] == b[q]);
        assert(valid_utf8(s));
        assert(length_of_first_scalar(s) == 1);
        let t = pop_first_scalar(s);
        assert(valid_utf8(t));
        assert(t[0] == b[q + 1]);
        is_char_boundary_iff_not_is_continuation_byte(t, 0);
        is_char_boundary_iff_not_is_continuation_byte(b, q + 1);
    }
}

/// The string made of the bytes `s[a..e]`, both ends on character
/// boundaries.
pub fn slice_string(s: &str, a: usize, e: usize) -> (r: String)
    requires
        a <= e <= s.spec_bytes().len(),
        is_char_boundary(s.spec_bytes(), a as int),
        is_char_boundary(s.spec_bytes(), e as int),
    ensures
        r@ == text_of(s.spec_bytes(), a as int, e as int),
{
    let ghost b = s.spec_bytes();
    proof {
        encode_utf8_valid_utf8(s@);
    }
    let (left, _right) = s.split_at(e);
    let ghost lb = left.spec_bytes();
    proof {
        valid_utf8_split(b, e as int);
        assert(lb =~= b.subrange(0, e as int));
        if a < e {
            is_char_boundary_iff_not_is_continuation_byte(b, a as int);
            is_char_boundary_iff_not_is_continuation_byte(lb, a as int);
        } else {
            is_char_boundary_start_end_of_seq(lb);
        }
    }
    let (_l2, mid) = left.split_at(a);
    let r = mid.to_owned();
    proof {
        assert(mid.spec_bytes() =~= b.subrange(a as int, e as int));
        encode_utf8_decode_utf8(mid@);
    }
    r
}

/// `n` occurs in `h` as a contiguous run.
pub open spec fn seq_contains(h: Seq<char>, n: Seq<char>) -> bool {
    exists|i: int| 0 <= i && i + n.len() <= h.len() && #[trigger] h.subrange(i, i + n.len()) == n
}

/// `h` begins with `n`.
pub open spec fn seq_starts_with(h: Seq<char>, n: Seq<char>) -> bool {
    n.len() <= h.len() && h.subrange(0, n.len() as int) == n
}

/// `h` ends with `n`.
pub open spec fn seq_ends_with(h: Seq<char>, n: Seq<char>) -> bool {
    n.len() <= h.len() && h.subrange(h.len() - n.len(), h.len() as int) == n
}

/// Whether `n` matches `h` at position `i`.
fn matches_at(h: &Vec<char>, n: &Vec<char>, i: usize) -> (r: bool)
    requires
        i + n@.len() <= h@.len(),
    ensures
        r == (h@.subrange(i as int, i + n@.len()) == n@),
{
    let mut j: usize = 0;
    let hl = h.len();
    while j < n.len()
        invariant
            hl == h@.len(),
            i + n@.len() <= h@.len(),
            j <= n@.len(),
            forall|k: int| 0 <= k < j ==> h@[i + k] == n@[k],
        decreases n.len() - j,
    {
        assert(i + j < h@.len());
        if h[i + j] != n[j] {
            assert(h@.subrange(i as int, i + n@.len())[j as int] != n@[j as int]);
            return false;
        }
        j += 1;
    }
    assert(h@.subrange(i as int, i + n@.len()) =~= n@);
    true
}

/// Whether `n` occurs in `h`.
pub fn chars_contains(h: &Vec<char>, n: &Vec<char>) -> (r: bool)
    ensures
        r == seq_contains(h@, n@),
{
    if n.len() > h.len() {
        return false;
    }
    let mut i: usize = 0;
    let last = h.len() - n.len();
    while i <= last
        invariant
            n@.len() <= h@.len(),
            last == h@.len() - n@.len(),
            i <= last,
            forall|k: int| 0 <= k < i ==> #[trigger] h@.subrange(k, k + n@.len()) != n@,
        ensures
            forall|k: int| 0 <= k <= last ==> #[trigger] h@.subrange(k, k + n@.len()) != n@,
        decreases last - i,
    {
        if matches_at(h, n, i) {
            return true;
        }
        if i == last {
            break;
        }
        i += 1;
    }
    proof {
        assert forall|k: int| 0 <= k && k + n@.len() <= h@.len() implies #[trigger] h@.subrange(k, k + n@.len()) != n@ by {
            assert(k <= last);
        }
    }
    false
}

/// Whether `h` begins with `n`.
pub fn chars_starts_with(h: &Vec<char>, n: &Vec<char>) -> (r: bool)
    ensures
        r == seq_starts_with(h@, n@),
{
    if n.len() > h.len() {
        return false;
    }
    matches_at(h, n, 0)
}

/// Whether `h` ends with `n`.
pub fn chars_ends_with(h: &Vec<char>, n: &Vec<char>) -> (r: bool)
    ensures
        r == seq_ends_with(h@, n@),
{
    if n.len() > h.len() {
        return false;
    }
    matches_at(h, n, h.len() - n.len())
}

/// ASCII lower-casing of one character (`char::to_ascii_lowercase`).
pub open spec fn ascii_lower(c: char) -> char {
    if 'A' <= c && c <= 'Z' {
        ((c as u32) + 32) as char
    } else {
        c
    }
}

/// `str::to_ascii_lowercase` on the character view.
pub open spec fn seq_ascii_lower(s: Seq<char>) -> Seq<char> {
    s.map_values(|c: char| ascii_lower(c))
}

pub fn lower_char(c: char) -> (r: char)
    ensures
        r == ascii_lower(c),
{
    if 'A' <= c && c <= 'Z' {
        let u: u8 = (c as u8) + 32;
        u as char
    } else {
        c
    }
}

/// ASCII lower-case copy of `v`.
pub fn chars_ascii_lower(v: &Vec<char>) -> (r: Vec<char>)
    ensures
        r@ == seq_ascii_lower(v@),
{
    let mut out: Vec<char> = Vec::new();
    let mut i: usize = 0;
    while i < v.len()
        invariant
            i <= v@.len(),
            out@ == seq_ascii_lower(v@.take(i as int)),
        decreases v.len() - i,
    {
        out.push(lower_char(v[i]));
        i += 1;
        assert(seq_ascii_lower(v@.take(i as int)) =~= seq_ascii_lower(v@.take(i - 1)).push(
            ascii_lower(v@[i - 1]),
        ));
    }
    assert(v@.take(v@.len() as int) =~= v@);
    out
}

/// Length of `s` once trailing Unicode whitespace is removed.
pub open spec fn trimmed_end_len(s: Seq<char>) -> int
    decreases s.len(),
{
    if s.len() > 0 && is_unicode_whitespace(s.last()) {
        trimmed_end_len(s.drop_last())
    } else {
        s.len() as int
    }
}

/// Number of leading Unicode-whitespace characters of `s`.
pub open spec fn leading_ws_len(s: Seq<char>) -> int
    decreases s.len(),
{
    if s.len() > 0 && is_unicode_whitespace(s[0]) {
        1 + leading_ws_len(s.drop_first())
    } else {
        0
    }
}

/// `str::trim_end`.
pub open spec fn seq_trim_end(s: Seq<char>) -> Seq<char> {
    s.take(trimmed_end_len(s))
}

/// `str::trim_start`.
pub open spec fn seq_trim_start(s: Seq<char>) -> Seq<char> {
    s.skip(leading_ws_len(s))
}

/// `str::trim`.
pub open spec fn seq_trim(s: Seq<char>) -> Seq<char> {
    seq_trim_end(seq_trim_start(s))
}

pub proof fn lemma_trimmed_end_len(s: Seq<char>)
    ensures
        0 <= trimmed_end_len(s) <= s.len(),
        trimmed_end_len(s) > 0 ==> !is_unicode_whitespace(s[trimmed_end_len(s) - 1]),
        forall|j: int| trimmed_end_len(s) <= j < s.len() ==> is_unicode_whitespace(s[j]),
    decreases s.len(),
{
    if s.len() > 0 && is_unicode_whitespace(s.last()) {
        lemma_trimmed_end_len(s.drop_last());
        assert forall|j: int| trimmed_end_len(s) <= j < s.len() implies is_unicode_whitespace(s[j]) by {
            if j < s.len() - 1 {
                assert(s.drop_last()[j] == s[j]);
            }
        }
    }
}

pub proof fn lemma_leading_ws_len(s: Seq<char>)
    ensures
        0 <= leading_ws_len(s) <= s.len(),
        leading_ws_len(s) < s.len() ==> !is_unicode_whitespace(s[leading_ws_len(s)]),
        forall|j: int| 0 <= j < leading_ws_len(s) ==> is_unicode_whitespace(s[j]),
    decreases s.len(),
{
    if s.len() > 0 && is_unicode_whitespace(s[0]) {
        lemma_leading_ws_len(s.drop_first());
        assert forall|j: int| 0 <= j < leading_ws_len(s) implies is_unicode_whitespace(s[j]) by {
            if j > 0 {
                assert(s.drop_first()[j - 1] == s[j]);
            }
        }
        assert(leading_ws_len(s) < s.len() ==> s.drop_first()[leading_ws_len(s.drop_first())] == s[leading_ws_len(s)]);
    }
}

/// Index just past the last non-whitespace character of `v` (`trim_end`).
pub fn trim_end_len(v: &Vec<char>) -> (r: usize)
    ensures
        r == trimmed_end_len(v@),
{
    let mut n: usize = v.len();
    assert(v@.take(v@.len() as int) =~= v@);
    while n > 0 && char_is_whitespace(v[n - 1])
        invariant
            n <= v@.len(),
            trimmed_end_len(v@) == trimmed_end_len(v@.take(n as int)),
        decreases n,
    {
        assert(v@.take(n as int).drop_last() =~= v@.take(n - 1));
        n -= 1;
    }
    assert(v@.take(v@.len() as int) =~= v@);
    n
}

/// Number of leading whitespace characters of `v` (`trim_start`).
pub fn trim_start_len(v: &Vec<char>) -> (r: usize)
    ensures
        r == leading_ws_len(v@),
{
    let mut i: usize = 0;
    assert(v@.skip(0) =~= v@);
    while i < v.len() && char_is_whitespace(v[i])
        invariant
            i <= v@.len(),
            leading_ws_len(v@) == i + leading_ws_len(v@.skip(i as int)),
        decreases v.len() - i,
    {
        assert(v@.skip(i as int).drop_first() =~= v@.skip(i + 1));
        i += 1;
    }
    i
}

/// Copy of the characters `v[from..to]`.
pub fn sub_chars(v: &Vec<char>, from: usize, to: usize) -> (r: Vec<char>)
    requires
        from <= to <= v@.len(),
    ensures
        r@ == v@.subrange(from as int, to as int),
{
    let mut out: Vec<char> = Vec::new();
    let mut i: usize = from;
    while i < to
        invariant
            from <= i <= to <= v@.len(),
            out@ == v@.subrange(from as int, i as int),
        decreases to - i,
    {
        out.push(v[i]);
        i += 1;
    }
    out
}

/// A `String` holding exactly the characters of `v`.
pub fn string_of(v: &Vec<char>) -> (r: String)
    ensures
        r@ == v@,
{
    let r = string_from_chars(v, 0, v.len());
    assert(v@.subrange(0, v@.len() as int) =~= v@);
    r
}


/// Lexicographic order on character sequences, by code point: the
/// order `str`'s `Ord` gives (UTF-8 keeps code-point order byte-wise).
pub open spec fn seq_le(a: Seq<char>, b: Seq<char>) -> bool
    decreases a.len(),
{
    if a.len() == 0 {
        true
    } else if b.len() == 0 {
        false
    } else if (a[0] as int) < (b[0] as int) {
        true
    } else if (a[0] as int) > (b[0] as int) {
        false
    } else {
        seq_le(a.drop_first(), b.drop_first())
    }
}

pub proof fn lemma_seq_le_refl(a: Seq<char>)
    ensures
        seq_le(a, a),
    decreases a.len(),
{
    if a.len() > 0 {
        lemma_seq_le_refl(a.drop_first());
    }
}

pub proof fn lemma_seq_le_total(a: Seq<char>, b: Seq<char>)
    ensures
        seq_le(a, b) || seq_le(b, a),
    decreases a.len(),
{
    if a.len() > 0 && b.len() > 0 && a[0] == b[0] {
        lemma_seq_le_total(a.drop_first(), b.drop_first());
    }
}

pub proof fn lemma_seq_le_antisym(a: Seq<char>, b: Seq<char>)
    requires
        seq_le(a, b),
        seq_le(b, a),
    ensures
        a == b,
    decreases a.len(),
{
    if a.len() > 0 {
        lemma_seq_le_antisym(a.drop_first(), b.drop_first());
        assert(a =~= seq![a[0]] + a.drop_first());
        assert(b =~= seq![b[0]] + b.drop_first());
    } else {
        assert(b.len() == 0);
        assert(a =~= b);
    }
}

pub proof fn lemma_seq_le_trans(a: Seq<char>, b: Seq<char>, c: Seq<char>)
    requires
        seq_le(a, b),
        seq_le(b, c),
    ensures
        seq_le(a, c),
    decreases a.len(),
{
    if a.len() > 0 && b.len() > 0 && c.len() > 0 {
        if a[0] == b[0] && b[0] == c[0] {
            lemma_seq_le_trans(a.drop_first(), b.drop_first(), c.drop_first());
        }
    }
}

/// `a <= b` in the order of `seq_le`.
pub fn str_le(a: &str, b: &str) -> (r: bool)
    ensures
        r == seq_le(a@, b@),
{
    let av = chars_of(a);
    let bv = chars_of(b);
    let mut i: usize = 0;
    proof {
        assert(a@.skip(0) =~= a@);
        assert(b@.skip(0) =~= b@);
    }
    while i < av.len() && i < bv.len()
        invariant
            av@ == a@,
            bv@ == b@,
            i <= av.len(),
            i <= bv.len(),
            seq_le(a@, b@) == seq_le(a@.skip(i as int), b@.skip(i as int)),
        decreases av.len() - i,
    {
        let x = av[i];
        let y = bv[i];
        if x < y {
            return true;
        }
        if x > y {
            return false;
        }
        proof {
            assert(a@.skip(i as int).drop_first() =~= a@.skip(i + 1));
            assert(b@.skip(i as int).drop_first() =~= b@.skip(i + 1));
        }
        i += 1;
    }
    i == av.len()
}


/// Number of bytes in the UTF-8 encoding of `s` (what `str::len` returns).
pub open spec fn utf8_len(s: Seq<char>) -> nat {
    encode_utf8(s).len()
}


/// ASCII decimal digits of `n`, most significant first, no leading zeros.
pub open spec fn decimal_bytes(n: nat) -> Seq<u8>
    decreases n,
{
    if n < 10 {
        seq![(48 + n) as u8]
    } else {
        decimal_bytes(n / 10).push((48 + n % 10) as u8)
    }
}

/// ASCII decimal form of a signed integer, `-` before negative values.
pub open spec fn signed_decimal_bytes(i: int) -> Seq<u8> {
    if i < 0 {
        seq![45u8] + decimal_bytes((-i) as nat)
    } else {
        decimal_bytes(i as nat)
    }
}

/// Appends the decimal digits of `n` to `out`.
pub fn push_decimal_bytes(out: &mut Vec<u8>, n: u64)
    ensures
        final(out)@ == old(out)@ + decimal_bytes(n as nat),
    decreases n,
{
    if n >= 10 {
        push_decimal_bytes(out, n / 10);
    }
    let d: u8 = (n % 10) as u8;
    out.push(48u8 + d);
    proof {
        assert(old(out)@ + decimal_bytes(n as nat) =~= out@);
    }
}

/// Appends the decimal form of `i` (with `-` when negative) to `out`.
pub fn push_signed_decimal_bytes(out: &mut Vec<u8>, i: i64)
    ensures
        final(out)@ == old(out)@ + signed_decimal_bytes(i as int),
{
    if i < 0 {
        out.push(45u8);
        let m: u64 = if i == i64::MIN { 9223372036854775808u64 } else { (-i) as u64 };
        push_decimal_bytes(out, m);
        proof {
            assert(old(out)@ + signed_decimal_bytes(i as int) =~= out@);
        }
    } else {
        push_decimal_bytes(out, i as u64);
    }
}


/// Number of characters of `s.trim()`.
pub fn trimmed_char_count(s: &str) -> (r: usize)
    ensures
        r == seq_trim(s@).len(),
{
    let v = chars_of(s);
    let a = trim_start_len(&v);
    proof {
        lemma_leading_ws_len(v@);
    }
    let tail = sub_chars(&v, a, v.len());
    let e = trim_end_len(&tail);
    proof {
        assert(tail@ =~= seq_trim_start(s@));
        lemma_trimmed_end_len(tail@);
    }
    e
}


/// Byte length of `s` (`str::len`).
pub fn byte_len(s: &str) -> (r: usize)
    ensures
        r == utf8_len(s@),
{
    s.as_bytes().len()
}


/// UTF-8 encoding distributes over concatenation.
pub proof fn lemma_encode_utf8_concat(a: Seq<char>, b: Seq<char>)
    ensures
        encode_utf8(a + b) == encode_utf8(a) + encode_utf8(b),
    decreases a.len(),
{
    if a.len() == 0 {
        assert(a + b =~= b);
        assert(encode_utf8(a) + encode_utf8(b) =~= encode_utf8(b));
    } else {
        lemma_encode_utf8_concat(a.drop_first(), b);
        assert((a + b).drop_first() =~= a.drop_first() + b);
        assert((a + b)[0] == a[0]);
        assert(encode_utf8(a + b) =~= encode_scalar(a[0] as u32) + encode_utf8(a.drop_first() + b));
        assert(encode_utf8(a) + encode_utf8(b) =~= encode_scalar(a[0] as u32) + (encode_utf8(a.drop_first()) + encode_utf8(b)));
    }
}

/// Joining two valid encodings gives a valid encoding with a character
/// boundary where the second begins.
pub proof fn lemma_concat_boundary(x: Seq<u8>, y: Seq<u8>)
    requires
        valid_utf8(x),
        valid_utf8(y),
    ensures
        valid_utf8(x + y),
        is_char_boundary(x + y, x.len() as int),
{
    valid_utf8_concat(x, y);
    if y.len() == 0 {
        assert(x + y =~= x);
        is_char_boundary_start_end_of_seq(x);
    } else {
        is_char_boundary_start_end_of_seq(y);
        is_char_boundary_iff_not_is_continuation_byte(y, 0);
        is_char_boundary_iff_not_is_continuation_byte(x + y, x.len() as int);
        assert((x + y)[x.len() as int] == y[0]);
    }
}

/// Re-encoding the characters of a boundary-aligned slice of valid
/// UTF-8 gives back the slice's bytes.
pub proof fn lemma_text_of_bytes(b: Seq<u8>, a: int, e: int)
    requires
        valid_utf8(b),
        0 <= a <= e <= b.len(),
        is_char_boundary(b, a),
        is_char_boundary(b, e),
    ensures
        encode_utf8(text_of(b, a, e)) == b.subrange(a, e),
        valid_utf8(b.subrange(a, e)),
{
    valid_utf8_split(b, e);
    let left = b.subrange(0, e);
    assert(is_char_boundary(left, a)) by {
        if a < e {
            is_char_boundary_iff_not_is_continuation_byte(b, a);
            is_char_boundary_iff_not_is_continuation_byte(left, a);
        } else {
            is_char_boundary_start_end_of_seq(left);
        }
    }
    valid_utf8_split(left, a);
    assert(left.subrange(a, left.len() as int) =~= b.subrange(a, e));
    decode_utf8_encode_utf8(b.subrange(a, e));
}


/// `s.trim()` as an owned string.
pub fn trim_string(s: &str) -> (r: String)
    ensures
        r@ == seq_trim(s@),
{
    let v = chars_of(s);
    let a = trim_start_len(&v);
    proof {
        lemma_leading_ws_len(v@);
    }
    let tail = sub_chars(&v, a, v.len());
    let e = trim_end_len(&tail);
    proof {
        assert(tail@ =~= seq_trim_start(s@));
        lemma_trimmed_end_len(tail@);
    }
    string_from_chars(&tail, 0, e)
}

/// Decimal digits of `n` as characters, most significant first.
pub open spec fn decimal_chars(n: nat) -> Seq<char>
    decreases n,
{
    if n < 10 {
        seq![((48 + n) as u8) as char]
    } else {
        decimal_chars(n / 10).push(((48 + n % 10) as u8) as char)
    }
}

/// Decimal form of a signed integer, `-` before negative values.
pub open spec fn signed_decimal_chars(i: int) -> Seq<char> {
    if i < 0 {
        seq!['-'] + decimal_chars((-i) as nat)
    } else {
        decimal_chars(i as nat)
    }
}

/// Appends the decimal digits of `n` to `out`.
pub fn push_decimal(out: &mut String, n: u64)
    ensures
        final(out)@ == old(out)@ + decimal_chars(n as nat),
    decreases n,
{
    if n >= 10 {
        push_decimal(out, n / 10);
    }
    let d: u8 = (n % 10) as u8;
    push_char(out, (48u8 + d) as char);
    proof {
        assert(old(out)@ + decimal_chars(n as nat) =~= out@);
    }
}

/// Appends the decimal form of `i` (with `-` when negative) to `out`.
pub fn push_signed_decimal(out: &mut String, i: i64)
    ensures
        final(out)@ == old(out)@ + signed_decimal_chars(i as int),
{
    if i < 0 {
        push_char(out, '-');
        let m: u64 = if i == i64::MIN { 9223372036854775808u64 } else { (-i) as u64 };
        push_decimal(out, m);
        proof {
            assert(old(out)@ + signed_decimal_chars(i as int) =~= out@);
        }
    } else {
        push_decimal(out, i as u64);
    }
}


/// A string's encoding is empty exactly when the string is.
pub proof fn lemma_utf8_len_zero(s: Seq<char>)
    ensures
        (utf8_len(s) == 0) == (s.len() == 0),
{
    if s.len() == 0 {
        assert(encode_utf8(s) =~= Seq::<u8>::empty());
    }
}

/// `s.is_empty()`.
pub fn str_is_empty(s: &str) -> (r: bool)
    ensures
        r == (s@.len() == 0),
{
    proof {
        lemma_utf8_len_zero(s@);
    }
    byte_len(s) == 0
}


/// Index of the first `c` in `s`, if any.
pub open spec fn first_index_of(s: Seq<char>, c: char) -> Option<int>
    decreases s.len(),
{
    if s.len() == 0 {
        None
    } else if s[0] == c {
        Some(0)
    } else {
        match first_index_of(s.drop_first(), c) {
            Some(i) => Some(i + 1),
            None => None,
        }
    }
}

pub proof fn lemma_first_index_of(s: Seq<char>, c: char)
    ensures
        match first_index_of(s, c) {
            Some(i) => 0 <= i < s.len() && s[i] == c && forall|j: int| 0 <= j < i ==> s[j] != c,
            None => forall|j: int| 0 <= j < s.len() ==> s[j] != c,
        },
    decreases s.len(),
{
    if s.len() > 0 && s[0] != c {
        lemma_first_index_of(s.drop_first(), c);
        match first_index_of(s.drop_first(), c) {
            Some(i) => {
                assert forall|j: int| 0 <= j < i + 1 implies s[j] != c by {
                    if j > 0 {
                        assert(s.drop_first()[j - 1] == s[j]);
                    }
                }
            },
            None => {
                assert forall|j: int| 0 <= j < s.len() implies s[j] != c by {
                    if j > 0 {
                        assert(s.drop_first()[j - 1] == s[j]);
                    }
                }
            },
        }
    }
}

/// Position of the first `c` in `v`.
pub fn find_char(v: &Vec<char>, c: char) -> (r: Option<usize>)
    ensures
        r matches Some(i) ==> i < v@.len(),
        match first_index_of(v@, c) {
            Some(i) => r == Some(i as usize),
            None => r is None,
        },
{
    proof {
        lemma_first_index_of(v@, c);
    }
    let mut i: usize = 0;
    while i < v.len()
        invariant
            i <= v@.len(),
            forall|j: int| 0 <= j < i ==> v@[j] != c,
        decreases v@.len() - i,
    {
        proof {
            lemma_first_index_of(v@, c);
        }
        if v[i] == c {
            proof {
                lemma_first_index_of(v@, c);
            }
            return Some(i);
        }
        i += 1;
    }
    None
}

/// `str::split_once(c)`: the text before and after the first `c`.
pub open spec fn split_once(s: Seq<char>, c: char) -> Option<(Seq<char>, Seq<char>)> {
    match first_index_of(s, c) {
        Some(i) => Some((s.take(i), s.skip(i + 1))),
        None => None,
    }
}

/// `str::split(c)`: the pieces between occurrences of `c`.
pub open spec fn split_on(s: Seq<char>, c: char) -> Seq<Seq<char>>
    decreases s.len(),
{
    match first_index_of(s, c) {
        Some(i) => {
            if 0 <= i < s.len() {
                seq![s.take(i)] + split_on(s.skip(i + 1), c)
            } else {
                seq![s]
            }
        },
        None => seq![s],
    }
}

/// The pieces of `v` between occurrences of `c`.
pub fn split_chars(v: &Vec<char>, c: char) -> (r: Vec<Vec<char>>)
    ensures
        r@.map_values(|x: Vec<char>| x@) == split_on(v@, c),
    decreases v@.len(),
{
    proof {
        lemma_first_index_of(v@, c);
    }
    match find_char(v, c) {
        Some(i) => {
            let head = sub_chars(v, 0, i);
            assert(i < v.len());
            let tail = sub_chars(v, i + 1, v.len());
            let rest = split_chars(&tail, c);
            let mut out: Vec<Vec<char>> = Vec::new();
            out.push(head);
            let mut k: usize = 0;
            let mut rest = rest;
            let ghost rv = rest@.map_values(|x: Vec<char>| x@);
            let n = rest.len();
            while k < n
                invariant
                    n == rest@.len() + k,
                    out@.len() == k + 1,
                    out@[0]@ == v@.take(i as int),
                    forall|m: int| 1 <= m <= k ==> (#[trigger] out@[m])@ == rv[m - 1],
                    forall|m: int| 0 <= m < rest@.len() ==> (#[trigger] rest@[m])@ == rv[m + k],
                    rv.len() == n,
                decreases n - k,
            {
                let x = rest.remove(0);
                out.push(x);
                k += 1;
            }
            proof {
                assert(tail@ =~= v@.skip(i + 1));
                assert(head@ =~= v@.take(i as int));
                assert(out@.map_values(|x: Vec<char>| x@) =~= seq![v@.take(i as int)] + rv);
            }
            out
        },
        None => {
            let mut out: Vec<Vec<char>> = Vec::new();
            let all = sub_chars(v, 0, v.len());
            assert(all@ =~= v@);
            out.push(all);
            assert(out@.map_values(|x: Vec<char>| x@) =~= seq![v@]);
            out
        },
    }
}

/// Value of a run of ASCII digits.
pub open spec fn digits_value(s: Seq<char>) -> nat
    decreases s.len(),
{
    if s.len() == 0 {
        0
    } else {
        digits_value(s.drop_last()) * 10 + ((s.last() as int - 48) as nat)
    }
}

pub open spec fn is_ascii_digit(c: char) -> bool {
    '0' <= c && c <= '9'
}

/// `str::parse` for an unsigned integer type whose maximum is `max`:
/// an optional `+`, then one or more ASCII digits, within range.
pub open spec fn parse_unsigned(s: Seq<char>, max: nat) -> Option<nat> {
    let d = unsigned_digits(s);
    if d.len() > 0 && all_digits(d) && digits_value(d) <= max {
        Some(digits_value(d))
    } else {
        None
    }
}

/// The digits after an optional leading `+`.
pub open spec fn unsigned_digits(s: Seq<char>) -> Seq<char> {
    if s.len() > 0 && s[0] == '+' { s.drop_first() } else { s }
}

/// Every character is an ASCII digit.
pub open spec fn all_digits(d: Seq<char>) -> bool {
    forall|i: int| 0 <= i < d.len() ==> is_ascii_digit(#[trigger] d[i])
}

pub proof fn lemma_digits_value_monotone(s: Seq<char>, k: int)
    requires
        0 <= k <= s.len(),
        forall|i: int| 0 <= i < s.len() ==> is_ascii_digit(#[trigger] s[i]),
    ensures
        digits_value(s.take(k)) <= digits_value(s),
    decreases s.len() - k,
{
    if k < s.len() {
        lemma_digits_value_monotone(s, k + 1);
        assert(s.take(k + 1).drop_last() =~= s.take(k));
    } else {
        assert(s.take(k) =~= s);
    }
}

/// Parses `v` as a `u64` the way `str::parse::<u64>` does, reporting
/// only values up to `max`.
pub fn parse_unsigned_chars(v: &Vec<char>, max: u64) -> (r: Option<u64>)
    ensures
        match parse_unsigned(v@, max as nat) {
            Some(n) => r == Some(n as u64),
            None => r is None,
        },
{
    let start: usize = if v.len() > 0 && v[0] == '+' { 1 } else { 0 };
    let ghost d = unsigned_digits(v@);
    assert(d =~= v@.skip(start as int));
    if start >= v.len() {
        return None;
    }
    let mut acc: u64 = 0;
    let mut i: usize = start;
    while i < v.len()
        invariant
            start <= i <= v@.len(),
            start == (if v@.len() > 0 && v@[0] == '+' { 1int } else { 0int }),
            d == unsigned_digits(v@),
            d =~= v@.skip(start as int),
            forall|j: int| 0 <= j < i - start ==> is_ascii_digit(#[trigger] d[j]),
            acc as nat == digits_value(d.take(i - start)),
            acc <= max,
        decreases v@.len() - i,
    {
        let c = v[i];
        if !('0' <= c && c <= '9') {
            assert(!is_ascii_digit(d[i - start]));
            assert(!all_digits(d));
            return None;
        }
        let digit: u64 = ((c as u32) - 48) as u64;
        proof {
            assert(d.take(i - start + 1).drop_last() =~= d.take(i - start));
            assert(d.take(i - start + 1).last() == c);
        }
        let too_big = if digit > max { true } else { acc > (max - digit) / 10 };
        if too_big {
            proof {
                if digit <= max {
                    assert(acc * 10 + digit > max) by (nonlinear_arith)
                        requires acc > (max - digit) / 10, digit <= max;
                }
                let k = i - start + 1;
                assert(digits_value(d.take(k)) == digits_value(d.take(k - 1)) * 10 + ((c as int - 48) as nat));
                assert(digits_value(d.take(k)) > max);
                if all_digits(d) {
                    lemma_digits_value_monotone(d, k);
                }
            }
            return None;
        }
        assert(acc * 10 + digit <= max) by (nonlinear_arith)
            requires acc <= (max - digit) / 10, digit <= max;
        acc = acc * 10 + digit;
        i += 1;
    }
    assert(d.take(v@.len() - start) =~= d);
    Some(acc)
}

} // verus!
