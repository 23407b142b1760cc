//! Carrot-native OSC 7777 block metadata.
//!
//! OSC 133 says *when* a block starts and ends; OSC 7777 says *what*:
//! `ESC ] 7777 ; <hex-encoded JSON> BEL`, where the JSON object may
//! carry `cwd`, `git` (`branch`, `dirty`, `ahead`, `behind`), `user`,
//! `host`, `shell`, `exit` and `runtime_ms`. This module parses the
//! hex payload (a small hand-written JSON reader for exactly that
//! subset; unknown keys are skipped) and encodes metadata back.
//!
//! The reader works on the payload's characters. String literals take
//! the escapes `\"`, `\\`, `\/`, `\n`, `\r`, `\t` and `\uXXXX`, which
//! cover all that `encode` writes, so every metadata value survives
//! `encode` then `parse`.

use vstd::prelude::*;
use vstd::utf8::{valid_utf8, decode_utf8, encode_utf8, is_scalar};
use vstd::string::StringSliceAdditionalSpecFns;
use crate::text::{decimal_chars, signed_decimal_chars};

verus! {

/// Typed metadata the shell hook attaches to a block.
#[derive(Debug, Clone, Default, PartialEq, Eq)]
pub struct BlockMetadata {
    pub cwd: Option<String>,
    pub git: Option<GitInfo>,
    pub user: Option<String>,
    pub host: Option<String>,
    pub shell: Option<String>,
    /// Present on command end.
    pub exit: Option<i32>,
    /// Command runtime in milliseconds, on command end.
    pub runtime_ms: Option<u64>,
}

/// Git view when the hook fired.
#[derive(Debug, Clone, Default, PartialEq, Eq)]
pub struct GitInfo {
    pub branch: Option<String>,
    pub dirty: Option<bool>,
    pub ahead: Option<u32>,
    pub behind: Option<u32>,
}

/// Why a payload could not be read.
#[derive(Debug, PartialEq, Eq)]
pub enum Osc7777ParseError {
    /// Hex decoding (or a number's conversion) failed.
    Hex(String),
    /// The JSON structure is malformed.
    Json(&'static str),
}

impl Osc7777ParseError {
    /// The error as text: `hex decode failed: …` or `JSON parse error: …`.
    pub fn to_string(&self) -> (r: String)
        ensures
            r@ == match *self {
                Osc7777ParseError::Hex(m) => "hex decode failed: "@ + m@,
                Osc7777ParseError::Json(m) => "JSON parse error: "@ + m@,
            },
    {
        match self {
            Osc7777ParseError::Hex(m) => {
                let mut s = "hex decode failed: ".to_owned();
                crate::text::push_str(&mut s, m.as_str());
                s
            },
            Osc7777ParseError::Json(m) => {
                let mut s = "JSON parse error: ".to_owned();
                crate::text::push_str(&mut s, m);
                s
            },
        }
    }
}

/// An error as plain values: `(is_hex, message)`.
pub type ErrView = (bool, Seq<char>);

pub open spec fn err_view(e: Osc7777ParseError) -> ErrView {
    match e {
        Osc7777ParseError::Hex(m) => (true, m@),
        Osc7777ParseError::Json(m) => (false, m@),
    }
}

pub open spec fn json_err(m: Seq<char>) -> ErrView {
    (false, m)
}

pub open spec fn hex_err(m: Seq<char>) -> ErrView {
    (true, m)
}

fn json_error(m: &'static str) -> (e: Osc7777ParseError)
    ensures
        err_view(e) == json_err(m@),
{
    Osc7777ParseError::Json(m)
}

/// What a sub-reader yields: a value and the position after it.
pub type Read<T> = Result<(T, int), ErrView>;

// ---- characters ---------------------------------------------------

/// `ch.is_ascii_whitespace()`.
pub open spec fn is_json_ws(c: char) -> bool {
    c == ' ' || c == '\t' || c == '\n' || c == '\x0C' || c == '\r'
}

fn char_is_json_ws(c: char) -> (r: bool)
    ensures
        r == is_json_ws(c),
{
    c == ' ' || c == '\t' || c == '\n' || c == '\x0C' || c == '\r'
}

/// The first position at or after `i` that is not whitespace.
pub open spec fn json_ws_end(b: Seq<char>, i: int) -> int
    decreases b.len() - i,
{
    if 0 <= i < b.len() && is_json_ws(b[i]) {
        json_ws_end(b, i + 1)
    } else {
        i
    }
}

/// `ch.is_ascii_digit()`.
pub open spec fn is_json_digit(x: char) -> bool {
    '0' <= x && x <= '9'
}

/// A character of a number token: digit, `-` or `+`.
pub open spec fn is_number_char(x: char) -> bool {
    is_json_digit(x) || x == '-' || x == '+'
}

/// `skip_ws` then `advance` must give `c`.
pub open spec fn expect(b: Seq<char>, i: int, c: char) -> Result<int, ErrView> {
    let j = json_ws_end(b, i);
    if 0 <= j < b.len() && b[j] == c {
        Ok(j + 1)
    } else {
        Err(json_err("unexpected char"@))
    }
}

/// The character an escape letter stands for.
pub open spec fn unescape(x: char) -> Option<char> {
    if x == '"' {
        Some('"')
    } else if x == '\\' {
        Some('\\')
    } else if x == '/' {
        Some('/')
    } else if x == 'n' {
        Some('\n')
    } else if x == 'r' {
        Some('\r')
    } else if x == 't' {
        Some('\t')
    } else {
        None
    }
}

/// The value of a hexadecimal digit.
pub open spec fn hex_char_value(c: char) -> Option<nat> {
    if '0' <= c && c <= '9' {
        Some((c as int - 48) as nat)
    } else if 'a' <= c && c <= 'f' {
        Some((c as int - 87) as nat)
    } else if 'A' <= c && c <= 'F' {
        Some((c as int - 55) as nat)
    } else {
        None
    }
}

/// The character that the four hex digits at `j` name (the tail of a
/// `\uXXXX` escape), if they are hex digits and name a scalar value.
pub open spec fn code_escape(b: Seq<char>, j: int) -> Option<char> {
    if 0 <= j && j + 4 <= b.len() {
        match (hex_char_value(b[j]), hex_char_value(b[j + 1]), hex_char_value(b[j + 2]), hex_char_value(b[j + 3])) {
            (Some(d0), Some(d1), Some(d2), Some(d3)) => {
                let v = d0 * 4096 + d1 * 256 + d2 * 16 + d3;
                if is_scalar(v as u32) {
                    Some((v as u32) as char)
                } else {
                    None
                }
            },
            _ => None,
        }
    } else {
        None
    }
}

/// The rest of a string literal from `i` (after the opening quote),
/// with the characters read so far in `acc`.
pub open spec fn string_body(b: Seq<char>, i: int, acc: Seq<char>) -> Read<Seq<char>>
    decreases b.len() - i,
{
    if i < 0 || i >= b.len() {
        Err(json_err("unterminated string"@))
    } else if b[i] == '"' {
        Ok((acc, i + 1))
    } else if b[i] == '\\' {
        if i + 1 >= b.len() {
            Err(json_err("bad escape"@))
        } else if b[i + 1] == 'u' {
            match code_escape(b, i + 2) {
                Some(c) => string_body(b, i + 6, acc.push(c)),
                None => Err(json_err("unsupported escape"@)),
            }
        } else {
            match unescape(b[i + 1]) {
                Some(c) => string_body(b, i + 2, acc.push(c)),
                None => Err(json_err("unsupported escape"@)),
            }
        }
    } else {
        string_body(b, i + 1, acc.push(b[i]))
    }
}

/// A string literal at `i` (after whitespace).
pub open spec fn read_string(b: Seq<char>, i: int) -> Read<Seq<char>> {
    match expect(b, json_ws_end(b, i), '"') {
        Ok(j) => string_body(b, j, Seq::empty()),
        Err(e) => Err(e),
    }
}

/// `true` or `false` at `i` (after whitespace).
pub open spec fn read_bool(b: Seq<char>, i: int) -> Read<bool> {
    let j = json_ws_end(b, i);
    if 0 <= j && j + 4 <= b.len() && b.subrange(j, j + 4) == seq!['t', 'r', 'u', 'e'] {
        Ok((true, j + 4))
    } else if 0 <= j && j + 5 <= b.len() && b.subrange(j, j + 5) == seq!['f', 'a', 'l', 's', 'e'] {
        Ok((false, j + 5))
    } else {
        Err(json_err("expected true/false"@))
    }
}

/// End of the run of number bytes starting at `i`.
pub open spec fn number_end(b: Seq<char>, i: int) -> int
    decreases b.len() - i,
{
    if 0 <= i < b.len() && is_number_char(b[i]) {
        number_end(b, i + 1)
    } else {
        i
    }
}

/// A number token at `i` (after whitespace): its characters.
pub open spec fn read_number_token(b: Seq<char>, i: int) -> Read<Seq<char>> {
    let j = json_ws_end(b, i);
    let k = number_end(b, j);
    if k == j {
        Err(json_err("expected number"@))
    } else {
        Ok((b.subrange(j, k), k))
    }
}

// ---- integer text (std's `FromStr` for integers) --------------------

/// Why an integer's text was refused, as `ParseIntError`'s message.
pub open spec fn invalid_digit() -> Seq<char> {
    "invalid digit found in string"@
}

pub open spec fn digit_of(c: char) -> Option<nat> {
    if '0' <= c && c <= '9' {
        Some((c as int - 48) as nat)
    } else {
        None
    }
}

/// Left-to-right digit scan as std does it: the first non-digit is an
/// invalid digit; a value past `max` overflows.
pub open spec fn scan_digits(d: Seq<char>, i: int, acc: nat, max: nat, overflow: Seq<char>) -> Result<nat, Seq<char>>
    decreases d.len() - i,
{
    if i < 0 || i >= d.len() {
        Ok(acc)
    } else {
        match digit_of(d[i]) {
            None => Err(invalid_digit()),
            Some(v) => if acc * 10 + v > max {
                Err(overflow)
            } else {
                scan_digits(d, i + 1, acc * 10 + v, max, overflow)
            },
        }
    }
}

/// `str::parse` for an unsigned type with maximum `max`.
pub open spec fn parse_unsigned_text(s: Seq<char>, max: nat) -> Result<nat, Seq<char>> {
    if s.len() == 0 {
        Err("cannot parse integer from empty string"@)
    } else if s[0] == '+' {
        if s.len() == 1 {
            Err(invalid_digit())
        } else {
            scan_digits(s, 1, 0, max, "number too large to fit in target type"@)
        }
    } else {
        scan_digits(s, 0, 0, max, "number too large to fit in target type"@)
    }
}

/// `str::parse::<i32>`.
pub open spec fn parse_i32_text(s: Seq<char>) -> Result<i32, Seq<char>> {
    if s.len() == 0 {
        Err("cannot parse integer from empty string"@)
    } else if (s[0] == '+' || s[0] == '-') && s.len() == 1 {
        Err(invalid_digit())
    } else if s[0] == '-' {
        match scan_digits(s, 1, 0, 2147483648, "number too small to fit in target type"@) {
            Ok(m) => Ok((-(m as int)) as i32),
            Err(e) => Err(e),
        }
    } else {
        let start: int = if s[0] == '+' { 1 } else { 0 };
        match scan_digits(s, start, 0, 2147483647, "number too large to fit in target type"@) {
            Ok(m) => Ok(m as i32),
            Err(e) => Err(e),
        }
    }
}

fn scan_digits_exec(d: &Vec<char>, start: usize, max: u64, overflow: &'static str) -> (r: Result<u64, String>)
    requires
        start <= d@.len(),
    ensures
        r matches Ok(a) ==> a <= max,
        match (r, scan_digits(d@, start as int, 0, max as nat, overflow@)) {
            (Ok(a), Ok(b)) => a == b,
            (Err(a), Err(b)) => a@ == b,
            _ => false,
        },
{
    let mut acc: u64 = 0;
    let mut i: usize = start;
    while i < d.len()
        invariant
            start <= i <= d@.len(),
            acc <= max,
            scan_digits(d@, start as int, 0, max as nat, overflow@) == scan_digits(d@, i as int, acc as nat, max as nat, overflow@),
        decreases d@.len() - i,
    {
        let c = d[i];
        if !('0' <= c && c <= '9') {
            return Err("invalid digit found in string".to_owned());
        }
        let v: u64 = ((c as u32) - 48) as u64;
        let too_big = if v > max { true } else { acc > (max - v) / 10 };
        if too_big {
            proof {
                if v <= max {
                    assert(acc * 10 + v > max) by (nonlinear_arith)
                        requires acc > (max - v) / 10, v <= max;
                }
            }
            return Err(overflow.to_owned());
        }
        assert(acc * 10 + v <= max) by (nonlinear_arith)
            requires acc <= (max - v) / 10, v <= max;
        acc = acc * 10 + v;
        i += 1;
    }
    Ok(acc)
}

fn parse_unsigned_exec(s: &Vec<char>, max: u64) -> (r: Result<u64, String>)
    ensures
        match (r, parse_unsigned_text(s@, max as nat)) {
            (Ok(a), Ok(b)) => a == b,
            (Err(a), Err(b)) => a@ == b,
            _ => false,
        },
{
    if s.len() == 0 {
        return Err("cannot parse integer from empty string".to_owned());
    }
    if s[0] == '+' {
        if s.len() == 1 {
            return Err("invalid digit found in string".to_owned());
        }
        return scan_digits_exec(s, 1, max, "number too large to fit in target type");
    }
    scan_digits_exec(s, 0, max, "number too large to fit in target type")
}

fn parse_i32_exec(s: &Vec<char>) -> (r: Result<i32, String>)
    ensures
        match (r, parse_i32_text(s@)) {
            (Ok(a), Ok(b)) => a == b,
            (Err(a), Err(b)) => a@ == b,
            _ => false,
        },
{
    if s.len() == 0 {
        return Err("cannot parse integer from empty string".to_owned());
    }
    if (s[0] == '+' || s[0] == '-') && s.len() == 1 {
        return Err("invalid digit found in string".to_owned());
    }
    if s[0] == '-' {
        match scan_digits_exec(s, 1, 2147483648u64, "number too small to fit in target type") {
            Ok(m) => {
                let v: i64 = -(m as i64);
                return Ok(v as i32);
            },
            Err(e) => {
                return Err(e);
            },
        }
    }
    let start: usize = if s[0] == '+' { 1 } else { 0 };
    match scan_digits_exec(s, start, 2147483647u64, "number too large to fit in target type") {
        Ok(m) => Ok(m as i32),
        Err(e) => Err(e),
    }
}


// ---- views --------------------------------------------------------

pub struct GitView {
    pub branch: Option<Seq<char>>,
    pub dirty: Option<bool>,
    pub ahead: Option<u32>,
    pub behind: Option<u32>,
}

pub struct MetaView {
    pub cwd: Option<Seq<char>>,
    pub git: Option<GitView>,
    pub user: Option<Seq<char>>,
    pub host: Option<Seq<char>>,
    pub shell: Option<Seq<char>>,
    pub exit: Option<i32>,
    pub runtime_ms: Option<u64>,
}

pub open spec fn opt_text(o: Option<String>) -> Option<Seq<char>> {
    match o {
        Some(s) => Some(s@),
        None => None,
    }
}

pub open spec fn git_view(g: GitInfo) -> GitView {
    GitView { branch: opt_text(g.branch), dirty: g.dirty, ahead: g.ahead, behind: g.behind }
}

pub open spec fn meta_view(m: BlockMetadata) -> MetaView {
    MetaView {
        cwd: opt_text(m.cwd),
        git: match m.git {
            Some(g) => Some(git_view(g)),
            None => None,
        },
        user: opt_text(m.user),
        host: opt_text(m.host),
        shell: opt_text(m.shell),
        exit: m.exit,
        runtime_ms: m.runtime_ms,
    }
}

pub open spec fn empty_git() -> GitView {
    GitView { branch: None, dirty: None, ahead: None, behind: None }
}

pub open spec fn empty_meta() -> MetaView {
    MetaView { cwd: None, git: None, user: None, host: None, shell: None, exit: None, runtime_ms: None }
}

// ---- value readers ------------------------------------------------

pub open spec fn read_i32(b: Seq<char>, i: int) -> Read<i32> {
    match read_number_token(b, i) {
        Ok((t, k)) => match parse_i32_text(t) {
            Ok(v) => Ok((v, k)),
            Err(m) => Err(hex_err(m)),
        },
        Err(e) => Err(e),
    }
}

pub open spec fn read_unsigned(b: Seq<char>, i: int, max: nat) -> Read<nat> {
    match read_number_token(b, i) {
        Ok((t, k)) => match parse_unsigned_text(t, max) {
            Ok(v) => Ok((v, k)),
            Err(m) => Err(hex_err(m)),
        },
        Err(e) => Err(e),
    }
}

pub proof fn lemma_ws_end(b: Seq<char>, i: int)
    ensures
        json_ws_end(b, i) >= i,
        0 <= i <= b.len() ==> json_ws_end(b, i) <= b.len(),
        json_ws_end(b, json_ws_end(b, i)) == json_ws_end(b, i),
        !(0 <= json_ws_end(b, i) < b.len() && is_json_ws(b[json_ws_end(b, i)])),
    decreases b.len() - i,
{
    if 0 <= i < b.len() && is_json_ws(b[i]) {
        lemma_ws_end(b, i + 1);
    }
}

pub proof fn lemma_string_body_advances(b: Seq<char>, i: int, acc: Seq<char>)
    ensures
        string_body(b, i, acc) matches Ok((_, k)) ==> i < k <= b.len(),
    decreases b.len() - i,
{
    if 0 <= i < b.len() && b[i] != '"' {
        if b[i] == '\\' {
            if i + 1 < b.len() {
                if b[i + 1] == 'u' {
                    match code_escape(b, i + 2) {
                        Some(c) => lemma_string_body_advances(b, i + 6, acc.push(c)),
                        None => {},
                    }
                } else {
                    match unescape(b[i + 1]) {
                        Some(c) => lemma_string_body_advances(b, i + 2, acc.push(c)),
                        None => {},
                    }
                }
            }
        } else {
            lemma_string_body_advances(b, i + 1, acc.push(b[i]));
        }
    }
}

pub proof fn lemma_number_end(b: Seq<char>, i: int)
    ensures
        number_end(b, i) >= i,
        0 <= i <= b.len() ==> number_end(b, i) <= b.len(),
    decreases b.len() - i,
{
    if 0 <= i < b.len() && is_number_char(b[i]) {
        lemma_number_end(b, i + 1);
    }
}

/// The readers only move forward.
pub proof fn lemma_readers_advance(b: Seq<char>, i: int)
    requires
        0 <= i <= b.len(),
    ensures
        read_string(b, i) matches Ok((_, k)) ==> i < k <= b.len(),
        read_bool(b, i) matches Ok((_, k)) ==> i < k <= b.len(),
        read_number_token(b, i) matches Ok((_, k)) ==> i < k <= b.len(),
        expect(b, i, ':') matches Ok(k) ==> i < k <= b.len(),
        expect(b, i, '{') matches Ok(k) ==> i < k <= b.len(),
{
    lemma_ws_end(b, i);
    let j = json_ws_end(b, i);
    lemma_ws_end(b, j);
    if 0 <= j < b.len() && b[j] == '"' {
        lemma_string_body_advances(b, j + 1, Seq::empty());
    }
    lemma_number_end(b, j);
}

/// Skips a balanced object body from `i` at nesting `depth`, stepping
/// over string literals whole.
pub open spec fn skip_object(b: Seq<char>, i: int, depth: nat) -> Result<int, ErrView>
    decreases b.len() - i,
{
    if depth == 0 {
        Ok(i)
    } else if i < 0 || i >= b.len() {
        Err(json_err("unterminated object"@))
    } else if b[i] == '{' {
        skip_object(b, i + 1, depth + 1)
    } else if b[i] == '}' {
        skip_object(b, i + 1, (depth - 1) as nat)
    } else if b[i] == '"' {
        match string_body(b, i + 1, Seq::empty()) {
            Ok((_, k)) => {
                proof {
                    lemma_string_body_advances(b, i + 1, Seq::empty());
                }
                skip_object(b, k, depth)
            },
            Err(e) => Err(e),
        }
    } else {
        skip_object(b, i + 1, depth)
    }
}

/// Skips the value of an unknown key.
pub open spec fn skip_value(b: Seq<char>, i: int) -> Result<int, ErrView> {
    let j = json_ws_end(b, i);
    if j < 0 || j >= b.len() {
        Err(json_err("unexpected value"@))
    } else if b[j] == '"' {
        match read_string(b, j) {
            Ok((_, k)) => Ok(k),
            Err(e) => Err(e),
        }
    } else if b[j] == 't' || b[j] == 'f' {
        match read_bool(b, j) {
            Ok((_, k)) => Ok(k),
            Err(e) => Err(e),
        }
    } else if b[j] == '{' {
        skip_object(b, j + 1, 1)
    } else if b[j] == '-' || is_json_digit(b[j]) {
        match read_number_token(b, j) {
            Ok((_, k)) => Ok(k),
            Err(e) => Err(e),
        }
    } else {
        Err(json_err("unexpected value"@))
    }
}

pub proof fn lemma_skip_object_advances(b: Seq<char>, i: int, depth: nat)
    requires
        0 <= i <= b.len(),
    ensures
        skip_object(b, i, depth) matches Ok(k) ==> i <= k <= b.len(),
    decreases b.len() - i,
{
    if depth != 0 && 0 <= i < b.len() {
        if b[i] == '{' {
            lemma_skip_object_advances(b, i + 1, depth + 1);
        } else if b[i] == '}' {
            lemma_skip_object_advances(b, i + 1, (depth - 1) as nat);
        } else if b[i] == '"' {
            lemma_string_body_advances(b, i + 1, Seq::empty());
            match string_body(b, i + 1, Seq::empty()) {
                Ok((_, k)) => lemma_skip_object_advances(b, k, depth),
                Err(_) => {},
            }
        } else {
            lemma_skip_object_advances(b, i + 1, depth);
        }
    }
}

pub proof fn lemma_skip_value_advances(b: Seq<char>, i: int)
    requires
        0 <= i <= b.len(),
    ensures
        skip_value(b, i) matches Ok(k) ==> i < k <= b.len(),
{
    lemma_ws_end(b, i);
    let j = json_ws_end(b, i);
    if 0 <= j < b.len() {
        lemma_readers_advance(b, j);
        if b[j] == '{' {
            lemma_skip_object_advances(b, j + 1, 1);
        }
    }
}



// ---- objects ------------------------------------------------------

/// Reads the value of git key `key` at `i` into `g`.
pub open spec fn read_git_field(b: Seq<char>, i: int, key: Seq<char>, g: GitView) -> Read<GitView> {
    if key == "branch"@ {
        match read_string(b, i) {
            Ok((s, k)) => Ok((GitView { branch: Some(s), ..g }, k)),
            Err(e) => Err(e),
        }
    } else if key == "dirty"@ {
        match read_bool(b, i) {
            Ok((v, k)) => Ok((GitView { dirty: Some(v), ..g }, k)),
            Err(e) => Err(e),
        }
    } else if key == "ahead"@ {
        match read_unsigned(b, i, u32::MAX as nat) {
            Ok((v, k)) => Ok((GitView { ahead: Some(v as u32), ..g }, k)),
            Err(e) => Err(e),
        }
    } else if key == "behind"@ {
        match read_unsigned(b, i, u32::MAX as nat) {
            Ok((v, k)) => Ok((GitView { behind: Some(v as u32), ..g }, k)),
            Err(e) => Err(e),
        }
    } else {
        match skip_value(b, i) {
            Ok(k) => Ok((g, k)),
            Err(e) => Err(e),
        }
    }
}

pub proof fn lemma_git_field_advances(b: Seq<char>, i: int, key: Seq<char>, g: GitView)
    requires
        0 <= i <= b.len(),
    ensures
        read_git_field(b, i, key, g) matches Ok((_, k)) ==> i < k <= b.len(),
{
    lemma_readers_advance(b, i);
    lemma_skip_value_advances(b, i);
}

/// The members of a git object from `i` on, read into `g`; the
/// position after its closing brace.
pub open spec fn git_fields(b: Seq<char>, i: int, g: GitView) -> Read<GitView>
    decreases b.len() - i,
{
    let j = json_ws_end(b, i);
    if i < 0 || i > b.len() {
        Err(json_err("unterminated string"@))
    } else if 0 <= j < b.len() && b[j] == '}' {
        Ok((g, j + 1))
    } else {
        match read_string(b, j) {
            Err(e) => Err(e),
            Ok((key, k)) => match expect(b, k, ':') {
                Err(e) => Err(e),
                Ok(k2) => match read_git_field(b, k2, key, g) {
                    Err(e) => Err(e),
                    Ok((g2, k3)) => {
                        let k4 = json_ws_end(b, k3);
                        proof {
                            lemma_ws_end(b, i);
                            lemma_readers_advance(b, j);
                            lemma_readers_advance(b, k);
                            lemma_git_field_advances(b, k2, key, g);
                            lemma_ws_end(b, k3);
                        }
                        if 0 <= k4 < b.len() && b[k4] == ',' {
                            git_fields(b, k4 + 1, g2)
                        } else if 0 <= k4 < b.len() && b[k4] == '}' {
                            git_fields(b, k4, g2)
                        } else {
                            Err(json_err("expected , or } in git"@))
                        }
                    },
                },
            },
        }
    }
}

/// A git object at `i`.
pub open spec fn read_git(b: Seq<char>, i: int) -> Read<GitView> {
    match expect(b, i, '{') {
        Ok(j) => git_fields(b, j, empty_git()),
        Err(e) => Err(e),
    }
}

pub proof fn lemma_git_fields_advances(b: Seq<char>, i: int, g: GitView)
    requires
        0 <= i <= b.len(),
    ensures
        git_fields(b, i, g) matches Ok((_, k)) ==> i < k <= b.len(),
    decreases b.len() - i,
{
    lemma_ws_end(b, i);
    let j = json_ws_end(b, i);
    if !(0 <= j < b.len() && b[j] == '}') {
        lemma_readers_advance(b, j);
        match read_string(b, j) {
            Ok((key, k)) => {
                lemma_readers_advance(b, k);
                match expect(b, k, ':') {
                    Ok(k2) => {
                        lemma_git_field_advances(b, k2, key, g);
                        match read_git_field(b, k2, key, g) {
                            Ok((g2, k3)) => {
                                lemma_ws_end(b, k3);
                                let k4 = json_ws_end(b, k3);
                                if 0 <= k4 < b.len() && b[k4] == ',' {
                                    lemma_git_fields_advances(b, k4 + 1, g2);
                                } else if 0 <= k4 < b.len() && b[k4] == '}' {
                                    lemma_git_fields_advances(b, k4, g2);
                                }
                            },
                            Err(_) => {},
                        }
                    },
                    Err(_) => {},
                }
            },
            Err(_) => {},
        }
    }
}

/// Reads the value of top-level key `key` at `i` into `md`.
pub open spec fn read_meta_field(b: Seq<char>, i: int, key: Seq<char>, md: MetaView) -> Read<MetaView> {
    if key == "cwd"@ {
        match read_string(b, i) {
            Ok((s, k)) => Ok((MetaView { cwd: Some(s), ..md }, k)),
            Err(e) => Err(e),
        }
    } else if key == "user"@ {
        match read_string(b, i) {
            Ok((s, k)) => Ok((MetaView { user: Some(s), ..md }, k)),
            Err(e) => Err(e),
        }
    } else if key == "host"@ {
        match read_string(b, i) {
            Ok((s, k)) => Ok((MetaView { host: Some(s), ..md }, k)),
            Err(e) => Err(e),
        }
    } else if key == "shell"@ {
        match read_string(b, i) {
            Ok((s, k)) => Ok((MetaView { shell: Some(s), ..md }, k)),
            Err(e) => Err(e),
        }
    } else if key == "exit"@ {
        match read_i32(b, i) {
            Ok((v, k)) => Ok((MetaView { exit: Some(v), ..md }, k)),
            Err(e) => Err(e),
        }
    } else if key == "runtime_ms"@ {
        match read_unsigned(b, i, u64::MAX as nat) {
            Ok((v, k)) => Ok((MetaView { runtime_ms: Some(v as u64), ..md }, k)),
            Err(e) => Err(e),
        }
    } else if key == "git"@ {
        match read_git(b, i) {
            Ok((g, k)) => Ok((MetaView { git: Some(g), ..md }, k)),
            Err(e) => Err(e),
        }
    } else {
        match skip_value(b, i) {
            Ok(k) => Ok((md, k)),
            Err(e) => Err(e),
        }
    }
}

pub proof fn lemma_meta_field_advances(b: Seq<char>, i: int, key: Seq<char>, md: MetaView)
    requires
        0 <= i <= b.len(),
    ensures
        read_meta_field(b, i, key, md) matches Ok((_, k)) ==> i < k <= b.len(),
{
    lemma_readers_advance(b, i);
    lemma_skip_value_advances(b, i);
    if key == "git"@ {
        match expect(b, i, '{') {
            Ok(j) => lemma_git_fields_advances(b, j, empty_git()),
            Err(_) => {},
        }
    }
}

/// The members of the top-level object from `i` on, read into `md`.
pub open spec fn meta_fields(b: Seq<char>, i: int, md: MetaView) -> Result<MetaView, ErrView>
    decreases b.len() - i,
{
    let j = json_ws_end(b, i);
    if i < 0 || i > b.len() {
        Err(json_err("unterminated string"@))
    } else if 0 <= j < b.len() && b[j] == '}' {
        Ok(md)
    } else {
        match read_string(b, j) {
            Err(e) => Err(e),
            Ok((key, k)) => match expect(b, k, ':') {
                Err(e) => Err(e),
                Ok(k2) => match read_meta_field(b, k2, key, md) {
                    Err(e) => Err(e),
                    Ok((md2, k3)) => {
                        let k4 = json_ws_end(b, k3);
                        proof {
                            lemma_ws_end(b, i);
                            lemma_readers_advance(b, j);
                            lemma_readers_advance(b, k);
                            lemma_meta_field_advances(b, k2, key, md);
                            lemma_ws_end(b, k3);
                        }
                        if 0 <= k4 < b.len() && b[k4] == ',' {
                            meta_fields(b, k4 + 1, md2)
                        } else if 0 <= k4 < b.len() && b[k4] == '}' {
                            meta_fields(b, k4, md2)
                        } else {
                            Err(json_err("expected , or }"@))
                        }
                    },
                },
            },
        }
    }
}

/// The metadata a JSON text describes.
pub open spec fn spec_parse_json(b: Seq<char>) -> Result<MetaView, ErrView> {
    match expect(b, 0, '{') {
        Ok(j) => meta_fields(b, j, empty_meta()),
        Err(e) => Err(e),
    }
}

// ---- hex ----------------------------------------------------------

pub open spec fn hex_digit_value(x: u8) -> Option<nat> {
    if 0x30 <= x && x <= 0x39 {
        Some((x - 0x30) as nat)
    } else if 0x61 <= x && x <= 0x66 {
        Some((x - 0x61 + 10) as nat)
    } else if 0x41 <= x && x <= 0x46 {
        Some((x - 0x41 + 10) as nat)
    } else {
        None
    }
}

/// `u8::from_str_radix(chunk, 16)` on a two-byte chunk of the payload,
/// after `str::from_utf8(chunk)`.
pub open spec fn hex_pair(x: u8, y: u8) -> Result<u8, ErrView> {
    if x < 0x80 && y < 0x80 {
        if x == 0x2b {
            match hex_digit_value(y) {
                Some(v) => Ok(v as u8),
                None => Err(hex_err(invalid_digit())),
            }
        } else {
            match (hex_digit_value(x), hex_digit_value(y)) {
                (Some(v), Some(w)) => Ok((v * 16 + w) as u8),
                _ => Err(hex_err(invalid_digit())),
            }
        }
    } else if 0xc2 <= x && x <= 0xdf && 0x80 <= y && y <= 0xbf {
        Err(hex_err(invalid_digit()))
    } else {
        Err(hex_err("non-ascii"@))
    }
}

/// The bytes the first `n` pairs of `h` decode to.
pub open spec fn hex_pairs(h: Seq<u8>, n: int) -> Result<Seq<u8>, ErrView>
    decreases n,
{
    if n <= 0 {
        Ok(Seq::empty())
    } else {
        match hex_pairs(h, n - 1) {
            Err(e) => Err(e),
            Ok(out) => match hex_pair(h[2 * n - 2], h[2 * n - 1]) {
                Ok(x) => Ok(out.push(x)),
                Err(e) => Err(e),
            },
        }
    }
}

pub proof fn lemma_hex_pairs_err(h: Seq<u8>, m: int, n: int)
    requires
        0 <= m <= n,
        hex_pairs(h, m) is Err,
    ensures
        hex_pairs(h, n) == hex_pairs(h, m),
    decreases n - m,
{
    if n > m {
        lemma_hex_pairs_err(h, m, n - 1);
    }
}

pub open spec fn spec_decode_hex(h: Seq<u8>) -> Result<Seq<u8>, ErrView> {
    if h.len() % 2 != 0 {
        Err(hex_err("odd-length string"@))
    } else {
        hex_pairs(h, (h.len() / 2) as int)
    }
}

/// What `parse` gives for a payload with bytes `h`.
pub open spec fn spec_parse(h: Seq<u8>) -> Result<MetaView, ErrView> {
    match spec_decode_hex(h) {
        Err(e) => Err(e),
        Ok(bytes) => if valid_utf8(bytes) {
            spec_parse_json(decode_utf8(bytes))
        } else {
            Err(hex_err("invalid utf8"@))
        },
    }
}


// ---- readers ------------------------------------------------------

fn skip_ws(b: &Vec<char>, i: usize) -> (r: usize)
    requires
        i <= b@.len(),
    ensures
        r == json_ws_end(b@, i as int),
        i <= r <= b@.len(),
{
    let mut j = i;
    while j < b.len() && char_is_json_ws(b[j])
        invariant
            i <= j <= b@.len(),
            json_ws_end(b@, i as int) == json_ws_end(b@, j as int),
        decreases b@.len() - j,
    {
        j += 1;
    }
    j
}

fn expect_byte(b: &Vec<char>, i: usize, c: char) -> (r: Result<usize, Osc7777ParseError>)
    requires
        i <= b@.len(),
    ensures
        match (r, expect(b@, i as int, c)) {
            (Ok(k), Ok(k2)) => k == k2 && k <= b@.len(),
            (Err(e), Err(f)) => err_view(e) == f,
            _ => false,
        },
{
    let j = skip_ws(b, i);
    if j < b.len() && b[j] == c {
        Ok(j + 1)
    } else {
        Err(json_error("unexpected char"))
    }
}

/// `char::from_u32`: the character whose code is `v`, or `None` where
/// `v` is no Unicode scalar value (a surrogate, or past U+10FFFF).
#[verifier::external_body]
fn char_from_u32(v: u32) -> (r: Option<char>)
    ensures
        r == (if is_scalar(v) { Some(v as char) } else { None::<char> }),
{
    char::from_u32(v)
}

fn hex_char_value_exec(c: char) -> (r: Option<u32>)
    ensures
        match hex_char_value(c) {
            Some(v) => r == Some(v as u32),
            None => r is None,
        },
{
    if '0' <= c && c <= '9' {
        Some((c as u32) - 48)
    } else if 'a' <= c && c <= 'f' {
        Some((c as u32) - 87)
    } else if 'A' <= c && c <= 'F' {
        Some((c as u32) - 55)
    } else {
        None
    }
}

fn code_escape_exec(b: &Vec<char>, j: usize) -> (r: Option<char>)
    requires
        j <= b@.len(),
    ensures
        r == code_escape(b@, j as int),
{
    if b.len() - j < 4 {
        return None;
    }
    let d0 = match hex_char_value_exec(b[j]) {
        Some(d) => d,
        None => {
            return None;
        },
    };
    let d1 = match hex_char_value_exec(b[j + 1]) {
        Some(d) => d,
        None => {
            return None;
        },
    };
    let d2 = match hex_char_value_exec(b[j + 2]) {
        Some(d) => d,
        None => {
            return None;
        },
    };
    let d3 = match hex_char_value_exec(b[j + 3]) {
        Some(d) => d,
        None => {
            return None;
        },
    };
    char_from_u32(d0 * 4096 + d1 * 256 + d2 * 16 + d3)
}

fn read_string_exec(b: &Vec<char>, i: usize) -> (r: Result<(String, usize), Osc7777ParseError>)
    requires
        i <= b@.len(),
    ensures
        match (r, read_string(b@, i as int)) {
            (Ok((s, k)), Ok((t, k2))) => s@ == t && k == k2 && k <= b@.len(),
            (Err(e), Err(f)) => err_view(e) == f,
            _ => false,
        },
{
    let j0 = skip_ws(b, i);
    let mut j = match expect_byte(b, j0, '"') {
        Ok(j) => j,
        Err(e) => {
            return Err(e);
        },
    };
    let mut out = String::new();
    while j < b.len()
        invariant
            j <= b@.len(),
            read_string(b@, i as int) == string_body(b@, j as int, out@),
        decreases b@.len() - j,
    {
        let x = b[j];
        if x == '"' {
            return Ok((out, j + 1));
        }
        if x == '\\' {
            if j + 1 >= b.len() {
                return Err(json_error("bad escape"));
            }
            let e = b[j + 1];
            if e == 'u' {
                match code_escape_exec(b, j + 2) {
                    Some(c) => {
                        crate::text::push_char(&mut out, c);
                        j = j + 6;
                        continue;
                    },
                    None => {
                        return Err(json_error("unsupported escape"));
                    },
                }
            }
            let c = if e == '"' {
                '"'
            } else if e == '\\' {
                '\\'
            } else if e == '/' {
                '/'
            } else if e == 'n' {
                '\n'
            } else if e == 'r' {
                '\r'
            } else if e == 't' {
                '\t'
            } else {
                return Err(json_error("unsupported escape"));
            };
            crate::text::push_char(&mut out, c);
            j = j + 2;
        } else {
            crate::text::push_char(&mut out, x);
            j = j + 1;
        }
    }
    Err(json_error("unterminated string"))
}

fn read_bool_exec(b: &Vec<char>, i: usize) -> (r: Result<(bool, usize), Osc7777ParseError>)
    requires
        i <= b@.len(),
    ensures
        match (r, read_bool(b@, i as int)) {
            (Ok((v, k)), Ok((w, k2))) => v == w && k == k2 && k <= b@.len(),
            (Err(e), Err(f)) => err_view(e) == f,
            _ => false,
        },
{
    let j = skip_ws(b, i);
    if j < b.len() && b.len() - j >= 4 && b[j] == 't' && b[j + 1] == 'r' && b[j + 2] == 'u' && b[j + 3] == 'e' {
        assert(b@.subrange(j as int, j + 4) =~= seq!['t', 'r', 'u', 'e']);
        return Ok((true, j + 4));
    }
    if j < b.len() && b.len() - j >= 5 && b[j] == 'f' && b[j + 1] == 'a' && b[j + 2] == 'l' && b[j + 3] == 's' && b[j + 4]
        == 'e' {
        assert(b@.subrange(j as int, j + 5) =~= seq!['f', 'a', 'l', 's', 'e']);
        proof {
            if j + 4 <= b@.len() {
                assert(b@.subrange(j as int, j + 4)[0] == 'f');
            }
        }
        return Ok((false, j + 5));
    }
    proof {
        if j + 4 <= b@.len() && b@.subrange(j as int, j + 4) == seq!['t', 'r', 'u', 'e'] {
            assert(b@[j as int] == b@.subrange(j as int, j + 4)[0]);
            assert(b@[j + 1] == b@.subrange(j as int, j + 4)[1]);
            assert(b@[j + 2] == b@.subrange(j as int, j + 4)[2]);
            assert(b@[j + 3] == b@.subrange(j as int, j + 4)[3]);
        }
        if j + 5 <= b@.len() && b@.subrange(j as int, j + 5) == seq!['f', 'a', 'l', 's', 'e'] {
            assert(b@[j as int] == b@.subrange(j as int, j + 5)[0]);
            assert(b@[j + 1] == b@.subrange(j as int, j + 5)[1]);
            assert(b@[j + 2] == b@.subrange(j as int, j + 5)[2]);
            assert(b@[j + 3] == b@.subrange(j as int, j + 5)[3]);
            assert(b@[j + 4] == b@.subrange(j as int, j + 5)[4]);
        }
    }
    Err(json_error("expected true/false"))
}

fn read_number_token_exec(b: &Vec<char>, i: usize) -> (r: Result<(Vec<char>, usize), Osc7777ParseError>)
    requires
        i <= b@.len(),
    ensures
        match (r, read_number_token(b@, i as int)) {
            (Ok((t, k)), Ok((u, k2))) => t@ == u && k == k2 && k <= b@.len(),
            (Err(e), Err(f)) => err_view(e) == f,
            _ => false,
        },
{
    let j = skip_ws(b, i);
    let mut k = j;
    let mut tok: Vec<char> = Vec::new();
    while k < b.len() && (('0' <= b[k] && b[k] <= '9') || b[k] == '-' || b[k] == '+')
        invariant
            j <= k <= b@.len(),
            number_end(b@, j as int) == number_end(b@, k as int),
            tok@ == b@.subrange(j as int, k as int),
        decreases b@.len() - k,
    {
        tok.push(b[k]);
        k += 1;
        assert(tok@ =~= b@.subrange(j as int, k as int));
    }
    if k == j {
        return Err(json_error("expected number"));
    }
    Ok((tok, k))
}

fn read_i32_exec(b: &Vec<char>, i: usize) -> (r: Result<(i32, usize), Osc7777ParseError>)
    requires
        i <= b@.len(),
    ensures
        match (r, read_i32(b@, i as int)) {
            (Ok((v, k)), Ok((w, k2))) => v == w && k == k2 && k <= b@.len(),
            (Err(e), Err(f)) => err_view(e) == f,
            _ => false,
        },
{
    let (tok, k) = match read_number_token_exec(b, i) {
        Ok(x) => x,
        Err(e) => {
            return Err(e);
        },
    };
    match parse_i32_exec(&tok) {
        Ok(v) => Ok((v, k)),
        Err(m) => Err(Osc7777ParseError::Hex(m)),
    }
}

fn read_unsigned_exec(b: &Vec<char>, i: usize, max: u64) -> (r: Result<(u64, usize), Osc7777ParseError>)
    requires
        i <= b@.len(),
    ensures
        match (r, read_unsigned(b@, i as int, max as nat)) {
            (Ok((v, k)), Ok((w, k2))) => v == w && k == k2 && k <= b@.len() && v <= max,
            (Err(e), Err(f)) => err_view(e) == f,
            _ => false,
        },
{
    let (tok, k) = match read_number_token_exec(b, i) {
        Ok(x) => x,
        Err(e) => {
            return Err(e);
        },
    };
    match parse_unsigned_exec(&tok, max) {
        Ok(v) => {
            proof {
                lemma_unsigned_bound(tok@, max as nat);
            }
            Ok((v, k))
        },
        Err(m) => Err(Osc7777ParseError::Hex(m)),
    }
}

proof fn lemma_scan_bound(d: Seq<char>, i: int, acc: nat, max: nat, o: Seq<char>)
    requires
        acc <= max,
    ensures
        scan_digits(d, i, acc, max, o) matches Ok(v) ==> v <= max,
    decreases d.len() - i,
{
    if 0 <= i < d.len() {
        match digit_of(d[i]) {
            Some(v) => if acc * 10 + v <= max {
                lemma_scan_bound(d, i + 1, acc * 10 + v, max, o);
            },
            None => {},
        }
    }
}

proof fn lemma_unsigned_bound(s: Seq<char>, max: nat)
    ensures
        parse_unsigned_text(s, max) matches Ok(v) ==> v <= max,
{
    lemma_scan_bound(s, 0, 0, max, "number too large to fit in target type"@);
    lemma_scan_bound(s, 1, 0, max, "number too large to fit in target type"@);
}


fn skip_object_exec(b: &Vec<char>, i: usize) -> (r: Result<usize, Osc7777ParseError>)
    requires
        i <= b@.len(),
    ensures
        match (r, skip_object(b@, i as int, 1)) {
            (Ok(k), Ok(k2)) => k == k2 && k <= b@.len(),
            (Err(e), Err(f)) => err_view(e) == f,
            _ => false,
        },
{
    let mut depth: u128 = 1;
    let mut j = i;
    while depth > 0
        invariant
            j <= b@.len(),
            depth <= j - i + 1,
            skip_object(b@, i as int, 1) == skip_object(b@, j as int, depth as nat),
        decreases b@.len() - j, depth,
    {
        if j >= b.len() {
            return Err(json_error("unterminated object"));
        }
        let x = b[j];
        if x == '{' {
            depth = depth + 1;
            j = j + 1;
        } else if x == '}' {
            depth = depth - 1;
            j = j + 1;
        } else if x == '"' {
            proof {
                lemma_ws_end(b@, j as int);
                assert(json_ws_end(b@, j as int) == j);
                lemma_string_body_advances(b@, j + 1, Seq::empty());
            }
            match read_string_exec(b, j) {
                Ok((_, k)) => {
                    j = k;
                },
                Err(e) => {
                    return Err(e);
                },
            }
        } else {
            j = j + 1;
        }
    }
    proof {
        lemma_skip_object_advances(b@, i as int, 1);
    }
    Ok(j)
}

fn skip_value_exec(b: &Vec<char>, i: usize) -> (r: Result<usize, Osc7777ParseError>)
    requires
        i <= b@.len(),
    ensures
        match (r, skip_value(b@, i as int)) {
            (Ok(k), Ok(k2)) => k == k2 && k <= b@.len(),
            (Err(e), Err(f)) => err_view(e) == f,
            _ => false,
        },
{
    let j = skip_ws(b, i);
    proof {
        lemma_ws_end(b@, i as int);
    }
    if j >= b.len() {
        return Err(json_error("unexpected value"));
    }
    let x = b[j];
    if x == '"' {
        match read_string_exec(b, j) {
            Ok((_, k)) => Ok(k),
            Err(e) => Err(e),
        }
    } else if x == 't' || x == 'f' {
        match read_bool_exec(b, j) {
            Ok((_, k)) => Ok(k),
            Err(e) => Err(e),
        }
    } else if x == '{' {
        skip_object_exec(b, j + 1)
    } else if x == '-' || ('0' <= x && x <= '9') {
        match read_number_token_exec(b, j) {
            Ok((_, k)) => Ok(k),
            Err(e) => Err(e),
        }
    } else {
        Err(json_error("unexpected value"))
    }
}

fn read_git_field_exec(b: &Vec<char>, i: usize, key: &str, g: GitInfo) -> (r: Result<(GitInfo, usize), Osc7777ParseError>)
    requires
        i <= b@.len(),
    ensures
        match (r, read_git_field(b@, i as int, key@, git_view(g))) {
            (Ok((v, k)), Ok((w, k2))) => git_view(v) == w && k == k2 && k <= b@.len(),
            (Err(e), Err(f)) => err_view(e) == f,
            _ => false,
        },
{
    let mut g = g;
    if crate::text::str_eq(key, "branch") {
        match read_string_exec(b, i) {
            Ok((s, k)) => {
                g.branch = Some(s);
                Ok((g, k))
            },
            Err(e) => Err(e),
        }
    } else if crate::text::str_eq(key, "dirty") {
        match read_bool_exec(b, i) {
            Ok((v, k)) => {
                g.dirty = Some(v);
                Ok((g, k))
            },
            Err(e) => Err(e),
        }
    } else if crate::text::str_eq(key, "ahead") {
        match read_unsigned_exec(b, i, 4294967295u64) {
            Ok((v, k)) => {
                g.ahead = Some(v as u32);
                Ok((g, k))
            },
            Err(e) => Err(e),
        }
    } else if crate::text::str_eq(key, "behind") {
        match read_unsigned_exec(b, i, 4294967295u64) {
            Ok((v, k)) => {
                g.behind = Some(v as u32);
                Ok((g, k))
            },
            Err(e) => Err(e),
        }
    } else {
        match skip_value_exec(b, i) {
            Ok(k) => Ok((g, k)),
            Err(e) => Err(e),
        }
    }
}

fn read_git_exec(b: &Vec<char>, i: usize) -> (r: Result<(GitInfo, usize), Osc7777ParseError>)
    requires
        i <= b@.len(),
    ensures
        match (r, read_git(b@, i as int)) {
            (Ok((v, k)), Ok((w, k2))) => git_view(v) == w && k == k2 && k <= b@.len(),
            (Err(e), Err(f)) => err_view(e) == f,
            _ => false,
        },
{
    let mut j = match expect_byte(b, i, '{') {
        Ok(j) => j,
        Err(e) => {
            return Err(e);
        },
    };
    let mut g = GitInfo { branch: None, dirty: None, ahead: None, behind: None };
    loop
        invariant
            j <= b@.len(),
            read_git(b@, i as int) == git_fields(b@, j as int, git_view(g)),
        decreases b@.len() - j,
    {
        let j1 = skip_ws(b, j);
        if j1 < b.len() && b[j1] == '}' {
            return Ok((g, j1 + 1));
        }
        let (key, k) = match read_string_exec(b, j1) {
            Ok(x) => x,
            Err(e) => {
                return Err(e);
            },
        };
        let k2 = match expect_byte(b, k, ':') {
            Ok(k2) => k2,
            Err(e) => {
                return Err(e);
            },
        };
        let ghost gv = git_view(g);
        proof {
            lemma_git_field_advances(b@, k2 as int, key@, gv);
        }
        let (g2, k3) = match read_git_field_exec(b, k2, key.as_str(), g) {
            Ok(x) => x,
            Err(e) => {
                return Err(e);
            },
        };
        let k4 = skip_ws(b, k3);
        proof {
            lemma_ws_end(b@, j as int);
            lemma_readers_advance(b@, j1 as int);
            lemma_readers_advance(b@, k as int);
        }
        if k4 < b.len() && b[k4] == ',' {
            g = g2;
            j = k4 + 1;
        } else if k4 < b.len() && b[k4] == '}' {
            g = g2;
            j = k4;
        } else {
            return Err(json_error("expected , or } in git"));
        }
    }
}

fn read_meta_field_exec(b: &Vec<char>, i: usize, key: &str, md: BlockMetadata) -> (r: Result<(BlockMetadata, usize), Osc7777ParseError>)
    requires
        i <= b@.len(),
    ensures
        match (r, read_meta_field(b@, i as int, key@, meta_view(md))) {
            (Ok((v, k)), Ok((w, k2))) => meta_view(v) == w && k == k2 && k <= b@.len(),
            (Err(e), Err(f)) => err_view(e) == f,
            _ => false,
        },
{
    let mut md = md;
    if crate::text::str_eq(key, "cwd") {
        match read_string_exec(b, i) {
            Ok((s, k)) => {
                md.cwd = Some(s);
                Ok((md, k))
            },
            Err(e) => Err(e),
        }
    } else if crate::text::str_eq(key, "user") {
        match read_string_exec(b, i) {
            Ok((s, k)) => {
                md.user = Some(s);
                Ok((md, k))
            },
            Err(e) => Err(e),
        }
    } else if crate::text::str_eq(key, "host") {
        match read_string_exec(b, i) {
            Ok((s, k)) => {
                md.host = Some(s);
                Ok((md, k))
            },
            Err(e) => Err(e),
        }
    } else if crate::text::str_eq(key, "shell") {
        match read_string_exec(b, i) {
            Ok((s, k)) => {
                md.shell = Some(s);
                Ok((md, k))
            },
            Err(e) => Err(e),
        }
    } else if crate::text::str_eq(key, "exit") {
        match read_i32_exec(b, i) {
            Ok((v, k)) => {
                md.exit = Some(v);
                Ok((md, k))
            },
            Err(e) => Err(e),
        }
    } else if crate::text::str_eq(key, "runtime_ms") {
        match read_unsigned_exec(b, i, 18446744073709551615u64) {
            Ok((v, k)) => {
                md.runtime_ms = Some(v);
                Ok((md, k))
            },
            Err(e) => Err(e),
        }
    } else if crate::text::str_eq(key, "git") {
        match read_git_exec(b, i) {
            Ok((g, k)) => {
                md.git = Some(g);
                Ok((md, k))
            },
            Err(e) => Err(e),
        }
    } else {
        match skip_value_exec(b, i) {
            Ok(k) => Ok((md, k)),
            Err(e) => Err(e),
        }
    }
}

fn parse_json_chars(b: &Vec<char>) -> (r: Result<BlockMetadata, Osc7777ParseError>)
    ensures
        match (r, spec_parse_json(b@)) {
            (Ok(v), Ok(w)) => meta_view(v) == w,
            (Err(e), Err(f)) => err_view(e) == f,
            _ => false,
        },
{
    let mut j = match expect_byte(b, 0, '{') {
        Ok(j) => j,
        Err(e) => {
            return Err(e);
        },
    };
    let mut md = BlockMetadata {
        cwd: None,
        git: None,
        user: None,
        host: None,
        shell: None,
        exit: None,
        runtime_ms: None,
    };
    loop
        invariant
            j <= b@.len(),
            spec_parse_json(b@) == meta_fields(b@, j as int, meta_view(md)),
        decreases b@.len() - j,
    {
        let j1 = skip_ws(b, j);
        if j1 < b.len() && b[j1] == '}' {
            return Ok(md);
        }
        let (key, k) = match read_string_exec(b, j1) {
            Ok(x) => x,
            Err(e) => {
                return Err(e);
            },
        };
        let k2 = match expect_byte(b, k, ':') {
            Ok(k2) => k2,
            Err(e) => {
                return Err(e);
            },
        };
        let ghost mv = meta_view(md);
        proof {
            lemma_meta_field_advances(b@, k2 as int, key@, mv);
        }
        let (md2, k3) = match read_meta_field_exec(b, k2, key.as_str(), md) {
            Ok(x) => x,
            Err(e) => {
                return Err(e);
            },
        };
        let k4 = skip_ws(b, k3);
        proof {
            lemma_ws_end(b@, j as int);
            lemma_readers_advance(b@, j1 as int);
            lemma_readers_advance(b@, k as int);
        }
        if k4 < b.len() && b[k4] == ',' {
            md = md2;
            j = k4 + 1;
        } else if k4 < b.len() && b[k4] == '}' {
            md = md2;
            j = k4;
        } else {
            return Err(json_error("expected , or }"));
        }
    }
}


// ---- payload ------------------------------------------------------

/// `std::str::from_utf8(bytes)`, owned: the text the bytes spell where
/// they are well-formed UTF-8, and `None` where they are not.
#[verifier::external_body]
fn utf8_text(bytes: &[u8]) -> (r: Option<String>)
    ensures
        r is Some <==> valid_utf8(bytes@),
        r matches Some(t) ==> t@ == decode_utf8(bytes@),
{
    match std::str::from_utf8(bytes) {
        Ok(t) => Some(t.to_owned()),
        Err(_) => None,
    }
}

fn hex_value(x: u8) -> (r: Option<u8>)
    ensures
        match hex_digit_value(x) {
            Some(v) => r == Some(v as u8),
            None => r is None,
        },
{
    if 0x30 <= x && x <= 0x39 {
        Some(x - 0x30)
    } else if 0x61 <= x && x <= 0x66 {
        Some(x - 0x61 + 10)
    } else if 0x41 <= x && x <= 0x46 {
        Some(x - 0x41 + 10)
    } else {
        None
    }
}

fn hex_pair_exec(x: u8, y: u8) -> (r: Result<u8, Osc7777ParseError>)
    ensures
        match (r, hex_pair(x, y)) {
            (Ok(a), Ok(b)) => a == b,
            (Err(e), Err(f)) => err_view(e) == f,
            _ => false,
        },
{
    if x < 0x80 && y < 0x80 {
        if x == 0x2b {
            match hex_value(y) {
                Some(v) => Ok(v),
                None => Err(Osc7777ParseError::Hex("invalid digit found in string".to_owned())),
            }
        } else {
            match (hex_value(x), hex_value(y)) {
                (Some(v), Some(w)) => Ok(v * 16 + w),
                _ => Err(Osc7777ParseError::Hex("invalid digit found in string".to_owned())),
            }
        }
    } else if 0xc2 <= x && x <= 0xdf && 0x80 <= y && y <= 0xbf {
        Err(Osc7777ParseError::Hex("invalid digit found in string".to_owned()))
    } else {
        Err(Osc7777ParseError::Hex("non-ascii".to_owned()))
    }
}

fn decode_hex(hex: &str) -> (r: Result<Vec<u8>, Osc7777ParseError>)
    ensures
        match (r, spec_decode_hex(hex.spec_bytes())) {
            (Ok(a), Ok(b)) => a@ == b,
            (Err(e), Err(f)) => err_view(e) == f,
            _ => false,
        },
{
    let h = hex.as_bytes();
    if h.len() % 2 != 0 {
        return Err(Osc7777ParseError::Hex("odd-length string".to_owned()));
    }
    let n = h.len() / 2;
    let mut out: Vec<u8> = Vec::new();
    let mut k: usize = 0;
    while k < n
        invariant
            n == h@.len() / 2,
            h@.len() % 2 == 0,
            k <= n,
            h@ == hex.spec_bytes(),
            hex_pairs(h@, k as int) == Ok::<Seq<u8>, ErrView>(out@),
        decreases n - k,
    {
        match hex_pair_exec(h[2 * k], h[2 * k + 1]) {
            Ok(x) => {
                out.push(x);
            },
            Err(e) => {
                proof {
                    lemma_hex_pairs_err(h@, k + 1, n as int);
                }
                return Err(e);
            },
        }
        k += 1;
    }
    Ok(out)
}

/// Parses a hex-encoded JSON payload into metadata.
pub fn parse(hex_payload: &str) -> (r: Result<BlockMetadata, Osc7777ParseError>)
    ensures
        match (r, spec_parse(hex_payload.spec_bytes())) {
            (Ok(v), Ok(w)) => meta_view(v) == w,
            (Err(e), Err(f)) => err_view(e) == f,
            _ => false,
        },
{
    let bytes = match decode_hex(hex_payload) {
        Ok(b) => b,
        Err(e) => {
            return Err(e);
        },
    };
    let text = match utf8_text(bytes.as_slice()) {
        Some(t) => t,
        None => {
            return Err(Osc7777ParseError::Hex("invalid utf8".to_owned()));
        },
    };
    let chars = crate::text::chars_of(text.as_str());
    parse_json_chars(&chars)
}

// ---- encoding -----------------------------------------------------

pub open spec fn byte_char(k: u8) -> char {
    k as char
}

fn byte_as_char(k: u8) -> (c: char)
    ensures
        c == byte_char(k),
        c as int == k as int,
{
    k as char
}

pub open spec fn hex_char(v: nat) -> char {
    if v < 10 { ((48 + v) as u8) as char } else { ((87 + v) as u8) as char }
}

/// How one character is written inside a JSON string literal.
pub open spec fn escape_char(c: char) -> Seq<char> {
    if c == '"' {
        seq!['\\', '"']
    } else if c == '\\' {
        seq!['\\', '\\']
    } else if c == '\n' {
        seq!['\\', 'n']
    } else if c == '\r' {
        seq!['\\', 'r']
    } else if c == '\t' {
        seq!['\\', 't']
    } else if c >= '\0' && ' ' > c {
        seq!['\\', 'u', '0', '0', hex_char((c as int / 16) as nat), hex_char((c as int % 16) as nat)]
    } else {
        seq![c]
    }
}

pub open spec fn escaped(s: Seq<char>) -> Seq<char>
    decreases s.len(),
{
    if s.len() == 0 {
        Seq::empty()
    } else {
        escaped(s.drop_last()) + escape_char(s.last())
    }
}

/// A JSON string literal for `s`.
pub open spec fn json_string(s: Seq<char>) -> Seq<char> {
    seq!['"'] + escaped(s) + seq!['"']
}

pub open spec fn json_bool(v: bool) -> Seq<char> {
    if v { "true"@ } else { "false"@ }
}

pub open spec fn joined_parts(parts: Seq<Seq<char>>) -> Seq<char>
    decreases parts.len(),
{
    if parts.len() == 0 {
        Seq::empty()
    } else if parts.len() == 1 {
        parts[0]
    } else {
        joined_parts(parts.drop_last()) + seq![','] + parts.last()
    }
}

pub open spec fn json_object(parts: Seq<Seq<char>>) -> Seq<char> {
    seq!['{'] + joined_parts(parts) + seq!['}']
}

/// `"key":value`.
pub open spec fn member(key: Seq<char>, value: Seq<char>) -> Seq<char> {
    json_string(key) + seq![':'] + value
}

/// One member of a git object.
pub enum GitField {
    Branch(Seq<char>),
    Dirty(bool),
    Ahead(u32),
    Behind(u32),
}

pub open spec fn git_member(f: GitField) -> Seq<char> {
    match f {
        GitField::Branch(s) => member("branch"@, json_string(s)),
        GitField::Dirty(d) => member("dirty"@, json_bool(d)),
        GitField::Ahead(a) => member("ahead"@, decimal_chars(a as nat)),
        GitField::Behind(x) => member("behind"@, decimal_chars(x as nat)),
    }
}

/// The members written for a git view: the present fields in the
/// order branch, dirty, ahead, behind.
pub open spec fn git_entries(g: GitView) -> Seq<GitField> {
    (match g.branch { Some(s) => seq![GitField::Branch(s)], None => Seq::empty() })
        + (match g.dirty { Some(d) => seq![GitField::Dirty(d)], None => Seq::empty() })
        + (match g.ahead { Some(a) => seq![GitField::Ahead(a)], None => Seq::empty() })
        + (match g.behind { Some(x) => seq![GitField::Behind(x)], None => Seq::empty() })
}

pub open spec fn git_parts(g: GitView) -> Seq<Seq<char>> {
    git_entries(g).map_values(|f: GitField| git_member(f))
}

/// One member of the top-level object.
pub enum MetaField {
    Cwd(Seq<char>),
    Git(GitView),
    User(Seq<char>),
    Host(Seq<char>),
    Shell(Seq<char>),
    Exit(i32),
    RuntimeMs(u64),
}

pub open spec fn meta_member(f: MetaField) -> Seq<char> {
    match f {
        MetaField::Cwd(s) => member("cwd"@, json_string(s)),
        MetaField::Git(g) => member("git"@, json_object(git_parts(g))),
        MetaField::User(s) => member("user"@, json_string(s)),
        MetaField::Host(s) => member("host"@, json_string(s)),
        MetaField::Shell(s) => member("shell"@, json_string(s)),
        MetaField::Exit(e) => member("exit"@, signed_decimal_chars(e as int)),
        MetaField::RuntimeMs(r) => member("runtime_ms"@, decimal_chars(r as nat)),
    }
}

/// The members written for metadata: the present fields in the order
/// cwd, git, user, host, shell, exit, runtime_ms.
pub open spec fn meta_entries(m: MetaView) -> Seq<MetaField> {
    cwd_entry(m) + git_entry(m) + user_entry(m) + host_entry(m) + shell_entry(m) + exit_entry(m)
        + runtime_entry(m)
}

pub open spec fn meta_parts(m: MetaView) -> Seq<Seq<char>> {
    meta_entries(m).map_values(|f: MetaField| meta_member(f))
}

/// The JSON text `encode` writes for `m`.
pub open spec fn json_text(m: MetaView) -> Seq<char> {
    json_object(meta_parts(m))
}

pub open spec fn hex_text(b: Seq<u8>) -> Seq<char>
    decreases b.len(),
{
    if b.len() == 0 {
        Seq::empty()
    } else {
        hex_text(b.drop_last()) + seq![hex_char((b.last() / 16) as nat), hex_char((b.last() % 16) as nat)]
    }
}

/// What `encode` writes for `m`: the hex of the JSON text's UTF-8.
pub open spec fn spec_encode(m: MetaView) -> Seq<char> {
    hex_text(encode_utf8(json_text(m)))
}

fn push_hex_digit(out: &mut String, v: u8)
    requires
        v < 16,
    ensures
        final(out)@ == old(out)@.push(hex_char(v as nat)),
{
    if v < 10 {
        crate::text::push_char(out, (48u8 + v) as char);
    } else {
        crate::text::push_char(out, (87u8 + v) as char);
    }
}

fn push_json_string(out: &mut String, s: &str)
    ensures
        final(out)@ == old(out)@ + json_string(s@),
{
    let v = crate::text::chars_of(s);
    crate::text::push_char(out, '"');
    let ghost head = out@;
    let mut i: usize = 0;
    while i < v.len()
        invariant
            i <= v@.len(),
            v@ == s@,
            out@ == head + escaped(v@.take(i as int)),
        decreases v@.len() - i,
    {
        let c = v[i];
        let ghost before = out@;
        if c == '"' {
            crate::text::push_str(out, "\\\"");
        } else if c == '\\' {
            crate::text::push_str(out, "\\\\");
        } else if c == '\n' {
            crate::text::push_str(out, "\\n");
        } else if c == '\r' {
            crate::text::push_str(out, "\\r");
        } else if c == '\t' {
            crate::text::push_str(out, "\\t");
        } else if c >= '\0' && ' ' > c {
            crate::text::push_str(out, "\\u00");
            let mut code: u8 = 0;
            while code < 32 && byte_as_char(code) != c
                invariant
                    code <= 32,
                    c >= '\0' && ' ' > c,
                    forall|k: u8| k < code ==> #[trigger] byte_char(k) != c,
                decreases 32 - code,
            {
                code = code + 1;
            }
            proof {
                if code >= 32 {
                    let k: u8 = (c as int) as u8;
                    assert(k as int == c as int);
                    assert(byte_char(k) as int == c as int);
                    assert(byte_char(k) == c);
                }
            }
            push_hex_digit(out, code / 16);
            push_hex_digit(out, code % 16);
        } else {
            crate::text::push_char(out, c);
        }
        proof {
            reveal_strlit("\\\"");
            reveal_strlit("\\\\");
            reveal_strlit("\\n");
            reveal_strlit("\\r");
            reveal_strlit("\\t");
            reveal_strlit("\\u00");
            assert(v@.take(i + 1).drop_last() =~= v@.take(i as int));
            assert(out@ =~= before + escape_char(c));
        }
        i += 1;
    }
    crate::text::push_char(out, '"');
    assert(v@.take(v@.len() as int) =~= v@);
}

pub open spec fn part_views(v: Seq<String>) -> Seq<Seq<char>> {
    v.map_values(|p: String| p@)
}

fn push_part(parts: &mut Vec<String>, part: String)
    ensures
        part_views(final(parts)@) == part_views(old(parts)@).push(part@),
{
    parts.push(part);
    assert(part_views(parts@) =~= part_views(old(parts)@).push(part@));
}

/// `'{' + parts.join(",") + '}'`.
fn object_of(parts: &Vec<String>) -> (r: String)
    ensures
        r@ == json_object(part_views(parts@)),
{
    let mut out = String::new();
    crate::text::push_char(&mut out, '{');
    let ghost head = out@;
    let mut i: usize = 0;
    while i < parts.len()
        invariant
            i <= parts@.len(),
            out@ == head + joined_parts(part_views(parts@.take(i as int))),
        decreases parts@.len() - i,
    {
        if i > 0 {
            crate::text::push_char(&mut out, ',');
        }
        crate::text::push_str(&mut out, parts[i].as_str());
        proof {
            let t = part_views(parts@.take(i + 1));
            assert(t.drop_last() =~= part_views(parts@.take(i as int)));
            if i == 0 {
                assert(joined_parts(part_views(parts@.take(0))) =~= Seq::<char>::empty());
            }
            assert(out@ =~= head + joined_parts(t));
        }
        i += 1;
    }
    assert(parts@.take(parts@.len() as int) =~= parts@);
    crate::text::push_char(&mut out, '}');
    assert(out@ =~= json_object(part_views(parts@)));
    out
}

fn keyed(key: &str, value: String) -> (r: String)
    ensures
        r@ == member(key@, value@),
{
    let mut s = String::new();
    push_json_string(&mut s, key);
    crate::text::push_char(&mut s, ':');
    crate::text::push_str(&mut s, value.as_str());
    assert(s@ =~= member(key@, value@));
    s
}

fn string_value(s: &str) -> (r: String)
    ensures
        r@ == json_string(s@),
{
    let mut out = String::new();
    push_json_string(&mut out, s);
    assert(out@ =~= json_string(s@));
    out
}

fn unsigned_value(n: u64) -> (r: String)
    ensures
        r@ == decimal_chars(n as nat),
{
    let mut out = String::new();
    crate::text::push_decimal(&mut out, n);
    assert(out@ =~= decimal_chars(n as nat));
    out
}

fn bool_value(d: bool) -> (r: String)
    ensures
        r@ == json_bool(d),
{
    if d {
        "true".to_owned()
    } else {
        "false".to_owned()
    }
}

fn encode_git(g: &GitInfo) -> (r: String)
    ensures
        r@ == json_object(git_parts(git_view(*g))),
{
    let mut parts: Vec<String> = Vec::new();
    let ghost mut ents: Seq<GitField> = Seq::empty();
    if let Some(branch) = &g.branch {
        push_part(&mut parts, keyed("branch", string_value(branch.as_str())));
        proof {
            ents = ents.push(GitField::Branch(branch@));
        }
    }
    assert(part_views(parts@) =~= ents.map_values(|f: GitField| git_member(f)));
    if let Some(d) = g.dirty {
        push_part(&mut parts, keyed("dirty", bool_value(d)));
        proof {
            ents = ents.push(GitField::Dirty(d));
        }
    }
    assert(part_views(parts@) =~= ents.map_values(|f: GitField| git_member(f)));
    if let Some(a) = g.ahead {
        push_part(&mut parts, keyed("ahead", unsigned_value(a as u64)));
        proof {
            ents = ents.push(GitField::Ahead(a));
        }
    }
    assert(part_views(parts@) =~= ents.map_values(|f: GitField| git_member(f)));
    if let Some(x) = g.behind {
        push_part(&mut parts, keyed("behind", unsigned_value(x as u64)));
        proof {
            ents = ents.push(GitField::Behind(x));
        }
    }
    assert(part_views(parts@) =~= ents.map_values(|f: GitField| git_member(f)));
    assert(ents =~= git_entries(git_view(*g)));
    object_of(&parts)
}

fn push_meta_member(
    parts: &mut Vec<String>,
    Ghost(ents): Ghost<Seq<MetaField>>,
    Ghost(f): Ghost<MetaField>,
    part: String,
) -> (r: Ghost<Seq<MetaField>>)
    requires
        part_views(old(parts)@) == ents.map_values(|x: MetaField| meta_member(x)),
        part@ == meta_member(f),
    ensures
        r@ == ents.push(f),
        part_views(final(parts)@) == r@.map_values(|x: MetaField| meta_member(x)),
{
    push_part(parts, part);
    assert(part_views(parts@) =~= ents.push(f).map_values(|x: MetaField| meta_member(x)));
    Ghost(ents.push(f))
}

pub open spec fn cwd_entry(m: MetaView) -> Seq<MetaField> {
    match m.cwd { Some(s) => seq![MetaField::Cwd(s)], None => Seq::empty() }
}

pub open spec fn git_entry(m: MetaView) -> Seq<MetaField> {
    match m.git { Some(g) => seq![MetaField::Git(g)], None => Seq::empty() }
}

pub open spec fn user_entry(m: MetaView) -> Seq<MetaField> {
    match m.user { Some(s) => seq![MetaField::User(s)], None => Seq::empty() }
}

pub open spec fn host_entry(m: MetaView) -> Seq<MetaField> {
    match m.host { Some(s) => seq![MetaField::Host(s)], None => Seq::empty() }
}

pub open spec fn shell_entry(m: MetaView) -> Seq<MetaField> {
    match m.shell { Some(s) => seq![MetaField::Shell(s)], None => Seq::empty() }
}

pub open spec fn exit_entry(m: MetaView) -> Seq<MetaField> {
    match m.exit { Some(e) => seq![MetaField::Exit(e)], None => Seq::empty() }
}

pub open spec fn runtime_entry(m: MetaView) -> Seq<MetaField> {
    match m.runtime_ms { Some(r) => seq![MetaField::RuntimeMs(r)], None => Seq::empty() }
}

#[verifier::spinoff_prover]
#[verifier::rlimit(40)]
fn encode_json(md: &BlockMetadata) -> (r: String)
    ensures
        r@ == json_text(meta_view(*md)),
{
    let ghost m = meta_view(*md);
    let mut parts: Vec<String> = Vec::new();
    let mut ents: Ghost<Seq<MetaField>> = Ghost(Seq::empty());
    assert(part_views(parts@) =~= ents@.map_values(|x: MetaField| meta_member(x)));
    if let Some(cwd) = &md.cwd {
        ents = push_meta_member(&mut parts, ents, Ghost(MetaField::Cwd(cwd@)), keyed("cwd", string_value(cwd.as_str())));
    }
    assert(ents@ =~= cwd_entry(m));
    if let Some(git) = &md.git {
        ents = push_meta_member(&mut parts, ents, Ghost(MetaField::Git(git_view(*git))), keyed("git", encode_git(git)));
    }
    assert(ents@ =~= cwd_entry(m) + git_entry(m));
    if let Some(user) = &md.user {
        ents = push_meta_member(&mut parts, ents, Ghost(MetaField::User(user@)), keyed("user", string_value(user.as_str())));
    }
    assert(ents@ =~= cwd_entry(m) + git_entry(m) + user_entry(m));
    if let Some(host) = &md.host {
        ents = push_meta_member(&mut parts, ents, Ghost(MetaField::Host(host@)), keyed("host", string_value(host.as_str())));
    }
    assert(ents@ =~= cwd_entry(m) + git_entry(m) + user_entry(m) + host_entry(m));
    if let Some(shell) = &md.shell {
        ents = push_meta_member(&mut parts, ents, Ghost(MetaField::Shell(shell@)), keyed("shell", string_value(shell.as_str())));
    }
    assert(ents@ =~= cwd_entry(m) + git_entry(m) + user_entry(m) + host_entry(m) + shell_entry(m));
    if let Some(exit) = md.exit {
        let mut v = String::new();
        crate::text::push_signed_decimal(&mut v, exit as i64);
        assert(v@ =~= signed_decimal_chars(exit as int));
        ents = push_meta_member(&mut parts, ents, Ghost(MetaField::Exit(exit)), keyed("exit", v));
    }
    assert(ents@ =~= cwd_entry(m) + git_entry(m) + user_entry(m) + host_entry(m) + shell_entry(m) + exit_entry(m));
    if let Some(rt) = md.runtime_ms {
        ents = push_meta_member(&mut parts, ents, Ghost(MetaField::RuntimeMs(rt)), keyed("runtime_ms", unsigned_value(rt)));
    }
    assert(ents@ =~= meta_entries(m));
    object_of(&parts)
}

/// Lower-case hex of `bytes`, two digits per byte.
pub fn encode_hex(bytes: &[u8]) -> (r: String)
    ensures
        r@ == hex_text(bytes@),
{
    let mut out = String::new();
    let mut i: usize = 0;
    while i < bytes.len()
        invariant
            i <= bytes@.len(),
            out@ == hex_text(bytes@.take(i as int)),
        decreases bytes@.len() - i,
    {
        let x = bytes[i];
        push_hex_digit(&mut out, x / 16);
        push_hex_digit(&mut out, x % 16);
        proof {
            assert(bytes@.take(i + 1).drop_last() =~= bytes@.take(i as int));
            assert(out@ =~= hex_text(bytes@.take(i + 1)));
        }
        i += 1;
    }
    assert(bytes@.take(bytes@.len() as int) =~= bytes@);
    out
}

/// Encodes metadata as hex-encoded JSON: the JSON object holds the
/// present fields in the order cwd, git, user, host, shell, exit,
/// runtime_ms.
pub fn encode(metadata: &BlockMetadata) -> (r: String)
    ensures
        r@ == spec_encode(meta_view(*metadata)),
{
    let json = encode_json(metadata);
    encode_hex(json.as_str().as_bytes())
}

} // verus!
