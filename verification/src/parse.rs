//! Character-level parsing of the JSON subset the wire format uses.
//!
//! Each `spec` function defines one production of the grammar over a
//! `Seq<char>` and a start position; each executable function returns
//! exactly what its `spec` counterpart says.  Positions index characters,
//! not bytes.  A parse result carries the position just past what was
//! consumed.

use vstd::prelude::*;

verus! {

/// JSON insignificant whitespace.
pub open spec fn is_ws(c: char) -> bool {
    c == ' ' || c == '\t' || c == '\n' || c == '\r'
}

/// The first position at or after `i` holding no whitespace.
pub open spec fn skip_ws(s: Seq<char>, i: int) -> int
    decreases s.len() - i,
{
    if 0 <= i < s.len() && is_ws(s[i]) {
        skip_ws(s, i + 1)
    } else {
        i
    }
}

/// A decimal digit.
pub open spec fn is_digit(c: char) -> bool {
    '0' <= c && c <= '9'
}

/// The first position at or after `i` holding no decimal digit.
pub open spec fn skip_digits(s: Seq<char>, i: int) -> int
    decreases s.len() - i,
{
    if 0 <= i < s.len() && is_digit(s[i]) {
        skip_digits(s, i + 1)
    } else {
        i
    }
}

/// The value of one hexadecimal digit, either case.
pub open spec fn hex_val(c: char) -> Option<int> {
    if '0' <= c && c <= '9' {
        Some(c as int - 48)
    } else if 'A' <= c && c <= 'F' {
        Some(c as int - 55)
    } else if 'a' <= c && c <= 'f' {
        Some(c as int - 87)
    } else {
        None
    }
}

/// The value of the four hexadecimal digits at `i`.
pub open spec fn spec_hex4(s: Seq<char>, i: int) -> Option<int> {
    if 0 <= i && i + 4 <= s.len() {
        match (hex_val(s[i]), hex_val(s[i + 1]), hex_val(s[i + 2]), hex_val(s[i + 3])) {
            (Some(a), Some(b), Some(c), Some(d)) => Some(a * 4096 + b * 256 + c * 16 + d),
            _ => None,
        }
    } else {
        None
    }
}

/// One string escape, `i` standing just after the backslash.  Yields the
/// decoded character and how many characters from `i` the escape spans.
/// A `\uXXXX` escape naming a high surrogate must be followed by one
/// naming a low surrogate; the pair decodes to one supplementary
/// character.  A lone surrogate is rejected.
pub open spec fn spec_escape(s: Seq<char>, i: int) -> Option<(char, int)> {
    if !(0 <= i < s.len()) {
        None
    } else {
        let c = s[i];
        if c == '"' {
            Some(('"', 1))
        } else if c == '\\' {
            Some(('\\', 1))
        } else if c == '/' {
            Some(('/', 1))
        } else if c == 'b' {
            Some(('\u{8}', 1))
        } else if c == 'f' {
            Some(('\u{c}', 1))
        } else if c == 'n' {
            Some(('\n', 1))
        } else if c == 'r' {
            Some(('\r', 1))
        } else if c == 't' {
            Some(('\t', 1))
        } else if c == 'u' {
            match spec_hex4(s, i + 1) {
                Some(h) => {
                    if 0xD800 <= h <= 0xDBFF {
                        if i + 6 < s.len() && s[i + 5] == '\\' && s[i + 6] == 'u' {
                            match spec_hex4(s, i + 7) {
                                Some(l) => if 0xDC00 <= l <= 0xDFFF {
                                    Some(
                                        (
                                            (0x10000 + (h - 0xD800) * 0x400 + (l
                                                - 0xDC00)) as char,
                                            11,
                                        ),
                                    )
                                } else {
                                    None
                                },
                                None => None,
                            }
                        } else {
                            None
                        }
                    } else if 0xDC00 <= h <= 0xDFFF {
                        None
                    } else {
                        Some((h as char, 5))
                    }
                },
                None => None,
            }
        } else {
            None
        }
    }
}

/// The body of a JSON string, `i` standing just after the opening quote.
/// Yields the decoded content and the position just past the closing
/// quote.  Raw control characters are rejected.
pub open spec fn spec_str_body(s: Seq<char>, i: int) -> Option<(Seq<char>, int)>
    decreases s.len() - i,
{
    if !(0 <= i < s.len()) {
        None
    } else if s[i] == '"' {
        Some((Seq::empty(), i + 1))
    } else if s[i] == '\\' {
        match spec_escape(s, i + 1) {
            Some((c, n)) => if 1 <= n && i + 1 + n <= s.len() {
                match spec_str_body(s, i + 1 + n) {
                    Some((t, j)) => Some((seq![c] + t, j)),
                    None => None,
                }
            } else {
                None
            },
            None => None,
        }
    } else if (s[i] as u32) < 32 {
        None
    } else {
        match spec_str_body(s, i + 1) {
            Some((t, j)) => Some((seq![s[i]] + t, j)),
            None => None,
        }
    }
}

/// The fraction part of a JSON number, if one stands at `j`; yields the
/// position after it.
pub open spec fn spec_frac(s: Seq<char>, j: int) -> Option<int> {
    if 0 <= j < s.len() && s[j] == '.' {
        if j + 1 < s.len() && is_digit(s[j + 1]) {
            Some(skip_digits(s, j + 1))
        } else {
            None
        }
    } else {
        Some(j)
    }
}

/// The exponent part of a JSON number, if one stands at `k`; yields the
/// position after it.
pub open spec fn spec_exp(s: Seq<char>, k: int) -> Option<int> {
    if 0 <= k < s.len() && (s[k] == 'e' || s[k] == 'E') {
        let m = if k + 1 < s.len() && (s[k + 1] == '+' || s[k + 1] == '-') {
            k + 2
        } else {
            k + 1
        };
        if m < s.len() && is_digit(s[m]) {
            Some(skip_digits(s, m))
        } else {
            None
        }
    } else {
        Some(k)
    }
}

/// A whole JSON number at `i0`: optional minus, an integer part with no
/// leading zero, optional fraction and exponent.
pub open spec fn spec_number(s: Seq<char>, i0: int) -> Option<int> {
    let i = if 0 <= i0 < s.len() && s[i0] == '-' {
        i0 + 1
    } else {
        i0
    };
    if !(0 <= i < s.len() && is_digit(s[i])) {
        None
    } else {
        let j = if s[i] == '0' {
            i + 1
        } else {
            skip_digits(s, i)
        };
        match spec_frac(s, j) {
            Some(k) => spec_exp(s, k),
            None => None,
        }
    }
}

/// One of the literals `true`, `false`, `null` at `i`.
pub open spec fn spec_lit(s: Seq<char>, i: int) -> Option<int> {
    if 0 <= i && i + 4 <= s.len() && s[i] == 't' && s[i + 1] == 'r' && s[i + 2] == 'u' && s[i + 3]
        == 'e' {
        Some(i + 4)
    } else if 0 <= i && i + 5 <= s.len() && s[i] == 'f' && s[i + 1] == 'a' && s[i + 2] == 'l' && s[i
        + 3] == 's' && s[i + 4] == 'e' {
        Some(i + 5)
    } else if 0 <= i && i + 4 <= s.len() && s[i] == 'n' && s[i + 1] == 'u' && s[i + 2] == 'l' && s[i
        + 3] == 'l' {
        Some(i + 4)
    } else {
        None
    }
}

/// Any JSON value at `i`: a string, object, array, literal or number.
/// Yields the position after it.  Members and elements a request carries
/// besides `id` are validated and skipped by these productions.
pub open spec fn spec_skip_value(s: Seq<char>, i: int) -> Option<int>
    decreases s.len() - i, 0int,
{
    if !(0 <= i < s.len()) {
        None
    } else if s[i] == '"' {
        match spec_str_body(s, i + 1) {
            Some((t, j)) => Some(j),
            None => None,
        }
    } else if s[i] == '{' {
        let j = skip_ws(s, i + 1);
        if j < s.len() && s[j] == '}' {
            Some(j + 1)
        } else if i < j <= s.len() {
            spec_skip_members(s, j)
        } else {
            None
        }
    } else if s[i] == '[' {
        let j = skip_ws(s, i + 1);
        if j < s.len() && s[j] == ']' {
            Some(j + 1)
        } else if i < j <= s.len() {
            spec_skip_elems(s, j)
        } else {
            None
        }
    } else if spec_lit(s, i) is Some {
        spec_lit(s, i)
    } else {
        spec_number(s, i)
    }
}

/// The members of an object from the first key's quote on, through the
/// closing brace.
pub open spec fn spec_skip_members(s: Seq<char>, i: int) -> Option<int>
    decreases s.len() - i, 1int,
{
    if !(0 <= i < s.len() && s[i] == '"') {
        None
    } else {
        match spec_str_body(s, i + 1) {
            Some((k, j)) => {
                let j2 = skip_ws(s, j);
                if j2 < s.len() && s[j2] == ':' {
                    let p = skip_ws(s, j2 + 1);
                    if i < p <= s.len() {
                        match spec_skip_value(s, p) {
                            Some(q) => {
                                let r = skip_ws(s, q);
                                if r < s.len() && s[r] == ',' {
                                    let m = skip_ws(s, r + 1);
                                    if i < m <= s.len() {
                                        spec_skip_members(s, m)
                                    } else {
                                        None
                                    }
                                } else if r < s.len() && s[r] == '}' {
                                    Some(r + 1)
                                } else {
                                    None
                                }
                            },
                            None => None,
                        }
                    } else {
                        None
                    }
                } else {
                    None
                }
            },
            None => None,
        }
    }
}

/// The elements of an array from the first element on, through the
/// closing bracket.
pub open spec fn spec_skip_elems(s: Seq<char>, i: int) -> Option<int>
    decreases s.len() - i, 1int,
{
    if !(0 <= i < s.len()) {
        None
    } else {
        match spec_skip_value(s, i) {
            Some(q) => {
                let r = skip_ws(s, q);
                if r < s.len() && s[r] == ',' {
                    let m = skip_ws(s, r + 1);
                    if i < m <= s.len() {
                        spec_skip_elems(s, m)
                    } else {
                        None
                    }
                } else if r < s.len() && s[r] == ']' {
                    Some(r + 1)
                } else {
                    None
                }
            },
            None => None,
        }
    }
}

/// The first non-whitespace position at or after `i`.
pub fn ws_skip(s: &Vec<char>, i: usize) -> (r: usize)
    requires
        i <= s@.len(),
    ensures
        r as int == skip_ws(s@, i as int),
        i <= r <= s@.len(),
    decreases s@.len() - i,
{
    if i < s.len() {
        let c = s[i];
        if c == ' ' || c == '\t' || c == '\n' || c == '\r' {
            return ws_skip(s, i + 1);
        }
    }
    i
}

/// The first position at or after `i` holding no decimal digit.
pub fn digits_skip(s: &Vec<char>, i: usize) -> (r: usize)
    requires
        i <= s@.len(),
    ensures
        r as int == skip_digits(s@, i as int),
        i <= r <= s@.len(),
    decreases s@.len() - i,
{
    if i < s.len() {
        let c = s[i];
        if '0' <= c && c <= '9' {
            return digits_skip(s, i + 1);
        }
    }
    i
}

/// The value of one hexadecimal digit, either case.
pub fn hex_val_x(c: char) -> (r: Option<u32>)
    ensures
        match r {
            Some(v) => hex_val(c) == Some(v as int) && v < 16,
            None => hex_val(c) is None,
        },
{
    if '0' <= c && c <= '9' {
        Some(c as u32 - 48)
    } else if 'A' <= c && c <= 'F' {
        Some(c as u32 - 55)
    } else if 'a' <= c && c <= 'f' {
        Some(c as u32 - 87)
    } else {
        None
    }
}

/// The value of the four hexadecimal digits at `i`.
pub fn hex4_x(s: &Vec<char>, i: usize) -> (r: Option<u32>)
    ensures
        match r {
            Some(v) => spec_hex4(s@, i as int) == Some(v as int) && v < 0x10000,
            None => spec_hex4(s@, i as int) is None,
        },
{
    if s.len() >= 4 && i <= s.len() - 4 {
        let a = hex_val_x(s[i]);
        let b = hex_val_x(s[i + 1]);
        let c = hex_val_x(s[i + 2]);
        let d = hex_val_x(s[i + 3]);
        match (a, b, c, d) {
            (Some(a), Some(b), Some(c), Some(d)) => Some(a * 4096 + b * 256 + c * 16 + d),
            _ => None,
        }
    } else {
        None
    }
}

/// Relies on `char::from_u32`: `Some` of the character exactly on Unicode
/// scalar values, `None` on surrogates and values past the maximum.
#[verifier::external_body]
fn char_from_u32(v: u32) -> (r: Option<char>)
    ensures
        r == if v < 0xD800 || (0xE000 <= v && v <= 0x10FFFF) {
            Some(v as char)
        } else {
            None::<char>
        },
{
    char::from_u32(v)
}

/// One string escape, `i` standing just after the backslash.
pub fn escape_x(s: &Vec<char>, i: usize) -> (r: Option<(char, usize)>)
    ensures
        match r {
            Some((c, n)) => spec_escape(s@, i as int) == Some((c, n as int)) && 1 <= n
                && i + n <= s@.len(),
            None => spec_escape(s@, i as int) is None,
        },
{
    if i >= s.len() {
        return None;
    }
    let c = s[i];
    if c == '"' {
        Some(('"', 1))
    } else if c == '\\' {
        Some(('\\', 1))
    } else if c == '/' {
        Some(('/', 1))
    } else if c == 'b' {
        Some(('\u{8}', 1))
    } else if c == 'f' {
        Some(('\u{c}', 1))
    } else if c == 'n' {
        Some(('\n', 1))
    } else if c == 'r' {
        Some(('\r', 1))
    } else if c == 't' {
        Some(('\t', 1))
    } else if c == 'u' {
        match hex4_x(s, i + 1) {
            Some(h) => {
                if 0xD800 <= h && h <= 0xDBFF {
                    if s.len() > 6 && i < s.len() - 6 && s[i + 5] == '\\' && s[i + 6] == 'u' {
                        match hex4_x(s, i + 7) {
                            Some(l) => if 0xDC00 <= l && l <= 0xDFFF {
                                let v: u32 = 0x10000 + (h - 0xD800) * 0x400 + (l - 0xDC00);
                                if let Some(c2) = char_from_u32(v) {
                                    Some((c2, 11))
                                } else {
                                    proof {
                                        assert(false);
                                    }
                                    None
                                }
                            } else {
                                None
                            },
                            None => None,
                        }
                    } else {
                        None
                    }
                } else if 0xDC00 <= h && h <= 0xDFFF {
                    None
                } else {
                    if let Some(c2) = char_from_u32(h) {
                        Some((c2, 5))
                    } else {
                        proof {
                            assert(false);
                        }
                        None
                    }
                }
            },
            None => None,
        }
    } else {
        None
    }
}

/// A decimal digit.
pub fn is_digit_x(c: char) -> (b: bool)
    ensures
        b == is_digit(c),
{
    '0' <= c && c <= '9'
}

/// The fraction part of a JSON number, if one stands at `j`.
pub fn frac_x(s: &Vec<char>, j: usize) -> (r: Option<usize>)
    requires
        j <= s@.len(),
    ensures
        match r {
            Some(k) => spec_frac(s@, j as int) == Some(k as int) && k <= s@.len(),
            None => spec_frac(s@, j as int) is None,
        },
{
    if j < s.len() && s[j] == '.' {
        if s.len() - j > 1 && is_digit_x(s[j + 1]) {
            Some(digits_skip(s, j + 1))
        } else {
            None
        }
    } else {
        Some(j)
    }
}

/// The exponent part of a JSON number, if one stands at `k`.
pub fn exp_x(s: &Vec<char>, k: usize) -> (r: Option<usize>)
    requires
        k <= s@.len(),
    ensures
        match r {
            Some(m) => spec_exp(s@, k as int) == Some(m as int) && m <= s@.len(),
            None => spec_exp(s@, k as int) is None,
        },
{
    if k < s.len() && (s[k] == 'e' || s[k] == 'E') {
        let m: usize = if s.len() - k > 1 && (s[k + 1] == '+' || s[k + 1] == '-') {
            k + 2
        } else {
            k + 1
        };
        if m < s.len() && is_digit_x(s[m]) {
            Some(digits_skip(s, m))
        } else {
            None
        }
    } else {
        Some(k)
    }
}

/// A whole JSON number at `i0`.
pub fn number_x(s: &Vec<char>, i0: usize) -> (r: Option<usize>)
    requires
        i0 <= s@.len(),
    ensures
        match r {
            Some(e) => spec_number(s@, i0 as int) == Some(e as int) && e <= s@.len(),
            None => spec_number(s@, i0 as int) is None,
        },
{
    let i: usize = if i0 < s.len() && s[i0] == '-' {
        i0 + 1
    } else {
        i0
    };
    if !(i < s.len() && is_digit_x(s[i])) {
        return None;
    }
    let j: usize = if s[i] == '0' {
        i + 1
    } else {
        digits_skip(s, i)
    };
    match frac_x(s, j) {
        Some(k) => exp_x(s, k),
        None => None,
    }
}

/// One of the literals `true`, `false`, `null` at `i`.
pub fn lit_x(s: &Vec<char>, i: usize) -> (r: Option<usize>)
    ensures
        match r {
            Some(e) => spec_lit(s@, i as int) == Some(e as int) && e <= s@.len(),
            None => spec_lit(s@, i as int) is None,
        },
{
    if s.len() >= 4 && i <= s.len() - 4 && s[i] == 't' && s[i + 1] == 'r' && s[i + 2] == 'u' && s[i
        + 3] == 'e' {
        Some(i + 4)
    } else if s.len() >= 5 && i <= s.len() - 5 && s[i] == 'f' && s[i + 1] == 'a' && s[i + 2] == 'l'
        && s[i + 3] == 's' && s[i + 4] == 'e' {
        Some(i + 5)
    } else if s.len() >= 4 && i <= s.len() - 4 && s[i] == 'n' && s[i + 1] == 'u' && s[i + 2] == 'l'
        && s[i + 3] == 'l' {
        Some(i + 4)
    } else {
        None
    }
}

/// Any JSON value at `i`; yields the position after it.
pub fn skip_value_x(s: &Vec<char>, i: usize) -> (r: Option<usize>)
    requires
        i <= s@.len(),
    ensures
        match r {
            Some(j) => spec_skip_value(s@, i as int) == Some(j as int) && j <= s@.len(),
            None => spec_skip_value(s@, i as int) is None,
        },
    decreases s@.len() - i, 0int,
{
    if i >= s.len() {
        return None;
    }
    let c = s[i];
    if c == '"' {
        match str_body_x(s, i + 1) {
            Some((_t, j)) => Some(j),
            None => None,
        }
    } else if c == '{' {
        let j = ws_skip(s, i + 1);
        if j < s.len() && s[j] == '}' {
            Some(j + 1)
        } else if j > i {
            skip_members_x(s, j)
        } else {
            None
        }
    } else if c == '[' {
        let j = ws_skip(s, i + 1);
        if j < s.len() && s[j] == ']' {
            Some(j + 1)
        } else if j > i {
            skip_elems_x(s, j)
        } else {
            None
        }
    } else {
        match lit_x(s, i) {
            Some(e) => Some(e),
            None => number_x(s, i),
        }
    }
}

/// The members of an object from the first key's quote on.
pub fn skip_members_x(s: &Vec<char>, i: usize) -> (r: Option<usize>)
    requires
        i <= s@.len(),
    ensures
        match r {
            Some(j) => spec_skip_members(s@, i as int) == Some(j as int) && j <= s@.len(),
            None => spec_skip_members(s@, i as int) is None,
        },
    decreases s@.len() - i, 1int,
{
    if !(i < s.len() && s[i] == '"') {
        return None;
    }
    match str_body_x(s, i + 1) {
        Some((_k, j)) => {
            let j2 = ws_skip(s, j);
            if j2 < s.len() && s[j2] == ':' {
                let p = ws_skip(s, j2 + 1);
                if p > i {
                    match skip_value_x(s, p) {
                        Some(q) => {
                            let r2 = ws_skip(s, q);
                            if r2 < s.len() && s[r2] == ',' {
                                let m = ws_skip(s, r2 + 1);
                                if m > i {
                                    skip_members_x(s, m)
                                } else {
                                    None
                                }
                            } else if r2 < s.len() && s[r2] == '}' {
                                Some(r2 + 1)
                            } else {
                                None
                            }
                        },
                        None => None,
                    }
                } else {
                    None
                }
            } else {
                None
            }
        },
        None => None,
    }
}

/// The elements of an array from the first element on.
pub fn skip_elems_x(s: &Vec<char>, i: usize) -> (r: Option<usize>)
    requires
        i <= s@.len(),
    ensures
        match r {
            Some(j) => spec_skip_elems(s@, i as int) == Some(j as int) && j <= s@.len(),
            None => spec_skip_elems(s@, i as int) is None,
        },
    decreases s@.len() - i, 1int,
{
    if i >= s.len() {
        return None;
    }
    match skip_value_x(s, i) {
        Some(q) => {
            let r2 = ws_skip(s, q);
            if r2 < s.len() && s[r2] == ',' {
                let m = ws_skip(s, r2 + 1);
                if m > i {
                    skip_elems_x(s, m)
                } else {
                    None
                }
            } else if r2 < s.len() && s[r2] == ']' {
                Some(r2 + 1)
            } else {
                None
            }
        },
        None => None,
    }
}

/// The body of a JSON string, `i` standing just after the opening quote.
pub fn str_body_x(s: &Vec<char>, i: usize) -> (r: Option<(Vec<char>, usize)>)
    ensures
        match r {
            Some((t, j)) => spec_str_body(s@, i as int) == Some((t@, j as int)) && i < j
                <= s@.len(),
            None => spec_str_body(s@, i as int) is None,
        },
    decreases s@.len() - i,
{
    if i >= s.len() {
        return None;
    }
    let c = s[i];
    if c == '"' {
        Some((Vec::new(), i + 1))
    } else if c == '\\' {
        match escape_x(s, i + 1) {
            Some((c2, n)) => {
                match str_body_x(s, i + 1 + n) {
                    Some((mut t, j)) => {
                        let ghost t0 = t@;
                        t.insert(0, c2);
                        proof {
                            assert(t@ =~= seq![c2] + t0);
                        }
                        Some((t, j))
                    },
                    None => None,
                }
            },
            None => None,
        }
    } else if (c as u32) < 32 {
        None
    } else {
        match str_body_x(s, i + 1) {
            Some((mut t, j)) => {
                let ghost t0 = t@;
                t.insert(0, c);
                proof {
                    assert(t@ =~= seq![c] + t0);
                }
                Some((t, j))
            },
            None => None,
        }
    }
}

} // verus!
