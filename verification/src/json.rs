//! A JSON document model with a verified parser and the string escaping
//! needed to build request lines.
//!
//! Values are modelled twice: `Json` is the executable tree, `JsonV` its
//! mathematical counterpart built from `Seq`. The wire grammar is defined by
//! the specification-level parser (`sp_value` and friends); the executable
//! parser is proved to return exactly what that grammar says. Strings are
//! kept as decoded UTF-8 bytes, numbers as their unparsed lexeme (no command
//! in this protocol reads a numeric field), and nesting is limited to a fixed
//! depth, beyond which a document counts as malformed.

use vstd::prelude::*;

verus! {

/// An executable JSON value.
#[derive(Debug, PartialEq, Eq)]
pub enum Json {
    Null,
    Bool(bool),
    Num(Vec<u8>),
    Str(Vec<u8>),
    Arr(Box<JsonList>),
    Obj(Box<JsonMembers>),
}

/// The elements of a JSON array, as a cons list.
#[derive(Debug, PartialEq, Eq)]
pub enum JsonList {
    Nil,
    Cons(Box<Json>, Box<JsonList>),
}

/// The members of a JSON object, in the order they appear on the wire.
#[derive(Debug, PartialEq, Eq)]
pub enum JsonMembers {
    Nil,
    Cons(Vec<u8>, Box<Json>, Box<JsonMembers>),
}

/// The mathematical shape of a JSON value.
pub enum JsonV {
    Null,
    Bool(bool),
    Num(Seq<u8>),
    Str(Seq<u8>),
    Arr(Seq<JsonV>),
    Obj(Seq<(Seq<u8>, JsonV)>),
}

/// Abstraction of an executable JSON value.
pub open spec fn jv(j: Json) -> JsonV
    decreases j,
{
    match j {
        Json::Null => JsonV::Null,
        Json::Bool(b) => JsonV::Bool(b),
        Json::Num(n) => JsonV::Num(n@),
        Json::Str(s) => JsonV::Str(s@),
        Json::Arr(l) => JsonV::Arr(jlv(*l)),
        Json::Obj(m) => JsonV::Obj(jmv(*m)),
    }
}

/// Abstraction of an executable element list.
pub open spec fn jlv(l: JsonList) -> Seq<JsonV>
    decreases l,
{
    match l {
        JsonList::Nil => Seq::empty(),
        JsonList::Cons(h, t) => seq![jv(*h)] + jlv(*t),
    }
}

/// Abstraction of an executable member list.
pub open spec fn jmv(m: JsonMembers) -> Seq<(Seq<u8>, JsonV)>
    decreases m,
{
    match m {
        JsonMembers::Nil => Seq::empty(),
        JsonMembers::Cons(k, v, t) => seq![(k@, jv(*v))] + jmv(*t),
    }
}

impl View for Json {
    type V = JsonV;

    open spec fn view(&self) -> JsonV {
        jv(*self)
    }
}

// ---------------------------------------------------------------------------
// Byte classes
// ---------------------------------------------------------------------------

/// A byte is JSON whitespace.
pub open spec fn spec_is_ws(b: u8) -> bool {
    b == 0x20 || b == 0x09 || b == 0x0a || b == 0x0d
}

/// A byte is an ASCII digit.
pub open spec fn spec_is_digit(b: u8) -> bool {
    0x30 <= b && b <= 0x39
}

/// The value of a hexadecimal digit byte.
pub open spec fn spec_hexval(b: u8) -> Option<int> {
    if 0x30 <= b && b <= 0x39 {
        Some(b - 0x30)
    } else if 0x61 <= b && b <= 0x66 {
        Some(b - 0x61 + 10)
    } else if 0x41 <= b && b <= 0x46 {
        Some(b - 0x41 + 10)
    } else {
        None
    }
}

/// The byte denoted by a one-character escape, if the character is a legal
/// escape.
pub open spec fn spec_unescape(e: u8) -> Option<u8> {
    if e == 0x22 {
        Some(0x22u8)
    } else if e == 0x5c {
        Some(0x5cu8)
    } else if e == 0x2f {
        Some(0x2fu8)
    } else if e == 0x62 {
        Some(0x08u8)
    } else if e == 0x66 {
        Some(0x0cu8)
    } else if e == 0x6e {
        Some(0x0au8)
    } else if e == 0x72 {
        Some(0x0du8)
    } else if e == 0x74 {
        Some(0x09u8)
    } else {
        None
    }
}

/// UTF-8 encoding of a scalar value below 0x10000.
pub open spec fn spec_utf8(c: int) -> Seq<u8> {
    if c < 0x80 {
        seq![c as u8]
    } else if c < 0x800 {
        seq![(0xc0 + c / 64) as u8, (0x80 + c % 64) as u8]
    } else {
        seq![(0xe0 + c / 4096) as u8, (0x80 + (c / 64) % 64) as u8, (0x80 + c % 64) as u8]
    }
}

// ---------------------------------------------------------------------------
// Positional scanners of the grammar
// ---------------------------------------------------------------------------

/// Number of whitespace bytes at position `i`.
pub open spec fn sp_ws_count(s: Seq<u8>, i: int) -> nat
    decreases s.len() - i,
{
    if 0 <= i && i < s.len() && spec_is_ws(s[i]) {
        1 + sp_ws_count(s, i + 1)
    } else {
        0
    }
}

/// First position at or after `i` that does not hold whitespace.
pub open spec fn sp_ws(s: Seq<u8>, i: int) -> int {
    i + sp_ws_count(s, i)
}

/// Number of digit bytes at position `i`.
pub open spec fn sp_digit_count(s: Seq<u8>, i: int) -> nat
    decreases s.len() - i,
{
    if 0 <= i && i < s.len() && spec_is_digit(s[i]) {
        1 + sp_digit_count(s, i + 1)
    } else {
        0
    }
}

/// Value of four hexadecimal digit bytes at position `i` (which must be in
/// bounds).
pub open spec fn sp_hex4(s: Seq<u8>, i: int) -> Option<int> {
    match (spec_hexval(s[i]), spec_hexval(s[i + 1]), spec_hexval(s[i + 2]), spec_hexval(
        s[i + 3],
    )) {
        (Some(a), Some(b), Some(c), Some(d)) => Some(a * 4096 + b * 256 + c * 16 + d),
        _ => None,
    }
}

/// String contents starting just after an opening quote at `i - 1`: the
/// decoded bytes and the position just after the closing quote. Unicode
/// escapes in the surrogate range are not accepted.
pub open spec fn sp_str_rest(s: Seq<u8>, i: int) -> Option<(Seq<u8>, int)>
    decreases s.len() - i,
{
    if i < 0 || i >= s.len() {
        None
    } else if s[i] == 0x22 {
        Some((Seq::empty(), i + 1))
    } else if s[i] == 0x5c {
        if i + 1 >= s.len() {
            None
        } else if s[i + 1] == 0x75 {
            if i + 6 > s.len() {
                None
            } else {
                match sp_hex4(s, i + 2) {
                    None => None,
                    Some(c) => if 0xd800 <= c && c < 0xe000 {
                        None
                    } else {
                        match sp_str_rest(s, i + 6) {
                            None => None,
                            Some((t, k)) => Some((spec_utf8(c) + t, k)),
                        }
                    },
                }
            }
        } else {
            match spec_unescape(s[i + 1]) {
                None => None,
                Some(b) => match sp_str_rest(s, i + 2) {
                    None => None,
                    Some((t, k)) => Some((seq![b] + t, k)),
                },
            }
        }
    } else if s[i] < 0x20 {
        None
    } else {
        match sp_str_rest(s, i + 1) {
            None => None,
            Some((t, k)) => Some((seq![s[i]] + t, k)),
        }
    }
}

/// End of the fraction part of a number whose integer part ends at `k`.
pub open spec fn sp_frac_end(s: Seq<u8>, k: int) -> Option<int> {
    if 0 <= k && k < s.len() && s[k] == 0x2e {
        let d = sp_digit_count(s, k + 1);
        if d == 0 {
            None
        } else {
            Some(k + 1 + d)
        }
    } else {
        Some(k)
    }
}

/// End of the exponent part of a number whose fraction part ends at `k`.
pub open spec fn sp_exp_end(s: Seq<u8>, k: int) -> Option<int> {
    if 0 <= k && k < s.len() && (s[k] == 0x65 || s[k] == 0x45) {
        let m = if k + 1 < s.len() && (s[k + 1] == 0x2b || s[k + 1] == 0x2d) {
            k + 2
        } else {
            k + 1
        };
        let d = sp_digit_count(s, m);
        if d == 0 {
            None
        } else {
            Some(m + d)
        }
    } else {
        Some(k)
    }
}

/// End of the number lexeme starting at `i`, or `None` if the bytes at `i`
/// do not form a number.
pub open spec fn sp_number_end(s: Seq<u8>, i: int) -> Option<int> {
    let j = if 0 <= i && i < s.len() && s[i] == 0x2d {
        i + 1
    } else {
        i
    };
    if j < 0 || j >= s.len() || !spec_is_digit(s[j]) {
        None
    } else {
        let k = if s[j] == 0x30 {
            j + 1
        } else {
            j + sp_digit_count(s, j)
        };
        match sp_frac_end(s, k) {
            None => None,
            Some(k2) => sp_exp_end(s, k2),
        }
    }
}

// ---------------------------------------------------------------------------
// The grammar of values
// ---------------------------------------------------------------------------

/// Nesting allowed below the document root before a document counts as
/// malformed.
pub open spec fn spec_depth_limit() -> nat {
    128
}

/// A JSON value starting at `i`: the value and the position just after it.
/// `depth` limits nesting; `fuel` only makes the recursion well-founded and
/// does not change the result once it is at least `2 * (s.len() - i) + 1`
/// (the executable parser is proved to agree with every such fuel).
pub open spec fn sp_value(s: Seq<u8>, i: int, depth: nat, fuel: nat) -> Option<(JsonV, int)>
    decreases fuel,
{
    if fuel == 0 {
        None
    } else if i < 0 || i >= s.len() {
        None
    } else {
        let b = s[i];
        if b == 0x6e {  // 'n'
            if i + 4 <= s.len() && s[i + 1] == 0x75 && s[i + 2] == 0x6c && s[i + 3] == 0x6c {
                Some((JsonV::Null, i + 4))
            } else {
                None
            }
        } else if b == 0x74 {  // 't'
            if i + 4 <= s.len() && s[i + 1] == 0x72 && s[i + 2] == 0x75 && s[i + 3] == 0x65 {
                Some((JsonV::Bool(true), i + 4))
            } else {
                None
            }
        } else if b == 0x66 {  // 'f'
            if i + 5 <= s.len() && s[i + 1] == 0x61 && s[i + 2] == 0x6c && s[i + 3] == 0x73 && s[i
                + 4] == 0x65 {
                Some((JsonV::Bool(false), i + 5))
            } else {
                None
            }
        } else if b == 0x22 {  // '"'
            match sp_str_rest(s, i + 1) {
                None => None,
                Some((c, k)) => Some((JsonV::Str(c), k)),
            }
        } else if b == 0x2d || spec_is_digit(b) {
            match sp_number_end(s, i) {
                None => None,
                Some(k) => Some((JsonV::Num(s.subrange(i, k)), k)),
            }
        } else if b == 0x5b {  // '['
            if depth == 0 {
                None
            } else {
                let j = sp_ws(s, i + 1);
                if j < s.len() && s[j] == 0x5d {
                    Some((JsonV::Arr(Seq::empty()), j + 1))
                } else {
                    match sp_elements(s, i + 1, (depth - 1) as nat, (fuel - 1) as nat) {
                        None => None,
                        Some((es, k)) => Some((JsonV::Arr(es), k)),
                    }
                }
            }
        } else if b == 0x7b {  // '{'
            if depth == 0 {
                None
            } else {
                let j = sp_ws(s, i + 1);
                if j < s.len() && s[j] == 0x7d {
                    Some((JsonV::Obj(Seq::empty()), j + 1))
                } else {
                    match sp_members(s, i + 1, (depth - 1) as nat, (fuel - 1) as nat) {
                        None => None,
                        Some((ms, k)) => Some((JsonV::Obj(ms), k)),
                    }
                }
            }
        } else {
            None
        }
    }
}

/// One or more comma-separated array elements starting at `i` (just after
/// `[` or `,`), ending with `]`.
pub open spec fn sp_elements(s: Seq<u8>, i: int, depth: nat, fuel: nat) -> Option<
    (Seq<JsonV>, int),
>
    decreases fuel,
{
    if fuel == 0 {
        None
    } else {
        let j = sp_ws(s, i);
        match sp_value(s, j, depth, (fuel - 1) as nat) {
            None => None,
            Some((v, k)) => {
                let k2 = sp_ws(s, k);
                if k2 < s.len() && s[k2] == 0x2c {  // ','
                    match sp_elements(s, k2 + 1, depth, (fuel - 1) as nat) {
                        None => None,
                        Some((es, m)) => Some((seq![v] + es, m)),
                    }
                } else if k2 < s.len() && s[k2] == 0x5d {  // ']'
                    Some((seq![v], k2 + 1))
                } else {
                    None
                }
            },
        }
    }
}

/// One or more comma-separated object members starting at `i` (just after
/// `{` or `,`), ending with `}`.
pub open spec fn sp_members(s: Seq<u8>, i: int, depth: nat, fuel: nat) -> Option<
    (Seq<(Seq<u8>, JsonV)>, int),
>
    decreases fuel,
{
    if fuel == 0 {
        None
    } else {
        let j = sp_ws(s, i);
        if !(j < s.len() && s[j] == 0x22) {
            None
        } else {
            match sp_str_rest(s, j + 1) {
                None => None,
                Some((key, k)) => {
                    let j2 = sp_ws(s, k);
                    if !(j2 < s.len() && s[j2] == 0x3a) {  // ':'
                        None
                    } else {
                        let j3 = sp_ws(s, j2 + 1);
                        match sp_value(s, j3, depth, (fuel - 1) as nat) {
                            None => None,
                            Some((v, k3)) => {
                                let k4 = sp_ws(s, k3);
                                if k4 < s.len() && s[k4] == 0x2c {  // ','
                                    match sp_members(s, k4 + 1, depth, (fuel - 1) as nat) {
                                        None => None,
                                        Some((ms, m)) => Some((seq![(key, v)] + ms, m)),
                                    }
                                } else if k4 < s.len() && s[k4] == 0x7d {  // '}'
                                    Some((seq![(key, v)], k4 + 1))
                                } else {
                                    None
                                }
                            },
                        }
                    }
                },
            }
        }
    }
}

/// The whole-line grammar: optional whitespace, one value, optional
/// whitespace, nothing else.
pub open spec fn spec_json_doc(s: Seq<u8>) -> Option<JsonV> {
    let i = sp_ws(s, 0);
    match sp_value(s, i, spec_depth_limit(), (2 * s.len() + 1) as nat) {
        None => None,
        Some((v, k)) => if sp_ws(s, k) == s.len() {
            Some(v)
        } else {
            None
        },
    }
}

// ---------------------------------------------------------------------------
// Executable scanners
// ---------------------------------------------------------------------------

/// Skip whitespace from `i`.
fn skip_ws(s: &Vec<u8>, i: usize) -> (j: usize)
    requires
        i <= s@.len(),
    ensures
        i <= j <= s@.len(),
        j as int == sp_ws(s@, i as int),
{
    let mut j = i;
    loop
        invariant
            i <= j <= s@.len(),
            sp_ws(s@, i as int) == sp_ws(s@, j as int),
        decreases s@.len() - j,
    {
        if j == s.len() {
            return j;
        }
        let b = s[j];
        if !(b == 0x20 || b == 0x09 || b == 0x0a || b == 0x0d) {
            return j;
        }
        proof {
            assert(sp_ws_count(s@, j as int) == 1 + sp_ws_count(s@, j as int + 1));
        }
        j = j + 1;
    }
}

/// Skip digits from `i`.
fn skip_digits(s: &Vec<u8>, i: usize) -> (j: usize)
    requires
        i <= s@.len(),
    ensures
        i <= j <= s@.len(),
        j as int == i + sp_digit_count(s@, i as int),
{
    let mut j = i;
    loop
        invariant
            i <= j <= s@.len(),
            sp_digit_count(s@, i as int) == (j - i) + sp_digit_count(s@, j as int),
        decreases s@.len() - j,
    {
        if j == s.len() {
            return j;
        }
        let b = s[j];
        if !(0x30 <= b && b <= 0x39) {
            return j;
        }
        proof {
            assert(sp_digit_count(s@, j as int) == 1 + sp_digit_count(s@, j as int + 1));
        }
        j = j + 1;
    }
}

/// Value of one hexadecimal digit byte.
fn hexval(b: u8) -> (r: Option<u8>)
    ensures
        match r {
            Some(v) => spec_hexval(b) == Some(v as int) && v < 16,
            None => spec_hexval(b) is None,
        },
{
    if 0x30 <= b && b <= 0x39 {
        Some(b - 0x30)
    } else if 0x61 <= b && b <= 0x66 {
        Some(b - 0x61 + 10)
    } else if 0x41 <= b && b <= 0x46 {
        Some(b - 0x41 + 10)
    } else {
        None
    }
}

/// Value of four hexadecimal digit bytes.
fn parse_hex4(s: &Vec<u8>, i: usize) -> (r: Option<u32>)
    requires
        i <= s@.len(),
        s@.len() - i >= 4,
    ensures
        match r {
            Some(c) => sp_hex4(s@, i as int) == Some(c as int) && c < 0x10000,
            None => sp_hex4(s@, i as int) is None,
        },
{
    let n = s.len();
    let a = hexval(s[i]);
    let b = hexval(s[i + 1]);
    let c = hexval(s[i + 2]);
    let d = hexval(s[i + 3]);
    match (a, b, c, d) {
        (Some(a), Some(b), Some(c), Some(d)) => Some(
            (a as u32) * 4096 + (b as u32) * 256 + (c as u32) * 16 + (d as u32),
        ),
        _ => None,
    }
}

/// Append the UTF-8 encoding of a scalar value below 0x10000.
fn push_utf8(acc: &mut Vec<u8>, c: u32)
    requires
        c < 0x10000,
    ensures
        final(acc)@ == old(acc)@ + spec_utf8(c as int),
{
    if c < 0x80 {
        acc.push(c as u8);
        proof {
            assert(acc@ =~= old(acc)@ + spec_utf8(c as int));
        }
    } else if c < 0x800 {
        assert(c / 64 < 32);
        acc.push((0xc0 + c / 64) as u8);
        acc.push((0x80 + c % 64) as u8);
        proof {
            assert(acc@ =~= old(acc)@ + spec_utf8(c as int));
        }
    } else {
        assert(c / 4096 < 16);
        assert((c / 64) % 64 < 64);
        acc.push((0xe0 + c / 4096) as u8);
        acc.push((0x80 + (c / 64) % 64) as u8);
        acc.push((0x80 + c % 64) as u8);
        proof {
            assert(acc@ =~= old(acc)@ + spec_utf8(c as int));
        }
    }
}

/// The byte denoted by a one-character escape.
fn unescape_byte(e: u8) -> (r: Option<u8>)
    ensures
        r == spec_unescape(e),
{
    if e == 0x22 {
        Some(0x22)
    } else if e == 0x5c {
        Some(0x5c)
    } else if e == 0x2f {
        Some(0x2f)
    } else if e == 0x62 {
        Some(0x08)
    } else if e == 0x66 {
        Some(0x0c)
    } else if e == 0x6e {
        Some(0x0a)
    } else if e == 0x72 {
        Some(0x0d)
    } else if e == 0x74 {
        Some(0x09)
    } else {
        None
    }
}

/// Parse string contents starting just after the opening quote at `i - 1`.
fn parse_string(s: &Vec<u8>, i: usize) -> (r: Option<(Vec<u8>, usize)>)
    requires
        i <= s@.len(),
    ensures
        match r {
            Some((c, k)) => sp_str_rest(s@, i as int) == Some((c@, k as int)) && i < k <= s@.len(),
            None => sp_str_rest(s@, i as int) is None,
        },
{
    let mut cur = i;
    let mut acc: Vec<u8> = Vec::new();
    loop
        invariant
            i <= cur <= s@.len(),
            match sp_str_rest(s@, cur as int) {
                Some((t, k)) => sp_str_rest(s@, i as int) == Some((acc@ + t, k)),
                None => sp_str_rest(s@, i as int) is None,
            },
        decreases s@.len() - cur,
    {
        if cur == s.len() {
            return None;
        }
        let b = s[cur];
        if b == 0x22 {
            proof {
                assert(acc@ + Seq::<u8>::empty() =~= acc@);
            }
            return Some((acc, cur + 1));
        } else if b == 0x5c {
            if s.len() - cur < 2 {
                return None;
            }
            let e = s[cur + 1];
            if e == 0x75 {
                if s.len() - cur < 6 {
                    return None;
                }
                match parse_hex4(s, cur + 2) {
                    None => {
                        return None;
                    },
                    Some(c) => {
                        if 0xd800 <= c && c < 0xe000 {
                            return None;
                        }
                        proof {
                            match sp_str_rest(s@, cur as int + 6) {
                                Some((t2, k)) => {
                                    assert(sp_str_rest(s@, cur as int) == Some(
                                        (spec_utf8(c as int) + t2, k),
                                    ));
                                    assert((acc@ + spec_utf8(c as int)) + t2 =~= acc@ + (spec_utf8(
                                        c as int,
                                    ) + t2));
                                },
                                None => {
                                    assert(sp_str_rest(s@, cur as int) is None);
                                },
                            }
                        }
                        push_utf8(&mut acc, c);
                        cur = cur + 6;
                    },
                }
            } else {
                match unescape_byte(e) {
                    None => {
                        return None;
                    },
                    Some(u) => {
                        proof {
                            match sp_str_rest(s@, cur as int + 2) {
                                Some((t2, k)) => {
                                    assert(sp_str_rest(s@, cur as int) == Some((seq![u] + t2, k)));
                                    assert((acc@ + seq![u]) + t2 =~= acc@ + (seq![u] + t2));
                                },
                                None => {
                                    assert(sp_str_rest(s@, cur as int) is None);
                                },
                            }
                        }
                        acc.push(u);
                        cur = cur + 2;
                    },
                }
            }
        } else if b < 0x20 {
            return None;
        } else {
            proof {
                match sp_str_rest(s@, cur as int + 1) {
                    Some((t2, k)) => {
                        assert(sp_str_rest(s@, cur as int) == Some((seq![b] + t2, k)));
                        assert((acc@ + seq![b]) + t2 =~= acc@ + (seq![b] + t2));
                    },
                    None => {
                        assert(sp_str_rest(s@, cur as int) is None);
                    },
                }
            }
            acc.push(b);
            cur = cur + 1;
        }
    }
}

/// Parse a number lexeme starting at `i`.
fn parse_number(s: &Vec<u8>, i: usize) -> (r: Option<(Vec<u8>, usize)>)
    requires
        i <= s@.len(),
    ensures
        match r {
            Some((lex, k)) => sp_number_end(s@, i as int) == Some(k as int) && lex@ == s@.subrange(
                i as int,
                k as int,
            ) && i < k <= s@.len(),
            None => sp_number_end(s@, i as int) is None,
        },
{
    let j = if i < s.len() && s[i] == 0x2d {
        i + 1
    } else {
        i
    };
    if j == s.len() {
        return None;
    }
    let d0 = s[j];
    if !(0x30 <= d0 && d0 <= 0x39) {
        return None;
    }
    let k = if d0 == 0x30 {
        j + 1
    } else {
        skip_digits(s, j)
    };
    proof {
        assert(d0 != 0x30 ==> sp_digit_count(s@, j as int) >= 1);
    }
    let k2 = if k < s.len() && s[k] == 0x2e {
        let e = skip_digits(s, k + 1);
        if e == k + 1 {
            return None;
        }
        e
    } else {
        k
    };
    let k3 = if k2 < s.len() && (s[k2] == 0x65 || s[k2] == 0x45) {
        let m = if k2 + 1 < s.len() && (s[k2 + 1] == 0x2b || s[k2 + 1] == 0x2d) {
            k2 + 2
        } else {
            k2 + 1
        };
        let e = skip_digits(s, m);
        if e == m {
            return None;
        }
        e
    } else {
        k2
    };
    let mut lex: Vec<u8> = Vec::new();
    let mut t = i;
    while t < k3
        invariant
            i <= t <= k3 <= s@.len(),
            lex@ == s@.subrange(i as int, t as int),
        decreases k3 - t,
    {
        proof {
            assert(s@.subrange(i as int, t as int + 1) =~= s@.subrange(i as int, t as int) + seq![
                s@[t as int],
            ]);
        }
        lex.push(s[t]);
        t = t + 1;
    }
    Some((lex, k3))
}

// ---------------------------------------------------------------------------
// Executable parser for values
// ---------------------------------------------------------------------------

/// Abstraction of an executable value-parse result.
pub open spec fn ovp(r: Option<(Json, usize)>) -> Option<(JsonV, int)> {
    match r {
        None => None,
        Some((j, k)) => Some((jv(j), k as int)),
    }
}

/// Abstraction of an executable element-list parse result.
pub open spec fn ovl(r: Option<(JsonList, usize)>) -> Option<(Seq<JsonV>, int)> {
    match r {
        None => None,
        Some((l, k)) => Some((jlv(l), k as int)),
    }
}

/// Abstraction of an executable member-list parse result.
pub open spec fn ovm(r: Option<(JsonMembers, usize)>) -> Option<(Seq<(Seq<u8>, JsonV)>, int)> {
    match r {
        None => None,
        Some((m, k)) => Some((jmv(m), k as int)),
    }
}

/// Parse one value starting at `i`, with `depth` nesting levels allowed.
fn parse_value(s: &Vec<u8>, i: usize, depth: u32) -> (r: Option<(Json, usize)>)
    requires
        i <= s@.len(),
    ensures
        forall|f: nat|
            f >= 2 * (s@.len() - i) + 1 ==> sp_value(s@, i as int, depth as nat, f) == ovp(r),
        match r {
            Some((v, k)) => i < k <= s@.len(),
            None => true,
        },
    decreases s@.len() - i, 0int,
{
    if i == s.len() {
        return None;
    }
    let b = s[i];
    if b == 0x6e {
        if s.len() - i >= 4 && s[i + 1] == 0x75 && s[i + 2] == 0x6c && s[i + 3] == 0x6c {
            Some((Json::Null, i + 4))
        } else {
            None
        }
    } else if b == 0x74 {
        if s.len() - i >= 4 && s[i + 1] == 0x72 && s[i + 2] == 0x75 && s[i + 3] == 0x65 {
            Some((Json::Bool(true), i + 4))
        } else {
            None
        }
    } else if b == 0x66 {
        if s.len() - i >= 5 && s[i + 1] == 0x61 && s[i + 2] == 0x6c && s[i + 3] == 0x73 && s[i + 4]
            == 0x65 {
            Some((Json::Bool(false), i + 5))
        } else {
            None
        }
    } else if b == 0x22 {
        match parse_string(s, i + 1) {
            None => None,
            Some((c, k)) => Some((Json::Str(c), k)),
        }
    } else if b == 0x2d || (0x30 <= b && b <= 0x39) {
        match parse_number(s, i) {
            None => None,
            Some((lex, k)) => Some((Json::Num(lex), k)),
        }
    } else if b == 0x5b {
        if depth == 0 {
            return None;
        }
        let j = skip_ws(s, i + 1);
        if j < s.len() && s[j] == 0x5d {
            return Some((Json::Arr(Box::new(JsonList::Nil)), j + 1));
        }
        let sub = parse_elements(s, i + 1, depth - 1);
        proof {
            assert forall|f: nat|
                f >= 2 * (s@.len() - i) + 1 implies sp_value(s@, i as int, depth as nat, f) == ovp(
                match sub {
                    None => None,
                    Some((es, k)) => Some((Json::Arr(Box::new(es)), k)),
                },
            ) by {
                assert(sp_elements(s@, i as int + 1, (depth - 1) as nat, (f - 1) as nat) == ovl(
                    sub,
                ));
            }
        }
        match sub {
            None => None,
            Some((es, k)) => Some((Json::Arr(Box::new(es)), k)),
        }
    } else if b == 0x7b {
        if depth == 0 {
            return None;
        }
        let j = skip_ws(s, i + 1);
        if j < s.len() && s[j] == 0x7d {
            return Some((Json::Obj(Box::new(JsonMembers::Nil)), j + 1));
        }
        let sub = parse_members(s, i + 1, depth - 1);
        proof {
            assert forall|f: nat|
                f >= 2 * (s@.len() - i) + 1 implies sp_value(s@, i as int, depth as nat, f) == ovp(
                match sub {
                    None => None,
                    Some((ms, k)) => Some((Json::Obj(Box::new(ms)), k)),
                },
            ) by {
                assert(sp_members(s@, i as int + 1, (depth - 1) as nat, (f - 1) as nat) == ovm(
                    sub,
                ));
            }
        }
        match sub {
            None => None,
            Some((ms, k)) => Some((Json::Obj(Box::new(ms)), k)),
        }
    } else {
        None
    }
}

/// Parse the elements of an array, starting just after `[` or `,`.
fn parse_elements(s: &Vec<u8>, i: usize, depth: u32) -> (r: Option<(JsonList, usize)>)
    requires
        i <= s@.len(),
    ensures
        forall|f: nat|
            f >= 2 * (s@.len() - i) + 2 ==> sp_elements(s@, i as int, depth as nat, f) == ovl(r),
        match r {
            Some((es, m)) => i < m <= s@.len(),
            None => true,
        },
    decreases s@.len() - i, 1int,
{
    let j = skip_ws(s, i);
    let first = parse_value(s, j, depth);
    match first {
        None => {
            proof {
                assert forall|f: nat|
                    f >= 2 * (s@.len() - i) + 2 implies sp_elements(
                    s@,
                    i as int,
                    depth as nat,
                    f,
                ) == ovl(None) by {
                    assert(sp_value(s@, j as int, depth as nat, (f - 1) as nat) == ovp(
                        None::<(Json, usize)>,
                    ));
                }
            }
            None
        },
        Some((v, k)) => {
            let k2 = skip_ws(s, k);
            if k2 < s.len() && s[k2] == 0x2c {
                let rest = parse_elements(s, k2 + 1, depth);
                match rest {
                    None => {
                        proof {
                            assert forall|f: nat|
                                f >= 2 * (s@.len() - i) + 2 implies sp_elements(
                                s@,
                                i as int,
                                depth as nat,
                                f,
                            ) == ovl(None) by {
                                assert(sp_value(s@, j as int, depth as nat, (f - 1) as nat) == ovp(
                                    first,
                                ));
                                assert(sp_elements(s@, k2 as int + 1, depth as nat, (f - 1) as nat)
                                    == ovl(None));
                            }
                        }
                        None
                    },
                    Some((es, m)) => {
                        let out = JsonList::Cons(Box::new(v), Box::new(es));
                        proof {
                            assert forall|f: nat|
                                f >= 2 * (s@.len() - i) + 2 implies sp_elements(
                                s@,
                                i as int,
                                depth as nat,
                                f,
                            ) == ovl(Some((out, m))) by {
                                assert(sp_value(s@, j as int, depth as nat, (f - 1) as nat) == ovp(
                                    first,
                                ));
                                assert(sp_elements(s@, k2 as int + 1, depth as nat, (f - 1) as nat)
                                    == ovl(rest));
                            }
                        }
                        Some((out, m))
                    },
                }
            } else if k2 < s.len() && s[k2] == 0x5d {
                let out = JsonList::Cons(Box::new(v), Box::new(JsonList::Nil));
                let m = k2 + 1;
                proof {
                    assert(jlv(JsonList::Nil) == Seq::<JsonV>::empty());
                    assert(jlv(out) =~= seq![jv(v)]);
                    assert forall|f: nat|
                        f >= 2 * (s@.len() - i) + 2 implies sp_elements(
                        s@,
                        i as int,
                        depth as nat,
                        f,
                    ) == ovl(Some((out, m))) by {
                        assert(sp_value(s@, j as int, depth as nat, (f - 1) as nat) == ovp(first));
                    }
                }
                Some((out, m))
            } else {
                proof {
                    assert forall|f: nat|
                        f >= 2 * (s@.len() - i) + 2 implies sp_elements(
                        s@,
                        i as int,
                        depth as nat,
                        f,
                    ) == ovl(None) by {
                        assert(sp_value(s@, j as int, depth as nat, (f - 1) as nat) == ovp(first));
                    }
                }
                None
            }
        },
    }
}

/// Parse the members of an object, starting just after `{` or `,`.
fn parse_members(s: &Vec<u8>, i: usize, depth: u32) -> (r: Option<(JsonMembers, usize)>)
    requires
        i <= s@.len(),
    ensures
        forall|f: nat|
            f >= 2 * (s@.len() - i) + 2 ==> sp_members(s@, i as int, depth as nat, f) == ovm(r),
        match r {
            Some((ms, m)) => i < m <= s@.len(),
            None => true,
        },
    decreases s@.len() - i, 1int,
{
    let j = skip_ws(s, i);
    if !(j < s.len() && s[j] == 0x22) {
        return None;
    }
    let ks = parse_string(s, j + 1);
    match ks {
        None => {
            proof {
                assert forall|f: nat|
                    f >= 2 * (s@.len() - i) + 2 implies sp_members(s@, i as int, depth as nat, f)
                    == ovm(None) by {}
            }
            None
        },
        Some((key, k)) => {
            let j2 = skip_ws(s, k);
            if !(j2 < s.len() && s[j2] == 0x3a) {
                return None;
            }
            let j3 = skip_ws(s, j2 + 1);
            let val = parse_value(s, j3, depth);
            match val {
                None => {
                    proof {
                        assert forall|f: nat|
                            f >= 2 * (s@.len() - i) + 2 implies sp_members(
                            s@,
                            i as int,
                            depth as nat,
                            f,
                        ) == ovm(None) by {
                            assert(sp_value(s@, j3 as int, depth as nat, (f - 1) as nat) == ovp(
                                None::<(Json, usize)>,
                            ));
                        }
                    }
                    None
                },
                Some((v, k3)) => {
                    let k4 = skip_ws(s, k3);
                    if k4 < s.len() && s[k4] == 0x2c {
                        let rest = parse_members(s, k4 + 1, depth);
                        match rest {
                            None => {
                                proof {
                                    assert forall|f: nat|
                                        f >= 2 * (s@.len() - i) + 2 implies sp_members(
                                        s@,
                                        i as int,
                                        depth as nat,
                                        f,
                                    ) == ovm(None) by {
                                        assert(sp_value(
                                            s@,
                                            j3 as int,
                                            depth as nat,
                                            (f - 1) as nat,
                                        ) == ovp(val));
                                        assert(sp_members(
                                            s@,
                                            k4 as int + 1,
                                            depth as nat,
                                            (f - 1) as nat,
                                        ) == ovm(None));
                                    }
                                }
                                None
                            },
                            Some((ms, m)) => {
                                let out = JsonMembers::Cons(key, Box::new(v), Box::new(ms));
                                proof {
                                    assert forall|f: nat|
                                        f >= 2 * (s@.len() - i) + 2 implies sp_members(
                                        s@,
                                        i as int,
                                        depth as nat,
                                        f,
                                    ) == ovm(Some((out, m))) by {
                                        assert(sp_value(
                                            s@,
                                            j3 as int,
                                            depth as nat,
                                            (f - 1) as nat,
                                        ) == ovp(val));
                                        assert(sp_members(
                                            s@,
                                            k4 as int + 1,
                                            depth as nat,
                                            (f - 1) as nat,
                                        ) == ovm(rest));
                                    }
                                }
                                Some((out, m))
                            },
                        }
                    } else if k4 < s.len() && s[k4] == 0x7d {
                        let out = JsonMembers::Cons(key, Box::new(v), Box::new(JsonMembers::Nil));
                        let m = k4 + 1;
                        proof {
                            assert(jmv(JsonMembers::Nil) == Seq::<(Seq<u8>, JsonV)>::empty());
                            assert(jmv(out) =~= seq![(key@, jv(v))]);
                            assert forall|f: nat|
                                f >= 2 * (s@.len() - i) + 2 implies sp_members(
                                s@,
                                i as int,
                                depth as nat,
                                f,
                            ) == ovm(Some((out, m))) by {
                                assert(sp_value(s@, j3 as int, depth as nat, (f - 1) as nat)
                                    == ovp(val));
                            }
                        }
                        Some((out, m))
                    } else {
                        proof {
                            assert forall|f: nat|
                                f >= 2 * (s@.len() - i) + 2 implies sp_members(
                                s@,
                                i as int,
                                depth as nat,
                                f,
                            ) == ovm(None) by {
                                assert(sp_value(s@, j3 as int, depth as nat, (f - 1) as nat)
                                    == ovp(val));
                            }
                        }
                        None
                    }
                },
            }
        },
    }
}

/// Parse one whole line as a JSON document.
pub fn parse_json(s: &Vec<u8>) -> (r: Option<Json>)
    ensures
        match r {
            Some(j) => spec_json_doc(s@) == Some(jv(j)),
            None => spec_json_doc(s@) is None,
        },
{
    let i = skip_ws(s, 0);
    let v = parse_value(s, i, 128);
    proof {
        assert(sp_value(s@, i as int, spec_depth_limit(), (2 * s@.len() + 1) as nat) == ovp(v));
    }
    match v {
        None => None,
        Some((j, k)) => {
            let k2 = skip_ws(s, k);
            if k2 == s.len() {
                Some(j)
            } else {
                None
            }
        },
    }
}

/// The line holds nothing but whitespace (what trimming would leave empty).
pub open spec fn spec_line_is_blank(line: Seq<u8>) -> bool {
    sp_ws(line, 0) == line.len()
}

/// Test whether a line holds nothing but whitespace.
pub fn line_is_blank(line: &Vec<u8>) -> (r: bool)
    ensures
        r == spec_line_is_blank(line@),
{
    let j = skip_ws(line, 0);
    j == line.len()
}

// ---------------------------------------------------------------------------
// String escaping, for request serialization
// ---------------------------------------------------------------------------

/// Lower-case hexadecimal digit byte for a value below 16.
pub open spec fn spec_hexdig(n: int) -> u8 {
    if n < 10 {
        (0x30 + n) as u8
    } else {
        (0x57 + n) as u8
    }
}

/// The escape of one byte inside a JSON string literal: quote and backslash
/// get a backslash escape, control bytes a `\u00XX` escape, everything else
/// stands as itself.
pub open spec fn spec_escape_byte(b: u8) -> Seq<u8> {
    if b == 0x22 {
        seq![0x5cu8, 0x22u8]
    } else if b == 0x5c {
        seq![0x5cu8, 0x5cu8]
    } else if b < 0x20 {
        seq![0x5cu8, 0x75u8, 0x30u8, 0x30u8, spec_hexdig(b as int / 16), spec_hexdig(b as int % 16)]
    } else {
        seq![b]
    }
}

/// The escapes of all bytes from position `i` on.
pub open spec fn sp_escape_from(s: Seq<u8>, i: int) -> Seq<u8>
    decreases s.len() - i,
{
    if i < 0 || i >= s.len() {
        Seq::empty()
    } else {
        spec_escape_byte(s[i]) + sp_escape_from(s, i + 1)
    }
}

/// The contents of the JSON string literal denoting `s`.
pub open spec fn spec_escape(s: Seq<u8>) -> Seq<u8> {
    sp_escape_from(s, 0)
}

/// Law: escaping round-trips through the string grammar. Wherever the
/// escape of `c` from position `ci` on sits in `s` followed by a closing
/// quote, the string grammar reads back exactly the remaining bytes of `c`
/// and stops just after that quote.
pub proof fn lemma_escaped_parses(s: Seq<u8>, c: Seq<u8>, ci: int, i: int)
    requires
        0 <= ci <= c.len(),
        0 <= i,
        i + sp_escape_from(c, ci).len() + 1 <= s.len(),
        s.subrange(i, i + sp_escape_from(c, ci).len()) =~= sp_escape_from(c, ci),
        s[i + sp_escape_from(c, ci).len()] == 0x22,
    ensures
        sp_str_rest(s, i) == Some(
            (c.subrange(ci, c.len() as int), i + sp_escape_from(c, ci).len() + 1),
        ),
    decreases c.len() - ci,
{
    let e = sp_escape_from(c, ci);
    if ci == c.len() {
        assert(e =~= Seq::<u8>::empty());
        assert(s[i] == 0x22);
        assert(c.subrange(ci, c.len() as int) =~= Seq::<u8>::empty());
    } else {
        let b = c[ci];
        let eb = spec_escape_byte(b);
        let e2 = sp_escape_from(c, ci + 1);
        assert(e == eb + e2);
        assert forall|t: int| 0 <= t < e.len() implies s[i + t] == e[t] by {
            assert(s.subrange(i, i + e.len())[t] == s[i + t]);
        }
        let i2 = i + eb.len();
        assert(s.subrange(i2, i2 + e2.len()) =~= e2) by {
            assert(forall|t: int| 0 <= t < e2.len() ==> e[eb.len() + t] == e2[t]);
        }
        lemma_escaped_parses(s, c, ci + 1, i2);
        assert(seq![b] + c.subrange(ci + 1, c.len() as int) =~= c.subrange(ci, c.len() as int));
        if b == 0x22 || b == 0x5c {
            assert(s[i + 0] == e[0] && s[i + 1] == e[1]);
            assert(e[0] == eb[0] && e[1] == eb[1]);
            assert(s[i] == 0x5c && s[i + 1] == b);
            assert(spec_unescape(b) == Some(b));
        } else if b < 0x20 {
            assert(s[i + 0] == e[0] && s[i + 1] == e[1] && s[i + 2] == e[2] && s[i + 3] == e[3]
                && s[i + 4] == e[4] && s[i + 5] == e[5]);
            assert(e[0] == eb[0] && e[1] == eb[1] && e[2] == eb[2] && e[3] == eb[3] && e[4]
                == eb[4] && e[5] == eb[5]);
            assert(s[i] == 0x5c && s[i + 1] == 0x75 && s[i + 2] == 0x30 && s[i + 3] == 0x30
                && s[i + 4] == spec_hexdig(b as int / 16) && s[i + 5] == spec_hexdig(
                b as int % 16,
            ));
            assert(spec_hexval(0x30u8) == Some(0int));
            assert(b as int / 16 < 2);
            assert(spec_hexval(spec_hexdig(b as int / 16)) == Some(b as int / 16));
            assert(spec_hexval(spec_hexdig(b as int % 16)) == Some(b as int % 16));
            assert(sp_hex4(s, i + 2) == Some((b as int / 16) * 16 + (b as int % 16)));
            assert((b as int / 16) * 16 + (b as int % 16) == b as int);
            assert(spec_utf8(b as int) == seq![b]);
        } else {
            assert(s[i + 0] == e[0]);
            assert(e[0] == eb[0]);
            assert(s[i] == b);
        }
    }
}

/// Lower-case hexadecimal digit byte.
fn hexdig(n: u8) -> (r: u8)
    requires
        n < 16,
    ensures
        r == spec_hexdig(n as int),
{
    if n < 10 {
        0x30 + n
    } else {
        0x61 + (n - 10)
    }
}

/// Append the escaped form of `s` to `out`.
pub fn escape_into(out: &mut Vec<u8>, s: &Vec<u8>)
    ensures
        final(out)@ == old(out)@ + spec_escape(s@),
{
    let mut j: usize = 0;
    proof {
        assert(out@ + sp_escape_from(s@, 0) == old(out)@ + spec_escape(s@));
    }
    while j < s.len()
        invariant
            j <= s@.len(),
            out@ + sp_escape_from(s@, j as int) == old(out)@ + spec_escape(s@),
        decreases s@.len() - j,
    {
        let b = s[j];
        let ghost out0 = out@;
        if b == 0x22 {
            out.push(0x5c);
            out.push(0x22);
        } else if b == 0x5c {
            out.push(0x5c);
            out.push(0x5c);
        } else if b < 0x20 {
            out.push(0x5c);
            out.push(0x75);
            out.push(0x30);
            out.push(0x30);
            out.push(hexdig(b / 16));
            out.push(hexdig(b % 16));
        } else {
            out.push(b);
        }
        proof {
            assert(out@ =~= out0 + spec_escape_byte(s@[j as int]));
            assert((out0 + spec_escape_byte(s@[j as int])) + sp_escape_from(s@, j as int + 1)
                =~= out0 + (spec_escape_byte(s@[j as int]) + sp_escape_from(s@, j as int + 1)));
        }
        j = j + 1;
    }
    proof {
        assert(out@ + Seq::<u8>::empty() =~= out@);
    }
}

} // verus!
