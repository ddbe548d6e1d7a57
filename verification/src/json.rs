//! A verified reader for the flat JSON objects the remote lookup service
//! answers with: one object whose member values are strings, booleans,
//! `null`, or plain integers. Nested values, fractions and exponents, and
//! `\u` escapes are outside this subset and read as a parse failure, which
//! the validator collapses into "not valid" like every other remote fault.

use vstd::prelude::*;

verus! {

/// JSON insignificant whitespace.
pub open spec fn is_ws(c: char) -> bool {
    c == ' ' || c == '\t' || c == '\n' || c == '\r'
}

/// The first position at or after `i` holding no whitespace.
pub open spec fn skip_ws(s: Seq<char>, i: int) -> int
    decreases s.len() - i,
{
    if 0 <= i < s.len() && is_ws(s[i]) {
        skip_ws(s, i + 1)
    } else {
        i
    }
}

pub proof fn lemma_skip_ws(s: Seq<char>, i: int)
    requires
        0 <= i <= s.len(),
    ensures
        i <= skip_ws(s, i) <= s.len(),
    decreases s.len() - i,
{
    if i < s.len() && is_ws(s[i]) {
        lemma_skip_ws(s, i + 1);
    }
}

/// The character a single-character escape stands for.
pub open spec fn esc_char(c: char) -> Option<char> {
    if c == '"' {
        Some('"')
    } else if c == '\\' {
        Some('\\')
    } else if c == '/' {
        Some('/')
    } else if c == 'n' {
        Some('\n')
    } else if c == 't' {
        Some('\t')
    } else if c == 'r' {
        Some('\r')
    } else if c == 'b' {
        Some('\u{0008}')
    } else if c == 'f' {
        Some('\u{000C}')
    } else {
        None
    }
}

/// The content of a string token read from position `i` (just after the
/// opening quote) up to and including its closing quote: the decoded
/// characters and the position after the closing quote.
pub open spec fn spec_str_chars(s: Seq<char>, i: int) -> Option<(Seq<char>, int)>
    decreases s.len() - i,
{
    if !(0 <= i < s.len()) {
        None
    } else if s[i] == '"' {
        Some((Seq::empty(), i + 1))
    } else if s[i] == '\\' {
        if i + 1 < s.len() {
            match esc_char(s[i + 1]) {
                Some(c) => match spec_str_chars(s, i + 2) {
                    Some((r, j)) => Some((seq![c] + r, j)),
                    None => None,
                },
                None => None,
            }
        } else {
            None
        }
    } else {
        match spec_str_chars(s, i + 1) {
            Some((r, j)) => Some((seq![s[i]] + r, j)),
            None => None,
        }
    }
}

pub proof fn lemma_str_chars_end(s: Seq<char>, i: int)
    ensures
        (match spec_str_chars(s, i) {
            Some((t, j)) => i < j <= s.len(),
            None => true,
        }),
    decreases s.len() - i,
{
    if 0 <= i < s.len() && s[i] != '"' {
        if s[i] == '\\' {
            if i + 1 < s.len() {
                lemma_str_chars_end(s, i + 2);
            }
        } else {
            lemma_str_chars_end(s, i + 1);
        }
    }
}

/// The word `w` stands verbatim at position `i` of `s`.
pub open spec fn lit_at(s: Seq<char>, i: int, w: Seq<char>) -> bool {
    0 <= i && i + w.len() <= s.len() && s.subrange(i, i + w.len()) == w
}

/// The first position at or after `i` holding no decimal digit.
pub open spec fn digits_end(s: Seq<char>, i: int) -> int
    decreases s.len() - i,
{
    if 0 <= i < s.len() && crate::text::is_digit(s[i]) {
        digits_end(s, i + 1)
    } else {
        i
    }
}

pub proof fn lemma_digits_end(s: Seq<char>, i: int)
    requires
        0 <= i <= s.len(),
    ensures
        i <= digits_end(s, i) <= s.len(),
    decreases s.len() - i,
{
    if i < s.len() && crate::text::is_digit(s[i]) {
        lemma_digits_end(s, i + 1);
    }
}

/// A member value in its mathematical form.
pub enum SpecScalar {
    Text(Seq<char>),
    Flag(bool),
    Null,
    Number,
}

/// A member value as the reader returns it.
pub enum Scalar {
    Text(Vec<char>),
    Flag(bool),
    Null,
    Number,
}

impl View for Scalar {
    type V = SpecScalar;

    open spec fn view(&self) -> SpecScalar {
        match self {
            Scalar::Text(t) => SpecScalar::Text(t@),
            Scalar::Flag(b) => SpecScalar::Flag(*b),
            Scalar::Null => SpecScalar::Null,
            Scalar::Number => SpecScalar::Number,
        }
    }
}

/// A scalar value read from position `i`, after optional whitespace, and
/// the position after it.
pub open spec fn spec_scalar(s: Seq<char>, i: int) -> Option<(SpecScalar, int)> {
    let j = skip_ws(s, i);
    if j < s.len() {
        if s[j] == '"' {
            match spec_str_chars(s, j + 1) {
                Some((t, k)) => Some((SpecScalar::Text(t), k)),
                None => None,
            }
        } else if lit_at(s, j, "true"@) {
            Some((SpecScalar::Flag(true), j + "true"@.len()))
        } else if lit_at(s, j, "false"@) {
            Some((SpecScalar::Flag(false), j + "false"@.len()))
        } else if lit_at(s, j, "null"@) {
            Some((SpecScalar::Null, j + "null"@.len()))
        } else {
            let d0 = if s[j] == '-' {
                j + 1
            } else {
                j
            };
            let e = digits_end(s, d0);
            if e > d0 {
                Some((SpecScalar::Number, e))
            } else {
                None
            }
        }
    } else {
        None
    }
}

pub proof fn lemma_scalar_end(s: Seq<char>, i: int)
    requires
        0 <= i <= s.len(),
    ensures
        (match spec_scalar(s, i) {
            Some((v, j)) => i < j <= s.len(),
            None => true,
        }),
{
    lemma_skip_ws(s, i);
    reveal_strlit("true");
    reveal_strlit("false");
    reveal_strlit("null");
    let j = skip_ws(s, i);
    if j < s.len() {
        if s[j] == '"' {
            lemma_str_chars_end(s, j + 1);
        } else if lit_at(s, j, "true"@) || lit_at(s, j, "false"@) || lit_at(s, j, "null"@) {
        } else {
            let d0 = if s[j] == '-' {
                j + 1
            } else {
                j
            };
            lemma_digits_end(s, d0);
        }
    }
}

/// The members read from position `i` up to and including the closing
/// brace, and the position after it. An empty member list is allowed only
/// when nothing has been read yet, so a trailing comma fails.
pub open spec fn spec_members(s: Seq<char>, i: int, first: bool) -> Option<
    (Seq<(Seq<char>, SpecScalar)>, int),
>
    decreases s.len() - i,
    when 0 <= i <= s.len()
    via spec_members_dec
{
    let j = skip_ws(s, i);
    if j < s.len() && s[j] == '}' && first {
        Some((Seq::empty(), j + 1))
    } else if j < s.len() && s[j] == '"' {
        match spec_str_chars(s, j + 1) {
            Some((key, k)) => {
                let k2 = skip_ws(s, k);
                if k2 < s.len() && s[k2] == ':' {
                    match spec_scalar(s, k2 + 1) {
                        Some((v, m)) => {
                            let m2 = skip_ws(s, m);
                            if m2 < s.len() && s[m2] == ',' {
                                match spec_members(s, m2 + 1, false) {
                                    Some((ms, e)) => Some((seq![(key, v)] + ms, e)),
                                    None => None,
                                }
                            } else if m2 < s.len() && s[m2] == '}' {
                                Some((seq![(key, v)], m2 + 1))
                            } else {
                                None
                            }
                        },
                        None => None,
                    }
                } else {
                    None
                }
            },
            None => None,
        }
    } else {
        None
    }
}

#[via_fn]
proof fn spec_members_dec(s: Seq<char>, i: int, first: bool) {
    lemma_skip_ws(s, i);
    let j = skip_ws(s, i);
    if j < s.len() && !(s[j] == '}' && first) && s[j] == '"' {
        lemma_str_chars_end(s, j + 1);
        match spec_str_chars(s, j + 1) {
            Some((key, k)) => {
                lemma_skip_ws(s, k);
                let k2 = skip_ws(s, k);
                if k2 < s.len() && s[k2] == ':' {
                    lemma_scalar_end(s, k2 + 1);
                    match spec_scalar(s, k2 + 1) {
                        Some((v, m)) => {
                            lemma_skip_ws(s, m);
                        },
                        None => {},
                    }
                }
            },
            None => {},
        }
    }
}

/// A whole response body: one object, with nothing but whitespace around
/// it, as its member list.
pub open spec fn spec_json_object(s: Seq<char>) -> Option<Seq<(Seq<char>, SpecScalar)>> {
    let i = skip_ws(s, 0);
    if i < s.len() && s[i] == '{' {
        match spec_members(s, i + 1, true) {
            Some((ms, j)) => {
                if skip_ws(s, j) == s.len() {
                    Some(ms)
                } else {
                    None
                }
            },
            None => None,
        }
    } else {
        None
    }
}

/// The value under `key`, at its first occurrence.
pub open spec fn find_field(ms: Seq<(Seq<char>, SpecScalar)>, key: Seq<char>) -> Option<SpecScalar>
    decreases ms.len(),
{
    if ms.len() == 0 {
        None
    } else if ms[0].0 == key {
        Some(ms[0].1)
    } else {
        find_field(ms.drop_first(), key)
    }
}

/// The views of read members.
pub open spec fn members_view(ms: Seq<(Vec<char>, Scalar)>) -> Seq<(Seq<char>, SpecScalar)> {
    ms.map_values(|p: (Vec<char>, Scalar)| (p.0@, p.1@))
}

fn skip_ws_x(s: &str, i: usize) -> (r: usize)
    requires
        i <= s@.len(),
    ensures
        i <= r <= s@.len(),
        r == skip_ws(s@, i as int),
{
    let n = s.unicode_len();
    let mut j = i;
    while j < n && is_ws_x(s.get_char(j))
        invariant
            i <= j <= n,
            n == s@.len(),
            skip_ws(s@, i as int) == skip_ws(s@, j as int),
        decreases n - j,
    {
        j += 1;
    }
    j
}

fn is_ws_x(c: char) -> (r: bool)
    ensures
        r == is_ws(c),
{
    c == ' ' || c == '\t' || c == '\n' || c == '\r'
}

fn esc_char_x(c: char) -> (r: Option<char>)
    ensures
        r == esc_char(c),
{
    if c == '"' {
        Some('"')
    } else if c == '\\' {
        Some('\\')
    } else if c == '/' {
        Some('/')
    } else if c == 'n' {
        Some('\n')
    } else if c == 't' {
        Some('\t')
    } else if c == 'r' {
        Some('\r')
    } else if c == 'b' {
        Some('\u{0008}')
    } else if c == 'f' {
        Some('\u{000C}')
    } else {
        None
    }
}

fn parse_str_chars(s: &str, i: usize) -> (r: Option<(Vec<char>, usize)>)
    requires
        i <= s@.len(),
    ensures
        (match (r, spec_str_chars(s@, i as int)) {
            (Some((v, j)), Some((t, jj))) => v@ == t && j == jj && i < j <= s@.len(),
            (None, None) => true,
            _ => false,
        }),
    decreases s@.len() - i,
{
    let n = s.unicode_len();
    if i >= n {
        return None;
    }
    let c = s.get_char(i);
    if c == '"' {
        let v: Vec<char> = Vec::new();
        proof {
            assert(v@ =~= Seq::<char>::empty());
        }
        Some((v, i + 1))
    } else if c == '\\' {
        if i + 1 < n {
            match esc_char_x(s.get_char(i + 1)) {
                Some(ec) => match parse_str_chars(s, i + 2) {
                    Some((mut v, j)) => {
                        v.insert(0, ec);
                        proof {
                            let t = spec_str_chars(s@, i as int).unwrap().0;
                            assert(v@ =~= t);
                        }
                        Some((v, j))
                    },
                    None => None,
                },
                None => None,
            }
        } else {
            None
        }
    } else {
        match parse_str_chars(s, i + 1) {
            Some((mut v, j)) => {
                v.insert(0, c);
                proof {
                    let t = spec_str_chars(s@, i as int).unwrap().0;
                    assert(v@ =~= t);
                }
                Some((v, j))
            },
            None => None,
        }
    }
}

fn lit_at_x(s: &str, i: usize, w: &str) -> (r: bool)
    requires
        i <= s@.len(),
    ensures
        r == lit_at(s@, i as int, w@),
{
    let n = s.unicode_len();
    let wn = w.unicode_len();
    if wn > n - i {
        return false;
    }
    let mut k: usize = 0;
    while k < wn
        invariant
            0 <= k <= wn,
            n == s@.len(),
            wn == w@.len(),
            i + wn <= n,
            forall|q: int| 0 <= q < k ==> s@[i + q] == w@[q],
        decreases wn - k,
    {
        if neq_char(s.get_char(i + k), w.get_char(k)) {
            proof {
                assert(s@.subrange(i as int, i + wn)[k as int] == s@[i + k]);
            }
            return false;
        }
        k += 1;
    }
    proof {
        assert(s@.subrange(i as int, i + wn) =~= w@);
    }
    true
}

fn neq_char(x: char, y: char) -> (r: bool)
    ensures
        r == (x != y),
{
    x != y
}

fn digits_end_x(s: &str, i: usize) -> (r: usize)
    requires
        i <= s@.len(),
    ensures
        i <= r <= s@.len(),
        r == digits_end(s@, i as int),
{
    let n = s.unicode_len();
    let mut j = i;
    while j < n && is_digit_x(s.get_char(j))
        invariant
            i <= j <= n,
            n == s@.len(),
            digits_end(s@, i as int) == digits_end(s@, j as int),
        decreases n - j,
    {
        j += 1;
    }
    j
}

fn is_digit_x(c: char) -> (r: bool)
    ensures
        r == crate::text::is_digit(c),
{
    '0' <= c && c <= '9'
}

fn parse_scalar(s: &str, i: usize) -> (r: Option<(Scalar, usize)>)
    requires
        i <= s@.len(),
    ensures
        (match (r, spec_scalar(s@, i as int)) {
            (Some((v, j)), Some((sv, jj))) => v@ == sv && j == jj && i < j <= s@.len(),
            (None, None) => true,
            _ => false,
        }),
{
    let n = s.unicode_len();
    let j = skip_ws_x(s, i);
    proof {
        lemma_scalar_end(s@, i as int);
    }
    if j < n {
        let c = s.get_char(j);
        if c == '"' {
            match parse_str_chars(s, j + 1) {
                Some((v, k)) => Some((Scalar::Text(v), k)),
                None => None,
            }
        } else if lit_at_x(s, j, "true") {
            proof {
                reveal_strlit("true");
            }
            Some((Scalar::Flag(true), j + 4))
        } else if lit_at_x(s, j, "false") {
            proof {
                reveal_strlit("false");
            }
            Some((Scalar::Flag(false), j + 5))
        } else if lit_at_x(s, j, "null") {
            proof {
                reveal_strlit("null");
            }
            Some((Scalar::Null, j + 4))
        } else {
            let d0 = if c == '-' {
                j + 1
            } else {
                j
            };
            let e = digits_end_x(s, d0);
            if e > d0 {
                Some((Scalar::Number, e))
            } else {
                None
            }
        }
    } else {
        None
    }
}

fn parse_members(s: &str, i: usize, first: bool) -> (r: Option<(Vec<(Vec<char>, Scalar)>, usize)>)
    requires
        i <= s@.len(),
    ensures
        (match (r, spec_members(s@, i as int, first)) {
            (Some((ms, j)), Some((sms, jj))) => members_view(ms@) == sms && j == jj && j
                <= s@.len(),
            (None, None) => true,
            _ => false,
        }),
    decreases s@.len() - i,
{
    let n = s.unicode_len();
    let j = skip_ws_x(s, i);
    if j < n && first && s.get_char(j) == '}' {
        let ms: Vec<(Vec<char>, Scalar)> = Vec::new();
        proof {
            assert(members_view(ms@) =~= Seq::<(Seq<char>, SpecScalar)>::empty());
        }
        return Some((ms, j + 1));
    }
    if j >= n {
        return None;
    }
    if neq_char(s.get_char(j), '"') {
        return None;
    }
    let (key, k) = match parse_str_chars(s, j + 1) {
        Some(p) => p,
        None => {
            return None;
        },
    };
    let k2 = skip_ws_x(s, k);
    if k2 >= n {
        return None;
    }
    if neq_char(s.get_char(k2), ':') {
        return None;
    }
    let (v, m) = match parse_scalar(s, k2 + 1) {
        Some(p) => p,
        None => {
            return None;
        },
    };
    let m2 = skip_ws_x(s, m);
    if m2 < n && s.get_char(m2) == ',' {
        match parse_members(s, m2 + 1, false) {
            Some((mut ms, e)) => {
                let ghost tail = ms@;
                ms.insert(0, (key, v));
                proof {
                    assert(members_view(ms@) =~= seq![(key@, v@)] + members_view(tail));
                }
                Some((ms, e))
            },
            None => None,
        }
    } else if m2 < n && s.get_char(m2) == '}' {
        let mut ms: Vec<(Vec<char>, Scalar)> = Vec::new();
        ms.push((key, v));
        proof {
            assert(members_view(ms@) =~= seq![(key@, v@)]);
        }
        Some((ms, m2 + 1))
    } else {
        None
    }
}

/// Read a whole body as one flat object.
pub fn parse_json_object(s: &str) -> (r: Option<Vec<(Vec<char>, Scalar)>>)
    ensures
        (match (r, spec_json_object(s@)) {
            (Some(ms), Some(sms)) => members_view(ms@) == sms,
            (None, None) => true,
            _ => false,
        }),
{
    let n = s.unicode_len();
    let i = skip_ws_x(s, 0);
    if i < n && s.get_char(i) == '{' {
        match parse_members(s, i + 1, true) {
            Some((ms, j)) => {
                if skip_ws_x(s, j) == n {
                    Some(ms)
                } else {
                    None
                }
            },
            None => None,
        }
    } else {
        None
    }
}

/// Character-for-character equality of read characters and a text slice.
fn chars_eq_str(v: &Vec<char>, s: &str) -> (r: bool)
    ensures
        r == (v@ == s@),
{
    let n = s.unicode_len();
    if v.len() != n {
        return false;
    }
    let mut k: usize = 0;
    while k < n
        invariant
            0 <= k <= n,
            n == s@.len(),
            v@.len() == n,
            forall|q: int| 0 <= q < k ==> v@[q] == s@[q],
        decreases n - k,
    {
        if neq_char(v[k], s.get_char(k)) {
            return false;
        }
        k += 1;
    }
    proof {
        assert(v@ =~= s@);
    }
    true
}

/// Find the first member under `key`, as an index into the member list.
pub fn find_field_x(ms: &Vec<(Vec<char>, Scalar)>, key: &str) -> (r: Option<usize>)
    ensures
        (match r {
            Some(idx) => idx < ms@.len() && find_field(members_view(ms@), key@) == Some(
                ms@[idx as int].1@,
            ),
            None => find_field(members_view(ms@), key@) is None,
        }),
{
    let mut idx: usize = 0;
    proof {
        assert(members_view(ms@).skip(0) =~= members_view(ms@));
    }
    while idx < ms.len()
        invariant
            0 <= idx <= ms@.len(),
            find_field(members_view(ms@), key@) == find_field(
                members_view(ms@).skip(idx as int),
                key@,
            ),
        decreases ms@.len() - idx,
    {
        proof {
            assert(members_view(ms@).skip(idx as int)[0] == members_view(ms@)[idx as int]);
            assert(members_view(ms@).skip(idx as int).drop_first() =~= members_view(ms@).skip(
                idx + 1,
            ));
        }
        if chars_eq_str(&ms[idx].0, key) {
            return Some(idx);
        }
        idx += 1;
    }
    proof {
        assert(members_view(ms@).skip(idx as int) =~= Seq::<(Seq<char>, SpecScalar)>::empty());
    }
    None
}

} // verus!
