//! Loading the reference table from delimited text.
//!
//! The format is a header row `postal_code,city` followed by data rows. A
//! code field is bare decimal digits; a city field is either unquoted (then
//! it may hold neither comma nor quote) or quoted in the standard way, with
//! `""` standing for an embedded quote. Loading is deliberately fragile, as
//! the validator's observable behaviour demands: the first data row that
//! fails to parse stops loading entirely, and every later row is discarded.
//! An empty line counts as a failing row.

use std::collections::HashMap;
use vstd::prelude::*;

use crate::text::{
    digits_val, find_char, find_char_from, is_digits, lemma_find_char_is, parse_code_digits,
    str_eq,
};

verus! {

broadcast use vstd::std_specs::hash::group_hash_axioms;

/// The text split at line feeds; one more piece than there are `'\n'`s.
pub open spec fn spec_lines(s: Seq<char>) -> Seq<Seq<char>>
    decreases s.len(),
{
    let i = find_char(s, '\n');
    if 0 <= i < s.len() {
        seq![s.take(i)] + spec_lines(s.skip(i + 1))
    } else {
        seq![s]
    }
}

/// The header row that must open the dataset.
pub open spec fn header_line() -> Seq<char> {
    "postal_code,city"@
}

/// A city field: unquoted text free of comma and quote, or a quoted field
/// covering the rest of the line.
pub open spec fn spec_city(s: Seq<char>) -> Option<Seq<char>> {
    if s.len() > 0 && s[0] == '"' {
        spec_unquote(s.skip(1))
    } else if forall|i: int| 0 <= i < s.len() ==> s[i] != ',' && s[i] != '"' {
        Some(s)
    } else {
        None
    }
}

/// The content of a quoted field, read after its opening quote: it must run
/// to a closing quote that ends the field, `""` standing for one quote.
pub open spec fn spec_unquote(s: Seq<char>) -> Option<Seq<char>>
    decreases s.len(),
{
    let i = find_char(s, '"');
    if 0 <= i < s.len() {
        if i + 1 == s.len() {
            Some(s.take(i))
        } else if s[i + 1] == '"' {
            match spec_unquote(s.skip(i + 2)) {
                Some(r) => Some(s.take(i).push('"') + r),
                None => None,
            }
        } else {
            None
        }
    } else {
        None
    }
}

/// A data row: a digit code that fits in 32 bits, a comma, then a city
/// field. Anything else fails.
pub open spec fn spec_row(line: Seq<char>) -> Option<(u32, Seq<char>)> {
    let i = find_char(line, ',');
    if 0 <= i < line.len() {
        let code_part = line.take(i);
        let city_part = line.skip(i + 1);
        if code_part.len() > 0 && is_digits(code_part) && digits_val(code_part) <= u32::MAX {
            match spec_city(city_part) {
                Some(city) => Some((digits_val(code_part) as u32, city)),
                None => None,
            }
        } else {
            None
        }
    } else {
        None
    }
}

/// The rows that loading keeps: the longest prefix of well-formed rows,
/// cut short at the first failure.
pub open spec fn spec_loaded(lines: Seq<Seq<char>>) -> Seq<(u32, Seq<char>)>
    decreases lines.len(),
{
    if lines.len() == 0 {
        Seq::empty()
    } else {
        match spec_row(lines[0]) {
            Some(p) => seq![p] + spec_loaded(lines.drop_first()),
            None => Seq::empty(),
        }
    }
}

/// The rows the whole dataset text yields: nothing unless the first line is
/// the expected header, then the kept prefix of the data rows.
pub open spec fn spec_loaded_pairs(text: Seq<char>) -> Seq<(u32, Seq<char>)> {
    let lines = spec_lines(text);
    if lines.len() > 0 && lines[0] == header_line() {
        spec_loaded(lines.drop_first())
    } else {
        Seq::empty()
    }
}

/// The map the kept rows build, inserted in order; a repeated code keeps
/// its last city.
pub open spec fn spec_table_of(pairs: Seq<(u32, Seq<char>)>) -> Map<u32, Seq<char>>
    decreases pairs.len(),
{
    if pairs.len() == 0 {
        Map::empty()
    } else {
        spec_table_of(pairs.drop_last()).insert(pairs.last().0, pairs.last().1)
    }
}

/// The reference table a dataset text loads to.
pub open spec fn spec_table(text: Seq<char>) -> Map<u32, Seq<char>> {
    spec_table_of(spec_loaded_pairs(text))
}

/// The views of loaded pairs.
pub open spec fn pair_views(ps: Seq<(u32, String)>) -> Seq<(u32, Seq<char>)> {
    ps.map_values(|p: (u32, String)| (p.0, p.1@))
}

/// Truncation: a failing row hides it and everything after it. Whatever
/// stands beyond the first malformed row never reaches the table.
pub proof fn lemma_loaded_truncated(lines: Seq<Seq<char>>, n: int)
    requires
        0 <= n < lines.len(),
        spec_row(lines[n]) is None,
    ensures
        spec_loaded(lines) == spec_loaded(lines.take(n)),
    decreases n,
{
    if n == 0 {
        assert(spec_loaded(lines.take(0)) =~= Seq::empty());
    } else {
        match spec_row(lines[0]) {
            Some(p) => {
                assert(lines.drop_first()[n - 1] == lines[n]);
                lemma_loaded_truncated(lines.drop_first(), n - 1);
                assert(lines.take(n).drop_first() =~= lines.drop_first().take(n - 1));
                assert(lines.take(n)[0] == lines[0]);
                assert(spec_loaded(lines.take(n)) == seq![p] + spec_loaded(
                    lines.drop_first().take(n - 1),
                ));
            },
            None => {
            },
        }
    }
}

/// Every key of the built map is the code of some pair, found here.
pub proof fn lemma_table_key_from_pair(pairs: Seq<(u32, Seq<char>)>, z: u32) -> (i: int)
    requires
        spec_table_of(pairs).contains_key(z),
    ensures
        0 <= i < pairs.len(),
        pairs[i].0 == z,
    decreases pairs.len(),
{
    if pairs.len() == 0 {
        assert(!Map::<u32, Seq<char>>::empty().contains_key(z));
        0
    } else if pairs.last().0 == z {
        pairs.len() - 1
    } else {
        let i = lemma_table_key_from_pair(pairs.drop_last(), z);
        assert(pairs[i] == pairs.drop_last()[i]);
        i
    }
}

/// Every kept pair is what `spec_row` read from one of the lines, found
/// here.
pub proof fn lemma_loaded_from_row(lines: Seq<Seq<char>>, j: int) -> (k: int)
    requires
        0 <= j < spec_loaded(lines).len(),
    ensures
        0 <= k < lines.len(),
        spec_row(lines[k]) == Some(spec_loaded(lines)[j]),
    decreases lines.len(),
{
    if j == 0 {
        assert(spec_row(lines[0]) == Some(spec_loaded(lines)[0]));
        0
    } else {
        let k = lemma_loaded_from_row(lines.drop_first(), j - 1);
        assert(lines[k + 1] == lines.drop_first()[k]);
        assert(spec_loaded(lines)[j] == spec_loaded(lines.drop_first())[j - 1]);
        k + 1
    }
}

/// A row can read as code zero only from a line that starts with `'0'`.
pub proof fn lemma_zero_row_starts_zero(line: Seq<char>)
    requires
        spec_row(line) matches Some(p) && p.0 == 0,
    ensures
        line.len() > 0 && line[0] == '0',
{
    let i = find_char(line, ',');
    let code_part = line.take(i);
    assert(digits_val(code_part) == 0);
    crate::text::lemma_zero_numeral_starts_zero(code_part);
    assert(code_part[0] == line[0]);
}

/// Every nonempty line of the split text starts at the text's start or
/// right after a line feed; the start position is found here.
pub proof fn lemma_line_heads(s: Seq<char>, k: int) -> (p: int)
    requires
        0 <= k < spec_lines(s).len(),
        spec_lines(s)[k].len() > 0,
    ensures
        0 <= p < s.len(),
        s[p] == spec_lines(s)[k][0],
        p == 0 || s[p - 1] == '\n',
    decreases s.len(),
{
    crate::text::lemma_find_char(s, '\n');
    let f = find_char(s, '\n');
    if 0 <= f < s.len() {
        if k == 0 {
            assert(spec_lines(s)[0] == s.take(f));
            assert(s.take(f)[0] == s[0]);
            0
        } else {
            let rest = s.skip(f + 1);
            assert(spec_lines(s)[k] == spec_lines(rest)[k - 1]);
            let q = lemma_line_heads(rest, k - 1);
            let p = f + 1 + q;
            assert(s[p] == rest[q]);
            if q == 0 {
                assert(s[p - 1] == '\n');
            } else {
                assert(s[p - 1] == rest[q - 1]);
            }
            p
        }
    } else {
        assert(spec_lines(s)[0] == s);
        0
    }
}

/// Split text at line feeds.
pub fn split_lines(s: &str) -> (lines: Vec<String>)
    ensures
        lines@.map_values(|l: String| l@) == spec_lines(s@),
{
    let n = s.unicode_len();
    let mut lines: Vec<String> = Vec::new();
    let mut start: usize = 0;
    proof {
        assert(s@.skip(0) =~= s@);
        assert(lines@.map_values(|l: String| l@) + spec_lines(s@.skip(0)) =~= spec_lines(s@));
    }
    loop
        invariant
            start <= n,
            n == s@.len(),
            spec_lines(s@) == lines@.map_values(|l: String| l@) + spec_lines(
                s@.skip(start as int),
            ),
        decreases n - start,
    {
        let i = find_char_from(s, start, '\n');
        let piece = s.substring_char(start, i);
        proof {
            let t = s@.skip(start as int);
            assert(t =~= s@.subrange(start as int, n as int));
            assert forall|j: int| 0 <= j < i - start implies t[j] != '\n' by {
                assert(t[j] == s@[start + j]);
            }
            if i < n {
                assert(t[i - start] == s@[i as int]);
            }
            lemma_find_char_is(t, '\n', i - start);
            assert(piece@ =~= t.take(i - start));
            if i < n {
                assert(t.skip(i - start + 1) =~= s@.skip(i + 1));
                assert(spec_lines(t) == seq![piece@] + spec_lines(s@.skip(i + 1)));
            } else {
                assert(piece@ =~= t);
                assert(spec_lines(t) == seq![t]);
            }
        }
        let ghost old_lines = lines@;
        lines.push(String::from_str(piece));
        proof {
            assert(lines@.map_values(|l: String| l@) =~= old_lines.map_values(|l: String| l@)
                + seq![piece@]);
        }
        if i == n {
            proof {
                assert(spec_lines(s@) =~= lines@.map_values(|l: String| l@));
            }
            return lines;
        }
        start = i + 1;
        proof {
            assert(spec_lines(s@) =~= lines@.map_values(|l: String| l@) + spec_lines(
                s@.skip(start as int),
            ));
        }
    }
}

/// Read the content of a quoted city field, given the text after its
/// opening quote.
fn unquote(s: &str) -> (r: Option<String>)
    ensures
        (match (r, spec_unquote(s@)) {
            (Some(v), Some(w)) => v@ == w,
            (None, None) => true,
            _ => false,
        }),
    decreases s@.len(),
{
    let n = s.unicode_len();
    let i = find_char_from(s, 0, '"');
    proof {
        assert(s@.skip(0) =~= s@);
    }
    if i == n {
        None
    } else if i + 1 == n {
        let piece = s.substring_char(0, i);
        proof {
            assert(piece@ =~= s@.take(i as int));
        }
        Some(String::from_str(piece))
    } else if s.get_char(i + 1) == '"' {
        let rest = s.substring_char(i + 2, n);
        proof {
            assert(rest@ =~= s@.skip(i + 2));
        }
        match unquote(rest) {
            Some(r2) => {
                let mut out = String::from_str(s.substring_char(0, i));
                out.append("\"");
                out.append(r2.as_str());
                proof {
                    reveal_strlit("\"");
                    assert(out@ =~= s@.take(i as int).push('"') + r2@);
                }
                Some(out)
            },
            None => None,
        }
    } else {
        None
    }
}

/// Read a city field.
fn parse_city(s: &str) -> (r: Option<String>)
    ensures
        (match (r, spec_city(s@)) {
            (Some(v), Some(w)) => v@ == w,
            (None, None) => true,
            _ => false,
        }),
{
    let n = s.unicode_len();
    if n > 0 && s.get_char(0) == '"' {
        let rest = s.substring_char(1, n);
        proof {
            assert(rest@ =~= s@.skip(1));
        }
        unquote(rest)
    } else {
        let f_comma = find_char_from(s, 0, ',');
        let f_quote = find_char_from(s, 0, '"');
        if f_comma == n && f_quote == n {
            Some(String::from_str(s))
        } else {
            None
        }
    }
}

/// Read one data row.
pub fn parse_row(line: &str) -> (r: Option<(u32, String)>)
    ensures
        (match (r, spec_row(line@)) {
            (Some(p), Some(q)) => p.0 == q.0 && p.1@ == q.1,
            (None, None) => true,
            _ => false,
        }),
{
    let n = line.unicode_len();
    let i = find_char_from(line, 0, ',');
    proof {
        assert(line@.skip(0) =~= line@);
    }
    if i == n {
        return None;
    }
    let code_part = line.substring_char(0, i);
    proof {
        assert(code_part@ =~= line@.take(i as int));
    }
    let code = match parse_code_digits(code_part) {
        Some(v) => v,
        None => {
            return None;
        },
    };
    let city_part = line.substring_char(i + 1, n);
    proof {
        assert(city_part@ =~= line@.skip(i + 1));
    }
    match parse_city(city_part) {
        Some(city) => Some((code, city)),
        None => None,
    }
}

/// Load the kept rows of a dataset text, in order: nothing without the
/// exact header, and nothing at or after the first malformed row.
pub fn load_pairs(text: &str) -> (pairs: Vec<(u32, String)>)
    ensures
        pair_views(pairs@) == spec_loaded_pairs(text@),
{
    let lines = split_lines(text);
    let ghost lviews = lines@.map_values(|l: String| l@);
    let mut pairs: Vec<(u32, String)> = Vec::new();
    if lines.len() == 0 || !str_eq(lines[0].as_str(), "postal_code,city") {
        proof {
            assert(pair_views(pairs@) =~= spec_loaded_pairs(text@));
        }
        return pairs;
    }
    let mut idx: usize = 1;
    while idx < lines.len()
        invariant
            1 <= idx <= lines.len(),
            lviews == lines@.map_values(|l: String| l@),
            lviews == spec_lines(text@),
            lviews.len() > 0 && lviews[0] == header_line(),
            spec_loaded(lviews.drop_first()) == pair_views(pairs@) + spec_loaded(
                lviews.skip(idx as int),
            ),
        decreases lines.len() - idx,
    {
        proof {
            assert(lviews.skip(idx as int)[0] == lviews[idx as int]);
            assert(lviews.skip(idx as int).drop_first() =~= lviews.skip(idx + 1));
        }
        match parse_row(lines[idx].as_str()) {
            Some(p) => {
                let ghost old_pairs = pairs@;
                pairs.push(p);
                proof {
                    assert(pair_views(pairs@) =~= pair_views(old_pairs) + seq![
                        (p.0, p.1@),
                    ]);
                    assert(spec_loaded(lviews.skip(idx as int)) == seq![(p.0, p.1@)]
                        + spec_loaded(lviews.skip(idx + 1)));
                    assert(spec_loaded(lviews.drop_first()) =~= pair_views(pairs@)
                        + spec_loaded(lviews.skip(idx + 1)));
                }
            },
            None => {
                proof {
                    assert(spec_loaded(lviews.skip(idx as int)) =~= Seq::<(u32, Seq<char>)>::empty());
                    assert(pair_views(pairs@) =~= spec_loaded_pairs(text@));
                }
                return pairs;
            },
        }
        idx += 1;
    }
    proof {
        assert(lviews.skip(idx as int) =~= Seq::<Seq<char>>::empty());
        assert(spec_loaded(lviews.skip(idx as int)) =~= Seq::<(u32, Seq<char>)>::empty());
        assert(pair_views(pairs@) =~= spec_loaded_pairs(text@));
    }
    pairs
}

/// Build the lookup map from loaded rows, inserting in order.
pub fn build_table(pairs: &Vec<(u32, String)>) -> (m: HashMap<u32, String>)
    ensures
        m@.map_values(|v: String| v@) == spec_table_of(pair_views(pairs@)),
{
    let mut m: HashMap<u32, String> = HashMap::new();
    proof {
        assert(m@.map_values(|v: String| v@) =~= spec_table_of(pair_views(pairs@).take(0)));
    }
    let mut idx: usize = 0;
    while idx < pairs.len()
        invariant
            0 <= idx <= pairs@.len(),
            vstd::std_specs::hash::obeys_key_model::<u32>(),
            vstd::std_specs::hash::builds_valid_hashers::<std::hash::RandomState>(),
            m@.map_values(|v: String| v@) == spec_table_of(pair_views(pairs@).take(idx as int)),
        decreases pairs@.len() - idx,
    {
        let code = pairs[idx].0;
        let city = pairs[idx].1.clone();
        let ghost old_m = m@;
        m.insert(code, city);
        proof {
            let prefix = pair_views(pairs@).take(idx + 1);
            assert(prefix.drop_last() =~= pair_views(pairs@).take(idx as int));
            assert(prefix.last() == (code, city@));
            assert(m@.map_values(|v: String| v@) =~= old_m.map_values(|v: String| v@).insert(
                code,
                city@,
            ));
        }
        idx += 1;
    }
    proof {
        assert(pair_views(pairs@).take(idx as int) =~= pair_views(pairs@));
    }
    m
}

} // verus!
