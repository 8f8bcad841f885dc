//! The executable parser for the wire format, proved equal to the spec
//! parser of `format`.

use vstd::prelude::*;
use crate::format::{
    eat_term, is_sep, lemma_parse_field_bounds, lemma_parse_quoted_bounds, lemma_parse_row_bounds,
    lemma_scan_sep_bounds, parse_field, parse_quoted, parse_row, parse_rows, scan_sep,
};
use crate::chars::copy_range;

verus! {

/// The position of the first separator at or after `i`, or the input's end.
fn scan_sep_x(s: &Vec<char>, i: usize) -> (k: usize)
    requires
        i <= s.len(),
    ensures
        k as int == scan_sep(s@, i as int),
        i <= k <= s.len(),
    decreases s.len() - i,
{
    proof {
        lemma_scan_sep_bounds(s@, i as int);
    }
    if i >= s.len() {
        s.len()
    } else if s[i] == ',' || s[i] == '\n' || s[i] == '\r' {
        i
    } else {
        scan_sep_x(s, i + 1)
    }
}

/// The inside of a quoted cell starting just after the opening quote:
/// the content and the position just after the closing quote.
fn parse_quoted_x(s: &Vec<char>, i: usize) -> (res: (Vec<char>, usize))
    requires
        i <= s.len(),
    ensures
        res.0@ == parse_quoted(s@, i as int).0,
        res.1 as int == parse_quoted(s@, i as int).1,
        i <= res.1 <= s.len(),
    decreases s.len() - i,
{
    proof {
        lemma_parse_quoted_bounds(s@, i as int);
    }
    if i >= s.len() {
        (Vec::new(), s.len())
    } else if s[i] == '"' {
        if i + 1 < s.len() && s[i + 1] == '"' {
            let (mut v, j) = parse_quoted_x(s, i + 2);
            v.insert(0, '"');
            proof {
                assert(v@ =~= seq!['"'] + parse_quoted(s@, i + 2).0);
            }
            (v, j)
        } else {
            (Vec::new(), i + 1)
        }
    } else {
        let c = s[i];
        let (mut v, j) = parse_quoted_x(s, i + 1);
        v.insert(0, c);
        proof {
            assert(v@ =~= seq![s@[i as int]] + parse_quoted(s@, i + 1).0);
        }
        (v, j)
    }
}

/// One cell starting at `i`: its value and the position of the separator
/// (or the input's end) that follows it.
fn parse_field_x(s: &Vec<char>, i: usize) -> (res: (Vec<char>, usize))
    requires
        i <= s.len(),
    ensures
        res.0@ == parse_field(s@, i as int).0,
        res.1 as int == parse_field(s@, i as int).1,
        i <= res.1 <= s.len(),
        res.1 < s.len() ==> is_sep(s@[res.1 as int]),
{
    proof {
        lemma_parse_field_bounds(s@, i as int);
    }
    if i < s.len() && s[i] == '"' {
        let (mut v, j) = parse_quoted_x(s, i + 1);
        let k = scan_sep_x(s, j);
        proof {
            lemma_scan_sep_bounds(s@, j as int);
        }
        let mut rest = copy_range(s, j, k);
        v.append(&mut rest);
        (v, k)
    } else {
        let k = scan_sep_x(s, i);
        proof {
            lemma_scan_sep_bounds(s@, i as int);
        }
        (copy_range(s, i, k), k)
    }
}

/// One row starting at `i`: its cells and the position just after the row's
/// terminator (or the input's end).
fn parse_row_x(s: &Vec<char>, i: usize) -> (res: (Vec<Vec<char>>, usize))
    requires
        i <= s.len(),
    ensures
        res.0.deep_view() == parse_row(s@, i as int).0,
        res.1 as int == parse_row(s@, i as int).1,
        i <= res.1 <= s.len(),
    decreases s.len() - i,
{
    proof {
        lemma_parse_row_bounds(s@, i as int);
    }
    let (v, k) = parse_field_x(s, i);
    if k >= s.len() {
        let mut row: Vec<Vec<char>> = Vec::new();
        row.push(v);
        proof {
            assert(row.deep_view() =~~= seq![parse_field(s@, i as int).0]);
        }
        (row, s.len())
    } else if s[k] == ',' {
        let (mut r, j) = parse_row_x(s, k + 1);
        r.insert(0, v);
        proof {
            assert(r.deep_view() =~~= seq![parse_field(s@, i as int).0] + parse_row(
                s@,
                k + 1,
            ).0);
        }
        (r, j)
    } else {
        let mut row: Vec<Vec<char>> = Vec::new();
        row.push(v);
        proof {
            assert(row.deep_view() =~~= seq![parse_field(s@, i as int).0]);
        }
        let j = if s[k] == '\r' && k + 1 < s.len() && s[k + 1] == '\n' {
            k + 2
        } else {
            k + 1
        };
        proof {
            assert(j as int == eat_term(s@, k as int));
        }
        (row, j)
    }
}

/// The whole input as a table of rows of cells.
pub fn parse_rows_x(s: &Vec<char>, i: usize) -> (res: Vec<Vec<Vec<char>>>)
    requires
        i <= s.len(),
    ensures
        res.deep_view() == parse_rows(s@, i as int),
    decreases s.len() - i,
{
    proof {
        if (i as int) < s@.len() && !(s@[i as int] == '\n' || s@[i as int] == '\r') {
            lemma_parse_row_bounds(s@, i as int);
        }
    }
    if i >= s.len() {
        let res: Vec<Vec<Vec<char>>> = Vec::new();
        proof {
            assert(res.deep_view() =~~= parse_rows(s@, i as int));
        }
        res
    } else if s[i] == '\n' || s[i] == '\r' {
        let j = if s[i] == '\r' && i + 1 < s.len() && s[i + 1] == '\n' {
            i + 2
        } else {
            i + 1
        };
        proof {
            assert(j as int == eat_term(s@, i as int));
        }
        parse_rows_x(s, j)
    } else {
        let (r, j) = parse_row_x(s, i);
        let mut res = parse_rows_x(s, j);
        res.insert(0, r);
        proof {
            assert(res.deep_view() =~~= seq![parse_row(s@, i as int).0] + parse_rows(
                s@,
                parse_row(s@, i as int).1,
            ));
        }
        res
    }
}

} // verus!
