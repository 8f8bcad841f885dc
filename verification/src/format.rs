//! The comma-delimited wire format, stated over sequences of characters.
//!
//! `enc_rows` says exactly what text a table of cells is written as, and
//! `parse_rows` says exactly what table any text is read back as.  The
//! parser is total: on malformed quoting it still yields a defined result
//! (an unterminated quoted cell runs to the end of the input, and text
//! between a closing quote and the next separator is appended to the cell).

use vstd::prelude::*;

verus! {

/// A character that ends an unquoted cell: the delimiter or a line break.
pub open spec fn is_sep(c: char) -> bool {
    c == ',' || c == '\n' || c == '\r'
}

/// A cell value must be quoted when it holds the delimiter, a quote
/// character, or a line break.
pub open spec fn needs_quote(v: Seq<char>) -> bool {
    exists|k: int| 0 <= k < v.len() && (is_sep(v[k]) || v[k] == '"')
}

/// Doubles every quote character, the escape used inside a quoted cell.
pub open spec fn fold_quotes(v: Seq<char>) -> Seq<char>
    decreases v.len(),
{
    if v.len() == 0 {
        Seq::empty()
    } else if v[0] == '"' {
        seq!['"', '"'] + fold_quotes(v.skip(1))
    } else {
        seq![v[0]] + fold_quotes(v.skip(1))
    }
}

/// One cell as written: quoted and escaped when necessary.  A cell that is
/// the only cell of its row (`lone`) is also quoted when empty, so that the
/// row is not written as a blank line.
pub open spec fn enc_field(v: Seq<char>, lone: bool) -> Seq<char> {
    if needs_quote(v) || (lone && v.len() == 0) {
        seq!['"'] + fold_quotes(v) + seq!['"']
    } else {
        v
    }
}

/// The second and later cells of a row, each preceded by the delimiter.
pub open spec fn enc_tail(r: Seq<Seq<char>>) -> Seq<char>
    decreases r.len(),
{
    if r.len() == 0 {
        Seq::empty()
    } else {
        seq![','] + enc_field(r[0], false) + enc_tail(r.skip(1))
    }
}

/// One row as written, without its terminator.
pub open spec fn enc_row(r: Seq<Seq<char>>) -> Seq<char>
    recommends
        r.len() >= 1,
{
    enc_field(r[0], r.len() == 1) + enc_tail(r.skip(1))
}

/// A whole table as written: each row followed by a line feed.
pub open spec fn enc_rows(rows: Seq<Seq<Seq<char>>>) -> Seq<char>
    decreases rows.len(),
{
    if rows.len() == 0 {
        Seq::empty()
    } else {
        enc_row(rows[0]) + seq!['\n'] + enc_rows(rows.skip(1))
    }
}

/// The position of the first separator at or after `i`, or the input's end.
pub open spec fn scan_sep(s: Seq<char>, i: int) -> int
    recommends
        0 <= i <= s.len(),
    decreases s.len() - i,
{
    if i < 0 || i >= s.len() {
        s.len() as int
    } else if is_sep(s[i]) {
        i
    } else {
        scan_sep(s, i + 1)
    }
}

/// Reads the inside of a quoted cell starting at `i` (just after the opening
/// quote): a doubled quote stands for one literal quote, a single quote
/// closes the cell.  Returns the content and the position just after the
/// closing quote; an unterminated cell runs to the end of the input.
pub open spec fn parse_quoted(s: Seq<char>, i: int) -> (Seq<char>, int)
    recommends
        0 <= i <= s.len(),
    decreases s.len() - i,
{
    if i < 0 || i >= s.len() {
        (Seq::empty(), s.len() as int)
    } else if s[i] == '"' {
        if i + 1 < s.len() && s[i + 1] == '"' {
            let (v, j) = parse_quoted(s, i + 2);
            (seq!['"'] + v, j)
        } else {
            (Seq::empty(), i + 1)
        }
    } else {
        let (v, j) = parse_quoted(s, i + 1);
        (seq![s[i]] + v, j)
    }
}

/// Reads one cell starting at `i`.  Returns the value and the position of
/// the separator (or the input's end) that follows it.  After a closing
/// quote, any text before the next separator is appended to the value.
pub open spec fn parse_field(s: Seq<char>, i: int) -> (Seq<char>, int)
    recommends
        0 <= i <= s.len(),
{
    if 0 <= i && i < s.len() && s[i] == '"' {
        let (v, j) = parse_quoted(s, i + 1);
        let k = scan_sep(s, j);
        (v + s.subrange(j, k), k)
    } else {
        let k = scan_sep(s, i);
        (s.subrange(i, k), k)
    }
}

/// The position just after a row terminator at `j`: a carriage return
/// followed by a line feed counts as one terminator.
pub open spec fn eat_term(s: Seq<char>, j: int) -> int {
    if 0 <= j && j < s.len() && s[j] == '\r' && j + 1 < s.len() && s[j + 1] == '\n' {
        j + 2
    } else {
        j + 1
    }
}

/// Reads one row starting at `i`: cells separated by commas, ended by a
/// line break (consumed) or the input's end.
pub open spec fn parse_row(s: Seq<char>, i: int) -> (Seq<Seq<char>>, int)
    recommends
        0 <= i <= s.len(),
    decreases s.len() - i,
    when 0 <= i <= s.len()
    via parse_row_decreases
{
    let (v, k) = parse_field(s, i);
    if k >= s.len() {
        (seq![v], s.len() as int)
    } else if s[k] == ',' {
        let (r, j) = parse_row(s, k + 1);
        (seq![v] + r, j)
    } else {
        (seq![v], eat_term(s, k))
    }
}

/// Reads the whole input as a table.  Blank lines stand for no row at all,
/// so a trailing terminator adds nothing.
pub open spec fn parse_rows(s: Seq<char>, i: int) -> Seq<Seq<Seq<char>>>
    recommends
        0 <= i <= s.len(),
    decreases s.len() - i,
    when 0 <= i <= s.len()
    via parse_rows_decreases
{
    if i >= s.len() {
        Seq::empty()
    } else if s[i] == '\n' || s[i] == '\r' {
        parse_rows(s, eat_term(s, i))
    } else {
        let (r, j) = parse_row(s, i);
        seq![r] + parse_rows(s, j)
    }
}

pub proof fn lemma_scan_sep_bounds(s: Seq<char>, i: int)
    requires
        0 <= i <= s.len(),
    ensures
        i <= scan_sep(s, i) <= s.len(),
        forall|k: int| i <= k < scan_sep(s, i) ==> !is_sep(s[k]),
        scan_sep(s, i) < s.len() ==> is_sep(s[scan_sep(s, i)]),
    decreases s.len() - i,
{
    if i < s.len() && !is_sep(s[i]) {
        lemma_scan_sep_bounds(s, i + 1);
    }
}

pub proof fn lemma_parse_quoted_bounds(s: Seq<char>, i: int)
    requires
        0 <= i <= s.len(),
    ensures
        i <= parse_quoted(s, i).1 <= s.len(),
    decreases s.len() - i,
{
    if i < s.len() {
        if s[i] == '"' {
            if i + 1 < s.len() && s[i + 1] == '"' {
                lemma_parse_quoted_bounds(s, i + 2);
            }
        } else {
            lemma_parse_quoted_bounds(s, i + 1);
        }
    }
}

pub proof fn lemma_parse_field_bounds(s: Seq<char>, i: int)
    requires
        0 <= i <= s.len(),
    ensures
        i <= parse_field(s, i).1 <= s.len(),
        parse_field(s, i).1 < s.len() ==> is_sep(s[parse_field(s, i).1]),
{
    if i < s.len() && s[i] == '"' {
        lemma_parse_quoted_bounds(s, i + 1);
        lemma_scan_sep_bounds(s, parse_quoted(s, i + 1).1);
    } else {
        lemma_scan_sep_bounds(s, i);
    }
}

#[via_fn]
proof fn parse_row_decreases(s: Seq<char>, i: int) {
    lemma_parse_field_bounds(s, i);
}

pub proof fn lemma_parse_row_bounds(s: Seq<char>, i: int)
    requires
        0 <= i <= s.len(),
    ensures
        i <= parse_row(s, i).1 <= s.len(),
        i < s.len() ==> i < parse_row(s, i).1,
    decreases s.len() - i,
{
    lemma_parse_field_bounds(s, i);
    let (v, k) = parse_field(s, i);
    if k < s.len() && s[k] == ',' {
        lemma_parse_row_bounds(s, k + 1);
    }
}

#[via_fn]
proof fn parse_rows_decreases(s: Seq<char>, i: int) {
    if 0 <= i < s.len() && !(s[i] == '\n' || s[i] == '\r') {
        lemma_parse_row_bounds(s, i);
    }
}

proof fn lemma_scan_sep_run(s: Seq<char>, i: int, e: int)
    requires
        0 <= i <= e <= s.len(),
        forall|k: int| i <= k < e ==> !is_sep(s[k]),
        e == s.len() || is_sep(s[e]),
    ensures
        scan_sep(s, i) == e,
    decreases e - i,
{
    if i < e {
        lemma_scan_sep_run(s, i + 1, e);
    }
}

proof fn lemma_parse_quoted_enc(s: Seq<char>, i: int, v: Seq<char>, j: int)
    requires
        0 <= i <= j < s.len(),
        s.subrange(i, j) == fold_quotes(v),
        s[j] == '"',
        j + 1 == s.len() || s[j + 1] != '"',
    ensures
        parse_quoted(s, i) == (v, j + 1),
    decreases v.len(),
{
    assert(s.subrange(i, j).len() == j - i);
    if v.len() == 0 {
        assert(j == i);
    } else if v[0] == '"' {
        assert(fold_quotes(v) == seq!['"', '"'] + fold_quotes(v.skip(1)));
        assert(s[i] == fold_quotes(v)[0]) by {
            assert(s.subrange(i, j)[0] == s[i]);
        }
        assert(s[i + 1] == fold_quotes(v)[1]) by {
            assert(s.subrange(i, j)[1] == s[i + 1]);
        }
        assert(s.subrange(i + 2, j) == fold_quotes(v.skip(1))) by {
            assert(s.subrange(i + 2, j) =~= fold_quotes(v).skip(2));
            assert(fold_quotes(v).skip(2) =~= fold_quotes(v.skip(1)));
        }
        lemma_parse_quoted_enc(s, i + 2, v.skip(1), j);
        assert(seq!['"'] + v.skip(1) =~= v);
    } else {
        assert(fold_quotes(v) == seq![v[0]] + fold_quotes(v.skip(1)));
        assert(s[i] == fold_quotes(v)[0]) by {
            assert(s.subrange(i, j)[0] == s[i]);
        }
        assert(s[i] == v[0]);
        assert(s.subrange(i + 1, j) == fold_quotes(v.skip(1))) by {
            assert(s.subrange(i + 1, j) =~= fold_quotes(v).skip(1));
            assert(fold_quotes(v).skip(1) =~= fold_quotes(v.skip(1)));
        }
        lemma_parse_quoted_enc(s, i + 1, v.skip(1), j);
        assert(seq![s[i]] + v.skip(1) =~= v);
    }
}

proof fn lemma_parse_field_enc(s: Seq<char>, i: int, v: Seq<char>, lone: bool, j: int)
    requires
        0 <= i <= j <= s.len(),
        s.subrange(i, j) == enc_field(v, lone),
        j == s.len() || is_sep(s[j]),
    ensures
        parse_field(s, i) == (v, j),
{
    if needs_quote(v) || (lone && v.len() == 0) {
        let body = fold_quotes(v);
        assert(enc_field(v, lone) == seq!['"'] + body + seq!['"']);
        assert(s.subrange(i, j).len() == j - i);
        assert(s[i] == '"') by {
            assert(s.subrange(i, j)[0] == s[i]);
        }
        assert(s[j - 1] == '"') by {
            assert(s.subrange(i, j)[j - i - 1] == s[j - 1]);
        }
        assert(s.subrange(i + 1, j - 1) == body) by {
            assert(s.subrange(i + 1, j - 1) =~= s.subrange(i, j).subrange(
                1,
                j - i - 1,
            ));
            assert(s.subrange(i, j).subrange(1, j - i - 1) =~= body);
        }
        lemma_parse_quoted_enc(s, i + 1, v, j - 1);
        lemma_scan_sep_run(s, j, j);
        assert(v + s.subrange(j, j) =~= v);
    } else {
        assert(s.subrange(i, j).len() == j - i);
        assert(forall|k: int| i <= k < j ==> s[k] == v[k - i]) by {
            assert(forall|k: int|
                i <= k < j ==> s.subrange(i, j)[k - i] == s[k]);
        }
        assert(forall|k: int| i <= k < j ==> !is_sep(s[k]) && s[k] != '"');
        if i < s.len() && s[i] == '"' {
            // the cell starts with a quote only if the quote is its own
            // content, which would have forced quoting
            assert(i < j ==> s[i] == v[0] && (is_sep(v[0]) || v[0] == '"')
                == false);
            assert(i == j);
            assert(is_sep(s[i]));
            assert(false);
        }
        lemma_scan_sep_run(s, i, j);
        assert(s.subrange(i, j) == v);
    }
}

proof fn lemma_parse_row_fields(s: Seq<char>, i: int, r: Seq<Seq<char>>, j: int)
    requires
        0 <= i <= j <= s.len(),
        r.len() >= 1,
        s.subrange(i, j) == enc_field(r[0], false) + enc_tail(r.skip(1)),
        j == s.len() || s[j] == '\n' || s[j] == '\r',
    ensures
        parse_row(s, i) == (r, if j == s.len() { j } else { eat_term(s, j) }),
    decreases r.len(),
{
    let e0 = enc_field(r[0], false);
    assert(s.subrange(i, j).len() == j - i);
    if r.len() == 1 {
        assert(enc_tail(r.skip(1)) =~= Seq::<char>::empty());
        assert(s.subrange(i, j) =~= e0);
        lemma_parse_field_enc(s, i, r[0], false, j);
        assert(seq![r[0]] =~= r);
    } else {
        let tail = r.skip(1);
        assert(enc_tail(tail) == seq![','] + enc_field(tail[0], false)
            + enc_tail(tail.skip(1)));
        let m = i + e0.len();
        assert(m <= j);
        assert(s[m] == ',') by {
            assert(s.subrange(i, j)[m - i] == s[m]);
            assert((e0 + enc_tail(tail))[m - i] == enc_tail(tail)[0]);
        }
        assert(s.subrange(i, m) == e0) by {
            assert(s.subrange(i, m) =~= s.subrange(i, j).subrange(0, m - i));
            assert(s.subrange(i, j).subrange(0, m - i) =~= e0);
        }
        lemma_parse_field_enc(s, i, r[0], false, m);
        assert(s.subrange(m + 1, j) == enc_field(tail[0], false) + enc_tail(
            tail.skip(1),
        )) by {
            assert(s.subrange(m + 1, j) =~= s.subrange(i, j).subrange(
                m + 1 - i,
                j - i,
            ));
            assert(s.subrange(i, j).subrange(m + 1 - i, j - i) =~= enc_field(
                tail[0],
                false,
            ) + enc_tail(tail.skip(1)));
        }
        lemma_parse_row_fields(s, m + 1, tail, j);
        assert(seq![r[0]] + tail =~= r);
    }
}

/// `enc_field(v, lone)` and `enc_field(v, false)` agree on a nonempty value.
proof fn lemma_enc_field_lone(v: Seq<char>, lone: bool)
    requires
        v.len() >= 1,
    ensures
        enc_field(v, lone) == enc_field(v, false),
{
}

/// Reading back one encoded row yields that row and stops just after its
/// terminator.
proof fn lemma_parse_row_enc(s: Seq<char>, i: int, r: Seq<Seq<char>>, j: int)
    requires
        0 <= i <= j <= s.len(),
        r.len() >= 1,
        s.subrange(i, j) == enc_row(r),
        j == s.len() || s[j] == '\n' || s[j] == '\r',
    ensures
        parse_row(s, i) == (r, if j == s.len() { j } else { eat_term(s, j) }),
{
    if r.len() == 1 && r[0].len() == 0 {
        // the row is written as a pair of quotes so it is not a blank line
        assert(enc_row(r) =~= seq!['"', '"']);
        assert(s.subrange(i, j).len() == j - i);
        assert(j == i + 2);
        assert(s[i] == '"' && s[i + 1] == '"') by {
            assert(s.subrange(i, j)[0] == s[i]);
            assert(s.subrange(i, j)[1] == s[i + 1]);
        }
        assert(parse_quoted(s, i + 1) == (Seq::<char>::empty(), i + 2));
        lemma_scan_sep_run(s, j, j);
        assert(parse_field(s, i) == (Seq::<char>::empty() + s.subrange(j, j), j));
        assert(Seq::<char>::empty() + s.subrange(j, j) =~= r[0]);
        assert(seq![r[0]] =~= r);
    } else {
        if r.len() == 1 {
            lemma_enc_field_lone(r[0], true);
        }
        assert(enc_row(r) == enc_field(r[0], false) + enc_tail(r.skip(1)));
        lemma_parse_row_fields(s, i, r, j);
    }
}

/// An encoded row is never blank and never begins with a row terminator.
proof fn lemma_enc_row_head(r: Seq<Seq<char>>)
    requires
        r.len() >= 1,
    ensures
        enc_row(r).len() >= 1,
        enc_row(r)[0] != '\n',
        enc_row(r)[0] != '\r',
{
    let v = r[0];
    let lone = r.len() == 1;
    if needs_quote(v) || (lone && v.len() == 0) {
        assert(enc_row(r)[0] == (enc_field(v, lone))[0]);
        assert(enc_field(v, lone)[0] == '"');
    } else if v.len() >= 1 {
        assert(enc_field(v, lone) == v);
        assert(enc_row(r)[0] == v[0]);
        assert(!is_sep(v[0]));
    } else {
        // empty first cell in a row of several cells: the delimiter follows
        assert(r.len() >= 2);
        assert(enc_field(v, lone) =~= Seq::<char>::empty());
        assert(enc_row(r) =~= enc_tail(r.skip(1)));
        assert(enc_tail(r.skip(1))[0] == ',');
    }
}

/// Reading back an encoded table starting at `i` yields exactly its rows.
proof fn lemma_parse_rows_enc(s: Seq<char>, i: int, rows: Seq<Seq<Seq<char>>>)
    requires
        0 <= i <= s.len(),
        s.subrange(i, s.len() as int) == enc_rows(rows),
        forall|k: int| 0 <= k < rows.len() ==> rows[k].len() >= 1,
    ensures
        parse_rows(s, i) == rows,
    decreases rows.len(),
{
    assert(s.subrange(i, s.len() as int).len() == s.len() - i);
    if rows.len() == 0 {
        assert(i == s.len());
    } else {
        let r0 = rows[0];
        assert(enc_rows(rows) == enc_row(r0) + seq!['\n'] + enc_rows(rows.skip(1)));
        let m = i + enc_row(r0).len();
        lemma_enc_row_head(r0);
        assert(i < s.len());
        assert(s[i] == enc_row(r0)[0]) by {
            assert(s.subrange(i, s.len() as int)[0] == s[i]);
            assert(enc_rows(rows)[0] == enc_row(r0)[0]);
        }
        assert(s[m] == '\n') by {
            assert(s.subrange(i, s.len() as int)[m - i] == s[m]);
            assert(enc_rows(rows)[m - i] == '\n');
        }
        assert(s.subrange(i, m) == enc_row(r0)) by {
            assert(s.subrange(i, m) =~= s.subrange(i, s.len() as int).subrange(
                0,
                m - i,
            ));
            assert(s.subrange(i, s.len() as int).subrange(0, m - i) =~= enc_row(
                r0,
            ));
        }
        lemma_parse_row_enc(s, i, r0, m);
        assert(eat_term(s, m) == m + 1);
        assert(s.subrange(m + 1, s.len() as int) == enc_rows(rows.skip(1))) by {
            assert(s.subrange(m + 1, s.len() as int) =~= s.subrange(
                i,
                s.len() as int,
            ).subrange(m + 1 - i, s.len() - i));
            assert(s.subrange(i, s.len() as int).subrange(
                m + 1 - i,
                s.len() - i,
            ) =~= enc_rows(rows.skip(1)));
        }
        lemma_parse_rows_enc(s, m + 1, rows.skip(1));
        assert(seq![r0] + rows.skip(1) =~= rows);
    }
}

/// Round trip at the level of the wire format: any table whose rows each
/// hold at least one cell is read back exactly from its own encoding.
pub proof fn lemma_parse_enc_rows(rows: Seq<Seq<Seq<char>>>)
    requires
        forall|k: int| 0 <= k < rows.len() ==> rows[k].len() >= 1,
    ensures
        parse_rows(enc_rows(rows), 0) == rows,
{
    let s = enc_rows(rows);
    assert(s.subrange(0, s.len() as int) =~= s);
    lemma_parse_rows_enc(s, 0, rows);
}

} // verus!
