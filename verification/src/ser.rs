//! The executable writer for the wire format, proved equal to the spec
//! encoder of `format`.

use vstd::prelude::*;
use crate::format::{enc_field, enc_row, enc_rows, enc_tail, fold_quotes, is_sep, needs_quote};

verus! {

proof fn lemma_fold_quotes_snoc(p: Seq<char>, c: char)
    ensures
        fold_quotes(p.push(c)) == fold_quotes(p) + (if c == '"' {
            seq!['"', '"']
        } else {
            seq![c]
        }),
    decreases p.len(),
{
    let tail = if c == '"' { seq!['"', '"'] } else { seq![c] };
    if p.len() == 0 {
        assert(p.push(c)[0] == c);
        assert(p.push(c).skip(1) =~= Seq::<char>::empty());
        assert(fold_quotes(Seq::<char>::empty()) =~= Seq::<char>::empty());
        assert(fold_quotes(p.push(c)) =~= tail);
        assert(fold_quotes(p) + tail =~= tail);
    } else {
        lemma_fold_quotes_snoc(p.skip(1), c);
        assert(p.push(c).skip(1) =~= p.skip(1).push(c));
        assert(p.push(c)[0] == p[0]);
        let head = if p[0] == '"' { seq!['"', '"'] } else { seq![p[0]] };
        assert(fold_quotes(p.push(c)) == head + fold_quotes(p.skip(1).push(c)));
        assert(head + (fold_quotes(p.skip(1)) + tail) =~= (head + fold_quotes(p.skip(1)))
            + tail);
    }
}

proof fn lemma_enc_tail_snoc(p: Seq<Seq<char>>, v: Seq<char>)
    ensures
        enc_tail(p.push(v)) == enc_tail(p) + seq![','] + enc_field(v, false),
    decreases p.len(),
{
    if p.len() == 0 {
        assert(p.push(v)[0] == v);
        assert(p.push(v).skip(1) =~= Seq::<Seq<char>>::empty());
        assert(enc_tail(Seq::<Seq<char>>::empty()) =~= Seq::<char>::empty());
        assert(enc_tail(p.push(v)) =~= seq![','] + enc_field(v, false));
        assert(enc_tail(p) + seq![','] + enc_field(v, false) =~= seq![','] + enc_field(
            v,
            false,
        ));
    } else {
        lemma_enc_tail_snoc(p.skip(1), v);
        assert(p.push(v).skip(1) =~= p.skip(1).push(v));
        assert(p.push(v)[0] == p[0]);
        assert(enc_tail(p.push(v)) == seq![','] + enc_field(p[0], false) + enc_tail(
            p.skip(1).push(v),
        ));
        assert(seq![','] + enc_field(p[0], false) + (enc_tail(p.skip(1)) + seq![','] + enc_field(
            v,
            false,
        )) =~= (seq![','] + enc_field(p[0], false) + enc_tail(p.skip(1))) + seq![',']
            + enc_field(v, false));
    }
}

proof fn lemma_enc_rows_snoc(p: Seq<Seq<Seq<char>>>, r: Seq<Seq<char>>)
    ensures
        enc_rows(p.push(r)) == enc_rows(p) + enc_row(r) + seq!['\n'],
    decreases p.len(),
{
    if p.len() == 0 {
        assert(p.push(r)[0] == r);
        assert(p.push(r).skip(1) =~= Seq::<Seq<Seq<char>>>::empty());
        assert(enc_rows(Seq::<Seq<Seq<char>>>::empty()) =~= Seq::<char>::empty());
        assert(enc_rows(p.push(r)) =~= enc_row(r) + seq!['\n']);
        assert(enc_rows(p) + enc_row(r) + seq!['\n'] =~= enc_row(r) + seq!['\n']);
    } else {
        lemma_enc_rows_snoc(p.skip(1), r);
        assert(p.push(r).skip(1) =~= p.skip(1).push(r));
        assert(p.push(r)[0] == p[0]);
        assert(enc_rows(p.push(r)) == enc_row(p[0]) + seq!['\n'] + enc_rows(
            p.skip(1).push(r),
        ));
        assert(enc_row(p[0]) + seq!['\n'] + (enc_rows(p.skip(1)) + enc_row(r) + seq!['\n'])
            =~= (enc_row(p[0]) + seq!['\n'] + enc_rows(p.skip(1))) + enc_row(r)
            + seq!['\n']);
    }
}

/// Whether a cell value must be quoted when written.
fn needs_quote_x(v: &Vec<char>) -> (b: bool)
    ensures
        b == needs_quote(v@),
{
    let mut i: usize = 0;
    while i < v.len()
        invariant
            i <= v.len(),
            forall|k: int| 0 <= k < i ==> !(is_sep(v@[k]) || v@[k] == '"'),
        decreases v.len() - i,
    {
        let c = v[i];
        if c == ',' || c == '\n' || c == '\r' || c == '"' {
            assert(needs_quote(v@)) by {
                assert(is_sep(v@[i as int]) || v@[i as int] == '"');
            }
            return true;
        }
        i = i + 1;
    }
    false
}

/// Appends the escaped form of `v`, every quote doubled.
fn push_folded(out: &mut Vec<char>, v: &Vec<char>)
    ensures
        final(out)@ == old(out)@ + fold_quotes(v@),
{
    let mut i: usize = 0;
    while i < v.len()
        invariant
            i <= v.len(),
            out@ == old(out)@ + fold_quotes(v@.subrange(0, i as int)),
        decreases v.len() - i,
    {
        let c = v[i];
        if c == '"' {
            out.push('"');
            out.push('"');
        } else {
            out.push(c);
        }
        proof {
            lemma_fold_quotes_snoc(v@.subrange(0, i as int), c);
            assert(v@.subrange(0, i + 1) =~= v@.subrange(0, i as int).push(c));
            assert(out@ =~= old(out)@ + fold_quotes(v@.subrange(0, i + 1)));
        }
        i = i + 1;
    }
    proof {
        assert(v@.subrange(0, v@.len() as int) =~= v@);
    }
}

/// Appends one cell as written: quoted and escaped when necessary.
fn push_field(out: &mut Vec<char>, v: &Vec<char>, lone: bool)
    ensures
        final(out)@ == old(out)@ + enc_field(v@, lone),
{
    let quote = needs_quote_x(v) || (lone && v.len() == 0);
    if quote {
        out.push('"');
        push_folded(out, v);
        out.push('"');
        proof {
            assert(out@ =~= old(out)@ + (seq!['"'] + fold_quotes(v@) + seq!['"']));
        }
    } else {
        let mut copy = v.clone();
        out.append(&mut copy);
        proof {
            assert(out@ =~= old(out)@ + enc_field(v@, lone));
        }
    }
}

/// Appends one row as written, cells separated by commas, no terminator.
pub fn push_row(out: &mut Vec<char>, row: &Vec<Vec<char>>)
    requires
        row.len() >= 1,
    ensures
        final(out)@ == old(out)@ + enc_row(row.deep_view()),
{
    let lone = row.len() == 1;
    push_field(out, &row[0], lone);
    proof {
        assert(row.deep_view()[0] == row@[0].deep_view());
        assert(row@[0].deep_view() =~= row@[0]@);
    }
    let mut i: usize = 1;
    while i < row.len()
        invariant
            1 <= i <= row.len(),
            lone == (row.len() == 1),
            out@ == old(out)@ + enc_field(row.deep_view()[0], lone) + enc_tail(
                row.deep_view().subrange(1, i as int),
            ),
        decreases row.len() - i,
    {
        out.push(',');
        push_field(out, &row[i], false);
        proof {
            let dv = row.deep_view();
            assert(dv[i as int] == row@[i as int].deep_view());
            assert(row@[i as int].deep_view() =~= row@[i as int]@);
            lemma_enc_tail_snoc(dv.subrange(1, i as int), dv[i as int]);
            assert(dv.subrange(1, i + 1) =~= dv.subrange(1, i as int).push(dv[i as int]));
            assert(out@ =~= old(out)@ + enc_field(dv[0], lone) + enc_tail(
                dv.subrange(1, i + 1),
            ));
        }
        i = i + 1;
    }
    proof {
        let dv = row.deep_view();
        assert(dv.subrange(1, dv.len() as int) =~= dv.skip(1));
        assert(enc_row(dv) == enc_field(dv[0], dv.len() == 1) + enc_tail(dv.skip(1)));
    }
}

/// The whole table as written: each row followed by a line feed.
pub fn write_rows(rows: &Vec<Vec<Vec<char>>>) -> (out: Vec<char>)
    requires
        forall|k: int| 0 <= k < rows@.len() ==> #[trigger] rows@[k].len() >= 1,
    ensures
        out@ == enc_rows(rows.deep_view()),
{
    let mut out: Vec<char> = Vec::new();
    let mut i: usize = 0;
    while i < rows.len()
        invariant
            i <= rows.len(),
            forall|k: int| 0 <= k < rows@.len() ==> #[trigger] rows@[k].len() >= 1,
            out@ == enc_rows(rows.deep_view().subrange(0, i as int)),
        decreases rows.len() - i,
    {
        push_row(&mut out, &rows[i]);
        out.push('\n');
        proof {
            let dv = rows.deep_view();
            assert(dv[i as int] == rows@[i as int].deep_view());
            lemma_enc_rows_snoc(dv.subrange(0, i as int), dv[i as int]);
            assert(dv.subrange(0, i + 1) =~= dv.subrange(0, i as int).push(dv[i as int]));
        }
        i = i + 1;
    }
    proof {
        let dv = rows.deep_view();
        assert(dv.subrange(0, dv.len() as int) =~= dv);
    }
    out
}

} // verus!
