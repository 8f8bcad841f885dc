//! The laws the library keeps, stated and proved over the specs that the
//! public functions' contracts use.

use vstd::prelude::*;
use crate::format::{enc_rows, lemma_parse_enc_rows, parse_rows};
use crate::schema::{
    apply_defaults, apply_defaults_row, build_row, field_value, idx_from, load_data, load_spec,
    names_of, save_spec, schema_wf, SpecError, SpecField, SpecPolicy,
};

verus! {

proof fn lemma_idx_from_found(header: Seq<Seq<char>>, name: Seq<char>, t: int, k: int)
    requires
        0 <= t <= k < header.len(),
        header[k] == name,
        forall|m: int| t <= m < k ==> header[m] != name,
    ensures
        idx_from(header, name, t) == Some(k),
    decreases k - t,
{
    if t < k {
        lemma_idx_from_found(header, name, t + 1, k);
    }
}

proof fn lemma_build_row_ok(schema: Seq<SpecField>, row: Seq<Seq<char>>, t: int, i: int)
    requires
        schema_wf(schema),
        row.len() == schema.len(),
        0 <= t <= schema.len(),
    ensures
        build_row(schema.skip(t), names_of(schema), row, i) == Ok::<_, SpecError>(
            apply_defaults_row(schema, row).skip(t),
        ),
    decreases schema.len() - t,
{
    let adr = apply_defaults_row(schema, row);
    let names = names_of(schema);
    if t == schema.len() {
        assert(schema.skip(t) =~= Seq::<SpecField>::empty());
        assert(adr.skip(t) =~= Seq::<Seq<char>>::empty());
    } else {
        assert(schema.skip(t)[0] == schema[t]);
        assert(schema.skip(t).skip(1) =~= schema.skip(t + 1));
        match schema[t].policy {
            SpecPolicy::DefaultOnly(d) => {
                assert(field_value(schema[t], names, row, i) == Ok::<_, SpecError>(d));
                assert(adr[t] == d);
            },
            SpecPolicy::FromInput => {
                assert(names[t] == schema[t].name);
                lemma_idx_from_found(names, schema[t].name, 0, t);
                assert(field_value(schema[t], names, row, i) == Ok::<_, SpecError>(row[t]));
                assert(adr[t] == row[t]);
            },
        }
        lemma_build_row_ok(schema, row, t + 1, i);
        assert(seq![adr[t]] + adr.skip(t + 1) =~= adr.skip(t));
    }
}

proof fn lemma_load_data_ok(schema: Seq<SpecField>, recs: Seq<Seq<Seq<char>>>, i: int)
    requires
        schema_wf(schema),
        forall|k: int| 0 <= k < recs.len() ==> (#[trigger] recs[k]).len() == schema.len(),
    ensures
        load_data(schema, names_of(schema), recs, i) == Ok::<_, SpecError>(
            apply_defaults(schema, recs),
        ),
    decreases recs.len(),
{
    let names = names_of(schema);
    assert(names.len() == schema.len());
    if recs.len() == 0 {
        assert(apply_defaults(schema, recs) =~= Seq::<Seq<Seq<char>>>::empty());
    } else {
        assert(recs[0].len() == names.len());
        lemma_build_row_ok(schema, recs[0], 0, i);
        assert(schema.skip(0) =~= schema);
        assert(apply_defaults_row(schema, recs[0]).skip(0) =~= apply_defaults_row(
            schema,
            recs[0],
        ));
        assert(forall|k: int|
            0 <= k < recs.skip(1).len() ==> (#[trigger] recs.skip(1)[k]).len()
                == schema.len());
        lemma_load_data_ok(schema, recs.skip(1), i + 1);
        assert(seq![apply_defaults_row(schema, recs[0])] + apply_defaults(
            schema,
            recs.skip(1),
        ) =~= apply_defaults(schema, recs));
    }
}

/// Round trip: saving any records of a well-formed schema and loading the
/// text back succeeds and yields the same records, except that every
/// default-only field holds its default in place of whatever value was
/// saved.
pub proof fn lemma_round_trip(schema: Seq<SpecField>, recs: Seq<Seq<Seq<char>>>)
    requires
        schema_wf(schema),
        forall|k: int| 0 <= k < recs.len() ==> (#[trigger] recs[k]).len() == schema.len(),
    ensures
        load_spec(schema, save_spec(schema, recs)) == Ok::<_, SpecError>(
            apply_defaults(schema, recs),
        ),
{
    let full = seq![names_of(schema)] + recs;
    assert(forall|k: int| 0 <= k < full.len() ==> (#[trigger] full[k]).len() >= 1) by {
        assert(full[0] == names_of(schema));
        assert(names_of(schema).len() == schema.len());
        assert(forall|k: int| 1 <= k < full.len() ==> full[k] == recs[k - 1]);
    }
    lemma_parse_enc_rows(full);
    assert(save_spec(schema, recs) == enc_rows(full));
    assert(full[0] == names_of(schema));
    assert(full.skip(1) =~= recs);
    lemma_load_data_ok(schema, recs, 0);
}

/// Header derivation: saving any records, however many — none included —
/// and with whatever values, writes text whose first parsed row is exactly
/// the schema's field names, in the schema's order, with one further row
/// per record.
pub proof fn lemma_header_derivation(schema: Seq<SpecField>, recs: Seq<Seq<Seq<char>>>)
    requires
        schema.len() >= 1,
        forall|k: int| 0 <= k < recs.len() ==> (#[trigger] recs[k]).len() == schema.len(),
    ensures
        parse_rows(save_spec(schema, recs), 0).len() == recs.len() + 1,
        parse_rows(save_spec(schema, recs), 0)[0] == names_of(schema),
{
    let full = seq![names_of(schema)] + recs;
    assert(forall|k: int| 0 <= k < full.len() ==> (#[trigger] full[k]).len() >= 1) by {
        assert(full[0] == names_of(schema));
        assert(names_of(schema).len() == schema.len());
        assert(forall|k: int| 1 <= k < full.len() ==> full[k] == recs[k - 1]);
    }
    lemma_parse_enc_rows(full);
    assert(full[0] == names_of(schema));
}

/// Empty input: loading text with no rows at all yields no records and no
/// error, whatever the schema.
pub proof fn lemma_empty_input(schema: Seq<SpecField>)
    ensures
        load_spec(schema, Seq::<char>::empty()) == Ok::<_, SpecError>(
            Seq::<Seq<Seq<char>>>::empty(),
        ),
{
    assert(parse_rows(Seq::<char>::empty(), 0) =~= Seq::<Seq<Seq<char>>>::empty());
}

/// Header alone: loading any text that parses to at most one row — a
/// header with no data rows — yields no records and no error, whatever the
/// schema.
pub proof fn lemma_header_only(schema: Seq<SpecField>, text: Seq<char>)
    requires
        parse_rows(text, 0).len() <= 1,
    ensures
        load_spec(schema, text) == Ok::<_, SpecError>(Seq::<Seq<Seq<char>>>::empty()),
{
    let rows = parse_rows(text, 0);
    if rows.len() == 1 {
        assert(rows.skip(1).len() == 0);
        assert(load_data(schema, rows[0], rows.skip(1), 0) == Ok::<_, SpecError>(
            Seq::<Seq<Seq<char>>>::empty(),
        ));
    }
}

proof fn lemma_build_row_defaults(
    fields: Seq<SpecField>,
    h: Seq<Seq<char>>,
    row: Seq<Seq<char>>,
    i: int,
)
    ensures
        build_row(fields, h, row, i) matches Ok(vs) ==> vs.len() == fields.len() && (forall|
            u: int,
        |
            0 <= u < fields.len() ==> ((#[trigger] fields[u]).policy matches
                SpecPolicy::DefaultOnly(d) ==> vs[u] == d)),
    decreases fields.len(),
{
    if fields.len() > 0 {
        lemma_build_row_defaults(fields.skip(1), h, row, i);
        match build_row(fields, h, row, i) {
            Ok(vs) => {
                match field_value(fields[0], h, row, i) {
                    Ok(v) => {
                        match build_row(fields.skip(1), h, row, i) {
                            Ok(rest) => {
                                assert(vs == seq![v] + rest);
                                assert(forall|u: int|
                                    1 <= u < fields.len() ==> #[trigger] vs[u] == rest[u - 1]
                                        && fields.skip(1)[u - 1] == fields[u]);
                            },
                            Err(_) => {},
                        }
                    },
                    Err(_) => {},
                }
            },
            Err(_) => {},
        }
    }
}

proof fn lemma_load_data_defaults(
    schema: Seq<SpecField>,
    h: Seq<Seq<char>>,
    rows: Seq<Seq<Seq<char>>>,
    i: int,
)
    ensures
        load_data(schema, h, rows, i) matches Ok(out) ==> out.len() == rows.len() && (forall|
            m: int,
            u: int,
        |
            0 <= m < out.len() && 0 <= u < schema.len() ==> ((#[trigger] schema[u]).policy
                matches SpecPolicy::DefaultOnly(d) ==> #[trigger] out[m][u] == d
                && out[m].len() == schema.len())),
    decreases rows.len(),
{
    if rows.len() > 0 && rows[0].len() == h.len() {
        lemma_build_row_defaults(schema, h, rows[0], i);
        lemma_load_data_defaults(schema, h, rows.skip(1), i + 1);
        match load_data(schema, h, rows, i) {
            Ok(out) => {
                match build_row(schema, h, rows[0], i) {
                    Ok(rec) => {
                        match load_data(schema, h, rows.skip(1), i + 1) {
                            Ok(rest) => {
                                assert(out == seq![rec] + rest);
                                assert(forall|m: int| 1 <= m < out.len() ==> #[trigger] out[m]
                                    == rest[m - 1]);
                                assert forall|m: int, u: int|
                                    0 <= m < out.len() && 0 <= u < schema.len() implies ((
                                #[trigger] schema[u]).policy matches SpecPolicy::DefaultOnly(d)
                                    ==> #[trigger] out[m][u] == d && out[m].len()
                                    == schema.len()) by {
                                    match schema[u].policy {
                                        SpecPolicy::DefaultOnly(dd) => {
                                            if m == 0 {
                                                assert(out[0] == rec);
                                                assert(rec[u] == dd);
                                                assert(rec.len() == schema.len());
                                            } else {
                                                assert(out[m] == rest[m - 1]);
                                                assert(0 <= m - 1 < rest.len());
                                                assert(rest[m - 1][u] == dd);
                                                assert(rest[m - 1].len() == schema.len());
                                            }
                                        },
                                        SpecPolicy::FromInput => {},
                                    }
                                }
                            },
                            Err(_) => {},
                        }
                    },
                    Err(_) => {},
                }
            },
            Err(_) => {},
        }
    }
}

/// Default-only fields: whenever a load succeeds, every record holds the
/// configured default in each default-only field, whatever the input rows
/// held under a column of that name.
pub proof fn lemma_default_only_applied(
    schema: Seq<SpecField>,
    text: Seq<char>,
    k: int,
    d: Seq<char>,
)
    requires
        0 <= k < schema.len(),
        schema[k].policy == SpecPolicy::DefaultOnly(d),
        load_spec(schema, text) is Ok,
    ensures
        forall|m: int|
            0 <= m < load_spec(schema, text)->Ok_0.len() ==> #[trigger] load_spec(
                schema,
                text,
            )->Ok_0[m][k] == d,
{
    let rows = parse_rows(text, 0);
    if rows.len() != 0 {
        lemma_load_data_defaults(schema, rows[0], rows.skip(1), 0);
    }
}

proof fn lemma_build_row_missing(
    fields: Seq<SpecField>,
    h: Seq<Seq<char>>,
    row: Seq<Seq<char>>,
    i: int,
    k: int,
)
    requires
        0 <= k < fields.len(),
        fields[k].policy == SpecPolicy::FromInput,
        idx_from(h, fields[k].name, 0) is None,
    ensures
        build_row(fields, h, row, i) is Err,
    decreases fields.len(),
{
    if k == 0 {
        assert(field_value(fields[0], h, row, i) is Err);
    } else {
        match field_value(fields[0], h, row, i) {
            Err(_) => {},
            Ok(_) => {
                assert(fields.skip(1)[k - 1] == fields[k]);
                lemma_build_row_missing(fields.skip(1), h, row, i, k - 1);
            },
        }
    }
}

/// Missing required column: when the parsed header lacks the column of
/// some field read from input and at least one data row follows, the load
/// fails; it never fills such a field silently.
pub proof fn lemma_missing_column_fails(schema: Seq<SpecField>, text: Seq<char>, k: int)
    requires
        parse_rows(text, 0).len() >= 2,
        0 <= k < schema.len(),
        schema[k].policy == SpecPolicy::FromInput,
        idx_from(parse_rows(text, 0)[0], schema[k].name, 0) is None,
    ensures
        load_spec(schema, text) is Err,
{
    let rows = parse_rows(text, 0);
    let h = rows[0];
    let data = rows.skip(1);
    assert(data.len() >= 1);
    if data[0].len() == h.len() {
        lemma_build_row_missing(schema, h, data[0], 0, k);
    }
}

/// Quoting fidelity: any single cell value — commas, quotes and line
/// breaks included — written as a one-cell row is parsed back exactly.
pub proof fn lemma_quoting_fidelity(v: Seq<char>)
    ensures
        parse_rows(enc_rows(seq![seq![v]]), 0) == seq![seq![v]],
{
    let rows = seq![seq![v]];
    assert(forall|k: int| 0 <= k < rows.len() ==> (#[trigger] rows[k]).len() >= 1) by {
        assert(rows[0].len() == 1);
    }
    lemma_parse_enc_rows(rows);
}

} // verus!

