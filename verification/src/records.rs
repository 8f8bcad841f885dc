//! Building records from parsed rows and turning records back into rows,
//! proved equal to the record-level specs of `schema`.

use vstd::prelude::*;
use crate::chars::{chars_eq, chars_string, str_chars};
use crate::schema::{
    build_row, field_value, idx_from, load_data, names_of, recs_view, CsvError, FieldPolicy,
    Record, Schema, SpecError, SpecPolicy,
};

verus! {

/// The position of the first header column holding exactly `name`.
fn idx_lookup(header: &Vec<Vec<char>>, name: &Vec<char>) -> (r: Option<usize>)
    ensures
        match r {
            Some(k) => k < header.len() && idx_from(header.deep_view(), name@, 0) == Some(
                k as int,
            ),
            None => idx_from(header.deep_view(), name@, 0) is None,
        },
{
    let mut i: usize = 0;
    while i < header.len()
        invariant
            i <= header.len(),
            idx_from(header.deep_view(), name@, 0) == idx_from(
                header.deep_view(),
                name@,
                i as int,
            ),
        decreases header.len() - i,
    {
        proof {
            assert(header.deep_view()[i as int] =~= header@[i as int]@);
            assert(header.deep_view()[i as int] == header@[i as int]@);
        }
        if chars_eq(&header[i], name) {
            return Some(i);
        }
        i = i + 1;
    }
    None
}

/// One record built from data row `row` (row number `rix`), given the
/// header.
fn build_record(schema: &Schema, header: &Vec<Vec<char>>, row: &Vec<Vec<char>>, rix: usize) -> (r:
    Result<Record, CsvError>)
    requires
        row@.len() == header@.len(),
    ensures
        match r {
            Ok(rec) => build_row(schema@, header.deep_view(), row.deep_view(), rix as int)
                == Ok::<_, SpecError>(rec@),
            Err(e) => build_row(schema@, header.deep_view(), row.deep_view(), rix as int)
                == Err::<Seq<Seq<char>>, _>(e@),
        },
{
    let ghost hv = header.deep_view();
    let ghost rv = row.deep_view();
    let mut values: Vec<String> = Vec::new();
    proof {
        assert(schema@.skip(0) =~= schema@);
        match build_row(schema@, hv, rv, rix as int) {
            Ok(rest) => {
                assert(values@.map_values(|s: String| s@) + rest =~= rest);
            },
            Err(_) => {},
        }
    }
    let mut t: usize = 0;
    while t < schema.fields.len()
        invariant
            t <= schema.fields.len(),
            schema@.len() == schema.fields.len(),
            hv == header.deep_view(),
            rv == row.deep_view(),
            row@.len() == header@.len(),
            match build_row(schema@.skip(t as int), hv, rv, rix as int) {
                Ok(rest) => build_row(schema@, hv, rv, rix as int) == Ok::<_, SpecError>(
                    values@.map_values(|s: String| s@) + rest,
                ),
                Err(e) => build_row(schema@, hv, rv, rix as int) == Err::<Seq<Seq<char>>, _>(e),
            },
        decreases schema.fields.len() - t,
    {
        let f = &schema.fields[t];
        proof {
            assert(schema@[t as int] == schema.fields@[t as int]@);
            assert(schema@.skip(t as int)[0] == schema@[t as int]);
            assert(schema@.skip(t as int).skip(1) =~= schema@.skip(t + 1));
        }
        let value: String = match &f.policy {
            FieldPolicy::DefaultOnly(d) => d.clone(),
            FieldPolicy::FromInput => {
                let name = str_chars(f.name.as_str());
                match idx_lookup(header, &name) {
                    Some(k) => {
                        proof {
                            assert(k < row@.len());
                            assert(row.deep_view()[k as int] == row@[k as int].deep_view());
                            assert(row@[k as int].deep_view() =~= row@[k as int]@);
                        }
                        chars_string(&row[k])
                    },
                    None => {
                        return Err(
                            CsvError::MissingColumn { row: rix, name: f.name.clone() },
                        );
                    },
                }
            },
        };
        proof {
            assert(field_value(schema@[t as int], hv, rv, rix as int) == Ok::<_, SpecError>(
                value@,
            ));
        }
        let ghost prev = values@;
        values.push(value);
        proof {
            let sv = values@.map_values(|s: String| s@);
            let ov = prev.map_values(|s: String| s@);
            assert(values@ == prev.push(values@.last()));
            assert(sv =~= ov.push(values@.last()@));
            assert(field_value(schema@.skip(t as int)[0], hv, rv, rix as int) == Ok::<
                _,
                SpecError,
            >(values@.last()@));
            match build_row(schema@.skip(t + 1), hv, rv, rix as int) {
                Ok(rest) => {
                    assert(build_row(schema@.skip(t as int), hv, rv, rix as int) == Ok::<
                        _,
                        SpecError,
                    >(seq![values@.last()@] + rest));
                    assert(ov.push(values@.last()@) + rest =~= ov + (seq![values@.last()@]
                        + rest));
                    assert(build_row(schema@, hv, rv, rix as int) == Ok::<_, SpecError>(
                        sv + rest,
                    ));
                },
                Err(e) => {
                    assert(build_row(schema@.skip(t as int), hv, rv, rix as int) == Err::<
                        Seq<Seq<char>>,
                        _,
                    >(e));
                    assert(build_row(schema@, hv, rv, rix as int) == Err::<
                        Seq<Seq<char>>,
                        _,
                    >(e));
                },
            }
        }
        t = t + 1;
    }
    proof {
        assert(schema@.skip(schema@.len() as int) =~= Seq::<crate::schema::SpecField>::empty());
        assert(build_row(
            Seq::<crate::schema::SpecField>::empty(),
            hv,
            rv,
            rix as int,
        ) == Ok::<_, SpecError>(Seq::<Seq<char>>::empty()));
        assert(values@.map_values(|s: String| s@) + Seq::<Seq<char>>::empty() =~= values@
            .map_values(|s: String| s@));
    }
    let rec = Record { values };
    Ok(rec)
}

/// The records built from a parsed table: the first row is the header, each
/// later row one record; no rows, or a header alone, yield no records.
pub fn records_from_rows(schema: &Schema, rows: &Vec<Vec<Vec<char>>>) -> (r: Result<
    Vec<Record>,
    CsvError,
>)
    ensures
        match r {
            Ok(v) => (if rows.deep_view().len() == 0 {
                Ok::<_, SpecError>(Seq::<Seq<Seq<char>>>::empty())
            } else {
                load_data(schema@, rows.deep_view()[0], rows.deep_view().skip(1), 0)
            }) == Ok::<_, SpecError>(recs_view(v@)),
            Err(e) => rows.deep_view().len() != 0 && load_data(
                schema@,
                rows.deep_view()[0],
                rows.deep_view().skip(1),
                0,
            ) == Err::<Seq<Seq<Seq<char>>>, _>(e@),
        },
{
    if rows.len() == 0 {
        let out: Vec<Record> = Vec::new();
        proof {
            assert(recs_view(out@) =~= Seq::<Seq<Seq<char>>>::empty());
        }
        return Ok(out);
    }
    let ghost d = rows.deep_view();
    let ghost hv = d[0];
    let ghost data = d.skip(1);
    let header = &rows[0];
    proof {
        assert(header.deep_view() == hv);
    }
    let mut out: Vec<Record> = Vec::new();
    proof {
        assert(data.skip(0) =~= data);
        match load_data(schema@, hv, data, 0) {
            Ok(rest) => {
                assert(recs_view(out@) + rest =~= rest);
            },
            Err(_) => {},
        }
    }
    let mut idx: usize = 1;
    while idx < rows.len()
        invariant
            1 <= idx <= rows.len(),
            d == rows.deep_view(),
            hv == d[0],
            hv == header.deep_view(),
            hv.len() == header@.len(),
            data == d.skip(1),
            rows@.len() == d.len(),
            match load_data(schema@, hv, data.skip(idx - 1), idx - 1) {
                Ok(rest) => load_data(schema@, hv, data, 0) == Ok::<_, SpecError>(
                    recs_view(out@) + rest,
                ),
                Err(e) => load_data(schema@, hv, data, 0) == Err::<Seq<Seq<Seq<char>>>, _>(e),
            },
        decreases rows.len() - idx,
    {
        let ghost j = idx - 1;
        proof {
            assert(data.skip(j)[0] == data[j]);
            assert(data[j] == d[idx as int]);
            assert(d[idx as int] == rows@[idx as int].deep_view());
            assert(data.skip(j).skip(1) =~= data.skip(j + 1));
        }
        let row = &rows[idx];
        if row.len() != header.len() {
            proof {
                assert(data.skip(j).len() != 0);
                assert(data.skip(j)[0].len() == row@.len());
                assert(hv.len() == header@.len());
                assert(load_data(schema@, hv, data.skip(j), j) == Err::<
                    Seq<Seq<Seq<char>>>,
                    _,
                >(
                    SpecError::WrongCellCount {
                        row: j,
                        expected: hv.len() as int,
                        found: data.skip(j)[0].len() as int,
                    },
                ));
            }
            return Err(
                CsvError::WrongCellCount {
                    row: idx - 1,
                    expected: header.len(),
                    found: row.len(),
                },
            );
        }
        match build_record(schema, header, row, idx - 1) {
            Ok(rec) => {
                let ghost prev = out@;
                out.push(rec);
                proof {
                    let sv = recs_view(out@);
                    let ov = recs_view(prev);
                    assert(out@ == prev.push(out@.last()));
                    assert(sv =~= ov.push(out@.last()@));
                    assert(build_row(schema@, hv, data.skip(j)[0], j) == Ok::<_, SpecError>(
                        out@.last()@,
                    ));
                    match load_data(schema@, hv, data.skip(j + 1), j + 1) {
                        Ok(rest) => {
                            assert(load_data(schema@, hv, data.skip(j), j) == Ok::<
                                _,
                                SpecError,
                            >(seq![out@.last()@] + rest));
                            assert(ov.push(out@.last()@) + rest =~= ov + (seq![
                                out@.last()@,
                            ] + rest));
                            assert(load_data(schema@, hv, data, 0) == Ok::<_, SpecError>(
                                sv + rest,
                            ));
                        },
                        Err(e) => {
                            assert(load_data(schema@, hv, data.skip(j), j) == Err::<
                                Seq<Seq<Seq<char>>>,
                                _,
                            >(e));
                            assert(load_data(schema@, hv, data, 0) == Err::<
                                Seq<Seq<Seq<char>>>,
                                _,
                            >(e));
                        },
                    }
                }
            },
            Err(e) => {
                proof {
                    assert(data.skip(j).len() != 0);
                    assert(load_data(schema@, hv, data.skip(j), j) == Err::<
                        Seq<Seq<Seq<char>>>,
                        _,
                    >(e@));
                }
                return Err(e);
            },
        }
        idx = idx + 1;
    }
    proof {
        assert(data.skip(d.len() - 1) =~= Seq::<Seq<Seq<char>>>::empty());
        assert(load_data(
            schema@,
            hv,
            Seq::<Seq<Seq<char>>>::empty(),
            d.len() - 1,
        ) == Ok::<_, SpecError>(Seq::<Seq<Seq<char>>>::empty()));
        assert(recs_view(out@) + Seq::<Seq<Seq<char>>>::empty() =~= recs_view(out@));
    }
    Ok(out)
}

/// The table a sequence of records is written as: the header row of field
/// names, then one row of cell values per record.
pub fn records_to_rows(schema: &Schema, records: &Vec<Record>) -> (rows: Vec<Vec<Vec<char>>>)
    requires
        schema@.len() >= 1,
        forall|k: int| 0 <= k < records@.len() ==> (#[trigger] records@[k])@.len() == schema@.len(),
    ensures
        rows.deep_view() == seq![names_of(schema@)] + recs_view(records@),
        forall|k: int| 0 <= k < rows@.len() ==> #[trigger] rows@[k].len() >= 1,
{
    let mut rows: Vec<Vec<Vec<char>>> = Vec::new();
    let mut header: Vec<Vec<char>> = Vec::new();
    let mut t: usize = 0;
    while t < schema.fields.len()
        invariant
            t <= schema.fields.len(),
            schema@.len() == schema.fields.len(),
            header.deep_view() == names_of(schema@).subrange(0, t as int),
            header@.len() == t,
        decreases schema.fields.len() - t,
    {
        let name = str_chars(schema.fields[t].name.as_str());
        header.push(name);
        proof {
            assert(schema@[t as int] == schema.fields@[t as int]@);
            assert(header.deep_view() =~~= names_of(schema@).subrange(0, t + 1));
        }
        t = t + 1;
    }
    proof {
        assert(names_of(schema@).subrange(0, schema@.len() as int) =~= names_of(schema@));
    }
    rows.push(header);
    let mut i: usize = 0;
    while i < records.len()
        invariant
            i <= records.len(),
            schema@.len() >= 1,
            forall|k: int|
                0 <= k < records@.len() ==> (#[trigger] records@[k])@.len() == schema@.len(),
            rows.deep_view() == seq![names_of(schema@)] + recs_view(records@.subrange(0, i as int)),
            rows@.len() == i + 1,
            forall|k: int| 0 <= k < rows@.len() ==> #[trigger] rows@[k].len() >= 1,
        decreases records.len() - i,
    {
        let rec = &records[i];
        let mut row: Vec<Vec<char>> = Vec::new();
        let mut u: usize = 0;
        while u < rec.values.len()
            invariant
                u <= rec.values.len(),
                rec@ == records@[i as int]@,
                rec@.len() == rec.values.len(),
                row.deep_view() == rec@.subrange(0, u as int),
                row@.len() == u,
            decreases rec.values.len() - u,
        {
            let cell = str_chars(rec.values[u].as_str());
            row.push(cell);
            proof {
                assert(rec@[u as int] == rec.values@[u as int]@);
                assert(row.deep_view() =~~= rec@.subrange(0, u + 1));
            }
            u = u + 1;
        }
        proof {
            assert(rec@.subrange(0, rec@.len() as int) =~= rec@);
            assert(records@[i as int]@.len() == schema@.len());
        }
        let ghost prev = rows@;
        rows.push(row);
        proof {
            assert(rows@ == prev.push(rows@.last()));
            assert(rows@.last().deep_view() =~~= records@[i as int]@);
            assert forall|k: int| 0 <= k < prev.len() implies rows.deep_view()[k] == (seq![
                names_of(schema@),
            ] + recs_view(records@.subrange(0, i + 1)))[k] by {
                assert(rows.deep_view()[k] == prev[k].deep_view());
                assert((seq![names_of(schema@)] + recs_view(records@.subrange(0, i as int)))[k]
                    == prev[k].deep_view());
            }
            assert(rows.deep_view() =~~= seq![names_of(schema@)] + recs_view(
                records@.subrange(0, i + 1),
            ));
        }
        i = i + 1;
    }
    proof {
        assert(records@.subrange(0, records@.len() as int) =~= records@);
    }
    rows
}

} // verus!
