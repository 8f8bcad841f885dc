//! Record layouts, records, and the meaning of loading and saving them.
//!
//! A caller describes its record type as a `Schema`: an ordered list of
//! named fields, each either filled from the input column of the same name
//! or excluded from input and always given a fixed default.  A `Record`
//! holds one textual value per field, in the schema's order.

use vstd::prelude::*;
use crate::format::{enc_rows, parse_rows};

verus! {

/// How one field of a record is filled when loading.
#[derive(Clone, Debug)]
pub enum FieldPolicy {
    /// The field is read from the input column bearing the field's name.
    FromInput,
    /// The field is never read from input: it always receives this value.
    DefaultOnly(String),
}

/// One named field of a record layout.
#[derive(Clone, Debug)]
pub struct FieldSpec {
    pub name: String,
    pub policy: FieldPolicy,
}

/// An ordered record layout: the fields, in the order their values stand in
/// a `Record` and in which their names are written as the header.
#[derive(Clone, Debug)]
pub struct Schema {
    pub fields: Vec<FieldSpec>,
}

/// One record: a textual value for each schema field, in schema order.
#[derive(Clone, Debug)]
pub struct Record {
    pub values: Vec<String>,
}

/// The mathematical form of a `FieldPolicy`.
pub enum SpecPolicy {
    FromInput,
    DefaultOnly(Seq<char>),
}

/// The mathematical form of a `FieldSpec`.
pub struct SpecField {
    pub name: Seq<char>,
    pub policy: SpecPolicy,
}

impl View for FieldPolicy {
    type V = SpecPolicy;

    open spec fn view(&self) -> SpecPolicy {
        match self {
            FieldPolicy::FromInput => SpecPolicy::FromInput,
            FieldPolicy::DefaultOnly(d) => SpecPolicy::DefaultOnly(d@),
        }
    }
}

impl View for FieldSpec {
    type V = SpecField;

    open spec fn view(&self) -> SpecField {
        SpecField { name: self.name@, policy: self.policy@ }
    }
}

impl View for Schema {
    type V = Seq<SpecField>;

    open spec fn view(&self) -> Seq<SpecField> {
        self.fields@.map_values(|f: FieldSpec| f@)
    }
}

impl View for Record {
    type V = Seq<Seq<char>>;

    open spec fn view(&self) -> Seq<Seq<char>> {
        self.values@.map_values(|s: String| s@)
    }
}

/// The views of a sequence of records: one row of cell values per record.
pub open spec fn recs_view(rs: Seq<Record>) -> Seq<Seq<Seq<char>>> {
    rs.map_values(|r: Record| r@)
}

/// Why a load failed, with the data row it failed on (counted from zero,
/// the header not counted).
#[derive(Clone, Debug)]
pub enum CsvError {
    /// The header has no column named after a field read from input.
    MissingColumn { row: usize, name: String },
    /// A data row holds a different number of cells than the header.
    WrongCellCount { row: usize, expected: usize, found: usize },
}

/// The mathematical form of a `CsvError`.
pub enum SpecError {
    MissingColumn { row: int, name: Seq<char> },
    WrongCellCount { row: int, expected: int, found: int },
}

impl View for CsvError {
    type V = SpecError;

    open spec fn view(&self) -> SpecError {
        match self {
            CsvError::MissingColumn { row, name } => SpecError::MissingColumn {
                row: *row as int,
                name: name@,
            },
            CsvError::WrongCellCount { row, expected, found } => SpecError::WrongCellCount {
                row: *row as int,
                expected: *expected as int,
                found: *found as int,
            },
        }
    }
}

/// The header a schema is written with: its field names, in order.
pub open spec fn names_of(schema: Seq<SpecField>) -> Seq<Seq<char>> {
    schema.map_values(|f: SpecField| f.name)
}

/// A usable record layout: at least one field, and no two fields sharing a
/// name.
pub open spec fn schema_wf(schema: Seq<SpecField>) -> bool {
    &&& schema.len() >= 1
    &&& forall|i: int, j: int|
        0 <= i < j < schema.len() ==> names_of(schema)[i] != names_of(schema)[j]
}

/// The position of the first header column named `name`, searching from
/// `t`.
pub open spec fn idx_from(header: Seq<Seq<char>>, name: Seq<char>, t: int) -> Option<int>
    recommends
        0 <= t,
    decreases header.len() - t,
{
    if t < 0 || t >= header.len() {
        None
    } else if header[t] == name {
        Some(t)
    } else {
        idx_from(header, name, t + 1)
    }
}

/// The value one field takes from a data row, given the header: a
/// default-only field takes its default; a field read from input takes the
/// cell under its named column, and fails when the header has no such
/// column.
pub open spec fn field_value(
    f: SpecField,
    header: Seq<Seq<char>>,
    row: Seq<Seq<char>>,
    rix: int,
) -> Result<Seq<char>, SpecError> {
    match f.policy {
        SpecPolicy::DefaultOnly(d) => Ok(d),
        SpecPolicy::FromInput => match idx_from(header, f.name, 0) {
            Some(k) => Ok(row[k]),
            None => Err(SpecError::MissingColumn { row: rix, name: f.name }),
        },
    }
}

/// The record built from data row `row` (row number `rix`) for the given
/// fields, in order; the first failing field decides the error.
pub open spec fn build_row(
    fields: Seq<SpecField>,
    header: Seq<Seq<char>>,
    row: Seq<Seq<char>>,
    rix: int,
) -> Result<Seq<Seq<char>>, SpecError>
    decreases fields.len(),
{
    if fields.len() == 0 {
        Ok(Seq::empty())
    } else {
        match field_value(fields[0], header, row, rix) {
            Err(e) => Err(e),
            Ok(v) => match build_row(fields.skip(1), header, row, rix) {
                Err(e) => Err(e),
                Ok(rest) => Ok(seq![v] + rest),
            },
        }
    }
}

/// The records built from the data rows in order, `rix` being the row
/// number of the first; a row whose cell count differs from the header's
/// fails before its fields are looked at, and the first failing row decides
/// the error.
pub open spec fn load_data(
    schema: Seq<SpecField>,
    header: Seq<Seq<char>>,
    rows: Seq<Seq<Seq<char>>>,
    rix: int,
) -> Result<Seq<Seq<Seq<char>>>, SpecError>
    decreases rows.len(),
{
    if rows.len() == 0 {
        Ok(Seq::empty())
    } else if rows[0].len() != header.len() {
        Err(SpecError::WrongCellCount {
            row: rix,
            expected: header.len() as int,
            found: rows[0].len() as int,
        })
    } else {
        match build_row(schema, header, rows[0], rix) {
            Err(e) => Err(e),
            Ok(rec) => match load_data(schema, header, rows.skip(1), rix + 1) {
                Err(e) => Err(e),
                Ok(rest) => Ok(seq![rec] + rest),
            },
        }
    }
}

/// What loading text as records of a schema yields: the parsed table's
/// first row is the header, every later row one record; no rows at all
/// (empty input) and a header alone both yield no records.
pub open spec fn load_spec(schema: Seq<SpecField>, text: Seq<char>) -> Result<
    Seq<Seq<Seq<char>>>,
    SpecError,
> {
    let rows = parse_rows(text, 0);
    if rows.len() == 0 {
        Ok(Seq::empty())
    } else {
        load_data(schema, rows[0], rows.skip(1), 0)
    }
}

/// What saving records of a schema writes: the header row of field names,
/// always, followed by one row of cell values per record.
pub open spec fn save_spec(schema: Seq<SpecField>, recs: Seq<Seq<Seq<char>>>) -> Seq<char> {
    enc_rows(seq![names_of(schema)] + recs)
}

/// One row of cell values with every default-only field's value replaced by
/// its default.
pub open spec fn apply_defaults_row(schema: Seq<SpecField>, row: Seq<Seq<char>>) -> Seq<
    Seq<char>,
> {
    Seq::new(
        schema.len(),
        |k: int|
            match schema[k].policy {
                SpecPolicy::DefaultOnly(d) => d,
                SpecPolicy::FromInput => row[k],
            },
    )
}

/// Every record's default-only fields replaced by their defaults.
pub open spec fn apply_defaults(schema: Seq<SpecField>, recs: Seq<Seq<Seq<char>>>) -> Seq<
    Seq<Seq<char>>,
> {
    recs.map_values(|row: Seq<Seq<char>>| apply_defaults_row(schema, row))
}

} // verus!
