//! The public entry points: loading records from delimited text and saving
//! records as delimited text.

use vstd::prelude::*;
use crate::chars::{chars_string, str_chars};
use crate::parse::parse_rows_x;
use crate::records::{records_from_rows, records_to_rows};
use crate::schema::{load_spec, recs_view, save_spec, CsvError, Record, Schema, SpecError};
use crate::ser::write_rows;

verus! {

/// The text that byte input decodes to before parsing: a detected
/// byte-order mark is stripped and the rest transcoded to the canonical
/// encoding from the one the mark named; without a detected mark the bytes
/// are read as UTF-8.  Either way malformed sequences become replacement
/// characters.  The result depends on the bytes alone.
pub uninterp spec fn decoded_of(bytes: Seq<u8>) -> Seq<char>;

/// Relies on `encoding_rs_io::DecodeReaderBytes::new`: sniffs a byte-order
/// mark; when one is found it is stripped and the rest transcoded to UTF-8
/// with replacement characters for malformed sequences, and when none is
/// found the bytes pass through unchanged.  `String::from_utf8_lossy` then
/// turns any bytes left malformed into replacement characters.  No bytes:
/// no text.
#[verifier::external_body]
fn decode_bytes(bytes: &Vec<u8>) -> (r: String)
    ensures
        r@ == decoded_of(bytes@),
        bytes@.len() == 0 ==> r@.len() == 0,
{
    let mut rdr = encoding_rs_io::DecodeReaderBytes::new(&bytes[..]);
    let mut buf: Vec<u8> = Vec::new();
    let _ = std::io::Read::read_to_end(&mut rdr, &mut buf);
    String::from_utf8_lossy(&buf).into_owned()
}

/// The loader and saver for comma-delimited text.
pub struct CSV;

impl CSV {
    /// Loads records from already-decoded text: the first parsed row is the
    /// header, every later row one record of the schema; empty input and a
    /// header alone both yield no records.
    pub fn load_csv_read(schema: &Schema, input: &str) -> (r: Result<Vec<Record>, CsvError>)
        ensures
            match r {
                Ok(v) => load_spec(schema@, input@) == Ok::<_, SpecError>(recs_view(v@)),
                Err(e) => load_spec(schema@, input@) == Err::<Seq<Seq<Seq<char>>>, _>(e@),
            },
    {
        let chars = str_chars(input);
        let rows = parse_rows_x(&chars, 0);
        records_from_rows(schema, &rows)
    }

    /// Loads records from raw bytes, first stripping a byte-order mark and
    /// transcoding to the canonical text the parser reads.
    pub fn load_csv_bytes(schema: &Schema, bytes: &Vec<u8>) -> (r: Result<Vec<Record>, CsvError>)
        ensures
            match r {
                Ok(v) => load_spec(schema@, decoded_of(bytes@)) == Ok::<_, SpecError>(
                    recs_view(v@),
                ),
                Err(e) => load_spec(schema@, decoded_of(bytes@)) == Err::<
                    Seq<Seq<Seq<char>>>,
                    _,
                >(e@),
            },
            bytes@.len() == 0 ==> (r matches Ok(v) && v@.len() == 0),
    {
        let text = decode_bytes(bytes);
        let r = Self::load_csv_read(schema, text.as_str());
        proof {
            if bytes@.len() == 0 {
                match &r {
                    Ok(v) => {
                        assert(recs_view(v@).len() == v@.len());
                    },
                    Err(_) => {},
                }
            }
        }
        r
    }

    /// Saves records as delimited text: the header row of the schema's
    /// field names, always, followed by one row per record, each cell
    /// quoted exactly when it needs to be.
    pub fn save_csv_write(schema: &Schema, records: &Vec<Record>) -> (r: String)
        requires
            schema@.len() >= 1,
            forall|k: int|
                0 <= k < records@.len() ==> (#[trigger] records@[k])@.len() == schema@.len(),
        ensures
            r@ == save_spec(schema@, recs_view(records@)),
    {
        let rows = records_to_rows(schema, records);
        proof {
            assert(recs_view(records@).len() == records@.len());
            assert(rows.deep_view()[0].len() == schema@.len());
            assert(forall|k: int|
                0 <= k < rows@.len() ==> #[trigger] rows@[k].len() == rows.deep_view()[k].len());
        }
        let out = write_rows(&rows);
        chars_string(&out)
    }
}

} // verus!
