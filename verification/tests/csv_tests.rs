use csv_helper::api::CSV;
use csv_helper::schema::{CsvError, FieldPolicy, FieldSpec, Record, Schema};

fn field(name: &str) -> FieldSpec {
    FieldSpec { name: String::from(name), policy: FieldPolicy::FromInput }
}

fn default_field(name: &str, default: &str) -> FieldSpec {
    FieldSpec { name: String::from(name), policy: FieldPolicy::DefaultOnly(String::from(default)) }
}

fn rec(values: &[&str]) -> Record {
    Record { values: values.iter().map(|v| String::from(*v)).collect() }
}

fn bar_schema() -> Schema {
    Schema {
        fields: vec![
            field("inst"),
            field("date"),
            field("open"),
            field("high"),
            field("low"),
            field("close"),
            field("volume"),
            default_field("test_skip", "true"),
        ],
    }
}

#[test]
fn save() {
    let schema = bar_schema();
    let bar1 = rec(&["IC2206", "2022-06-06", "6048.6", "6186.4", "6031.2", "6157.8", "90628",
        "true"]);
    let bar2 = rec(&["IF2206", "2022-06-06", "4068.6", "4147.4", "4036.2", "4144.4", "95173",
        "false"]);
    {
        let v1 = vec![
            rec(&["IC2206", "2022-06-06", "6048.6", "6186.4", "6031.2", "6157.8", "90628",
                "true"]),
            rec(&["IF2206", "2022-06-06", "4068.6", "4147.4", "4036.2", "4144.4", "95173",
                "false"]),
        ];
        let data = CSV::save_csv_write(&schema, &v1);
        println!("\nvec length {}, csv result is\n{}", v1.len(), data);
    }

    let v2 = vec![bar1, bar2];
    let data = CSV::save_csv_write(&schema, &v2);
    println!("\nvec length {}, csv result is\n{}", v2.len(), data);
    assert_eq!(
        data,
        "inst,date,open,high,low,close,volume,test_skip\n\
         IC2206,2022-06-06,6048.6,6186.4,6031.2,6157.8,90628,true\n\
         IF2206,2022-06-06,4068.6,4147.4,4036.2,4144.4,95173,false\n"
    );
}

#[test]
fn load() {
    // notice: there is no leading space in the line
    let data = "
inst,date,open,high,low,close,volume,test_skip
IC2206,2022-06-06,6048.6,6186.4,6031.2,6157.8,90628,false
IF2206,2022-06-06,4068.6,4147.4,4036.2,4144.4,95173,false";

    let schema = bar_schema();
    let barlist: Vec<Record> = CSV::load_csv_read(&schema, data).unwrap();
    println!("bar: {:#?}", barlist);
    assert_eq!(barlist[0].values[7], "true");
    assert_eq!(barlist[1].values[7], "true");
}

#[test]
fn round_trip_restores_records() {
    let schema = Schema {
        fields: vec![field("name"), field("note"), default_field("flag", "yes")],
    };
    let records = vec![
        rec(&["plain", "a,b", "no"]),
        rec(&["quo\"ted", "line\nbreak", "maybe"]),
        rec(&["", "\r", "no"]),
    ];
    let text = CSV::save_csv_write(&schema, &records);
    let back = CSV::load_csv_read(&schema, text.as_str()).unwrap();
    assert_eq!(back.len(), 3);
    for (orig, found) in records.iter().zip(back.iter()) {
        assert_eq!(found.values[0], orig.values[0]);
        assert_eq!(found.values[1], orig.values[1]);
        // the default-only field comes back as its default, not as saved
        assert_eq!(found.values[2], "yes");
    }
}

#[test]
fn header_row_lists_field_names_in_order() {
    let schema = Schema { fields: vec![field("b"), field("a"), default_field("z", "0")] };
    let records = vec![rec(&["1", "2", "3"])];
    let text = CSV::save_csv_write(&schema, &records);
    let first_line = text.split('\n').next().unwrap();
    assert_eq!(first_line, "b,a,z");
}

#[test]
fn empty_input_yields_no_records() {
    let schema = bar_schema();
    let out = CSV::load_csv_read(&schema, "").unwrap();
    assert_eq!(out.len(), 0);
}

#[test]
fn header_only_input_yields_no_records() {
    let schema = bar_schema();
    let out = CSV::load_csv_read(&schema, "inst,date,open,high,low,close,volume,test_skip\n")
        .unwrap();
    assert_eq!(out.len(), 0);
    // even a header missing required columns is fine while no data row follows
    let out = CSV::load_csv_read(&schema, "nothing\n").unwrap();
    assert_eq!(out.len(), 0);
}

#[test]
fn saving_no_records_still_writes_the_header() {
    let schema = bar_schema();
    let text = CSV::save_csv_write(&schema, &vec![]);
    assert_eq!(text, "inst,date,open,high,low,close,volume,test_skip\n");
    let back = CSV::load_csv_read(&schema, text.as_str()).unwrap();
    assert_eq!(back.len(), 0);
}

#[test]
fn default_only_column_in_input_is_ignored() {
    let schema = Schema { fields: vec![field("a"), default_field("keep", "true")] };
    let out = CSV::load_csv_read(&schema, "a,keep\n1,false\n2,false\n").unwrap();
    assert_eq!(out.len(), 2);
    assert_eq!(out[0].values[0], "1");
    assert_eq!(out[0].values[1], "true");
    assert_eq!(out[1].values[1], "true");
}

#[test]
fn missing_required_column_fails() {
    let schema = Schema { fields: vec![field("a"), field("x")] };
    let err = CSV::load_csv_read(&schema, "a,b\n1,2\n").unwrap_err();
    match err {
        CsvError::MissingColumn { row, name } => {
            assert_eq!(row, 0);
            assert_eq!(name, "x");
        },
        CsvError::WrongCellCount { .. } => panic!("wrong error kind"),
    }
}

#[test]
fn wrong_cell_count_fails() {
    let schema = Schema { fields: vec![field("a"), field("b")] };
    let err = CSV::load_csv_read(&schema, "a,b\n1,2\n3,4,5\n").unwrap_err();
    match err {
        CsvError::WrongCellCount { row, expected, found } => {
            assert_eq!(row, 1);
            assert_eq!(expected, 2);
            assert_eq!(found, 3);
        },
        CsvError::MissingColumn { .. } => panic!("wrong error kind"),
    }
}

#[test]
fn quoting_keeps_comma_quote_and_line_break() {
    let schema = Schema { fields: vec![field("v")] };
    let tricky = "a,\"b\"\nc";
    let records = vec![Record { values: vec![String::from(tricky)] }];
    let text = CSV::save_csv_write(&schema, &records);
    assert_eq!(text, "v\n\"a,\"\"b\"\"\nc\"\n");
    let back = CSV::load_csv_read(&schema, text.as_str()).unwrap();
    assert_eq!(back.len(), 1);
    assert_eq!(back[0].values[0], tricky);
}

#[test]
fn lone_empty_cell_is_quoted_not_blank() {
    let schema = Schema { fields: vec![field("a")] };
    let records = vec![rec(&[""])];
    let text = CSV::save_csv_write(&schema, &records);
    assert_eq!(text, "a\n\"\"\n");
    let back = CSV::load_csv_read(&schema, text.as_str()).unwrap();
    assert_eq!(back.len(), 1);
    assert_eq!(back[0].values[0], "");
}

#[test]
fn scenario_default_only_overrides_input() {
    let data = "inst,date,open,high,low,close,volume,test_skip\n\
                IC2206,2022-06-06,6048.6,6186.4,6031.2,6157.8,90628,false\n";
    let schema = bar_schema();
    let out = CSV::load_csv_read(&schema, data).unwrap();
    assert_eq!(out.len(), 1);
    assert_eq!(out[0].values[0], "IC2206");
    assert_eq!(out[0].values[1], "2022-06-06");
    assert_eq!(out[0].values[2], "6048.6");
    assert_eq!(out[0].values[3], "6186.4");
    assert_eq!(out[0].values[4], "6031.2");
    assert_eq!(out[0].values[5], "6157.8");
    assert_eq!(out[0].values[6], "90628");
    assert_eq!(out[0].values[7], "true");
}

#[test]
fn carriage_return_line_feed_rows_are_accepted() {
    let schema = Schema { fields: vec![field("a"), field("b")] };
    let out = CSV::load_csv_read(&schema, "a,b\r\n1,2\r\n").unwrap();
    assert_eq!(out.len(), 1);
    assert_eq!(out[0].values[0], "1");
    assert_eq!(out[0].values[1], "2");
}

#[test]
fn extra_columns_are_ignored() {
    let schema = Schema { fields: vec![field("b")] };
    let out = CSV::load_csv_read(&schema, "a,b,c\n1,2,3\n").unwrap();
    assert_eq!(out.len(), 1);
    assert_eq!(out[0].values[0], "2");
}

#[test]
fn byte_order_mark_is_stripped_before_parsing() {
    let schema = Schema { fields: vec![field("inst")] };
    let mut bytes: Vec<u8> = vec![0xEF, 0xBB, 0xBF];
    bytes.extend_from_slice(b"inst\nIC2206\n");
    let out = CSV::load_csv_bytes(&schema, &bytes).unwrap();
    assert_eq!(out.len(), 1);
    assert_eq!(out[0].values[0], "IC2206");
}

#[test]
fn utf16_input_is_transcoded() {
    let schema = Schema { fields: vec![field("a")] };
    let text = "a\nx\u{00e9}\n";
    let mut bytes: Vec<u8> = vec![0xFF, 0xFE];
    for unit in text.encode_utf16() {
        bytes.extend_from_slice(&unit.to_le_bytes());
    }
    let out = CSV::load_csv_bytes(&schema, &bytes).unwrap();
    assert_eq!(out.len(), 1);
    assert_eq!(out[0].values[0], "x\u{00e9}");
}

#[test]
fn load_from_bytes_without_mark_reads_utf8() {
    let schema = Schema { fields: vec![field("a"), field("b")] };
    let bytes: Vec<u8> = b"a,b\n1,2\n".to_vec();
    let out = CSV::load_csv_bytes(&schema, &bytes).unwrap();
    assert_eq!(out.len(), 1);
    assert_eq!(out[0].values[0], "1");
    assert_eq!(out[0].values[1], "2");
}
