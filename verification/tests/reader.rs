use dog::column::{Column, ColumnData};
use dog::error::TableError;
use dog::expand::decode_column;
use dog::header::ColumnHeaderEntry;
use dog::reader::{assemble, collect_columns, resequence, ColumnOutcome};

fn ok(ordinal: usize, name: &str, values: Vec<i32>) -> ColumnOutcome {
    ColumnOutcome {
        ordinal,
        result: Ok(vec![Column::new(String::from(name), ColumnData::Int32(values))]),
    }
}

fn failed(ordinal: usize, error: TableError) -> ColumnOutcome {
    ColumnOutcome { ordinal, result: Err(error) }
}

fn read(header: &[(&str, &str)], raws: Vec<ColumnData>, order: &[usize]) -> Result<dog::table::Table, TableError> {
    let mut outcomes: Vec<Option<ColumnOutcome>> = Vec::new();
    for (k, raw) in raws.into_iter().enumerate() {
        let (name, tform) = header[k];
        let result = match ColumnHeaderEntry::parse(k + 1, String::from(name), tform) {
            Ok(entry) => decode_column(&entry, raw),
            Err(e) => Err(e),
        };
        outcomes.push(Some(ColumnOutcome { ordinal: k + 1, result }));
    }
    let arrived: Vec<ColumnOutcome> = order.iter().map(|&k| outcomes[k].take().unwrap()).collect();
    assemble(header.len(), arrived)
}

#[test]
fn the_reader_offers_every_step_of_a_read() {
    assert_eq!(dog::reader::which_file("m31.fits"), dog::reader::FileType::Fits);
    assert_eq!(dog::reader::parse_tform("16J"), Ok((16, 'J')));
    let flat = ColumnData::Int32(vec![1, 2]);
    let columns = dog::reader::expand_vector_column_from_flat("v", &flat, 2).unwrap();
    assert_eq!(columns.len(), 2);
    let entry = ColumnHeaderEntry::parse(1, String::from("v"), "2J").unwrap();
    assert_eq!(dog::reader::decode_column(&entry, flat), Ok(columns));
}

#[test]
fn assemble_orders_columns_by_ordinal() {
    let t = assemble(
        3,
        vec![ok(2, "b", vec![2]), ok(3, "c", vec![3]), ok(1, "a", vec![1])],
    )
    .unwrap();
    assert_eq!(t.column_names(), vec!["a", "b", "c"]);
}

#[test]
fn assemble_gives_the_same_table_for_every_arrival_order() {
    let orders: [[usize; 3]; 6] =
        [[1, 2, 3], [1, 3, 2], [2, 1, 3], [2, 3, 1], [3, 1, 2], [3, 2, 1]];
    let expected = assemble(
        3,
        vec![ok(1, "a", vec![1, 10]), ok(2, "b", vec![2, 20]), ok(3, "c", vec![3, 30])],
    )
    .unwrap();
    for order in orders {
        let arrived = order
            .iter()
            .map(|&o| match o {
                1 => ok(1, "a", vec![1, 10]),
                2 => ok(2, "b", vec![2, 20]),
                _ => ok(3, "c", vec![3, 30]),
            })
            .collect();
        assert_eq!(assemble(3, arrived), Ok(expected.clone()));
    }
}

#[test]
fn assemble_flattens_expanded_columns_in_place() {
    let header = [("ra", "1D"), ("flux", "3E"), ("id", "A")];
    let raws = || {
        vec![
            ColumnData::Float64(vec![1.0f64.to_bits(), 2.0f64.to_bits()]),
            ColumnData::Float32((1..=6).map(|v| (v as f32).to_bits()).collect()),
            ColumnData::Text(vec![String::from("s1"), String::from("s2")]),
        ]
    };
    let t = read(&header, raws(), &[2, 0, 1]).unwrap();
    assert_eq!(t.column_names(), vec!["ra", "flux_0", "flux_1", "flux_2", "id"]);
    assert_eq!(t.row_count(), 2);
    assert_eq!(
        t.columns()[2].data,
        ColumnData::Float32(vec![2.0f32.to_bits(), 5.0f32.to_bits()])
    );
    assert_eq!(read(&header, raws(), &[0, 1, 2]), Ok(t));
}

#[test]
fn reading_twice_gives_the_same_column_names() {
    let header = [("a", "2J"), ("b", "K"), ("c", "2J")];
    let first = read(
        &header,
        vec![
            ColumnData::Int32(vec![1, 2, 3, 4]),
            ColumnData::Int64(vec![5, 6]),
            ColumnData::Int32(vec![7, 8, 9, 10]),
        ],
        &[0, 1, 2],
    )
    .unwrap();
    let second = read(
        &header,
        vec![
            ColumnData::Int32(vec![]),
            ColumnData::Int64(vec![]),
            ColumnData::Int32(vec![]),
        ],
        &[2, 1, 0],
    )
    .unwrap();
    assert_eq!(first.column_names(), vec!["a_0", "a_1", "b", "c_0", "c_1"]);
    assert_eq!(first.column_names(), second.column_names());
}

#[test]
fn assembled_columns_share_the_row_count() {
    let header = [("a", "2J"), ("b", "K")];
    let t = read(
        &header,
        vec![ColumnData::Int32(vec![1, 2, 3, 4, 5, 6]), ColumnData::Int64(vec![7, 8, 9])],
        &[1, 0],
    )
    .unwrap();
    assert_eq!(t.row_count(), 3);
    for c in t.columns() {
        assert_eq!(c.len(), 3);
    }
}

#[test]
fn assemble_of_no_columns_is_the_empty_table() {
    let t = assemble(0, vec![]).unwrap();
    assert_eq!(t.column_count(), 0);
    assert_eq!(t.row_count(), 0);
}

#[test]
fn assemble_hands_on_the_error_of_the_lowest_ordinal() {
    let r = assemble(
        3,
        vec![
            failed(3, TableError::IoError),
            ok(1, "a", vec![1]),
            failed(2, TableError::UnsupportedType),
        ],
    );
    assert_eq!(r, Err(TableError::UnsupportedType));
    let r = assemble(
        2,
        vec![failed(2, TableError::FormatError), failed(1, TableError::IoError)],
    );
    assert_eq!(r, Err(TableError::IoError));
}

#[test]
fn a_column_error_comes_before_a_name_collision() {
    let r = assemble(
        3,
        vec![ok(1, "a", vec![1]), ok(2, "a", vec![2]), failed(3, TableError::FormatError)],
    );
    assert_eq!(r, Err(TableError::FormatError));
}

#[test]
fn assemble_with_a_missing_ordinal_is_a_schema_error() {
    assert_eq!(
        assemble(3, vec![ok(1, "a", vec![1]), ok(3, "c", vec![3])]),
        Err(TableError::SchemaError)
    );
    assert_eq!(assemble(1, vec![]), Err(TableError::SchemaError));
}

#[test]
fn assemble_with_an_ordinal_twice_is_a_schema_error() {
    assert_eq!(
        assemble(2, vec![ok(1, "a", vec![1]), ok(1, "b", vec![2])]),
        Err(TableError::SchemaError)
    );
    assert_eq!(
        assemble(2, vec![ok(1, "a", vec![1]), ok(2, "b", vec![2]), ok(2, "c", vec![3])]),
        Err(TableError::SchemaError)
    );
}

#[test]
fn assemble_with_an_ordinal_out_of_range_is_a_schema_error() {
    assert_eq!(
        assemble(2, vec![ok(0, "a", vec![1]), ok(1, "b", vec![2])]),
        Err(TableError::SchemaError)
    );
    assert_eq!(
        assemble(2, vec![ok(1, "a", vec![1]), ok(3, "b", vec![2])]),
        Err(TableError::SchemaError)
    );
    assert_eq!(assemble(0, vec![ok(1, "a", vec![1])]), Err(TableError::SchemaError));
}

#[test]
fn an_expanded_name_that_collides_is_a_schema_error() {
    let header = [("v_1", "J"), ("v", "2J")];
    let r = read(
        &header,
        vec![ColumnData::Int32(vec![1, 2]), ColumnData::Int32(vec![1, 2, 3, 4])],
        &[0, 1],
    );
    assert_eq!(r, Err(TableError::SchemaError));
}

#[test]
fn outcomes_of_different_lengths_are_a_schema_error() {
    let r = assemble(2, vec![ok(1, "a", vec![1, 2]), ok(2, "b", vec![1])]);
    assert_eq!(r, Err(TableError::SchemaError));
}

#[test]
fn a_malformed_descriptor_fails_the_read() {
    let header = [("a", "J"), ("b", "")];
    let r = read(
        &header,
        vec![ColumnData::Int32(vec![1]), ColumnData::Int32(vec![1])],
        &[1, 0],
    );
    assert_eq!(r, Err(TableError::FormatError));
}

#[test]
fn a_descriptor_with_count_zero_fails_the_read() {
    let header = [("a", "J"), ("b", "0J")];
    let r = read(
        &header,
        vec![ColumnData::Int32(vec![1]), ColumnData::Int32(vec![1])],
        &[0, 1],
    );
    assert_eq!(r, Err(TableError::FormatError));
}

#[test]
fn resequence_puts_results_in_ordinal_order() {
    let r = resequence(
        2,
        vec![failed(2, TableError::IoError), ok(1, "a", vec![1])],
    )
    .unwrap();
    assert_eq!(
        r,
        vec![
            Ok(vec![Column::new(String::from("a"), ColumnData::Int32(vec![1]))]),
            Err(TableError::IoError),
        ]
    );
}

#[test]
fn collect_columns_takes_results_as_they_stand() {
    let t = collect_columns(vec![
        Ok(vec![Column::new(String::from("b"), ColumnData::Int32(vec![1]))]),
        Ok(vec![]),
        Ok(vec![
            Column::new(String::from("a"), ColumnData::Int32(vec![2])),
            Column::new(String::from("c"), ColumnData::Int32(vec![3])),
        ]),
    ])
    .unwrap();
    assert_eq!(t.column_names(), vec!["b", "a", "c"]);
    assert_eq!(
        collect_columns(vec![Err(TableError::IoError), Err(TableError::FormatError)]),
        Err(TableError::IoError)
    );
}
