use dfkit::output::{effective_view_limit, write_format};
use dfkit::register::{cat_table_name, registration_plan, s3_bucket, RegistrationPlan};
use dfkit::rows::{Cell, Table};
use dfkit::split::{chunk_file_name, chunk_plan, chunk_sizes, file_stem};
use dfkit::utils::{
    file_type, parse_file_list, storage_type, DfKitError, FileFormat, StorageType,
    StorageTypeError,
};

fn row(name: &str, age: i64) -> Vec<Cell> {
    vec![Cell::Str(String::from(name)), Cell::Int(age)]
}

fn people_schema() -> Vec<String> {
    vec![String::from("name"), String::from("age")]
}

#[test]
fn format_stable_under_query_string() {
    assert_eq!(file_type("https://host/a.csv?session=1").unwrap(), FileFormat::Csv);
    assert_eq!(file_type("a.json?next=.parquet").unwrap(), FileFormat::Json);
    assert_eq!(file_type("a.parquet?").unwrap(), FileFormat::Parquet);
}

#[test]
fn format_empty_suffix_is_unsupported() {
    assert!(matches!(
        file_type("file.").unwrap_err(),
        dfkit::utils::FileParseError::UnsupportedFileFormat
    ));
    assert!(matches!(
        file_type("file.CSV").unwrap_err(),
        dfkit::utils::FileParseError::UnsupportedFileFormat
    ));
}

#[test]
fn storage_kinds() {
    assert_eq!(storage_type("s3://bucket/key.csv").unwrap(), StorageType::S3);
    assert_eq!(storage_type("https://host/a.json").unwrap(), StorageType::Url);
    assert_eq!(storage_type("http://host/a.json").unwrap(), StorageType::Url);
    assert_eq!(storage_type("/tmp/data.csv").unwrap(), StorageType::Local);
    let err = storage_type("relative/path.csv").unwrap_err();
    assert!(matches!(
        err,
        DfKitError::Storage(StorageTypeError::UnsupportedStorageType)
    ));
}

#[test]
fn s3_bucket_is_host_component() {
    assert_eq!(s3_bucket("s3://bucket/key.csv").unwrap(), "bucket");
    assert_eq!(s3_bucket("s3://my-data/dir/part.parquet").unwrap(), "my-data");
}

#[test]
fn registration_plans() {
    match registration_plan("/data/input.parquet").unwrap() {
        RegistrationPlan::Local { format } => assert_eq!(format, FileFormat::Parquet),
        _ => panic!("expected a local plan"),
    }
    match registration_plan("https://host/dir/file.json?token=1").unwrap() {
        RegistrationPlan::Download { format } => assert_eq!(format, FileFormat::Json),
        _ => panic!("expected a download plan"),
    }
    match registration_plan("s3://bucket/key.csv").unwrap() {
        RegistrationPlan::S3 { bucket, format } => {
            assert_eq!(bucket, "bucket");
            assert_eq!(format, FileFormat::Csv);
        }
        _ => panic!("expected an object-store plan"),
    }
    assert!(matches!(
        registration_plan("relative.csv").unwrap_err(),
        DfKitError::Storage(_)
    ));
    assert!(matches!(
        registration_plan("/data/input.txt").unwrap_err(),
        DfKitError::FileParse(dfkit::utils::FileParseError::UnsupportedFileFormat)
    ));
    assert!(matches!(
        registration_plan("https://host/page").unwrap_err(),
        DfKitError::FileParse(dfkit::utils::FileParseError::InvalidExtension)
    ));
}

#[test]
fn split_sizes_five_into_two() {
    let sizes = chunk_sizes(5, 2).unwrap();
    assert_eq!(sizes, vec![3, 2]);
    let total: usize = sizes.iter().sum();
    assert_eq!(total, 5);
}

#[test]
fn split_sizes_six_into_three() {
    assert_eq!(chunk_sizes(6, 3).unwrap(), vec![2, 2, 2]);
}

#[test]
fn split_sizes_extremes() {
    assert_eq!(chunk_sizes(5, 1).unwrap(), vec![5]);
    assert_eq!(chunk_sizes(3, 3).unwrap(), vec![1, 1, 1]);
}

#[test]
fn split_plan_offsets_are_contiguous() {
    assert_eq!(chunk_plan(5, 2).unwrap(), vec![(0, 3), (3, 2)]);
    assert_eq!(chunk_plan(7, 3).unwrap(), vec![(0, 3), (3, 2), (5, 2)]);
}

#[test]
fn split_preconditions_fail() {
    match chunk_sizes(5, 0).unwrap_err() {
        DfKitError::CustomError(m) => assert_eq!(m, "Chunks must be greater than 0"),
        _ => panic!("expected a precondition error"),
    }
    match chunk_sizes(2, 5).unwrap_err() {
        DfKitError::CustomError(m) => assert_eq!(m, "Chunks must be smaller than total rows"),
        _ => panic!("expected a precondition error"),
    }
    assert!(chunk_plan(0, 1).is_err());
}

#[test]
fn chunk_file_names() {
    assert_eq!(chunk_file_name("data", 1, "csv"), "data_1.csv");
    assert_eq!(chunk_file_name("data", 12, "parquet"), "data_12.parquet");
    assert_eq!(file_stem("/tmp/out/data.csv"), "data");
    assert_eq!(file_stem("data.tar.gz"), "data.tar");
    assert_eq!(file_stem(".hidden"), ".hidden");
    assert_eq!(file_stem("noext"), "noext");
}

#[test]
fn reverse_three_rows() {
    let t = Table {
        schema: people_schema(),
        rows: vec![row("alice", 30), row("bob", 40), row("charlie", 25)],
    };
    let r = t.reversed();
    assert_eq!(r.schema, people_schema());
    assert_eq!(r.rows, vec![row("charlie", 25), row("bob", 40), row("alice", 30)]);
}

#[test]
fn reverse_twice_is_identity() {
    let rows = vec![row("alice", 30), row("bob", 40), row("charlie", 25)];
    let t = Table { schema: people_schema(), rows: rows.clone() };
    let back = t.reversed().reversed();
    assert_eq!(back.rows, rows);
}

#[test]
fn reverse_empty_table() {
    let t = Table { schema: people_schema(), rows: vec![] };
    let r = t.reversed();
    assert_eq!(r.schema, people_schema());
    assert!(r.rows.is_empty());
}

#[test]
fn cat_keeps_all_rows_in_source_order() {
    let t1 = Table { schema: people_schema(), rows: vec![row("alice", 30), row("bob", 40)] };
    let t2 = Table { schema: people_schema(), rows: vec![row("charlie", 25), row("dave", 20)] };
    let r = Table::concatenated(vec![t1, t2]).unwrap();
    assert_eq!(r.schema, people_schema());
    assert_eq!(
        r.rows,
        vec![row("alice", 30), row("bob", 40), row("charlie", 25), row("dave", 20)]
    );
}

#[test]
fn cat_does_not_deduplicate() {
    let t1 = Table { schema: people_schema(), rows: vec![row("alice", 30)] };
    let t2 = Table { schema: people_schema(), rows: vec![row("alice", 30)] };
    let r = Table::concatenated(vec![t1, t2]).unwrap();
    assert_eq!(r.rows.len(), 2);
}

#[test]
fn cat_rejects_empty_source_list() {
    assert!(matches!(
        Table::concatenated(vec![]).unwrap_err(),
        DfKitError::CustomError(_)
    ));
}

#[test]
fn dedup_keeps_first_occurrence() {
    let t = Table {
        schema: people_schema(),
        rows: vec![row("a", 1), row("a", 1), row("b", 2)],
    };
    let r = t.deduped();
    assert_eq!(r.rows, vec![row("a", 1), row("b", 2)]);
}

#[test]
fn dedup_treats_nulls_as_equal() {
    let t = Table {
        schema: vec![String::from("col")],
        rows: vec![vec![Cell::Null], vec![Cell::Null], vec![Cell::Int(1)]],
    };
    let r = t.deduped();
    assert_eq!(r.rows, vec![vec![Cell::Null], vec![Cell::Int(1)]]);
}

#[test]
fn avro_destination_always_fails() {
    assert!(matches!(
        write_format("out.avro").unwrap_err(),
        DfKitError::UnsupportedWrite
    ));
    assert!(matches!(
        write_format("/some/dir/result.avro").unwrap_err(),
        DfKitError::UnsupportedWrite
    ));
    assert_eq!(write_format("out.csv").unwrap(), FileFormat::Csv);
    assert_eq!(write_format("out.json").unwrap(), FileFormat::Json);
    assert_eq!(write_format("out.parquet").unwrap(), FileFormat::Parquet);
    assert!(matches!(
        write_format("plain").unwrap_err(),
        DfKitError::FileParse(dfkit::utils::FileParseError::InvalidExtension)
    ));
}

#[test]
fn synthetic_table_names() {
    assert_eq!(cat_table_name(0), "t_0");
    assert_eq!(cat_table_name(1), "t_1");
    assert_eq!(cat_table_name(12), "t_12");
}

#[test]
fn view_limit_defaults() {
    assert_eq!(effective_view_limit(None), Some(10));
    assert_eq!(effective_view_limit(Some(0)), None);
    assert_eq!(effective_view_limit(Some(5)), Some(5));
}

#[test]
fn file_list_trims_entries() {
    let r = parse_file_list(Some(" a.csv ,\tb.csv , c.parquet".into())).unwrap();
    assert_eq!(r, vec!["a.csv", "b.csv", "c.parquet"]);
}
