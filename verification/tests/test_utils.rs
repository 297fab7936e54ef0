use dfkit::utils::{file_type, parse_file_list, DfKitError, FileFormat, FileParseError};

#[test]
fn test_file_type_supported() {
    assert_eq!(file_type("file.csv").unwrap(), FileFormat::Csv);
    assert_eq!(file_type("file.parquet").unwrap(), FileFormat::Parquet);
    assert_eq!(file_type("file.json").unwrap(), FileFormat::Json);
    assert_eq!(file_type("file.avro").unwrap(), FileFormat::Avro);
}

#[test]
fn test_file_type_unsupported() {
    let err = file_type("file.txt").unwrap_err();
    assert!(matches!(err, FileParseError::UnsupportedFileFormat));
}

#[test]
fn test_file_type_invalid_extension() {
    let err = file_type("file").unwrap_err();
    assert!(matches!(err, FileParseError::InvalidExtension));
}

#[test]
fn test_parse_file_list_from_files() {
    let result = parse_file_list(Some("file1.csv, file2.csv".into())).unwrap();
    assert_eq!(result.len(), 2);
    assert_eq!(result[0], "file1.csv");
    assert_eq!(result[1], "file2.csv");
}

#[test]
fn test_parse_file_list_none() {
    let err = parse_file_list(None).unwrap_err();
    assert!(matches!(err, DfKitError::CustomError(_)));
}
