use colview::error::ViewError;
use colview::reader::{
    compression_from_file_name, detect_compression_from_extension, file_type_from_file_name,
    get_file_type, CompressionType, FileType,
};

#[test]
fn compression_by_extension() {
    assert_eq!(detect_compression_from_extension("data.parquet.gz"), CompressionType::Gzip);
    assert_eq!(detect_compression_from_extension("data.orc.zlib"), CompressionType::Zlib);
    assert_eq!(detect_compression_from_extension("data.orc.z"), CompressionType::Zlib);
    assert_eq!(detect_compression_from_extension("a/b.parquet.snappy"), CompressionType::Snappy);
    assert_eq!(detect_compression_from_extension("b.parquet.sz"), CompressionType::Snappy);
    assert_eq!(detect_compression_from_extension("b.orc.zst"), CompressionType::Zstd);
    assert_eq!(detect_compression_from_extension("b.orc.zstd"), CompressionType::Zstd);
    assert_eq!(detect_compression_from_extension("b.orc"), CompressionType::Uncompressed);
}

#[test]
fn compression_looks_at_the_file_name_only() {
    assert_eq!(detect_compression_from_extension("dir/table.orc.gz/"), CompressionType::Gzip);
    assert_eq!(detect_compression_from_extension("dir/.."), CompressionType::Uncompressed);
    assert_eq!(compression_from_file_name("table.parquet"), CompressionType::Uncompressed);
}

#[test]
fn file_type_past_compression() {
    assert_eq!(get_file_type("x/y/t.parquet").unwrap(), FileType::Parquet);
    assert_eq!(get_file_type("t.orc").unwrap(), FileType::Orc);
    assert_eq!(get_file_type("t.parquet.gz").unwrap(), FileType::Parquet);
    assert_eq!(get_file_type("t.orc.zstd").unwrap(), FileType::Orc);
    assert_eq!(file_type_from_file_name("t.orc.snappy"), Some(FileType::Orc));
}

#[test]
fn file_type_looks_at_the_file_name_only() {
    assert_eq!(get_file_type("dir/t.parquet/").unwrap(), FileType::Parquet);
    assert_eq!(
        get_file_type("t.parquet/.."),
        Err(ViewError::UnsupportedFileType("t.parquet/..".to_string()))
    );
}

#[test]
fn only_one_compression_extension_is_removed() {
    assert_eq!(file_type_from_file_name("t.parquet.gz.zst"), None);
}

#[test]
fn unsupported_file_type_names_the_path() {
    assert_eq!(
        get_file_type("dir/table.csv"),
        Err(ViewError::UnsupportedFileType("dir/table.csv".to_string()))
    );
}
