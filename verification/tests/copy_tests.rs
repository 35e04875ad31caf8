use dataflow_core::copy_stmt::Connection;
use dataflow_core::copy_stmt::CopyIntoLocationOption;
use dataflow_core::copy_stmt::CopyIntoLocationSource;
use dataflow_core::copy_stmt::CopyIntoLocationStmt;
use dataflow_core::copy_stmt::CopyIntoTableOption;
use dataflow_core::copy_stmt::CopyIntoTableSource;
use dataflow_core::copy_stmt::CopyIntoTableStmt;
use dataflow_core::copy_stmt::CopyOptions;
use dataflow_core::copy_stmt::FileLocation;
use dataflow_core::copy_stmt::Identifier;
use dataflow_core::copy_stmt::OnErrorMode;
use dataflow_core::copy_stmt::TableIdentifier;
use dataflow_core::copy_stmt::UriLocation;
use dataflow_core::strmap::StringMap;
use dataflow_core::text::mask_string;

fn ident(name: &str) -> Identifier {
    Identifier { name: name.to_string() }
}

fn base_stmt() -> CopyIntoTableStmt {
    CopyIntoTableStmt {
        src: CopyIntoTableSource::Location(FileLocation::Stage("s1".to_string())),
        dst: TableIdentifier { catalog: None, database: None, table: ident("t") },
        dst_columns: None,
        hints: None,
        file_format: StringMap::new(),
        files: None,
        pattern: None,
        force: false,
        validation_mode: String::new(),
        size_limit: 0,
        max_files: 0,
        split_size: 0,
        purge: false,
        disable_variant_check: false,
        return_failed_only: false,
        on_error: "abort".to_string(),
    }
}

#[test]
fn from_tuple_assembles_identifier() {
    let t = TableIdentifier::from_tuple((None, Some(ident("db")), ident("t")));
    assert!(t.catalog.is_none());
    assert_eq!(t.database.unwrap().name, "db");
    assert_eq!(t.table.name, "t");
}

#[test]
fn table_identifier_renders_qualifiers() {
    let t = TableIdentifier { catalog: None, database: None, table: ident("t") };
    assert_eq!(t.display_string(), "t");
    let t = TableIdentifier { catalog: None, database: Some(ident("db")), table: ident("t") };
    assert_eq!(t.display_string(), "db.t");
    let t = TableIdentifier {
        catalog: Some(ident("cat")),
        database: Some(ident("db")),
        table: ident("t"),
    };
    assert_eq!(t.display_string(), "cat.db.t");
}

#[test]
fn apply_option_overwrites_one_field() {
    let mut stmt = base_stmt();
    stmt.apply_option(CopyIntoTableOption::SizeLimit(100));
    assert_eq!(stmt.size_limit, 100);
    stmt.apply_option(CopyIntoTableOption::Purge(true));
    assert!(stmt.purge);
    stmt.apply_option(CopyIntoTableOption::Files(vec!["f1".to_string()]));
    assert_eq!(stmt.files.as_ref().unwrap().len(), 1);
    assert_eq!(stmt.size_limit, 100);
}

#[test]
fn location_apply_option_overwrites_one_field() {
    let mut stmt = CopyIntoLocationStmt {
        hints: None,
        src: CopyIntoLocationSource::Table(TableIdentifier {
            catalog: None,
            database: None,
            table: ident("t"),
        }),
        dst: FileLocation::Stage("out".to_string()),
        file_format: StringMap::new(),
        single: false,
        max_file_size: 0,
    };
    stmt.apply_option(CopyIntoLocationOption::Single(true));
    assert!(stmt.single);
    stmt.apply_option(CopyIntoLocationOption::MaxFileSize(9));
    assert_eq!(stmt.max_file_size, 9);
    assert_eq!(
        stmt.display_string(),
        "COPY INTO @out FROM t SINGLE = true MAX_FILE_SIZE= 9"
    );
}

#[test]
fn on_error_mode_parses_each_form() {
    assert_eq!(OnErrorMode::from_str("continue").unwrap(), OnErrorMode::Continue);
    assert_eq!(OnErrorMode::from_str("abort").unwrap(), OnErrorMode::AbortNum(1));
    assert_eq!(OnErrorMode::from_str("skip_file").unwrap(), OnErrorMode::SkipFileNum(1));
    assert_eq!(OnErrorMode::from_str("abort_7").unwrap(), OnErrorMode::AbortNum(7));
    assert_eq!(OnErrorMode::from_str("skip_file_12").unwrap(), OnErrorMode::SkipFileNum(12));
    assert!(OnErrorMode::from_str("resume").is_err());
    assert!(OnErrorMode::from_str("abort_x").is_err());
}

#[test]
fn apply_to_copy_option_folds_and_checks_limits() {
    let mut stmt = base_stmt();
    stmt.size_limit = 5;
    stmt.split_size = 3;
    stmt.purge = true;
    let mut opts = CopyOptions {
        on_error: OnErrorMode::Continue,
        size_limit: 0,
        max_files: 0,
        split_size: 0,
        purge: false,
        disable_variant_check: false,
        return_failed_only: false,
    };
    stmt.apply_to_copy_option(&mut opts).unwrap();
    assert_eq!(opts.on_error, OnErrorMode::AbortNum(1));
    assert_eq!(opts.size_limit, 5);
    assert_eq!(opts.split_size, 3);
    assert!(opts.purge);

    // Too many files without purge+force is refused.
    let mut stmt = base_stmt();
    stmt.max_files = 20000;
    let err = stmt.apply_to_copy_option(&mut opts).unwrap_err();
    assert_eq!(err.code(), dataflow_core::error::CODE_INVALID_ARGUMENT);

    // With purge and force the cap does not apply.
    stmt.purge = true;
    stmt.force = true;
    stmt.apply_to_copy_option(&mut opts).unwrap();
    assert_eq!(opts.max_files, 20000);
    assert_eq!(opts.on_error, OnErrorMode::AbortNum(1));

    // An unparseable error mode is a syntax error and changes nothing.
    let mut stmt = base_stmt();
    stmt.on_error = "resume".to_string();
    let before = opts;
    let err = stmt.apply_to_copy_option(&mut opts).unwrap_err();
    assert_eq!(err.code(), 5);
    assert_eq!(opts, before);
}

#[test]
fn connection_tracks_visited_keys() {
    let mut conns = StringMap::new();
    conns.insert("access_key".to_string(), "secret-value".to_string());
    conns.insert("endpoint".to_string(), "http://localhost".to_string());
    let mut c = Connection::new(conns);

    // Unvisited keys fail the check.
    assert!(c.check().is_err());
    assert_eq!(c.get("access_key").unwrap(), "secret-value");
    assert!(c.get("missing").is_none());
    assert!(c.check().is_err());
    let _ = c.get("endpoint");
    assert!(c.check().is_ok());

    let masked = c.mask();
    assert_eq!(masked.conns.get("access_key").unwrap(), "sec******");
}

#[test]
fn mask_string_keeps_short_strings() {
    assert_eq!(mask_string("ab", 3), "ab");
    assert_eq!(mask_string("abc", 3), "abc");
    assert_eq!(mask_string("abcdef", 3), "abc******");
}

#[test]
fn from_uri_handles_fs_s3_and_bad_input() {
    let l = UriLocation::from_uri("fs:///tmp/data".to_string(), String::new(), StringMap::new())
        .unwrap();
    assert_eq!(l.protocol, "fs");
    assert_eq!(l.name, "");
    assert_eq!(l.path, "/tmp/data");

    let l = UriLocation::from_uri(
        "s3://bucket/path/to/x.csv".to_string(),
        String::new(),
        StringMap::new(),
    )
    .unwrap();
    assert_eq!(l.protocol, "s3");
    assert_eq!(l.name, "bucket");
    assert_eq!(l.path, "/path/to/x.csv");

    let l = UriLocation::from_uri(
        "http://example.com:8080".to_string(),
        String::new(),
        StringMap::new(),
    )
    .unwrap();
    assert_eq!(l.name, "example.com:8080");
    assert_eq!(l.path, "/");

    assert!(UriLocation::from_uri("::::".to_string(), String::new(), StringMap::new()).is_err());
}

#[test]
fn uri_location_renders_with_masked_connection() {
    let mut conns = StringMap::new();
    conns.insert("key".to_string(), "supersecret".to_string());
    let l = UriLocation::new(
        "s3".to_string(),
        "bucket".to_string(),
        "/dir".to_string(),
        String::new(),
        conns,
    );
    assert_eq!(
        l.display_string(),
        "'s3://bucket/dir' CONNECTION = ( key = 'sup******' )"
    );
}

#[test]
fn copy_into_table_renders_clause_by_clause() {
    let mut stmt = base_stmt();
    stmt.size_limit = 10;
    stmt.files = Some(vec!["a.csv".to_string(), "b.csv".to_string()]);
    assert_eq!(
        stmt.display_string(),
        "COPY INTO t FROM @s1 FILES = ('a.csv', 'b.csv' ) SIZE_LIMIT = 10 PURGE = false FORCE = false DISABLE_VARIANT_CHECK = false ON_ERROR = 'abort'"
    );
}
