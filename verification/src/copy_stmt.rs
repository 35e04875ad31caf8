//! The parsed COPY statements: copying into a table from a location and
//! copying from a table into a location, together with their options,
//! connection parameters and locations.

use vstd::prelude::*;
use crate::error::CODE_INVALID_ARGUMENT;
use crate::error::ErrorCodes;
use crate::strmap::StringMap;
use crate::strmap::StringSet;
use crate::text::dec_digits;
use crate::text::digits_val;
use crate::text::is_digits;
use crate::text::join_comma_exec;
use crate::text::mask_spec;
use crate::text::mask_string;
use crate::text::parse_u64;
use crate::text::str_eq;
use crate::text::str_starts_with;
use crate::text::u64_to_dec_string;

verus! {

/// The most files one COPY commit may touch.
pub const COPY_MAX_FILES_PER_COMMIT: usize = 15000;

/// A bare SQL identifier.
#[derive(Clone, PartialEq, Eq, Debug)]
pub struct Identifier {
    pub name: String,
}

/// An optimizer hint block, kept as its text.
#[derive(Clone, PartialEq, Eq, Debug)]
pub struct Hint {
    pub text: String,
}

/// A sub-query, kept as its rendered text.
#[derive(Clone, PartialEq, Eq, Debug)]
pub struct Query {
    pub text: String,
}

/// A possibly qualified table name.
#[derive(Clone, PartialEq, Eq, Debug)]
pub struct TableIdentifier {
    pub catalog: Option<Identifier>,
    pub database: Option<Identifier>,
    pub table: Identifier,
}

impl TableIdentifier {
    pub fn from_tuple(t: (Option<Identifier>, Option<Identifier>, Identifier)) -> (r:
        TableIdentifier)
        ensures
            r.catalog == t.0,
            r.database == t.1,
            r.table == t.2,
    {
        let (catalog, database, table) = t;
        TableIdentifier { catalog, database, table }
    }

    /// The rendering: `catalog.database.table`, `database.table` or
    /// `table`, as far as the qualifiers are set.
    pub open spec fn display_spec(&self) -> Seq<char> {
        if self.catalog.is_some() {
            self.catalog.unwrap().name@ + "."@ + self.database.unwrap().name@ + "."@
                + self.table.name@
        } else if self.database.is_some() {
            self.database.unwrap().name@ + "."@ + self.table.name@
        } else {
            self.table.name@
        }
    }

    /// Renders the identifier. A catalog qualifier is only meaningful over
    /// a database qualifier.
    pub fn display_string(&self) -> (r: String)
        requires
            self.catalog.is_some() ==> self.database.is_some(),
        ensures
            r@ == self.display_spec(),
    {
        let mut s = String::new();
        match &self.catalog {
            Option::Some(catalog) => {
                s.append(catalog.name.as_str());
                s.append(".");
                match &self.database {
                    Option::Some(database) => {
                        s.append(database.name.as_str());
                    },
                    Option::None => {},
                }
                s.append(".");
                s.append(self.table.name.as_str());
            },
            Option::None => {
                match &self.database {
                    Option::Some(database) => {
                        s.append(database.name.as_str());
                        s.append(".");
                        s.append(self.table.name.as_str());
                    },
                    Option::None => {
                        s.append(self.table.name.as_str());
                    },
                }
            },
        }
        proof {
            assert(s@ =~= self.display_spec());
        }
        s
    }
}

/// How a load reacts to bad rows.
#[derive(Clone, Copy, PartialEq, Eq, Structural, Debug)]
pub enum OnErrorMode {
    Continue,
    SkipFileNum(u64),
    AbortNum(u64),
}

impl OnErrorMode {
    /// Whether the textual form parses as an error mode.
    pub open spec fn from_str_ok(s: Seq<char>) -> bool {
        ||| s == "continue"@
        ||| s == "abort"@
        ||| s == "skip_file"@
        ||| {
            let p = "abort_"@;
            s.len() > p.len() && s.subrange(0, p.len() as int) == p && is_digits(
                s.skip(p.len() as int),
            ) && digits_val(s.skip(p.len() as int)) <= u64::MAX
        }
        ||| {
            let p = "skip_file_"@;
            s.len() > p.len() && s.subrange(0, p.len() as int) == p && is_digits(
                s.skip(p.len() as int),
            ) && digits_val(s.skip(p.len() as int)) <= u64::MAX
        }
    }

    /// The mode a well-formed textual form denotes.
    pub open spec fn parse_spec(s: Seq<char>) -> OnErrorMode {
        if s == "continue"@ {
            OnErrorMode::Continue
        } else if s == "abort"@ {
            OnErrorMode::AbortNum(1)
        } else if s == "skip_file"@ {
            OnErrorMode::SkipFileNum(1)
        } else if s.len() > "skip_file_"@.len() && s.subrange(0, "skip_file_"@.len() as int)
            == "skip_file_"@ {
            OnErrorMode::SkipFileNum(digits_val(s.skip("skip_file_"@.len() as int)) as u64)
        } else if s.len() > "abort_"@.len() && s.subrange(0, "abort_"@.len() as int)
            == "abort_"@ {
            OnErrorMode::AbortNum(digits_val(s.skip("abort_"@.len() as int)) as u64)
        } else {
            OnErrorMode::Continue
        }
    }

    /// Parses the textual form of the mode: `continue`, `abort`,
    /// `skip_file`, or either of the latter two with `_<n>` appended.
    pub fn from_str(s: &str) -> (r: Result<OnErrorMode, ErrorCodes>)
        ensures
            s@ == "continue"@ ==> r == Ok::<OnErrorMode, ErrorCodes>(OnErrorMode::Continue),
            s@ == "abort"@ ==> r == Ok::<OnErrorMode, ErrorCodes>(OnErrorMode::AbortNum(1u64)),
            s@ == "skip_file"@ ==> r == Ok::<OnErrorMode, ErrorCodes>(
                OnErrorMode::SkipFileNum(1u64),
            ),
            ({
                let p = "abort_"@;
                s@.len() > p.len() && s@.subrange(0, p.len() as int) == p && is_digits(
                    s@.skip(p.len() as int),
                ) && digits_val(s@.skip(p.len() as int)) <= u64::MAX ==> (r matches Ok(m) && m
                    == OnErrorMode::AbortNum(digits_val(s@.skip(p.len() as int)) as u64))
            }),
            ({
                let p = "skip_file_"@;
                s@.len() > p.len() && s@.subrange(0, p.len() as int) == p && is_digits(
                    s@.skip(p.len() as int),
                ) && digits_val(s@.skip(p.len() as int)) <= u64::MAX ==> (r matches Ok(m) && m
                    == OnErrorMode::SkipFileNum(digits_val(s@.skip(p.len() as int)) as u64))
            }),
            r.is_ok() == OnErrorMode::from_str_ok(s@),
            r matches Ok(m) ==> m == OnErrorMode::parse_spec(s@),
            r matches Err(e) ==> e.spec_code() == 5,
    {
        proof {
            reveal_strlit("continue");
            reveal_strlit("abort");
            reveal_strlit("skip_file");
            reveal_strlit("abort_");
            reveal_strlit("skip_file_");
        }
        if str_eq(s, "continue") {
            return Ok(OnErrorMode::Continue);
        }
        if str_eq(s, "abort") {
            proof {
                assert("abort"@.len() == 5);
                assert("skip_file"@.len() == 9);
            }
            return Ok(OnErrorMode::AbortNum(1));
        }
        if str_eq(s, "skip_file") {
            return Ok(OnErrorMode::SkipFileNum(1));
        }
        if str_starts_with(s, "skip_file_") {
            let rest = s.substring_char(10, s.unicode_len());
            proof {
                assert(rest@ =~= s@.skip(10));
                assert(s@.subrange(0, 6) != "abort_"@) by {
                    assert(s@.subrange(0, 10)[0] == s@[0]);
                    assert(s@.subrange(0, 6)[0] == s@[0]);
                }
            }
            match parse_u64(rest) {
                Option::Some(n) => {
                    return Ok(OnErrorMode::SkipFileNum(n));
                },
                Option::None => {
                    return Err(ErrorCodes::SyntexException("invalid ON_ERROR mode".to_owned()));
                },
            }
        }
        if str_starts_with(s, "abort_") {
            let rest = s.substring_char(6, s.unicode_len());
            proof {
                assert(rest@ =~= s@.skip(6));
            }
            match parse_u64(rest) {
                Option::Some(n) => {
                    return Ok(OnErrorMode::AbortNum(n));
                },
                Option::None => {
                    return Err(ErrorCodes::SyntexException("invalid ON_ERROR mode".to_owned()));
                },
            }
        }
        Err(ErrorCodes::SyntexException("invalid ON_ERROR mode".to_owned()))
    }
}

/// The effective options of a running copy, filled in from a statement.
#[derive(Clone, Copy, PartialEq, Eq, Structural, Debug)]
pub struct CopyOptions {
    pub on_error: OnErrorMode,
    pub size_limit: usize,
    pub max_files: usize,
    pub split_size: usize,
    pub purge: bool,
    pub disable_variant_check: bool,
    pub return_failed_only: bool,
}

/// One option of a COPY-into-table statement.
pub enum CopyIntoTableOption {
    Files(Vec<String>),
    Pattern(String),
    FileFormat(StringMap),
    ValidationMode(String),
    SizeLimit(usize),
    MaxFiles(usize),
    SplitSize(usize),
    Purge(bool),
    Force(bool),
    DisableVariantCheck(bool),
    ReturnFailedOnly(bool),
    OnError(String),
}

/// One option of a COPY-into-location statement.
pub enum CopyIntoLocationOption {
    FileFormat(StringMap),
    MaxFileSize(usize),
    Single(bool),
}

/// The parsed statement `COPY INTO <table> FROM <location>`.
pub struct CopyIntoTableStmt {
    pub src: CopyIntoTableSource,
    pub dst: TableIdentifier,
    pub dst_columns: Option<Vec<Identifier>>,
    pub hints: Option<Hint>,
    pub file_format: StringMap,
    pub files: Option<Vec<String>>,
    pub pattern: Option<String>,
    pub force: bool,
    pub validation_mode: String,
    pub size_limit: usize,
    pub max_files: usize,
    pub split_size: usize,
    pub purge: bool,
    pub disable_variant_check: bool,
    pub return_failed_only: bool,
    pub on_error: String,
}

impl CopyIntoTableStmt {
    /// Applies one parsed option to the statement, overwriting the
    /// corresponding field and leaving every other field as it was.
    pub fn apply_option(&mut self, opt: CopyIntoTableOption)
        ensures
            final(self).src == old(self).src,
            final(self).dst == old(self).dst,
            final(self).dst_columns == old(self).dst_columns,
            final(self).hints == old(self).hints,
            ({
                let s0 = *old(self);
                let s1 = *final(self);
                match opt {
                    CopyIntoTableOption::Files(v) => s1.files == Option::Some(v) && s1.pattern
                        == s0.pattern && s1.file_format == s0.file_format && s1.validation_mode
                        == s0.validation_mode && s1.size_limit == s0.size_limit && s1.max_files
                        == s0.max_files && s1.split_size == s0.split_size && s1.purge == s0.purge
                        && s1.force == s0.force && s1.disable_variant_check
                        == s0.disable_variant_check && s1.return_failed_only
                        == s0.return_failed_only && s1.on_error == s0.on_error,
                    CopyIntoTableOption::Pattern(v) => s1.pattern == Option::Some(v) && s1.files
                        == s0.files && s1.file_format == s0.file_format && s1.validation_mode
                        == s0.validation_mode && s1.size_limit == s0.size_limit && s1.max_files
                        == s0.max_files && s1.split_size == s0.split_size && s1.purge == s0.purge
                        && s1.force == s0.force && s1.disable_variant_check
                        == s0.disable_variant_check && s1.return_failed_only
                        == s0.return_failed_only && s1.on_error == s0.on_error,
                    CopyIntoTableOption::FileFormat(v) => s1.file_format == v && s1.files
                        == s0.files && s1.pattern == s0.pattern && s1.validation_mode
                        == s0.validation_mode && s1.size_limit == s0.size_limit && s1.max_files
                        == s0.max_files && s1.split_size == s0.split_size && s1.purge == s0.purge
                        && s1.force == s0.force && s1.disable_variant_check
                        == s0.disable_variant_check && s1.return_failed_only
                        == s0.return_failed_only && s1.on_error == s0.on_error,
                    CopyIntoTableOption::ValidationMode(v) => s1.validation_mode == v && s1.files
                        == s0.files && s1.pattern == s0.pattern && s1.file_format == s0.file_format
                        && s1.size_limit == s0.size_limit && s1.max_files == s0.max_files
                        && s1.split_size == s0.split_size && s1.purge == s0.purge && s1.force
                        == s0.force && s1.disable_variant_check == s0.disable_variant_check
                        && s1.return_failed_only == s0.return_failed_only && s1.on_error
                        == s0.on_error,
                    CopyIntoTableOption::SizeLimit(v) => s1.size_limit == v && s1.files == s0.files
                        && s1.pattern == s0.pattern && s1.file_format == s0.file_format
                        && s1.validation_mode == s0.validation_mode && s1.max_files == s0.max_files
                        && s1.split_size == s0.split_size && s1.purge == s0.purge && s1.force
                        == s0.force && s1.disable_variant_check == s0.disable_variant_check
                        && s1.return_failed_only == s0.return_failed_only && s1.on_error
                        == s0.on_error,
                    CopyIntoTableOption::MaxFiles(v) => s1.max_files == v && s1.files == s0.files
                        && s1.pattern == s0.pattern && s1.file_format == s0.file_format
                        && s1.validation_mode == s0.validation_mode && s1.size_limit
                        == s0.size_limit && s1.split_size == s0.split_size && s1.purge == s0.purge
                        && s1.force == s0.force && s1.disable_variant_check
                        == s0.disable_variant_check && s1.return_failed_only
                        == s0.return_failed_only && s1.on_error == s0.on_error,
                    CopyIntoTableOption::SplitSize(v) => s1.split_size == v && s1.files == s0.files
                        && s1.pattern == s0.pattern && s1.file_format == s0.file_format
                        && s1.validation_mode == s0.validation_mode && s1.size_limit
                        == s0.size_limit && s1.max_files == s0.max_files && s1.purge == s0.purge
                        && s1.force == s0.force && s1.disable_variant_check
                        == s0.disable_variant_check && s1.return_failed_only
                        == s0.return_failed_only && s1.on_error == s0.on_error,
                    CopyIntoTableOption::Purge(v) => s1.purge == v && s1.files == s0.files
                        && s1.pattern == s0.pattern && s1.file_format == s0.file_format
                        && s1.validation_mode == s0.validation_mode && s1.size_limit
                        == s0.size_limit && s1.max_files == s0.max_files && s1.split_size
                        == s0.split_size && s1.force == s0.force && s1.disable_variant_check
                        == s0.disable_variant_check && s1.return_failed_only
                        == s0.return_failed_only && s1.on_error == s0.on_error,
                    CopyIntoTableOption::Force(v) => s1.force == v && s1.files == s0.files
                        && s1.pattern == s0.pattern && s1.file_format == s0.file_format
                        && s1.validation_mode == s0.validation_mode && s1.size_limit
                        == s0.size_limit && s1.max_files == s0.max_files && s1.split_size
                        == s0.split_size && s1.purge == s0.purge && s1.disable_variant_check
                        == s0.disable_variant_check && s1.return_failed_only
                        == s0.return_failed_only && s1.on_error == s0.on_error,
                    CopyIntoTableOption::DisableVariantCheck(v) => s1.disable_variant_check == v
                        && s1.files == s0.files && s1.pattern == s0.pattern && s1.file_format
                        == s0.file_format && s1.validation_mode == s0.validation_mode
                        && s1.size_limit == s0.size_limit && s1.max_files == s0.max_files
                        && s1.split_size == s0.split_size && s1.purge == s0.purge && s1.force
                        == s0.force && s1.return_failed_only == s0.return_failed_only
                        && s1.on_error == s0.on_error,
                    CopyIntoTableOption::ReturnFailedOnly(v) => s1.return_failed_only == v
                        && s1.files == s0.files && s1.pattern == s0.pattern && s1.file_format
                        == s0.file_format && s1.validation_mode == s0.validation_mode
                        && s1.size_limit == s0.size_limit && s1.max_files == s0.max_files
                        && s1.split_size == s0.split_size && s1.purge == s0.purge && s1.force
                        == s0.force && s1.disable_variant_check == s0.disable_variant_check
                        && s1.on_error == s0.on_error,
                    CopyIntoTableOption::OnError(v) => s1.on_error == v && s1.files == s0.files
                        && s1.pattern == s0.pattern && s1.file_format == s0.file_format
                        && s1.validation_mode == s0.validation_mode && s1.size_limit
                        == s0.size_limit && s1.max_files == s0.max_files && s1.split_size
                        == s0.split_size && s1.purge == s0.purge && s1.force == s0.force
                        && s1.disable_variant_check == s0.disable_variant_check
                        && s1.return_failed_only == s0.return_failed_only,
                }
            }),
    {
        match opt {
            CopyIntoTableOption::Files(v) => self.files = Option::Some(v),
            CopyIntoTableOption::Pattern(v) => self.pattern = Option::Some(v),
            CopyIntoTableOption::FileFormat(v) => self.file_format = v,
            CopyIntoTableOption::ValidationMode(v) => self.validation_mode = v,
            CopyIntoTableOption::SizeLimit(v) => self.size_limit = v,
            CopyIntoTableOption::MaxFiles(v) => self.max_files = v,
            CopyIntoTableOption::SplitSize(v) => self.split_size = v,
            CopyIntoTableOption::Purge(v) => self.purge = v,
            CopyIntoTableOption::Force(v) => self.force = v,
            CopyIntoTableOption::DisableVariantCheck(v) => self.disable_variant_check = v,
            CopyIntoTableOption::ReturnFailedOnly(v) => self.return_failed_only = v,
            CopyIntoTableOption::OnError(v) => self.on_error = v,
        }
    }

    /// Folds the statement's options into the effective copy options. The
    /// textual error mode must parse; a nonzero size limit or file cap
    /// overrides the defaults; the file cap must stay under the commit
    /// limit unless the copy both purges and forces.
    pub fn apply_to_copy_option(&self, copy_options: &mut CopyOptions) -> (r: Result<
        (),
        ErrorCodes,
    >)
        ensures
            ({
                let c0 = *old(copy_options);
                let c1 = *final(copy_options);
                let effective_max = if self.max_files != 0 {
                    self.max_files as int
                } else {
                    c0.max_files as int
                };
                let over_limit = !(self.purge && self.force) && effective_max
                    > COPY_MAX_FILES_PER_COMMIT;
                let parse_ok = OnErrorMode::from_str_ok(self.on_error@);
                &&& r.is_ok() == (parse_ok && !over_limit)
                &&& !parse_ok ==> (r matches Err(e) && e.spec_code() == 5 && c1 == c0)
                &&& parse_ok && over_limit ==> (r matches Err(e) && e.spec_code()
                    == CODE_INVALID_ARGUMENT)
                &&& r.is_ok() ==> {
                    &&& c1.on_error == OnErrorMode::parse_spec(self.on_error@)
                    &&& c1.size_limit == if self.size_limit != 0 {
                        self.size_limit as int
                    } else {
                        c0.size_limit as int
                    }
                    &&& c1.split_size == self.split_size
                    &&& c1.purge == self.purge
                    &&& c1.disable_variant_check == self.disable_variant_check
                    &&& c1.return_failed_only == self.return_failed_only
                    &&& c1.max_files == effective_max
                }
            }),
    {
        let mode = OnErrorMode::from_str(self.on_error.as_str());
        match mode {
            Result::Ok(m) => {
                copy_options.on_error = m;
            },
            Result::Err(e) => {
                return Err(e);
            },
        }

        if self.size_limit != 0 {
            copy_options.size_limit = self.size_limit;
        }

        copy_options.split_size = self.split_size;
        copy_options.purge = self.purge;
        copy_options.disable_variant_check = self.disable_variant_check;
        copy_options.return_failed_only = self.return_failed_only;

        if self.max_files != 0 {
            copy_options.max_files = self.max_files;
        }

        if !(copy_options.purge && self.force) && copy_options.max_files
            > COPY_MAX_FILES_PER_COMMIT {
            let mut msg = "max_files ".to_owned();
            msg.append(u64_to_dec_string(copy_options.max_files as u64).as_str());
            msg.append(" is too large, max_files should be less than ");
            msg.append(u64_to_dec_string(COPY_MAX_FILES_PER_COMMIT as u64).as_str());
            return Err(ErrorCodes::InvalidArgument(msg));
        }
        Ok(())
    }
}

/// The source of a COPY into a table: a location, or a transforming query.
pub enum CopyIntoTableSource {
    Location(FileLocation),
    Query(Box<Query>),
}

/// The source of a COPY into a location: a query, or a whole table.
pub enum CopyIntoLocationSource {
    Query(Box<Query>),
    Table(TableIdentifier),
}

/// The parsed statement `COPY INTO <location> FROM <table or query>`.
pub struct CopyIntoLocationStmt {
    pub hints: Option<Hint>,
    pub src: CopyIntoLocationSource,
    pub dst: FileLocation,
    pub file_format: StringMap,
    pub single: bool,
    pub max_file_size: usize,
}

impl CopyIntoLocationStmt {
    /// Applies one parsed option to the statement, overwriting the
    /// corresponding field and leaving every other field as it was.
    pub fn apply_option(&mut self, opt: CopyIntoLocationOption)
        ensures
            final(self).hints == old(self).hints,
            final(self).src == old(self).src,
            final(self).dst == old(self).dst,
            ({
                let s0 = *old(self);
                let s1 = *final(self);
                match opt {
                    CopyIntoLocationOption::FileFormat(v) => s1.file_format == v && s1.single
                        == s0.single && s1.max_file_size == s0.max_file_size,
                    CopyIntoLocationOption::Single(v) => s1.single == v && s1.file_format
                        == s0.file_format && s1.max_file_size == s0.max_file_size,
                    CopyIntoLocationOption::MaxFileSize(v) => s1.max_file_size == v && s1.single
                        == s0.single && s1.file_format == s0.file_format,
                }
            }),
    {
        match opt {
            CopyIntoLocationOption::FileFormat(v) => self.file_format = v,
            CopyIntoLocationOption::Single(v) => self.single = v,
            CopyIntoLocationOption::MaxFileSize(v) => self.max_file_size = v,
        }
    }
}

/// Connection parameters of an external location, with the set of keys the
/// engine has consumed so far.
pub struct Connection {
    pub visited_keys: StringSet,
    pub conns: StringMap,
}

impl Connection {
    /// The key sets are well formed.
    pub open spec fn wf(&self) -> bool {
        self.visited_keys.wf() && self.conns.wf()
    }

    pub fn new(conns: StringMap) -> (r: Connection)
        requires
            conns.wf(),
        ensures
            r.wf(),
            r.conns == conns,
            r.visited_keys.items@.len() == 0,
    {
        Connection { visited_keys: StringSet::new(), conns }
    }

    /// A copy with every value masked, so that secrets can be rendered.
    pub fn mask(&self) -> (r: Connection)
        requires
            self.wf(),
        ensures
            r.wf(),
            r.conns.entries@.len() == self.conns.entries@.len(),
            forall|i: int|
                0 <= i < self.conns.entries@.len() ==> (#[trigger] r.conns.entries@[i]).0@
                    == self.conns.entries@[i].0@,
            forall|i: int|
                0 <= i < self.conns.entries@.len() ==> (#[trigger] r.conns.entries@[i]).1@
                    == mask_spec(self.conns.entries@[i].1@, 3),
            forall|k: Seq<char>|
                #[trigger] r.visited_keys.spec_contains(k) == self.visited_keys.spec_contains(k),
    {
        let mut entries: Vec<(String, String)> = Vec::new();
        let n = self.conns.len();
        for i in 0..n
            invariant
                n == self.conns.entries@.len(),
                self.conns.wf(),
                entries@.len() == i,
                forall|j: int|
                    0 <= j < i ==> (#[trigger] entries@[j]).0@ == self.conns.entries@[j].0@,
                forall|j: int|
                    0 <= j < i ==> (#[trigger] entries@[j]).1@ == mask_spec(
                        self.conns.entries@[j].1@,
                        3,
                    ),
                forall|a: int, b: int| 0 <= a < b < i ==> entries@[a].0@ != entries@[b].0@,
        {
            let k = self.conns.key_at(i).clone();
            let v = mask_string(self.conns.value_at(i).as_str(), 3);
            entries.push((k, v));
        }
        let mut visited: Vec<String> = Vec::new();
        let nv = self.visited_keys.len();
        for i in 0..nv
            invariant
                nv == self.visited_keys.items@.len(),
                self.visited_keys.wf(),
                visited@.len() == i,
                forall|j: int|
                    0 <= j < i ==> (#[trigger] visited@[j])@ == self.visited_keys.items@[j]@,
                forall|a: int, b: int| 0 <= a < b < i ==> visited@[a]@ != visited@[b]@,
        {
            visited.push(self.visited_keys.item_at(i).clone());
        }
        let r = Connection {
            visited_keys: StringSet { items: visited },
            conns: StringMap { entries },
        };
        proof {
            assert forall|k: Seq<char>| #[trigger] r.visited_keys.spec_contains(k)
                == self.visited_keys.spec_contains(k) by {
                if r.visited_keys.spec_contains(k) {
                    let j = choose|j: int|
                        0 <= j < r.visited_keys.items@.len() && (
                        #[trigger] r.visited_keys.items@[j])@ == k;
                    assert(self.visited_keys.items@[j]@ == k);
                }
                if self.visited_keys.spec_contains(k) {
                    let j = choose|j: int|
                        0 <= j < self.visited_keys.items@.len() && (
                        #[trigger] self.visited_keys.items@[j])@ == k;
                    assert(r.visited_keys.items@[j]@ == k);
                }
            }
        }
        r
    }

    /// Looks a parameter up and records the key as consumed.
    pub fn get(&mut self, key: &str) -> (r: Option<&String>)
        requires
            old(self).wf(),
        ensures
            final(self).wf(),
            final(self).conns == old(self).conns,
            final(self).visited_keys.spec_contains(key@),
            forall|k: Seq<char>|
                k != key@ ==> #[trigger] final(self).visited_keys.spec_contains(k) == old(
                    self,
                ).visited_keys.spec_contains(k),
            r.is_some() == old(self).conns.spec_has_key(key@),
            r matches Option::Some(v) ==> v@ == old(self).conns.spec_get(key@),
    {
        self.visited_keys.insert(key.to_owned());
        self.conns.get(key)
    }

    /// Checks that every connection parameter was consumed: succeeds
    /// exactly when no key of `conns` is missing from the visited set.
    pub fn check(&self) -> (r: Result<(), ErrorCodes>)
        requires
            self.wf(),
        ensures
            r.is_ok() == (forall|i: int|
                0 <= i < self.conns.entries@.len() ==> self.visited_keys.spec_contains(
                    (#[trigger] self.conns.entries@[i]).0@,
                )),
            r matches Err(e) ==> e.spec_code() == 6,
    {
        let mut diffs: Vec<String> = Vec::new();
        let n = self.conns.len();
        for i in 0..n
            invariant
                n == self.conns.entries@.len(),
                self.wf(),
                diffs@.len() == 0 <==> (forall|j: int|
                    0 <= j < i ==> self.visited_keys.spec_contains(
                        (#[trigger] self.conns.entries@[j]).0@,
                    )),
        {
            let key = self.conns.key_at(i);
            if !self.visited_keys.contains(key.as_str()) {
                diffs.push(key.clone());
            }
        }
        if diffs.len() > 0 {
            let mut visited: Vec<String> = Vec::new();
            let nv = self.visited_keys.len();
            for i in 0..nv
                invariant
                    nv == self.visited_keys.items@.len(),
                    self.visited_keys.wf(),
            {
                visited.push(self.visited_keys.item_at(i).clone());
            }
            let mut msg = "connection params invalid: expected [".to_owned();
            msg.append(join_comma_exec(&visited).as_str());
            msg.append("], got [");
            msg.append(join_comma_exec(&diffs).as_str());
            msg.append("]");
            return Err(ErrorCodes::BadArguments(msg));
        }
        Ok(())
    }
}

/// An external location named by a URI, with its connection parameters.
pub struct UriLocation {
    pub protocol: String,
    pub name: String,
    pub path: String,
    pub part_prefix: String,
    pub connection: Connection,
}

/// The parts of a parsed URI, as plain values.
pub struct UrlParts {
    pub scheme: String,
    pub host: Option<String>,
    pub port: Option<u16>,
    pub path: String,
}

/// The ghost image of a parsed URI.
pub struct UrlPartsSpec {
    pub scheme: Seq<char>,
    pub host: Option<Seq<char>>,
    pub port: Option<u16>,
    pub path: Seq<char>,
}

pub uninterp spec fn url_parse_spec(s: Seq<char>) -> Option<UrlPartsSpec>;

/// Relies on `url::Url::parse` and its `scheme`, `host_str`, `port` and
/// `path` accessors: parsing depends on the input string alone, and the
/// named result collects what the accessors return on success.
#[verifier::external_body]
fn parse_url(s: &str) -> (r: Option<UrlParts>)
    ensures
        r.is_some() == url_parse_spec(s@).is_some(),
        r matches Option::Some(p) ==> url_parse_spec(s@) matches Option::Some(q) && p.scheme@
            == q.scheme && p.port == q.port && p.path@ == q.path && (match (p.host, q.host) {
            (Option::Some(a), Option::Some(b)) => a@ == b,
            (Option::None, Option::None) => true,
            _ => false,
        }),
{
    match url::Url::parse(s) {
        Ok(u) => Option::Some(
            UrlParts {
                scheme: u.scheme().to_string(),
                host: u.host_str().map(|h| h.to_string()),
                port: u.port(),
                path: u.path().to_string(),
            },
        ),
        Err(_) => Option::None,
    }
}

impl UriLocation {
    pub fn new(
        protocol: String,
        name: String,
        path: String,
        part_prefix: String,
        conns: StringMap,
    ) -> (r: UriLocation)
        requires
            conns.wf(),
        ensures
            r.protocol == protocol,
            r.name == name,
            r.path == path,
            r.part_prefix == part_prefix,
            r.connection.conns == conns,
            r.connection.visited_keys.items@.len() == 0,
            r.connection.wf(),
    {
        UriLocation { protocol, name, path, part_prefix, connection: Connection::new(conns) }
    }

    /// Parses a URI into a location. A `fs://` URI keeps its remainder as
    /// the path. Any other URI must parse and name a host; its name is the
    /// host, with `:port` appended when a port is given, and an empty path
    /// becomes `/`.
    pub fn from_uri(uri: String, part_prefix: String, conns: StringMap) -> (r: Result<
        UriLocation,
        ErrorCodes,
    >)
        requires
            conns.wf(),
        ensures
            ({
                let fs = "fs://"@;
                let is_fs = uri@.len() >= fs.len() && uri@.subrange(0, fs.len() as int) == fs;
                &&& is_fs ==> (r matches Ok(l) && l.protocol@ == "fs"@ && l.name@
                    == Seq::<char>::empty() && l.path@ == uri@.skip(fs.len() as int)
                    && l.part_prefix@ == part_prefix@ && l.connection.conns.entries@.len() == 0)
                &&& !is_fs ==> match url_parse_spec(uri@) {
                    Option::Some(q) => {
                        &&& q.host is Some ==> (r matches Ok(l) && {
                            &&& l.protocol@ == q.scheme
                            &&& l.name@ == (match q.port {
                                Option::Some(p) => q.host.unwrap() + ":"@ + dec_digits(p as nat),
                                Option::None => q.host.unwrap(),
                            })
                            &&& l.path@ == (if q.path.len() == 0 {
                                "/"@
                            } else {
                                q.path
                            })
                            &&& l.part_prefix@ == part_prefix@
                            &&& l.connection.conns == conns
                        })
                        &&& q.host is None ==> (r matches Err(e) && e.spec_code() == 6)
                    },
                    Option::None => r matches Err(e) && e.spec_code() == 6,
                }
            }),
    {
        if str_starts_with(uri.as_str(), "fs://") {
            proof {
                reveal_strlit("fs://");
                reveal_strlit("fs");
            }
            let rest = uri.as_str().substring_char(5, uri.as_str().unicode_len());
            proof {
                assert(rest@ =~= uri@.skip(5));
            }
            return Ok(
                UriLocation::new(
                    "fs".to_owned(),
                    String::new(),
                    rest.to_owned(),
                    part_prefix,
                    StringMap::new(),
                ),
            );
        }

        let parsed = match parse_url(uri.as_str()) {
            Option::Some(p) => p,
            Option::None => {
                return Err(ErrorCodes::BadArguments("invalid uri".to_owned()));
            },
        };

        let name = match parsed.host {
            Option::Some(hostname) => {
                match parsed.port {
                    Option::Some(port) => {
                        let mut s = hostname;
                        s.append(":");
                        s.append(u64_to_dec_string(port as u64).as_str());
                        s
                    },
                    Option::None => hostname,
                }
            },
            Option::None => {
                return Err(ErrorCodes::BadArguments("invalid uri".to_owned()));
            },
        };

        let path = if parsed.path.as_str().unicode_len() == 0 {
            "/".to_owned()
        } else {
            parsed.path
        };

        Ok(
            UriLocation {
                protocol: parsed.scheme,
                name,
                path,
                part_prefix,
                connection: Connection::new(conns),
            },
        )
    }
}

/// A location a COPY reads from or writes to: a named stage, or a URI.
pub enum FileLocation {
    Stage(String),
    Uri(UriLocation),
}

/// The rendering of the first `upto` map entries: `k = 'v'`, comma
/// separated.
pub open spec fn map_display_spec(entries: Seq<(String, String)>, upto: int) -> Seq<char>
    decreases upto,
{
    if upto <= 0 {
        Seq::empty()
    } else if upto == 1 {
        entries[0].0@ + " = '"@ + entries[0].1@ + "'"@
    } else {
        map_display_spec(entries, upto - 1) + ", "@ + entries[upto - 1].0@ + " = '"@ + entries[upto
            - 1].1@ + "'"@
    }
}

/// Renders a map's entries as `k = 'v'`, comma separated.
pub fn map_display(m: &StringMap) -> (r: String)
    ensures
        r@ == map_display_spec(m.entries@, m.entries@.len() as int),
{
    let mut out = String::new();
    let n = m.len();
    for i in 0..n
        invariant
            n == m.entries@.len(),
            out@ == map_display_spec(m.entries@, i as int),
    {
        if i > 0 {
            out.append(", ");
        }
        out.append(m.key_at(i).as_str());
        out.append(" = '");
        out.append(m.value_at(i).as_str());
        out.append("'");
        proof {
            assert(out@ =~= map_display_spec(m.entries@, i as int + 1));
        }
    }
    out
}

/// The rendering of the first `upto` strings as a quoted list: `'a', 'b'`.
pub open spec fn quoted_list_spec(items: Seq<String>, upto: int) -> Seq<char>
    decreases upto,
{
    if upto <= 0 {
        Seq::empty()
    } else if upto == 1 {
        "'"@ + items[0]@ + "'"@
    } else {
        quoted_list_spec(items, upto - 1) + ", "@ + "'"@ + items[upto - 1]@ + "'"@
    }
}

/// Renders strings as a quoted, comma-separated list.
pub fn quoted_list(items: &Vec<String>) -> (r: String)
    ensures
        r@ == quoted_list_spec(items@, items@.len() as int),
{
    let mut out = String::new();
    let n = items.len();
    for i in 0..n
        invariant
            n == items@.len(),
            out@ == quoted_list_spec(items@, i as int),
    {
        if i > 0 {
            out.append(", ");
        }
        out.append("'");
        out.append(items[i].as_str());
        out.append("'");
        proof {
            assert(out@ =~= quoted_list_spec(items@, i as int + 1));
        }
    }
    out
}

/// The rendering of the first `upto` identifiers, comma separated.
pub open spec fn idents_join_spec(items: Seq<Identifier>, upto: int) -> Seq<char>
    decreases upto,
{
    if upto <= 0 {
        Seq::empty()
    } else if upto == 1 {
        items[0].name@
    } else {
        idents_join_spec(items, upto - 1) + ","@ + items[upto - 1].name@
    }
}

/// Renders identifiers comma separated.
pub fn idents_join(items: &Vec<Identifier>) -> (r: String)
    ensures
        r@ == idents_join_spec(items@, items@.len() as int),
{
    let mut out = String::new();
    let n = items.len();
    for i in 0..n
        invariant
            n == items@.len(),
            out@ == idents_join_spec(items@, i as int),
    {
        if i > 0 {
            out.append(",");
        }
        out.append(items[i].name.as_str());
    }
    out
}

/// The rendering of a flag.
pub open spec fn bool_chars(b: bool) -> Seq<char> {
    if b {
        "true"@
    } else {
        "false"@
    }
}

/// Renders a flag.
pub fn bool_str(b: bool) -> (r: &'static str)
    ensures
        r@ == bool_chars(b),
{
    if b {
        "true"
    } else {
        "false"
    }
}

impl Connection {
    /// The rendering: nothing for an empty map, otherwise the connection
    /// clause with its entries.
    pub open spec fn display_spec(&self) -> Seq<char> {
        if self.conns.entries@.len() == 0 {
            Seq::empty()
        } else {
            " CONNECTION = ( "@ + map_display_spec(
                self.conns.entries@,
                self.conns.entries@.len() as int,
            ) + " )"@
        }
    }

    /// Renders the connection clause.
    pub fn display_string(&self) -> (r: String)
        ensures
            r@ == self.display_spec(),
    {
        if self.conns.is_empty() {
            let r = String::new();
            proof {
                assert(r@ =~= self.display_spec());
            }
            r
        } else {
            let mut s = " CONNECTION = ( ".to_owned();
            s.append(map_display(&self.conns).as_str());
            s.append(" )");
            proof {
                assert(s@ =~= self.display_spec());
            }
            s
        }
    }
}

/// The rendering of the first `upto` map entries with masked values.
pub open spec fn masked_map_display_spec(entries: Seq<(String, String)>, upto: int) -> Seq<char>
    decreases upto,
{
    if upto <= 0 {
        Seq::empty()
    } else if upto == 1 {
        entries[0].0@ + " = '"@ + mask_spec(entries[0].1@, 3) + "'"@
    } else {
        masked_map_display_spec(entries, upto - 1) + ", "@ + entries[upto - 1].0@ + " = '"@
            + mask_spec(entries[upto - 1].1@, 3) + "'"@
    }
}

/// Rendering entries whose values are the masks of another map's values is
/// the masked rendering of that map.
proof fn lemma_masked_map_display(
    masked: Seq<(String, String)>,
    plain: Seq<(String, String)>,
    upto: int,
)
    requires
        masked.len() == plain.len(),
        upto <= masked.len(),
        forall|i: int| 0 <= i < plain.len() ==> (#[trigger] masked[i]).0@ == plain[i].0@,
        forall|i: int|
            0 <= i < plain.len() ==> (#[trigger] masked[i]).1@ == mask_spec(plain[i].1@, 3),
    ensures
        map_display_spec(masked, upto) == masked_map_display_spec(plain, upto),
    decreases upto,
{
    if upto > 0 {
        lemma_masked_map_display(masked, plain, upto - 1);
    }
}

impl UriLocation {
    /// The rendering: the quoted URI, the optional location prefix, and
    /// the connection clause with every value masked.
    pub open spec fn display_spec(&self) -> Seq<char> {
        let uri = "'"@ + self.protocol@ + "://"@ + self.name@ + self.path@ + "'"@;
        let prefix = if self.part_prefix@.len() > 0 {
            " LOCATION_PREFIX = '"@ + self.part_prefix@ + "'"@
        } else {
            Seq::<char>::empty()
        };
        let masked = if self.connection.conns.entries@.len() == 0 {
            Seq::<char>::empty()
        } else {
            " CONNECTION = ( "@ + masked_map_display_spec(
                self.connection.conns.entries@,
                self.connection.conns.entries@.len() as int,
            ) + " )"@
        };
        uri + prefix + masked
    }

    /// Renders the location; secrets in the connection stay masked.
    pub fn display_string(&self) -> (r: String)
        requires
            self.connection.wf(),
        ensures
            r@ == self.display_spec(),
    {
        let mut s = "'".to_owned();
        s.append(self.protocol.as_str());
        s.append("://");
        s.append(self.name.as_str());
        s.append(self.path.as_str());
        s.append("'");
        if self.part_prefix.as_str().unicode_len() > 0 {
            s.append(" LOCATION_PREFIX = '");
            s.append(self.part_prefix.as_str());
            s.append("'");
        }
        let masked = self.connection.mask();
        proof {
            lemma_masked_map_display(
                masked.conns.entries@,
                self.connection.conns.entries@,
                self.connection.conns.entries@.len() as int,
            );
        }
        s.append(masked.display_string().as_str());
        proof {
            assert(s@ =~= self.display_spec());
        }
        s
    }
}

impl FileLocation {
    /// The rendering: a URI location as itself, a stage as `@stage`.
    pub open spec fn display_spec(&self) -> Seq<char> {
        match self {
            FileLocation::Uri(loc) => loc.display_spec(),
            FileLocation::Stage(loc) => "@"@ + loc@,
        }
    }

    /// Renders the location.
    pub fn display_string(&self) -> (r: String)
        requires
            self matches FileLocation::Uri(loc) ==> loc.connection.wf(),
        ensures
            r@ == self.display_spec(),
    {
        match self {
            FileLocation::Uri(loc) => loc.display_string(),
            FileLocation::Stage(loc) => {
                let mut s = "@".to_owned();
                s.append(loc.as_str());
                s
            },
        }
    }
}

impl CopyIntoTableSource {
    /// The rendering: a location as itself, a query in parentheses.
    pub open spec fn display_spec(&self) -> Seq<char> {
        match self {
            CopyIntoTableSource::Location(v) => v.display_spec(),
            CopyIntoTableSource::Query(query) => "("@ + query.text@ + ")"@,
        }
    }

    /// Renders the source.
    pub fn display_string(&self) -> (r: String)
        requires
            self matches CopyIntoTableSource::Location(FileLocation::Uri(loc))
                ==> loc.connection.wf(),
        ensures
            r@ == self.display_spec(),
    {
        match self {
            CopyIntoTableSource::Location(v) => v.display_string(),
            CopyIntoTableSource::Query(query) => {
                let mut s = "(".to_owned();
                s.append(query.text.as_str());
                s.append(")");
                s
            },
        }
    }
}

impl CopyIntoLocationSource {
    /// The rendering: a query in parentheses, a table as its identifier.
    pub open spec fn display_spec(&self) -> Seq<char> {
        match self {
            CopyIntoLocationSource::Query(query) => "("@ + query.text@ + ")"@,
            CopyIntoLocationSource::Table(table) => table.display_spec(),
        }
    }

    /// Renders the source.
    pub fn display_string(&self) -> (r: String)
        requires
            self matches CopyIntoLocationSource::Table(t) ==> (t.catalog.is_some()
                ==> t.database.is_some()),
        ensures
            r@ == self.display_spec(),
    {
        match self {
            CopyIntoLocationSource::Query(query) => {
                let mut s = "(".to_owned();
                s.append(query.text.as_str());
                s.append(")");
                s
            },
            CopyIntoLocationSource::Table(table) => table.display_string(),
        }
    }
}

impl CopyIntoTableStmt {
    /// The leading clauses of the rendering: the COPY head, hints,
    /// destination, destination columns, and source.
    pub open spec fn display_head_spec(&self) -> Seq<char> {
        "COPY"@ + (match self.hints {
            Option::Some(h) => h.text@ + " "@,
            Option::None => Seq::<char>::empty(),
        }) + " INTO "@ + self.dst.display_spec() + (match self.dst_columns {
            Option::Some(cols) => "("@ + idents_join_spec(cols@, cols@.len() as int) + ")"@,
            Option::None => Seq::<char>::empty(),
        }) + " FROM "@ + self.src.display_spec()
    }

    /// The files, pattern and file-format clauses of the rendering.
    pub open spec fn display_files_spec(&self) -> Seq<char> {
        (match self.files {
            Option::Some(fs) => " FILES = ("@ + quoted_list_spec(fs@, fs@.len() as int) + " )"@,
            Option::None => Seq::<char>::empty(),
        }) + (match self.pattern {
            Option::Some(p) => " PATTERN = '"@ + p@ + "'"@,
            Option::None => Seq::<char>::empty(),
        }) + (if self.file_format.entries@.len() > 0 {
            " FILE_FORMAT = ("@ + map_display_spec(
                self.file_format.entries@,
                self.file_format.entries@.len() as int,
            ) + ")"@
        } else {
            Seq::<char>::empty()
        })
    }

    /// The validation-mode and numeric-limit clauses of the rendering.
    pub open spec fn display_limits_spec(&self) -> Seq<char> {
        (if self.validation_mode@.len() > 0 {
            "VALIDATION_MODE = "@ + self.validation_mode@
        } else {
            Seq::<char>::empty()
        }) + (if self.size_limit != 0 {
            " SIZE_LIMIT = "@ + dec_digits(self.size_limit as nat)
        } else {
            Seq::<char>::empty()
        }) + (if self.max_files != 0 {
            " MAX_FILES = "@ + dec_digits(self.max_files as nat)
        } else {
            Seq::<char>::empty()
        }) + (if self.split_size != 0 {
            " SPLIT_SIZE = "@ + dec_digits(self.split_size as nat)
        } else {
            Seq::<char>::empty()
        })
    }

    /// The flag and error-mode clauses of the rendering.
    pub open spec fn display_flags_spec(&self) -> Seq<char> {
        " PURGE = "@ + bool_chars(self.purge) + " FORCE = "@ + bool_chars(self.force)
            + " DISABLE_VARIANT_CHECK = "@ + bool_chars(self.disable_variant_check)
            + " ON_ERROR = '"@ + self.on_error@ + "'"@
    }

    /// The full rendering of the statement, clause by clause in statement
    /// order; empty or zero-valued optional clauses are left out.
    pub open spec fn display_spec(&self) -> Seq<char> {
        self.display_head_spec() + self.display_files_spec() + self.display_limits_spec()
            + self.display_flags_spec()
    }

    /// Renders the statement's leading clauses.
    fn display_head(&self) -> (r: String)
        requires
            self.dst.catalog.is_some() ==> self.dst.database.is_some(),
            self.src matches CopyIntoTableSource::Location(FileLocation::Uri(loc))
                ==> loc.connection.wf(),
        ensures
            r@ == self.display_head_spec(),
    {
        let mut s = "COPY".to_owned();
        match &self.hints {
            Option::Some(hints) => {
                s.append(hints.text.as_str());
                s.append(" ");
            },
            Option::None => {},
        }
        s.append(" INTO ");
        s.append(self.dst.display_string().as_str());
        match &self.dst_columns {
            Option::Some(columns) => {
                s.append("(");
                s.append(idents_join(columns).as_str());
                s.append(")");
            },
            Option::None => {},
        }
        s.append(" FROM ");
        s.append(self.src.display_string().as_str());
        proof {
            assert(s@ =~= self.display_head_spec());
        }
        s
    }

    /// Renders the files, pattern and file-format clauses.
    fn display_files(&self) -> (r: String)
        ensures
            r@ == self.display_files_spec(),
    {
        let mut s = String::new();
        match &self.files {
            Option::Some(files) => {
                s.append(" FILES = (");
                s.append(quoted_list(files).as_str());
                s.append(" )");
            },
            Option::None => {},
        }
        match &self.pattern {
            Option::Some(pattern) => {
                s.append(" PATTERN = '");
                s.append(pattern.as_str());
                s.append("'");
            },
            Option::None => {},
        }
        if !self.file_format.is_empty() {
            s.append(" FILE_FORMAT = (");
            s.append(map_display(&self.file_format).as_str());
            s.append(")");
        }
        proof {
            assert(s@ =~= self.display_files_spec());
        }
        s
    }

    /// Renders the validation-mode and numeric-limit clauses.
    fn display_limits(&self) -> (r: String)
        ensures
            r@ == self.display_limits_spec(),
    {
        let mut s = String::new();
        if self.validation_mode.as_str().unicode_len() > 0 {
            s.append("VALIDATION_MODE = ");
            s.append(self.validation_mode.as_str());
        }
        if self.size_limit != 0 {
            s.append(" SIZE_LIMIT = ");
            s.append(u64_to_dec_string(self.size_limit as u64).as_str());
        }
        if self.max_files != 0 {
            s.append(" MAX_FILES = ");
            s.append(u64_to_dec_string(self.max_files as u64).as_str());
        }
        if self.split_size != 0 {
            s.append(" SPLIT_SIZE = ");
            s.append(u64_to_dec_string(self.split_size as u64).as_str());
        }
        proof {
            assert(s@ =~= self.display_limits_spec());
        }
        s
    }

    /// Renders the flag and error-mode clauses.
    fn display_flags(&self) -> (r: String)
        ensures
            r@ == self.display_flags_spec(),
    {
        let mut s = String::new();
        s.append(" PURGE = ");
        s.append(bool_str(self.purge));
        s.append(" FORCE = ");
        s.append(bool_str(self.force));
        s.append(" DISABLE_VARIANT_CHECK = ");
        s.append(bool_str(self.disable_variant_check));
        s.append(" ON_ERROR = '");
        s.append(self.on_error.as_str());
        s.append("'");
        proof {
            assert(s@ =~= self.display_flags_spec());
        }
        s
    }

    /// Renders the statement.
    pub fn display_string(&self) -> (r: String)
        requires
            self.dst.catalog.is_some() ==> self.dst.database.is_some(),
            self.src matches CopyIntoTableSource::Location(FileLocation::Uri(loc))
                ==> loc.connection.wf(),
        ensures
            r@ == self.display_spec(),
    {
        let mut s = self.display_head();
        s.append(self.display_files().as_str());
        s.append(self.display_limits().as_str());
        s.append(self.display_flags().as_str());
        proof {
            assert(s@ =~= self.display_spec());
        }
        s
    }
}

impl CopyIntoLocationStmt {
    /// The full rendering of the statement, clause by clause in statement
    /// order.
    pub open spec fn display_spec(&self) -> Seq<char> {
        let head = "COPY"@ + (match self.hints {
            Option::Some(h) => h.text@ + " "@,
            Option::None => Seq::<char>::empty(),
        }) + " INTO "@ + self.dst.display_spec() + " FROM "@ + self.src.display_spec();
        let format = if self.file_format.entries@.len() > 0 {
            " FILE_FORMAT = ("@ + map_display_spec(
                self.file_format.entries@,
                self.file_format.entries@.len() as int,
            ) + ")"@
        } else {
            Seq::<char>::empty()
        };
        head + format + " SINGLE = "@ + bool_chars(self.single) + " MAX_FILE_SIZE= "@ + dec_digits(
            self.max_file_size as nat,
        )
    }

    /// Renders the statement.
    pub fn display_string(&self) -> (r: String)
        requires
            self.dst matches FileLocation::Uri(loc) ==> loc.connection.wf(),
            self.src matches CopyIntoLocationSource::Table(t) ==> (t.catalog.is_some()
                ==> t.database.is_some()),
        ensures
            r@ == self.display_spec(),
    {
        let mut s = "COPY".to_owned();
        match &self.hints {
            Option::Some(hints) => {
                s.append(hints.text.as_str());
                s.append(" ");
            },
            Option::None => {},
        }
        s.append(" INTO ");
        s.append(self.dst.display_string().as_str());
        s.append(" FROM ");
        s.append(self.src.display_string().as_str());

        if !self.file_format.is_empty() {
            s.append(" FILE_FORMAT = (");
            s.append(map_display(&self.file_format).as_str());
            s.append(")");
        }
        s.append(" SINGLE = ");
        s.append(bool_str(self.single));
        s.append(" MAX_FILE_SIZE= ");
        s.append(u64_to_dec_string(self.max_file_size as u64).as_str());
        proof {
            assert(s@ =~= self.display_spec());
        }
        s
    }
}

} // verus!
