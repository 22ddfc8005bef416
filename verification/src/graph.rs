//! The code graph: its records, their mathematical models, content
//! hashing, entry-point classification and timestamps.

use crate::ordered::clone_strings;
use crate::str_map::StrMap;
use crate::text::{chars_of, owned, push_str, str_eq, string_of};
use crate::traverser::{file_stem, file_stem_of, lowercase, to_lowercase};
use vstd::prelude::*;

verus! {

// ---------------------------------------------------------------------------
// Records
// ---------------------------------------------------------------------------

/// A function of an indexed file.
#[derive(Debug)]
pub struct FunctionInfo {
    pub name: String,
    pub signature: String,
    pub start_line: u32,
    pub end_line: u32,
}

/// The model of a `FunctionInfo`.
pub struct FunctionInfoModel {
    pub name: Seq<char>,
    pub signature: Seq<char>,
    pub start_line: u32,
    pub end_line: u32,
}

impl DeepView for FunctionInfo {
    type V = FunctionInfoModel;

    open spec fn deep_view(&self) -> FunctionInfoModel {
        FunctionInfoModel {
            name: self.name@,
            signature: self.signature@,
            start_line: self.start_line,
            end_line: self.end_line,
        }
    }
}

impl Clone for FunctionInfo {
    fn clone(&self) -> (r: Self)
        ensures
            r.deep_view() == self.deep_view(),
    {
        FunctionInfo {
            name: self.name.clone(),
            signature: self.signature.clone(),
            start_line: self.start_line,
            end_line: self.end_line,
        }
    }
}

/// An import of an indexed file.
#[derive(Debug)]
pub struct ImportInfo {
    pub source: String,
    pub symbols: Vec<String>,
    pub is_external: bool,
}

/// The model of an `ImportInfo`.
pub struct ImportInfoModel {
    pub source: Seq<char>,
    pub symbols: Seq<Seq<char>>,
    pub is_external: bool,
}

impl DeepView for ImportInfo {
    type V = ImportInfoModel;

    open spec fn deep_view(&self) -> ImportInfoModel {
        ImportInfoModel {
            source: self.source@,
            symbols: self.symbols.deep_view(),
            is_external: self.is_external,
        }
    }
}

impl Clone for ImportInfo {
    fn clone(&self) -> (r: Self)
        ensures
            r.deep_view() == self.deep_view(),
    {
        ImportInfo {
            source: self.source.clone(),
            symbols: clone_strings(&self.symbols),
            is_external: self.is_external,
        }
    }
}

/// A class or struct of an indexed file.
#[derive(Debug)]
pub struct ClassInfo {
    pub name: String,
    pub start_line: u32,
    pub end_line: u32,
}

/// The model of a `ClassInfo`.
pub struct ClassInfoModel {
    pub name: Seq<char>,
    pub start_line: u32,
    pub end_line: u32,
}

impl DeepView for ClassInfo {
    type V = ClassInfoModel;

    open spec fn deep_view(&self) -> ClassInfoModel {
        ClassInfoModel { name: self.name@, start_line: self.start_line, end_line: self.end_line }
    }
}

impl Clone for ClassInfo {
    fn clone(&self) -> (r: Self)
        ensures
            r.deep_view() == self.deep_view(),
    {
        ClassInfo {
            name: self.name.clone(),
            start_line: self.start_line,
            end_line: self.end_line,
        }
    }
}

/// A named type of an indexed file, with the kind of declaration.
#[derive(Debug)]
pub struct TypeInfo {
    pub name: String,
    pub kind: String,
    pub start_line: u32,
    pub end_line: u32,
}

/// The model of a `TypeInfo`.
pub struct TypeInfoModel {
    pub name: Seq<char>,
    pub kind: Seq<char>,
    pub start_line: u32,
    pub end_line: u32,
}

impl DeepView for TypeInfo {
    type V = TypeInfoModel;

    open spec fn deep_view(&self) -> TypeInfoModel {
        TypeInfoModel {
            name: self.name@,
            kind: self.kind@,
            start_line: self.start_line,
            end_line: self.end_line,
        }
    }
}

impl Clone for TypeInfo {
    fn clone(&self) -> (r: Self)
        ensures
            r.deep_view() == self.deep_view(),
    {
        TypeInfo {
            name: self.name.clone(),
            kind: self.kind.clone(),
            start_line: self.start_line,
            end_line: self.end_line,
        }
    }
}

/// The full record of one indexed file.
#[derive(Debug)]
pub struct FileEntry {
    pub language: String,
    pub module: String,
    pub hash: String,
    pub lines: u32,
    pub functions: Vec<FunctionInfo>,
    pub classes: Vec<ClassInfo>,
    pub types: Vec<TypeInfo>,
    pub imports: Vec<ImportInfo>,
    pub exports: Vec<String>,
    pub is_entry_point: bool,
}

/// The model of a `FileEntry`.
pub struct FileEntryModel {
    pub language: Seq<char>,
    pub module: Seq<char>,
    pub hash: Seq<char>,
    pub lines: u32,
    pub functions: Seq<FunctionInfoModel>,
    pub classes: Seq<ClassInfoModel>,
    pub types: Seq<TypeInfoModel>,
    pub imports: Seq<ImportInfoModel>,
    pub exports: Seq<Seq<char>>,
    pub is_entry_point: bool,
}

impl DeepView for FileEntry {
    type V = FileEntryModel;

    open spec fn deep_view(&self) -> FileEntryModel {
        FileEntryModel {
            language: self.language@,
            module: self.module@,
            hash: self.hash@,
            lines: self.lines,
            functions: self.functions.deep_view(),
            classes: self.classes.deep_view(),
            types: self.types.deep_view(),
            imports: self.imports.deep_view(),
            exports: self.exports.deep_view(),
            is_entry_point: self.is_entry_point,
        }
    }
}

/// A copy of a vector of functions.
pub fn clone_functions(v: &Vec<FunctionInfo>) -> (out: Vec<FunctionInfo>)
    ensures
        out.deep_view() == v.deep_view(),
{
    let mut out: Vec<FunctionInfo> = Vec::new();
    let mut i: usize = 0;
    while i < v.len()
        invariant
            i <= v.len(),
            out.deep_view() == v.deep_view().take(i as int),
        decreases v.len() - i,
    {
        let ghost before = out.deep_view();
        let x = v[i].clone();
        out.push(x);
        proof {
            assert(out.deep_view() =~= before.push(v@[i as int].deep_view()));
            assert(v.deep_view().take(i + 1) =~= before.push(v@[i as int].deep_view()));
        }
        i += 1;
    }
    proof {
        assert(v.deep_view().take(v@.len() as int) =~= v.deep_view());
    }
    out
}

/// A copy of a vector of classes.
pub fn clone_classes(v: &Vec<ClassInfo>) -> (out: Vec<ClassInfo>)
    ensures
        out.deep_view() == v.deep_view(),
{
    let mut out: Vec<ClassInfo> = Vec::new();
    let mut i: usize = 0;
    while i < v.len()
        invariant
            i <= v.len(),
            out.deep_view() == v.deep_view().take(i as int),
        decreases v.len() - i,
    {
        let ghost before = out.deep_view();
        let x = v[i].clone();
        out.push(x);
        proof {
            assert(out.deep_view() =~= before.push(v@[i as int].deep_view()));
            assert(v.deep_view().take(i + 1) =~= before.push(v@[i as int].deep_view()));
        }
        i += 1;
    }
    proof {
        assert(v.deep_view().take(v@.len() as int) =~= v.deep_view());
    }
    out
}

/// A copy of a vector of types.
pub fn clone_types(v: &Vec<TypeInfo>) -> (out: Vec<TypeInfo>)
    ensures
        out.deep_view() == v.deep_view(),
{
    let mut out: Vec<TypeInfo> = Vec::new();
    let mut i: usize = 0;
    while i < v.len()
        invariant
            i <= v.len(),
            out.deep_view() == v.deep_view().take(i as int),
        decreases v.len() - i,
    {
        let ghost before = out.deep_view();
        let x = v[i].clone();
        out.push(x);
        proof {
            assert(out.deep_view() =~= before.push(v@[i as int].deep_view()));
            assert(v.deep_view().take(i + 1) =~= before.push(v@[i as int].deep_view()));
        }
        i += 1;
    }
    proof {
        assert(v.deep_view().take(v@.len() as int) =~= v.deep_view());
    }
    out
}

/// A copy of a vector of imports.
pub fn clone_imports(v: &Vec<ImportInfo>) -> (out: Vec<ImportInfo>)
    ensures
        out.deep_view() == v.deep_view(),
{
    let mut out: Vec<ImportInfo> = Vec::new();
    let mut i: usize = 0;
    while i < v.len()
        invariant
            i <= v.len(),
            out.deep_view() == v.deep_view().take(i as int),
        decreases v.len() - i,
    {
        let ghost before = out.deep_view();
        let x = v[i].clone();
        out.push(x);
        proof {
            assert(out.deep_view() =~= before.push(v@[i as int].deep_view()));
            assert(v.deep_view().take(i + 1) =~= before.push(v@[i as int].deep_view()));
        }
        i += 1;
    }
    proof {
        assert(v.deep_view().take(v@.len() as int) =~= v.deep_view());
    }
    out
}

impl Clone for FileEntry {
    fn clone(&self) -> (r: Self)
        ensures
            r.deep_view() == self.deep_view(),
    {
        FileEntry {
            language: self.language.clone(),
            module: self.module.clone(),
            hash: self.hash.clone(),
            lines: self.lines,
            functions: clone_functions(&self.functions),
            classes: clone_classes(&self.classes),
            types: clone_types(&self.types),
            imports: clone_imports(&self.imports),
            exports: clone_strings(&self.exports),
            is_entry_point: self.is_entry_point,
        }
    }
}

/// A module: its files and its edges to other modules.
#[derive(Debug)]
pub struct ModuleEntry {
    pub files: Vec<String>,
    pub depends_on: Vec<String>,
    pub depended_by: Vec<String>,
}

/// The model of a `ModuleEntry`.
pub struct ModuleEntryModel {
    pub files: Seq<Seq<char>>,
    pub depends_on: Seq<Seq<char>>,
    pub depended_by: Seq<Seq<char>>,
}

impl DeepView for ModuleEntry {
    type V = ModuleEntryModel;

    open spec fn deep_view(&self) -> ModuleEntryModel {
        ModuleEntryModel {
            files: self.files.deep_view(),
            depends_on: self.depends_on.deep_view(),
            depended_by: self.depended_by.deep_view(),
        }
    }
}

impl Clone for ModuleEntry {
    fn clone(&self) -> (r: Self)
        ensures
            r.deep_view() == self.deep_view(),
    {
        ModuleEntry {
            files: clone_strings(&self.files),
            depends_on: clone_strings(&self.depends_on),
            depended_by: clone_strings(&self.depended_by),
        }
    }
}

/// The project a graph describes.
#[derive(Debug)]
pub struct ProjectInfo {
    pub name: String,
    pub root: String,
}

impl Clone for ProjectInfo {
    fn clone(&self) -> (r: Self)
        ensures
            r.name@ == self.name@,
            r.root@ == self.root@,
    {
        ProjectInfo { name: self.name.clone(), root: self.root.clone() }
    }
}

/// The aggregates of a graph.
#[derive(Debug)]
pub struct GraphSummary {
    pub total_files: u32,
    pub total_functions: u32,
    pub total_classes: u32,
    pub languages: StrMap<u32>,
    pub modules: Vec<String>,
    pub entry_points: Vec<String>,
}

/// The configuration a graph was built with.
#[derive(Debug)]
pub struct GraphConfig {
    pub languages: Vec<String>,
    pub exclude_patterns: Vec<String>,
}

/// The top-level aggregate.
#[derive(Debug)]
pub struct CodeGraph {
    pub version: String,
    pub project: ProjectInfo,
    pub scanned_at: String,
    pub commit_hash: Option<String>,
    pub config: GraphConfig,
    pub summary: GraphSummary,
    pub modules: StrMap<ModuleEntry>,
    pub files: StrMap<FileEntry>,
}

/// The record kept beside the graph: when it was made and the hash of
/// every file it covers.
#[derive(Debug)]
pub struct MetaInfo {
    pub last_scan_at: String,
    pub commit_hash: Option<String>,
    pub scan_duration: u64,
    pub file_hashes: StrMap<String>,
}

// ---------------------------------------------------------------------------
// Content hashes
// ---------------------------------------------------------------------------

/// The SHA-256 digest of a byte sequence.
pub uninterp spec fn sha256(data: Seq<u8>) -> Seq<u8>;

/// Computes the SHA-256 digest. Trusted: `sha2::Sha256::digest` is a
/// function of the data alone, and its output has 32 bytes.
#[verifier::external_body]
pub(crate) fn sha256_digest(data: &[u8]) -> (out: Vec<u8>)
    ensures
        out@ == sha256(data@),
        out@.len() == 32,
{
    <sha2::Sha256 as sha2::Digest>::digest(data).to_vec()
}

/// The lower-case hexadecimal digit of a value below 16.
pub open spec fn hex_digit(v: u8) -> char {
    if v < 10 {
        ((48 + v) as u8) as char
    } else {
        ((87 + v) as u8) as char
    }
}

/// The two lower-case hexadecimal digits of every byte, in order.
pub open spec fn hex_of(bytes: Seq<u8>) -> Seq<char>
    decreases bytes.len(),
{
    if bytes.len() == 0 {
        Seq::empty()
    } else {
        hex_of(bytes.drop_last()).push(hex_digit(bytes.last() / 16)).push(
            hex_digit(bytes.last() % 16),
        )
    }
}

/// The lower-case hexadecimal digit of a value below 16.
fn hex_char(v: u8) -> (c: char)
    requires
        v < 16,
    ensures
        c == hex_digit(v),
{
    if v < 10 {
        (48u8 + v) as char
    } else {
        (87u8 + v) as char
    }
}

/// Appends the hexadecimal digits of the first `n` bytes.
fn push_hex(out: &mut Vec<char>, bytes: &Vec<u8>, n: usize)
    requires
        n <= bytes.len(),
    ensures
        final(out)@ == old(out)@ + hex_of(bytes@.take(n as int)),
{
    let ghost base = out@;
    let mut i: usize = 0;
    proof {
        assert(bytes@.take(0) =~= Seq::<u8>::empty());
        assert(out@ =~= base + hex_of(bytes@.take(0)));
    }
    while i < n
        invariant
            i <= n <= bytes.len(),
            out@ == base + hex_of(bytes@.take(i as int)),
        decreases n - i,
    {
        let b = bytes[i];
        let ghost before = out@;
        out.push(hex_char(b / 16));
        out.push(hex_char(b % 16));
        proof {
            let next = bytes@.take(i + 1);
            assert(next.drop_last() =~= bytes@.take(i as int));
            assert(next.last() == b);
            assert(out@ =~= before.push(hex_digit(b / 16)).push(hex_digit(b % 16)));
            assert(out@ =~= base + hex_of(next));
        }
        i += 1;
    }
}

/// The hexadecimal digits of every byte.
pub fn hex_encode(bytes: &Vec<u8>) -> (out: String)
    ensures
        out@ == hex_of(bytes@),
{
    let mut buf: Vec<char> = Vec::new();
    push_hex(&mut buf, bytes, bytes.len());
    proof {
        assert(bytes@.take(bytes@.len() as int) =~= bytes@);
    }
    string_of(&buf)
}

/// The content hash of a file: `sha256:` and the hexadecimal digits of
/// the first 8 bytes of its SHA-256 digest.
pub open spec fn file_hash(content: Seq<u8>) -> Seq<char> {
    "sha256:"@ + hex_of(sha256(content).take(8))
}

/// Computes the content hash of a file.
pub fn compute_file_hash(content: &[u8]) -> (hash: String)
    ensures
        hash@ == file_hash(content@),
{
    let digest = sha256_digest(content);
    let mut buf = chars_of("sha256:");
    push_hex(&mut buf, &digest, 8);
    string_of(&buf)
}

// ---------------------------------------------------------------------------
// Entry points
// ---------------------------------------------------------------------------

/// Whether a lower-case file stem marks an entry point.
pub open spec fn is_entry_name(stem: Seq<char>) -> bool {
    stem == "main"@ || stem == "index"@ || stem == "server"@ || stem == "app"@ || stem
        == "entry"@ || stem == "bootstrap"@
}

/// Tests whether a lower-case file stem marks an entry point.
pub fn entry_name(stem: &str) -> (r: bool)
    ensures
        r == is_entry_name(stem@),
{
    str_eq(stem, "main") || str_eq(stem, "index") || str_eq(stem, "server") || str_eq(stem, "app")
        || str_eq(stem, "entry") || str_eq(stem, "bootstrap")
}

/// Whether a file is an entry point: its name without extension, in
/// lower case, is one of the entry names.
pub fn is_entry_point(file_path: &str) -> (r: bool)
    ensures
        r == is_entry_name(lowercase(file_stem_of(file_path@))),
{
    let stem = file_stem(file_path);
    let lower = to_lowercase(stem.as_str());
    entry_name(lower.as_str())
}

// ---------------------------------------------------------------------------
// Timestamps
// ---------------------------------------------------------------------------

/// Whether a year of the Gregorian calendar is a leap year.
pub open spec fn is_leap_spec(year: int) -> bool {
    (year % 4 == 0 && year % 100 != 0) || year % 400 == 0
}

/// Whether a year of the Gregorian calendar is a leap year.
pub fn is_leap(year: u64) -> (r: bool)
    ensures
        r == is_leap_spec(year as int),
{
    (year % 4 == 0 && year % 100 != 0) || year % 400 == 0
}

/// The number of days of a year.
pub open spec fn year_len(year: int) -> int {
    if is_leap_spec(year) {
        366
    } else {
        365
    }
}

/// The number of days of a month, counted from 1.
pub open spec fn month_len(year: int, month: int) -> int {
    if month == 2 {
        if is_leap_spec(year) {
            29
        } else {
            28
        }
    } else if month == 4 || month == 6 || month == 9 || month == 11 {
        30
    } else {
        31
    }
}

/// The year in which day `days` lies, counted from the first day of
/// `year`, and the day of that year, counted from 0.
pub open spec fn year_of(days: int, year: int) -> (int, int)
    decreases days,
{
    if days < 0 || days < year_len(year) {
        (year, days)
    } else {
        year_of(days - year_len(year), year + 1)
    }
}

/// The month in which day `days` lies, counted from the first day of
/// `month`, and the day of that month, counted from 0.
pub open spec fn month_of(days: int, year: int, month: int) -> (int, int)
    decreases 12 - month,
{
    if month >= 12 || days < month_len(year, month) {
        (month, days)
    } else {
        month_of(days - month_len(year, month), year, month + 1)
    }
}

/// The date and time of day at `secs` seconds after the start of 1970,
/// in UTC.
pub struct DateTime {
    pub year: int,
    pub month: int,
    pub day: int,
    pub hour: int,
    pub minute: int,
    pub second: int,
}

/// The date and time of day at `secs` seconds after the start of 1970.
pub open spec fn datetime_of(secs: int) -> DateTime {
    let days = secs / 86400;
    let y = year_of(days, 1970);
    let m = month_of(y.1, y.0, 1);
    DateTime {
        year: y.0,
        month: m.0,
        day: m.1 + 1,
        hour: (secs / 3600) % 24,
        minute: (secs / 60) % 60,
        second: secs % 60,
    }
}

/// The number of days of a year.
fn days_in_year(year: u64) -> (n: u64)
    ensures
        n == year_len(year as int),
        365 <= n <= 366,
{
    if is_leap(year) {
        366
    } else {
        365
    }
}

/// The number of days of a month.
fn days_in_month(year: u64, month: u64) -> (n: u64)
    ensures
        n == month_len(year as int, month as int),
        28 <= n <= 31,
{
    if month == 2 {
        if is_leap(year) {
            29
        } else {
            28
        }
    } else if month == 4 || month == 6 || month == 9 || month == 11 {
        30
    } else {
        31
    }
}

/// The date and time of day at `secs` seconds after the start of 1970:
/// year, month, day, hour, minute, second.
pub fn unix_to_datetime(secs: u64) -> (r: (u64, u64, u64, u64, u64, u64))
    ensures
        r.0 == datetime_of(secs as int).year,
        r.1 == datetime_of(secs as int).month,
        r.2 == datetime_of(secs as int).day,
        r.3 == datetime_of(secs as int).hour,
        r.4 == datetime_of(secs as int).minute,
        r.5 == datetime_of(secs as int).second,
        1 <= r.1 <= 12,
        r.3 < 24 && r.4 < 60 && r.5 < 60,
{
    let s = secs % 60;
    let total_min = secs / 60;
    let mi = total_min % 60;
    let total_hours = total_min / 60;
    let h = total_hours % 24;
    let total_days = total_hours / 24;
    proof {
        assert(total_hours == secs as int / 3600) by (nonlinear_arith)
            requires
                total_min == secs as int / 60,
                total_hours == total_min as int / 60,
                secs >= 0,
        ;
        assert(total_days == secs as int / 86400) by (nonlinear_arith)
            requires
                total_hours == secs as int / 3600,
                total_days == total_hours as int / 24,
                secs >= 0,
        ;
    }
    let mut year: u64 = 1970;
    let mut days: u64 = total_days;
    while days >= days_in_year(year)
        invariant
            1970 <= year,
            year + days <= 1970 + total_days,
            total_days <= u64::MAX / 86400,
            year_of(total_days as int, 1970) == year_of(days as int, year as int),
        decreases days,
    {
        days -= days_in_year(year);
        year += 1;
    }
    let ghost day_of_year = days;
    let mut month: u64 = 1;
    while month < 12 && days >= days_in_month(year, month)
        invariant
            1 <= month <= 12,
            days <= u64::MAX / 86400,
            month_of(day_of_year as int, year as int, 1) == month_of(
                days as int,
                year as int,
                month as int,
            ),
        decreases 12 - month,
    {
        days -= days_in_month(year, month);
        month += 1;
    }
    (year, month, days + 1, h, mi, s)
}

/// The decimal digits of a number.
pub open spec fn decimal(n: nat) -> Seq<char>
    decreases n,
{
    if n < 10 {
        seq![((48 + n) as u8) as char]
    } else {
        decimal(n / 10).push(((48 + n % 10) as u8) as char)
    }
}

/// `count` zeros.
pub open spec fn zeros(count: int) -> Seq<char> {
    Seq::new(
        if count < 0 {
            0nat
        } else {
            count as nat
        },
        |i: int| '0',
    )
}

/// The decimal digits of a number, with zeros before them up to
/// `width` characters.
pub open spec fn padded(n: nat, width: int) -> Seq<char> {
    zeros(width - decimal(n).len()) + decimal(n)
}

/// The decimal digits of a number.
pub fn decimal_digits(n: u64) -> (out: Vec<char>)
    ensures
        out@ == decimal(n as nat),
    decreases n,
{
    if n < 10 {
        let d: u8 = n as u8;
        let out: Vec<char> = vec![(48u8 + d) as char];
        proof {
            assert(out@ =~= decimal(n as nat));
        }
        out
    } else {
        let mut out = decimal_digits(n / 10);
        let d: u8 = (n % 10) as u8;
        out.push((48u8 + d) as char);
        out
    }
}

/// Appends a number in decimal, padded with zeros to `width`.
fn push_padded(out: &mut Vec<char>, n: u64, width: usize)
    ensures
        final(out)@ == old(out)@ + padded(n as nat, width as int),
{
    let ghost base = out@;
    let digits = decimal_digits(n);
    let mut k: usize = digits.len();
    proof {
        assert(out@ =~= base + zeros(0));
    }
    while k < width
        invariant
            digits.len() <= k,
            k == digits.len() || k <= width,
            out@ == base + zeros(k - digits.len()),
        decreases width - k,
    {
        let ghost before = out@;
        out.push('0');
        proof {
            assert(out@ =~= base + zeros(k + 1 - digits.len()));
        }
        k += 1;
    }
    let ghost mid = out@;
    let mut j: usize = 0;
    while j < digits.len()
        invariant
            j <= digits.len(),
            out@ == mid + digits@.take(j as int),
        decreases digits.len() - j,
    {
        out.push(digits[j]);
        proof {
            assert(out@ =~= mid + digits@.take(j + 1));
        }
        j += 1;
    }
    proof {
        assert(digits@.take(digits@.len() as int) =~= digits@);
        assert(zeros(k - digits.len()) =~= zeros(width - decimal(n as nat).len()));
        assert(out@ =~= base + padded(n as nat, width as int));
    }
}

/// The ISO-8601 timestamp of `secs` seconds after the start of 1970, in
/// UTC with milliseconds: `YYYY-MM-DDTHH:MM:SS.000Z`.
pub open spec fn timestamp(secs: int) -> Seq<char> {
    let t = datetime_of(secs);
    padded(t.year as nat, 4) + "-"@ + padded(t.month as nat, 2) + "-"@ + padded(t.day as nat, 2)
        + "T"@ + padded(t.hour as nat, 2) + ":"@ + padded(t.minute as nat, 2) + ":"@ + padded(
        t.second as nat,
        2,
    ) + ".000Z"@
}

/// Formats a count of seconds since the start of 1970 as a timestamp.
pub fn format_timestamp(secs: u64) -> (out: String)
    ensures
        out@ == timestamp(secs as int),
{
    let (y, mo, d, h, mi, s) = unix_to_datetime(secs);
    let mut buf: Vec<char> = Vec::new();
    push_padded(&mut buf, y, 4);
    push_str(&mut buf, "-");
    push_padded(&mut buf, mo, 2);
    push_str(&mut buf, "-");
    push_padded(&mut buf, d, 2);
    push_str(&mut buf, "T");
    push_padded(&mut buf, h, 2);
    push_str(&mut buf, ":");
    push_padded(&mut buf, mi, 2);
    push_str(&mut buf, ":");
    push_padded(&mut buf, s, 2);
    push_str(&mut buf, ".000Z");
    proof {
        assert(buf@ =~= timestamp(secs as int));
    }
    string_of(&buf)
}

/// A point in time of the system clock, `std::time::SystemTime`.
#[verifier::external_type_specification]
#[verifier::external_body]
pub struct ExSystemTime(std::time::SystemTime);

/// `std::time::SystemTime::now`: the time on the system clock. Nothing
/// is claimed of it.
#[verifier::external_body]
pub(crate) fn system_now() -> std::time::SystemTime {
    std::time::SystemTime::now()
}

/// `std::time::SystemTime::duration_since` the start of 1970; nothing
/// where the time lies before it.
#[verifier::external_body]
pub(crate) fn since_epoch(time: &std::time::SystemTime) -> Option<std::time::Duration> {
    time.duration_since(std::time::UNIX_EPOCH).ok()
}

/// `std::time::Duration::as_secs`: the whole seconds of a duration.
#[verifier::external_body]
pub(crate) fn whole_seconds(duration: &std::time::Duration) -> u64 {
    duration.as_secs()
}

/// The current time as a timestamp. A clock that stands before 1970
/// counts as standing at its start.
pub fn chrono_now() -> (out: String)
    ensures
        exists|secs: u64| out@ == timestamp(secs as int),
{
    let now = system_now();
    let secs: u64 = match since_epoch(&now) {
        Some(d) => whole_seconds(&d),
        None => 0,
    };
    format_timestamp(secs)
}

// ---------------------------------------------------------------------------
// The empty graph
// ---------------------------------------------------------------------------

/// Whether a graph is the empty graph of a project: version `1.0`, no
/// commit, nothing configured, no modules, no files, every count zero.
pub open spec fn is_empty_graph(g: CodeGraph, project_name: Seq<char>, root_dir: Seq<char>) -> bool {
    &&& g.version@ == "1.0"@
    &&& g.project.name@ == project_name
    &&& g.project.root@ == root_dir
    &&& g.commit_hash.is_none()
    &&& g.config.languages@.len() == 0
    &&& g.config.exclude_patterns@.len() == 0
    &&& g.summary.total_files == 0
    &&& g.summary.total_functions == 0
    &&& g.summary.total_classes == 0
    &&& g.summary.languages.keys().len() == 0
    &&& g.summary.modules@.len() == 0
    &&& g.summary.entry_points@.len() == 0
    &&& g.modules.keys().len() == 0
    &&& g.modules.values().len() == 0
    &&& g.files.keys().len() == 0
    &&& g.files.values().len() == 0
}

/// The empty graph of a project, stamped with `scanned_at`.
pub fn empty_graph_at(project_name: &str, root_dir: &str, scanned_at: String) -> (g: CodeGraph)
    ensures
        is_empty_graph(g, project_name@, root_dir@),
        g.scanned_at == scanned_at,
{
    CodeGraph {
        version: owned("1.0"),
        project: ProjectInfo { name: owned(project_name), root: owned(root_dir) },
        scanned_at,
        commit_hash: None,
        config: GraphConfig { languages: Vec::new(), exclude_patterns: Vec::new() },
        summary: GraphSummary {
            total_files: 0,
            total_functions: 0,
            total_classes: 0,
            languages: StrMap::new(),
            modules: Vec::new(),
            entry_points: Vec::new(),
        },
        modules: StrMap::new(),
        files: StrMap::new(),
    }
}

/// The empty graph of a project, stamped with the current time.
pub fn create_empty_graph(project_name: &str, root_dir: &str) -> (g: CodeGraph)
    ensures
        is_empty_graph(g, project_name@, root_dir@),
        exists|secs: u64| g.scanned_at@ == timestamp(secs as int),
{
    empty_graph_at(project_name, root_dir, chrono_now())
}

} // verus!
