//! Offline parsers: de-identified CSV only.
//!
//! Entry points map a string to a collection of value objects; they take no
//! URL, client, credential or network parameter. JSONP stripping is future
//! work and is not implemented (see [`guard_parse_format`]).
//!
//! The header must match exactly: one column more or less, a renamed or a
//! reordered column fails the whole parse. A duplicate identity is refused
//! (never silently deduplicated) with `SemanticallyRejected`:
//!
//! | type | identity |
//! | --- | --- |
//! | money supply | `series + period` |
//! | interbank rate | `series + period` |
//! | aggregate financing | `series + period` |
//! | northbound flow | `date` |
//! | open market operation | `date + op_type` |
//!
//! The frequency comes from the type (monthly, daily or event), never from a
//! column.
//!
//! A numeric cell is turned into a binary64 bit pattern by the `number`
//! function that the caller supplies (`None` when the text is no number); the
//! library checks that the number is finite.

use vstd::prelude::*;

use crate::error::{fault_of, EastMoneyError, EastMoneyErrorKind, EastMoneyResult, Fault};
use crate::text::{decimal_string, decimal_text, decimal_u32, parse_decimal_u32, same_text};
use crate::value::{
    code_verdict, date_from_bytes, interbank_series_from_text, is_finite_bits, unknown_series_reason, money_supply_verdict,
    period_from_bytes, validate_money_supply, Date, EastMoneyAggregateFinancing, EastMoneyCode,
    EastMoneyInterbankRate, EastMoneyInterbankSeries, EastMoneyMissingReason,
    EastMoneyMoneySupply, EastMoneyNorthboundFlow, EastMoneyOmoOperation, EastMoneyValue,
    Frequency, Period, Unit,
};
use vstd::utf8::encode_utf8;

verus! {

// ---------------------------------------------------------------------------
// Reading numbers through the caller's function
// ---------------------------------------------------------------------------

/// Whether `f` can read every text and gives the same answer for the same text.
pub open spec fn reads_numbers<F: Fn(&str) -> Option<u64>>(f: F) -> bool {
    &&& forall|s: &str| #[trigger] f.requires((s,))
    &&& forall|s1: &str, s2: &str, a: Option<u64>, b: Option<u64>|
        #![trigger f.ensures((s1,), a), f.ensures((s2,), b)]
        s1@ == s2@ && f.ensures((s1,), a) && f.ensures((s2,), b) ==> a == b
}

/// Whether `f` may answer `o` for a text whose characters are `t`.
pub open spec fn yields<F: Fn(&str) -> Option<u64>>(f: F, t: Seq<char>, o: Option<u64>) -> bool {
    exists|s: &str| s@ == t && #[trigger] f.ensures((s,), o)
}

/// The answer of `f` for the text `t`.
pub open spec fn number_of<F: Fn(&str) -> Option<u64>>(f: F, t: Seq<char>) -> Option<u64> {
    choose|o: Option<u64>| #[trigger] yields(f, t, o)
}

fn read_number<F: Fn(&str) -> Option<u64>>(f: &F, s: &str) -> (r: Option<u64>)
    requires
        reads_numbers(*f),
    ensures
        r == number_of(*f, s@),
{
    let r = f(s);
    assert(yields(*f, s@, r));
    proof {
        let o = number_of(*f, s@);
        let w = choose|s2: &str| s2@ == s@ && #[trigger] f.ensures((s2,), o);
        assert(f.ensures((w,), o));
    }
    r
}

// ---------------------------------------------------------------------------
// Format guard
// ---------------------------------------------------------------------------

/// A parse format.
#[non_exhaustive]
#[derive(Debug, Clone, Copy, PartialEq, Eq, Hash, Structural)]
pub enum EastMoneyParseFormat {
    /// De-identified CSV (the only implemented format).
    Csv,
    /// JSONP wrapping (planned; not implemented).
    Jsonp,
}

/// The format guard: CSV passes; JSONP stripping is future work and gives
/// `NotApplicable`.
pub fn guard_parse_format(format: EastMoneyParseFormat) -> (r: EastMoneyResult<()>)
    ensures
        r is Ok <==> format == EastMoneyParseFormat::Csv,
        r matches Err(e) ==> e.class() == EastMoneyErrorKind::NotApplicable && e.reason()
            == "JSONP 剥离属授权后的未来 parser 任务，当前未实现（现有磁盘样本全为 CSV）"@,
{
    match format {
        EastMoneyParseFormat::Csv => Ok(()),
        EastMoneyParseFormat::Jsonp => Err(
            EastMoneyError::NotApplicable(
                "JSONP 剥离属授权后的未来 parser 任务，当前未实现（现有磁盘样本全为 CSV）".to_owned(),
            ),
        ),
    }
}

// ---------------------------------------------------------------------------
// The CSV reader
// ---------------------------------------------------------------------------

/// A syntax fault reported by the CSV reader: the record index and line of
/// the faulty record, when the reader knows them.
#[derive(Debug, Clone, Copy, PartialEq, Eq)]
pub struct CsvFault {
    /// `(record, line)` of the fault, if known.
    pub position: Option<(u64, u64)>,
}

/// The records that the `csv` crate reads from `input` with headers off and
/// equal record lengths enforced: every record as its fields, or the first
/// fault met.
pub uninterp spec fn csv_records(input: Seq<char>) -> Result<Seq<Seq<Seq<char>>>, CsvFault>;

/// A record as the character sequences of its fields.
pub open spec fn record_view(r: Vec<String>) -> Seq<Seq<char>> {
    r@.map_values(|f: String| f@)
}

/// Records as the character sequences of their fields.
pub open spec fn records_view(rows: Seq<Vec<String>>) -> Seq<Seq<Seq<char>>> {
    rows.map_values(|r: Vec<String>| record_view(r))
}

/// The view of a reading: the records as character sequences, or the fault.
pub open spec fn reading_view(r: Result<Vec<Vec<String>>, CsvFault>) -> Result<
    Seq<Seq<Seq<char>>>,
    CsvFault,
> {
    match r {
        Ok(rows) => Ok(records_view(rows@)),
        Err(fault) => Err(fault),
    }
}

/// Read every record of `input` with `csv::ReaderBuilder` (no header row,
/// equal record lengths enforced) until the first fault. The contract claims
/// only that the outcome is the one `csv_records` names for the input's
/// characters.
#[verifier::external_body]
fn read_csv_records(input: &str) -> (r: Result<Vec<Vec<String>>, CsvFault>)
    ensures
        reading_view(r) == csv_records(input@),
{
    let mut reader = csv::ReaderBuilder::new().has_headers(false).flexible(false).from_reader(
        input.as_bytes(),
    );
    let mut rows: Vec<Vec<String>> = Vec::new();
    for record in reader.records() {
        match record {
            Ok(record) => rows.push(record.iter().map(|field| field.to_string()).collect()),
            Err(error) => return Err(
                CsvFault { position: error.position().map(|p| (p.record(), p.line())) },
            ),
        }
    }
    Ok(rows)
}

/// The decimal text of a count.
pub open spec fn count_text(n: int) -> Seq<char> {
    decimal_text(n as nat)
}

/// The first index from `i` on where `a` and `b` differ (or the end of `a`).
pub open spec fn first_diff(a: Seq<Seq<char>>, b: Seq<Seq<char>>, i: int) -> int
    decreases a.len() - i,
{
    if i < 0 || i >= a.len() || i >= b.len() || a[i] != b[i] {
        i
    } else {
        first_diff(a, b, i + 1)
    }
}

/// How a header record is judged against the expected names: a different
/// count gives both counts, a different name gives its 1-based position; no
/// cell text is ever repeated.
pub open spec fn header_verdict(got: Seq<Seq<char>>, want: Seq<Seq<char>>) -> Result<(), Seq<char>> {
    if got.len() != want.len() {
        Err(
            "表头列数不符：期望 "@ + count_text(want.len() as int) + " 列，实际 "@ + count_text(
                got.len() as int,
            ) + " 列"@,
        )
    } else if got != want {
        Err("表头列名不符：第 "@ + count_text(first_diff(got, want, 0) + 1) + " 列与期望列名不一致"@)
    } else {
        Ok(())
    }
}

/// The data rows of CSV records whose first record must be exactly `header`:
/// no record at all, or any other header, is `Invalid`.
pub open spec fn rows_after_header_spec(t: Seq<Seq<Seq<char>>>, header: Seq<Seq<char>>) -> Result<
    Seq<Seq<Seq<char>>>,
    Fault,
> {
    if t.len() == 0 {
        Err((EastMoneyErrorKind::Invalid, "CSV 为空（缺少表头）"@))
    } else {
        match header_verdict(t[0], header) {
            Err(m) => Err((EastMoneyErrorKind::Invalid, m)),
            Ok(()) => Ok(t.drop_first()),
        }
    }
}

/// The data rows of a CSV text whose header must be exactly `header`: a
/// reader fault, an empty text or any other header is `Invalid`.
pub open spec fn data_rows(input: Seq<char>, header: Seq<Seq<char>>) -> Result<
    Seq<Seq<Seq<char>>>,
    Fault,
> {
    match csv_records(input) {
        Err(f) => Err((EastMoneyErrorKind::Invalid, csv_fault_reason(f))),
        Ok(t) => rows_after_header_spec(t, header),
    }
}

/// The view of a list of header names.
pub open spec fn header_view(h: Seq<&str>) -> Seq<Seq<char>> {
    h.map_values(|s: &str| s@)
}

proof fn lemma_first_diff_skip(a: Seq<Seq<char>>, b: Seq<Seq<char>>, i: int)
    requires
        0 <= i <= a.len(),
        i <= b.len(),
        forall|j: int| 0 <= j < i ==> a[j] == b[j],
    ensures
        first_diff(a, b, 0) == first_diff(a, b, i),
    decreases i,
{
    if i > 0 {
        lemma_first_diff_skip(a, b, i - 1);
    }
}

fn header_matches(got: &Vec<String>, want: &[&str]) -> (r: EastMoneyResult<()>)
    ensures
        r is Ok <==> header_verdict(record_view(*got), header_view(want@)) is Ok,
        r matches Err(e) ==> e.class() == EastMoneyErrorKind::Invalid && header_verdict(
            record_view(*got),
            header_view(want@),
        ) == Err::<(), _>(e.reason()),
{
    let ghost g = record_view(*got);
    let ghost w = header_view(want@);
    if got.len() != want.len() {
        let reason = "表头列数不符：期望 ".to_owned().concat(
            decimal_string(want.len() as u64).as_str(),
        ).concat(" 列，实际 ").concat(decimal_string(got.len() as u64).as_str()).concat(" 列");
        return Err(EastMoneyError::Invalid(reason));
    }
    let mut i: usize = 0;
    while i < got.len()
        invariant
            got.len() == want.len(),
            g == record_view(*got),
            w == header_view(want@),
            i <= got.len(),
            forall|j: int| 0 <= j < i ==> g[j] == w[j],
        decreases got.len() - i,
    {
        if !same_text(got[i].as_str(), want[i]) {
            proof {
                lemma_first_diff_skip(g, w, i as int);
                assert(g[i as int] != w[i as int]);
            }
            let reason = "表头列名不符：第 ".to_owned().concat(
                decimal_string((i + 1) as u64).as_str(),
            ).concat(" 列与期望列名不一致");
            return Err(EastMoneyError::Invalid(reason));
        }
        i = i + 1;
    }
    assert(g =~= w);
    Ok(())
}

/// The reason given for a reader fault: the record index and line where the
/// reader places it, or a fixed text when it places it nowhere.
pub open spec fn csv_fault_reason(fault: CsvFault) -> Seq<char> {
    match fault.position {
        Some((record, line)) => "CSV 语法错误（记录 "@ + decimal_text(record as nat) + "，行 "@
            + decimal_text(line as nat) + "）"@,
        None => "CSV 语法错误（无法定位行号）"@,
    }
}

/// Map a reader fault to this library's error (without echoing any content).
fn csv_syntax_error(fault: CsvFault) -> (e: EastMoneyError)
    ensures
        e.class() == EastMoneyErrorKind::Invalid,
        e.reason() == csv_fault_reason(fault),
{
    match fault.position {
        Some((record, line)) => {
            let reason = "CSV 语法错误（记录 ".to_owned().concat(decimal_string(record).as_str()).concat(
                "，行 ",
            ).concat(decimal_string(line).as_str()).concat("）");
            EastMoneyError::Invalid(reason)
        },
        None => EastMoneyError::Invalid("CSV 语法错误（无法定位行号）".to_owned()),
    }
}

/// Check the header of records already read and return the data rows: the
/// first record must be exactly `header`.
pub fn rows_after_header(records: Vec<Vec<String>>, header: &[&str]) -> (r: EastMoneyResult<
    Vec<Vec<String>>,
>)
    ensures
        ({
            let outcome = rows_after_header_spec(records_view(records@), header_view(header@));
            &&& r is Ok <==> outcome is Ok
            &&& r matches Ok(rows) ==> outcome == Ok::<_, Fault>(records_view(rows@))
            &&& r matches Err(e) ==> outcome == Err::<Seq<Seq<Seq<char>>>, _>(fault_of(e))
        }),
{
    let mut all = records;
    if all.len() == 0 {
        return Err(EastMoneyError::Invalid("CSV 为空（缺少表头）".to_owned()));
    }
    let ghost before = all@;
    assert(records_view(before)[0] == record_view(all@[0]));
    match header_matches(&all[0], header) {
        Ok(()) => {},
        Err(e) => return Err(e),
    }
    let rows = all.split_off(1);
    assert(records_view(rows@) =~= records_view(before).drop_first());
    Ok(rows)
}

/// Read all records of `input` and check the header; returns the data rows.
fn read_rows(input: &str, header: &[&str]) -> (r: EastMoneyResult<Vec<Vec<String>>>)
    ensures
        r is Ok <==> data_rows(input@, header_view(header@)) is Ok,
        r matches Ok(rows) ==> data_rows(input@, header_view(header@)) == Ok::<_, Fault>(
            records_view(rows@),
        ),
        r matches Err(e) ==> data_rows(input@, header_view(header@)) == Err::<
            Seq<Seq<Seq<char>>>,
            _,
        >(fault_of(e)),
{
    match read_csv_records(input) {
        Ok(records) => rows_after_header(records, header),
        Err(fault) => Err(csv_syntax_error(fault)),
    }
}

// ---------------------------------------------------------------------------
// Cells
// ---------------------------------------------------------------------------

/// The `k`-th field of a row, or `Missing` (naming the 1-based column) when
/// the row is shorter.
pub open spec fn field_at(row: Seq<Seq<char>>, k: int) -> Result<Seq<char>, Fault> {
    if 0 <= k < row.len() {
        Ok(row[k])
    } else {
        Err((EastMoneyErrorKind::Missing, "第 "@ + count_text(k + 1) + " 列缺失"@))
    }
}

/// A numeric cell: empty is a named gap, otherwise the caller's number,
/// which must exist and be finite (`Invalid` otherwise).
pub open spec fn value_verdict<F: Fn(&str) -> Option<u64>>(t: Seq<char>, f: F) -> Result<
    EastMoneyValue,
    Fault,
> {
    if t.len() == 0 {
        Ok(EastMoneyValue::Missing(EastMoneyMissingReason::SourceBlank))
    } else {
        match number_of(f, t) {
            None => Err((EastMoneyErrorKind::Invalid, "数值列含非数值内容"@)),
            Some(b) => if is_finite_bits(b) {
                Ok(EastMoneyValue::Present(b))
            } else {
                Err((EastMoneyErrorKind::Invalid, "数值列含非有限值（NaN / 无穷）"@))
            },
        }
    }
}

/// A unit token: the source unit kept as it is, the empty token as
/// `Undeclared`, anything else `SemanticallyRejected` (naming only its length
/// in bytes).
pub open spec fn unit_verdict(t: Seq<char>) -> Result<Unit, Fault> {
    if t == "%"@ {
        Ok(Unit::Percent)
    } else if t == "bp"@ {
        Ok(Unit::BasisPoint)
    } else if t == "亿元"@ {
        Ok(Unit::HundredMillionYuan)
    } else if t == "元"@ {
        Ok(Unit::Yuan)
    } else if t.len() == 0 {
        Ok(Unit::Undeclared)
    } else {
        Err(
            (
                EastMoneyErrorKind::SemanticallyRejected,
                "未知的单位令牌（长度 "@ + count_text(encode_utf8(t).len() as int)
                    + "）；不得静默假定单位"@,
            ),
        )
    }
}

/// A monthly period cell (`YYYY-MM`); anything else is `Invalid`.
pub open spec fn month_verdict(t: Seq<char>) -> Result<Period, Fault> {
    match period_from_bytes(encode_utf8(t)) {
        Ok(p) => if p is Month {
            Ok(p)
        } else {
            Err((EastMoneyErrorKind::Invalid, "该列必须是月度期间（YYYY-MM）"@))
        },
        Err(m) => Err((EastMoneyErrorKind::Invalid, m)),
    }
}

/// A date cell (`YYYY-MM-DD`); anything else is `Invalid`.
pub open spec fn date_verdict(t: Seq<char>) -> Result<Date, Fault> {
    match date_from_bytes(encode_utf8(t)) {
        Ok(d) => Ok(d),
        Err(m) => Err((EastMoneyErrorKind::Invalid, m)),
    }
}

/// A term in days: empty is `Missing`, anything but an unsigned 32-bit
/// integer is `Invalid`.
pub open spec fn term_verdict(t: Seq<char>) -> Result<u32, Fault> {
    if t.len() == 0 {
        Err((EastMoneyErrorKind::Missing, "term_days 不得为空"@))
    } else {
        match decimal_u32(t) {
            Some(v) => Ok(v),
            None => Err((EastMoneyErrorKind::Invalid, "term_days 必须是无符号整数"@)),
        }
    }
}

/// An interbank series token; an unknown one is `SemanticallyRejected`.
pub open spec fn series_verdict(t: Seq<char>) -> Result<EastMoneyInterbankSeries, Fault> {
    match interbank_series_from_text(t) {
        Some(s) => Ok(s),
        None => Err((EastMoneyErrorKind::SemanticallyRejected, unknown_series_reason(t))),
    }
}

/// The reason given for a duplicate identity: the identity's name and the
/// 1-based data row, never the cells.
pub open spec fn duplicate_reason(identity: Seq<char>, row: int) -> Seq<char> {
    "重复身份（"@ + identity + "）出现在第 "@ + count_text(row) + " 条数据行；本层选择拒绝而非静默去重"@
}

/// A source code cell.
pub open spec fn code_at(row: Seq<Seq<char>>, k: int) -> Result<Seq<char>, Fault> {
    match field_at(row, k) {
        Err(e) => Err(e),
        Ok(t) => match code_verdict(t) {
            Ok(()) => Ok(t),
            Err(e) => Err(e),
        },
    }
}

/// A numeric cell.
pub open spec fn value_at<F: Fn(&str) -> Option<u64>>(row: Seq<Seq<char>>, k: int, f: F) -> Result<
    EastMoneyValue,
    Fault,
> {
    match field_at(row, k) {
        Err(e) => Err(e),
        Ok(t) => value_verdict(t, f),
    }
}

/// The numeric cells `start .. start + n`, read left to right; the first
/// failing cell decides the error.
pub open spec fn values_at<F: Fn(&str) -> Option<u64>>(
    row: Seq<Seq<char>>,
    start: int,
    n: nat,
    f: F,
) -> Result<Seq<EastMoneyValue>, Fault>
    decreases n,
{
    if n == 0 {
        Ok(seq![])
    } else {
        match values_at(row, start, (n - 1) as nat, f) {
            Err(e) => Err(e),
            Ok(vs) => match value_at(row, start + n - 1, f) {
                Err(e) => Err(e),
                Ok(v) => Ok(vs.push(v)),
            },
        }
    }
}

/// A unit cell.
pub open spec fn unit_at(row: Seq<Seq<char>>, k: int) -> Result<Unit, Fault> {
    match field_at(row, k) {
        Err(e) => Err(e),
        Ok(t) => unit_verdict(t),
    }
}

/// A monthly period cell.
pub open spec fn month_at(row: Seq<Seq<char>>, k: int) -> Result<Period, Fault> {
    match field_at(row, k) {
        Err(e) => Err(e),
        Ok(t) => month_verdict(t),
    }
}

/// A date cell.
pub open spec fn date_at(row: Seq<Seq<char>>, k: int) -> Result<Date, Fault> {
    match field_at(row, k) {
        Err(e) => Err(e),
        Ok(t) => date_verdict(t),
    }
}

/// A term-in-days cell.
pub open spec fn term_at(row: Seq<Seq<char>>, k: int) -> Result<u32, Fault> {
    match field_at(row, k) {
        Err(e) => Err(e),
        Ok(t) => term_verdict(t),
    }
}

/// An interbank series cell.
pub open spec fn series_at(row: Seq<Seq<char>>, k: int) -> Result<EastMoneyInterbankSeries, Fault> {
    match field_at(row, k) {
        Err(e) => Err(e),
        Ok(t) => series_verdict(t),
    }
}

/// Take the `index`-th field (0-based) of a record.
fn field(record: &Vec<String>, index: usize) -> (r: EastMoneyResult<&str>)
    requires
        index < usize::MAX,
    ensures
        r matches Ok(s) ==> field_at(record_view(*record), index as int) == Ok::<_, Fault>(s@),
        r matches Err(e) ==> field_at(record_view(*record), index as int) == Err::<Seq<char>, _>(
            fault_of(e),
        ),
{
    if index < record.len() {
        Ok(record[index].as_str())
    } else {
        let reason = "第 ".to_owned().concat(decimal_string((index + 1) as u64).as_str()).concat(
            " 列缺失",
        );
        Err(EastMoneyError::Missing(reason))
    }
}

/// Build the duplicate-identity error for the `index`-th data row (0-based).
fn duplicate_identity(index: usize, identity: &str) -> (e: EastMoneyError)
    requires
        index < usize::MAX,
    ensures
        fault_of(e) == (EastMoneyErrorKind::SemanticallyRejected, duplicate_reason(
            identity@,
            index + 1,
        )),
{
    let reason = "重复身份（".to_owned().concat(identity).concat("）出现在第 ").concat(
        decimal_string((index + 1) as u64).as_str(),
    ).concat(" 条数据行；本层选择拒绝而非静默去重");
    EastMoneyError::SemanticallyRejected(reason)
}

/// Read a numeric cell: empty is a named gap; a non-number or a non-finite
/// number is refused (without echoing the content).
fn parse_value<F: Fn(&str) -> Option<u64>>(raw: &str, number: &F) -> (r: EastMoneyResult<
    EastMoneyValue,
>)
    requires
        reads_numbers(*number),
    ensures
        r matches Ok(v) ==> value_verdict(raw@, *number) == Ok::<_, Fault>(v),
        r matches Err(e) ==> value_verdict(raw@, *number) == Err::<EastMoneyValue, _>(fault_of(e)),
{
    if raw.is_empty() {
        return Ok(EastMoneyValue::Missing(EastMoneyMissingReason::SourceBlank));
    }
    let bits = match read_number(number, raw) {
        Some(b) => b,
        None => return Err(EastMoneyError::Invalid("数值列含非数值内容".to_owned())),
    };
    if bits & 0x7ff0_0000_0000_0000u64 == 0x7ff0_0000_0000_0000u64 {
        return Err(EastMoneyError::Invalid("数值列含非有限值（NaN / 无穷）".to_owned()));
    }
    Ok(EastMoneyValue::Present(bits))
}

/// Read a unit token (the source unit is kept, never converted).
fn parse_unit(raw: &str) -> (r: EastMoneyResult<Unit>)
    ensures
        r matches Ok(u) ==> unit_verdict(raw@) == Ok::<_, Fault>(u),
        r matches Err(e) ==> unit_verdict(raw@) == Err::<Unit, _>(fault_of(e)),
{
    if same_text(raw, "%") {
        Ok(Unit::Percent)
    } else if same_text(raw, "bp") {
        Ok(Unit::BasisPoint)
    } else if same_text(raw, "亿元") {
        Ok(Unit::HundredMillionYuan)
    } else if same_text(raw, "元") {
        Ok(Unit::Yuan)
    } else if raw.is_empty() {
        Ok(Unit::Undeclared)
    } else {
        let reason = "未知的单位令牌（长度 ".to_owned().concat(
            decimal_string(raw.as_bytes().len() as u64).as_str(),
        ).concat("）；不得静默假定单位");
        Err(EastMoneyError::SemanticallyRejected(reason))
    }
}

/// Read a monthly period (`YYYY-MM`).
fn parse_month_period(raw: &str) -> (r: EastMoneyResult<Period>)
    ensures
        r matches Ok(p) ==> month_verdict(raw@) == Ok::<_, Fault>(p),
        r matches Err(e) ==> month_verdict(raw@) == Err::<Period, _>(fault_of(e)),
{
    let period = match Period::parse(raw) {
        Ok(p) => p,
        Err(e) => return Err(e),
    };
    match period {
        Period::Month { .. } => Ok(period),
        _ => Err(EastMoneyError::Invalid("该列必须是月度期间（YYYY-MM）".to_owned())),
    }
}

/// Read a term in days (an unsigned integer).
fn parse_term_days(raw: &str) -> (r: EastMoneyResult<u32>)
    ensures
        r matches Ok(v) ==> term_verdict(raw@) == Ok::<_, Fault>(v),
        r matches Err(e) ==> term_verdict(raw@) == Err::<u32, _>(fault_of(e)),
{
    if raw.is_empty() {
        return Err(EastMoneyError::Missing("term_days 不得为空".to_owned()));
    }
    match parse_decimal_u32(raw) {
        Some(v) => Ok(v),
        None => Err(EastMoneyError::Invalid("term_days 必须是无符号整数".to_owned())),
    }
}

/// Read a source code cell.
fn code_in(row: &Vec<String>, k: usize) -> (r: EastMoneyResult<EastMoneyCode>)
    requires
        k < usize::MAX,
    ensures
        r matches Ok(c) ==> code_at(record_view(*row), k as int) == Ok::<_, Fault>(c@),
        r matches Err(e) ==> code_at(record_view(*row), k as int) == Err::<Seq<char>, _>(fault_of(e)),
{
    let raw = field(row, k)?;
    EastMoneyCode::new(raw)
}

/// Read a numeric cell.
fn value_in<F: Fn(&str) -> Option<u64>>(row: &Vec<String>, k: usize, number: &F) -> (r:
    EastMoneyResult<EastMoneyValue>)
    requires
        k < usize::MAX,
        reads_numbers(*number),
    ensures
        r matches Ok(v) ==> value_at(record_view(*row), k as int, *number) == Ok::<_, Fault>(v),
        r matches Err(e) ==> value_at(record_view(*row), k as int, *number) == Err::<
            EastMoneyValue,
            _,
        >(fault_of(e)),
{
    let raw = field(row, k)?;
    parse_value(raw, number)
}

/// Read the numeric cells `start .. start + n`, left to right.
fn values_in<F: Fn(&str) -> Option<u64>>(
    row: &Vec<String>,
    start: usize,
    n: usize,
    number: &F,
) -> (r: EastMoneyResult<Vec<EastMoneyValue>>)
    requires
        reads_numbers(*number),
        start + n < usize::MAX,
    ensures
        r matches Ok(vs) ==> values_at(record_view(*row), start as int, n as nat, *number) == Ok::<_, Fault>(vs@) && vs@.len() == n && forall|j: int| 0 <= j < n ==> (#[trigger] vs@[j]).legal(),
        r matches Err(e) ==> values_at(record_view(*row), start as int, n as nat, *number)
            == Err::<Seq<EastMoneyValue>, _>(fault_of(e)),
{
    let mut out: Vec<EastMoneyValue> = Vec::new();
    let mut i: usize = 0;
    while i < n
        invariant
            reads_numbers(*number),
            start + n < usize::MAX,
            i <= n,
            values_at(record_view(*row), start as int, i as nat, *number) == Ok::<_, Fault>(out@),
            out@.len() == i,
            forall|j: int| 0 <= j < i ==> (#[trigger] out@[j]).legal(),
        decreases n - i,
    {
        let v = match value_in(row, start + i, number) {
            Ok(v) => v,
            Err(e) => {
                proof {
                    lemma_values_err_persists(record_view(*row), start as int, (i + 1) as nat, n as nat, *number);
                }
                return Err(e);
            },
        };
        out.push(v);
        i = i + 1;
    }
    Ok(out)
}

proof fn lemma_values_err_persists<F: Fn(&str) -> Option<u64>>(
    row: Seq<Seq<char>>,
    start: int,
    i: nat,
    n: nat,
    f: F,
)
    requires
        i <= n,
        values_at(row, start, i, f) is Err,
    ensures
        values_at(row, start, n, f) == values_at(row, start, i, f),
    decreases n - i,
{
    if i < n {
        lemma_values_err_persists(row, start, i, (n - 1) as nat, f);
    }
}

/// Read a unit cell.
fn unit_in(row: &Vec<String>, k: usize) -> (r: EastMoneyResult<Unit>)
    requires
        k < usize::MAX,
    ensures
        r matches Ok(u) ==> unit_at(record_view(*row), k as int) == Ok::<_, Fault>(u),
        r matches Err(e) ==> unit_at(record_view(*row), k as int) == Err::<Unit, _>(fault_of(e)),
{
    let raw = field(row, k)?;
    parse_unit(raw)
}

/// Read a monthly period cell.
fn month_in(row: &Vec<String>, k: usize) -> (r: EastMoneyResult<Period>)
    requires
        k < usize::MAX,
    ensures
        r matches Ok(p) ==> month_at(record_view(*row), k as int) == Ok::<_, Fault>(p),
        r matches Err(e) ==> month_at(record_view(*row), k as int) == Err::<Period, _>(fault_of(e)),
{
    let raw = field(row, k)?;
    parse_month_period(raw)
}

/// Read a date cell.
fn date_in(row: &Vec<String>, k: usize) -> (r: EastMoneyResult<Date>)
    requires
        k < usize::MAX,
    ensures
        r matches Ok(d) ==> date_at(record_view(*row), k as int) == Ok::<_, Fault>(d),
        r matches Err(e) ==> date_at(record_view(*row), k as int) == Err::<Date, _>(fault_of(e)),
{
    let raw = field(row, k)?;
    Date::parse(raw)
}

/// Read a term-in-days cell.
fn term_in(row: &Vec<String>, k: usize) -> (r: EastMoneyResult<u32>)
    requires
        k < usize::MAX,
    ensures
        r matches Ok(v) ==> term_at(record_view(*row), k as int) == Ok::<_, Fault>(v),
        r matches Err(e) ==> term_at(record_view(*row), k as int) == Err::<u32, _>(fault_of(e)),
{
    let raw = field(row, k)?;
    parse_term_days(raw)
}

/// Read an interbank series cell.
fn series_in(row: &Vec<String>, k: usize) -> (r: EastMoneyResult<EastMoneyInterbankSeries>)
    requires
        k < usize::MAX,
    ensures
        r matches Ok(s) ==> series_at(record_view(*row), k as int) == Ok::<_, Fault>(s),
        r matches Err(e) ==> series_at(record_view(*row), k as int) == Err::<
            EastMoneyInterbankSeries,
            _,
        >(fault_of(e)),
{
    let raw = field(row, k)?;
    EastMoneyInterbankSeries::parse(raw)
}

// ---------------------------------------------------------------------------
// Tables
// ---------------------------------------------------------------------------

/// Process data rows in order with `step`, which sees the facts of the rows
/// already accepted; the first refused row decides the error.
pub open spec fn fold_rows<T>(
    rows: Seq<Seq<Seq<char>>>,
    step: spec_fn(Seq<Seq<char>>, Seq<T>) -> Result<T, Fault>,
) -> Result<Seq<T>, Fault>
    decreases rows.len(),
{
    if rows.len() == 0 {
        Ok(seq![])
    } else {
        match fold_rows(rows.drop_last(), step) {
            Err(e) => Err(e),
            Ok(prev) => match step(rows.last(), prev) {
                Err(e) => Err(e),
                Ok(x) => Ok(prev.push(x)),
            },
        }
    }
}

/// Once a prefix of the rows is refused, the whole table is refused the same way.
pub proof fn lemma_fold_err_persists<T>(
    rows: Seq<Seq<Seq<char>>>,
    step: spec_fn(Seq<Seq<char>>, Seq<T>) -> Result<T, Fault>,
    i: int,
)
    requires
        0 <= i <= rows.len(),
        fold_rows(rows.take(i), step) is Err,
    ensures
        fold_rows(rows, step) == fold_rows(rows.take(i), step),
    decreases rows.len() - i,
{
    if i < rows.len() {
        assert(rows.drop_last().take(i) == rows.take(i));
        lemma_fold_err_persists(rows.drop_last(), step, i);
    } else {
        assert(rows.take(i) == rows);
    }
}

/// Accepting one more row extends the facts by that row's step.
pub proof fn lemma_fold_take_next<T>(
    rows: Seq<Seq<Seq<char>>>,
    step: spec_fn(Seq<Seq<char>>, Seq<T>) -> Result<T, Fault>,
    i: int,
)
    requires
        0 <= i < rows.len(),
    ensures
        fold_rows(rows.take(i + 1), step) == (match fold_rows(rows.take(i), step) {
            Err(e) => Err(e),
            Ok(prev) => match step(rows[i], prev) {
                Err(e) => Err(e),
                Ok(x) => Ok(prev.push(x)),
            },
        }),
{
    assert(rows.take(i + 1).drop_last() == rows.take(i));
    assert(rows.take(i + 1).last() == rows[i]);
}

/// An accepted table has one fact per data row.
pub proof fn lemma_fold_len<T>(
    rows: Seq<Seq<Seq<char>>>,
    step: spec_fn(Seq<Seq<char>>, Seq<T>) -> Result<T, Fault>,
)
    ensures
        fold_rows(rows, step) matches Ok(xs) ==> xs.len() == rows.len(),
    decreases rows.len(),
{
    if rows.len() > 0 {
        lemma_fold_len(rows.drop_last(), step);
    }
}

/// In an accepted table, the fact of row `i` is what `step` made of that row
/// given the facts of the rows before it.
pub proof fn lemma_fold_each_step<T>(
    rows: Seq<Seq<Seq<char>>>,
    step: spec_fn(Seq<Seq<char>>, Seq<T>) -> Result<T, Fault>,
    i: int,
)
    requires
        fold_rows(rows, step) is Ok,
        0 <= i < rows.len(),
    ensures
        ({
            let xs = fold_rows(rows, step)->Ok_0;
            step(rows[i], xs.take(i)) == Ok::<T, Fault>(xs[i])
        }),
    decreases rows.len(),
{
    let xs = fold_rows(rows, step)->Ok_0;
    let prev = fold_rows(rows.drop_last(), step)->Ok_0;
    lemma_fold_len(rows.drop_last(), step);
    if i < rows.len() - 1 {
        lemma_fold_each_step(rows.drop_last(), step, i);
        assert(prev.take(i) == xs.take(i));
    } else {
        assert(xs.take(i) == prev);
    }
}

// ---------------------------------------------------------------------------
// Money supply
// ---------------------------------------------------------------------------

/// The facts of a money supply observation: series, period, the six values
/// (m0, m1, m2, m0_yoy, m1_yoy, m2_yoy) and unit.
pub type MoneySupplyFacts = (Seq<char>, Period, Seq<EastMoneyValue>, Unit);

/// The facts of a money supply observation.
pub open spec fn money_supply_facts(o: EastMoneyMoneySupply) -> MoneySupplyFacts {
    (o.series@, o.period, seq![o.m0, o.m1, o.m2, o.m0_yoy, o.m1_yoy, o.m2_yoy], o.unit)
}

/// The money supply header.
pub open spec fn money_supply_header() -> Seq<Seq<char>> {
    seq![
        "series"@,
        "period"@,
        "m0"@,
        "m1"@,
        "m2"@,
        "m0_yoy"@,
        "m1_yoy"@,
        "m2_yoy"@,
        "unit"@,
    ]
}

/// One money supply row, given the facts of the rows already accepted:
/// series code, monthly period, identity not seen before, six values, unit,
/// and at least one of m0/m1/m2 present.
pub open spec fn money_supply_row<F: Fn(&str) -> Option<u64>>(
    row: Seq<Seq<char>>,
    prev: Seq<MoneySupplyFacts>,
    f: F,
) -> Result<MoneySupplyFacts, Fault> {
    match code_at(row, 0) {
        Err(e) => Err(e),
        Ok(series) => match month_at(row, 1) {
            Err(e) => Err(e),
            Ok(period) => if exists|j: int|
                0 <= j < prev.len() && (#[trigger] prev[j]).0 == series && prev[j].1 == period {
                Err(
                    (
                        EastMoneyErrorKind::SemanticallyRejected,
                        duplicate_reason("series + period"@, prev.len() + 1int),
                    ),
                )
            } else {
                match values_at(row, 2, 6, f) {
                    Err(e) => Err(e),
                    Ok(vs) => match unit_at(row, 8) {
                        Err(e) => Err(e),
                        Ok(unit) => if !(vs[0].present() || vs[1].present() || vs[2].present()) {
                            Err(
                                (
                                    EastMoneyErrorKind::Missing,
                                    "m0/m1/m2 至少一项须有取值（否则该行不承载任何源事实）"@,
                                ),
                            )
                        } else {
                            Ok((series, period, vs, unit))
                        },
                    },
                }
            },
        },
    }
}

/// The money supply table outcome of a CSV text.
pub open spec fn money_supply_outcome<F: Fn(&str) -> Option<u64>>(input: Seq<char>, f: F) -> Result<
    Seq<MoneySupplyFacts>,
    Fault,
> {
    match data_rows(input, money_supply_header()) {
        Err(e) => Err(e),
        Ok(rows) => fold_rows(rows, |row: Seq<Seq<char>>, prev| money_supply_row(row, prev, f)),
    }
}

#[verifier::loop_isolation(false)]
fn money_supply_row_in<F: Fn(&str) -> Option<u64>>(
    row: &Vec<String>,
    prev: &Vec<EastMoneyMoneySupply>,
    index: usize,
    number: &F,
) -> (r: EastMoneyResult<EastMoneyMoneySupply>)
    requires
        reads_numbers(*number),
        index == prev.len(),
        index < usize::MAX,
    ensures
        r matches Ok(o) ==> money_supply_row(
            record_view(*row),
            prev@.map_values(|p: EastMoneyMoneySupply| money_supply_facts(p)),
            *number,
        ) == Ok::<_, Fault>(money_supply_facts(o)) && o.frequency
            == Frequency::Monthly && o.revision is None,
        r matches Err(e) ==> money_supply_row(
            record_view(*row),
            prev@.map_values(|p: EastMoneyMoneySupply| money_supply_facts(p)),
            *number,
        ) == Err::<MoneySupplyFacts, _>(fault_of(e)),
{
    let ghost facts = prev@.map_values(|p: EastMoneyMoneySupply| money_supply_facts(p));
    let series = code_in(row, 0)?;
    let period = month_in(row, 1)?;
    let mut j: usize = 0;
    while j < prev.len()
        invariant
            j <= prev.len(),
            facts == prev@.map_values(|p: EastMoneyMoneySupply| money_supply_facts(p)),
            forall|k: int| 0 <= k < j ==> !((#[trigger] facts[k]).0 == series@ && facts[k].1 == period),
        decreases prev.len() - j,
    {
        if same_text(prev[j].series.as_str(), series.as_str()) && prev[j].period == period {
            assert(facts[j as int] == money_supply_facts(prev@[j as int]));
            assert(facts[j as int].0 == series@ && facts[j as int].1 == period);
            return Err(duplicate_identity(index, "series + period"));
        }
        assert(facts[j as int] == money_supply_facts(prev@[j as int]));
        j = j + 1;
    }
    let values = values_in(row, 2, 6, number)?;
    let unit = unit_in(row, 8)?;
    let observation = EastMoneyMoneySupply {
        series,
        period,
        m0: values[0],
        m1: values[1],
        m2: values[2],
        m0_yoy: values[3],
        m1_yoy: values[4],
        m2_yoy: values[5],
        unit,
        frequency: Frequency::Monthly,
        revision: None,
    };
    assert(values@ == seq![values@[0], values@[1], values@[2], values@[3], values@[4], values@[5]]);
    validate_money_supply(&observation)?;
    Ok(observation)
}


/// Turn money supply data rows into observations; the exact outcome is `fold_rows`
/// of the rows with `money_supply_row`.
pub fn money_supply_from_rows<F: Fn(&str) -> Option<u64>>(
    rows: &Vec<Vec<String>>,
    number: &F,
) -> (r: EastMoneyResult<Vec<EastMoneyMoneySupply>>)
    requires
        reads_numbers(*number),
    ensures
        ({
            let outcome = fold_rows(
                records_view(rows@),
                |row: Seq<Seq<char>>, prev| money_supply_row(row, prev, *number),
            );
            &&& r is Ok <==> outcome is Ok
            &&& r matches Ok(out) ==> outcome == Ok::<_, Fault>(
                out@.map_values(|p: EastMoneyMoneySupply| money_supply_facts(p)),
            ) && forall|i: int|
                0 <= i < out@.len() ==> (#[trigger] out@[i]).frequency == Frequency::Monthly
                    && out@[i].revision is None
            &&& r matches Err(e) ==> outcome == Err::<Seq<MoneySupplyFacts>, _>(fault_of(e))
        }),
{
    let ghost rv = records_view(rows@);
    let ghost step = |row: Seq<Seq<char>>, prev| money_supply_row(row, prev, *number);
    let mut out: Vec<EastMoneyMoneySupply> = Vec::new();
    let mut i: usize = 0;
    assert(rv.take(0).len() == 0);
    assert(out@.map_values(|p: EastMoneyMoneySupply| money_supply_facts(p)) =~= Seq::<MoneySupplyFacts>::empty());
    while i < rows.len()
        invariant
            reads_numbers(*number),
            rv == records_view(rows@),
            step == (|row: Seq<Seq<char>>, prev| money_supply_row(row, prev, *number)),
            i <= rows.len(),
            out.len() == i,
            fold_rows(rv.take(i as int), step) == Ok::<_, Fault>(
                out@.map_values(|p: EastMoneyMoneySupply| money_supply_facts(p)),
            ),
            forall|k: int|
                0 <= k < out@.len() ==> (#[trigger] out@[k]).frequency == Frequency::Monthly
                    && out@[k].revision is None,
        decreases rows.len() - i,
    {
        proof {
            lemma_fold_take_next(rv, step, i as int);
        }
        match money_supply_row_in(&rows[i], &out, i, number) {
            Ok(o) => {
                let ghost before = out@;
                out.push(o);
                assert(out@.map_values(|p: EastMoneyMoneySupply| money_supply_facts(p)) =~= before.map_values(
                    |p: EastMoneyMoneySupply| money_supply_facts(p),
                ).push(money_supply_facts(o)));
            },
            Err(e) => {
                proof {
                    lemma_fold_err_persists(rv, step, i + 1);
                }
                return Err(e);
            },
        }
        i = i + 1;
    }
    assert(rv.take(rows.len() as int) == rv);
    Ok(out)
}

/// Parse a money supply CSV (header `series,period,m0,m1,m2,m0_yoy,m1_yoy,m2_yoy,unit`).
///
/// A header that differs, a missing field, an illegal value, a duplicate
/// identity or a failed check refuses the whole text. `number` turns a numeric
/// cell into a binary64 bit pattern (`None` when the text is no number).
pub fn parse_eastmoney_observations<F: Fn(&str) -> Option<u64>>(input: &str, number: F) -> (r: EastMoneyResult<
    Vec<EastMoneyMoneySupply>,
>)
    requires
        reads_numbers(number),
    ensures
        ({
            let outcome = money_supply_outcome(input@, number);
            &&& r is Ok <==> outcome is Ok
            &&& r matches Ok(out) ==> outcome == Ok::<_, Fault>(
                out@.map_values(|p: EastMoneyMoneySupply| money_supply_facts(p)),
            ) && forall|i: int|
                0 <= i < out@.len() ==> (#[trigger] out@[i]).frequency == Frequency::Monthly
                    && out@[i].revision is None
            &&& r matches Err(e) ==> outcome == Err::<Seq<MoneySupplyFacts>, _>(fault_of(e))
        }),
{
    let header: [&str; 9] = ["series", "period", "m0", "m1", "m2", "m0_yoy", "m1_yoy", "m2_yoy", "unit"];
    assert(header_view(header@) =~= money_supply_header());
    let rows = read_rows(input, &header)?;
    money_supply_from_rows(&rows, &number)
}

// ---------------------------------------------------------------------------
// Interbank rates
// ---------------------------------------------------------------------------

/// The facts of an interbank rate observation: series, period, the values
/// (rate, change_bp) and unit.
pub type InterbankRateFacts = (EastMoneyInterbankSeries, Period, Seq<EastMoneyValue>, Unit);

/// The facts of an interbank rate observation.
pub open spec fn interbank_rate_facts(o: EastMoneyInterbankRate) -> InterbankRateFacts {
    (o.series, o.period, seq![o.rate, o.change_bp], o.unit)
}

/// The interbank rate header.
pub open spec fn interbank_rate_header() -> Seq<Seq<char>> {
    seq!["period"@, "series"@, "rate"@, "change_bp"@, "unit"@]
}

/// One interbank rate row: daily period, series token, identity not seen
/// before, two values, unit.
pub open spec fn interbank_rate_row<F: Fn(&str) -> Option<u64>>(
    row: Seq<Seq<char>>,
    prev: Seq<InterbankRateFacts>,
    f: F,
) -> Result<InterbankRateFacts, Fault> {
    match date_at(row, 0) {
        Err(e) => Err(e),
        Ok(date) => match series_at(row, 1) {
            Err(e) => Err(e),
            Ok(series) => if exists|j: int|
                0 <= j < prev.len() && (#[trigger] prev[j]).0 == series && prev[j].1
                    == Period::Day(date) {
                Err(
                    (
                        EastMoneyErrorKind::SemanticallyRejected,
                        duplicate_reason("series + period"@, prev.len() + 1int),
                    ),
                )
            } else {
                match values_at(row, 2, 2, f) {
                    Err(e) => Err(e),
                    Ok(vs) => match unit_at(row, 4) {
                        Err(e) => Err(e),
                        Ok(unit) => Ok((series, Period::Day(date), vs, unit)),
                    },
                }
            },
        },
    }
}

/// The interbank rate table outcome of a CSV text.
pub open spec fn interbank_rate_outcome<F: Fn(&str) -> Option<u64>>(input: Seq<char>, f: F) -> Result<
    Seq<InterbankRateFacts>,
    Fault,
> {
    match data_rows(input, interbank_rate_header()) {
        Err(e) => Err(e),
        Ok(rows) => fold_rows(rows, |row: Seq<Seq<char>>, prev| interbank_rate_row(row, prev, f)),
    }
}

#[verifier::loop_isolation(false)]
fn interbank_rate_row_in<F: Fn(&str) -> Option<u64>>(
    row: &Vec<String>,
    prev: &Vec<EastMoneyInterbankRate>,
    index: usize,
    number: &F,
) -> (r: EastMoneyResult<EastMoneyInterbankRate>)
    requires
        reads_numbers(*number),
        index == prev.len(),
        index < usize::MAX,
    ensures
        r matches Ok(o) ==> interbank_rate_row(
            record_view(*row),
            prev@.map_values(|p: EastMoneyInterbankRate| interbank_rate_facts(p)),
            *number,
        ) == Ok::<_, Fault>(interbank_rate_facts(o)) && o.frequency
            == Frequency::Daily && o.revision is None,
        r matches Err(e) ==> interbank_rate_row(
            record_view(*row),
            prev@.map_values(|p: EastMoneyInterbankRate| interbank_rate_facts(p)),
            *number,
        ) == Err::<InterbankRateFacts, _>(fault_of(e)),
{
    let ghost facts = prev@.map_values(|p: EastMoneyInterbankRate| interbank_rate_facts(p));
    let date = date_in(row, 0)?;
    let period = Period::Day(date);
    let series = series_in(row, 1)?;
    let mut j: usize = 0;
    while j < prev.len()
        invariant
            j <= prev.len(),
            forall|k: int| 0 <= k < j ==> !((#[trigger] facts[k]).0 == series && facts[k].1 == period),
        decreases prev.len() - j,
    {
        assert(facts[j as int] == interbank_rate_facts(prev@[j as int]));
        if prev[j].series == series && prev[j].period == period {
            return Err(duplicate_identity(index, "series + period"));
        }
        j = j + 1;
    }
    let values = values_in(row, 2, 2, number)?;
    let unit = unit_in(row, 4)?;
    assert(values@ == seq![values@[0], values@[1]]);
    Ok(
        EastMoneyInterbankRate {
            series,
            period,
            rate: values[0],
            change_bp: values[1],
            unit,
            frequency: Frequency::Daily,
            revision: None,
        },
    )
}

// ---------------------------------------------------------------------------
// Aggregate financing
// ---------------------------------------------------------------------------

/// The facts of an aggregate financing observation: series, period, the
/// values (increment, stock, yoy) and unit.
pub type AggregateFinancingFacts = (Seq<char>, Period, Seq<EastMoneyValue>, Unit);

/// The facts of an aggregate financing observation.
pub open spec fn aggregate_financing_facts(o: EastMoneyAggregateFinancing) -> AggregateFinancingFacts {
    (o.series@, o.period, seq![o.increment, o.stock, o.yoy], o.unit)
}

/// The aggregate financing header.
pub open spec fn aggregate_financing_header() -> Seq<Seq<char>> {
    seq!["series"@, "period"@, "increment"@, "stock"@, "yoy"@, "unit"@]
}

/// One aggregate financing row: series code, monthly period, identity not
/// seen before, three values, unit.
pub open spec fn aggregate_financing_row<F: Fn(&str) -> Option<u64>>(
    row: Seq<Seq<char>>,
    prev: Seq<AggregateFinancingFacts>,
    f: F,
) -> Result<AggregateFinancingFacts, Fault> {
    match code_at(row, 0) {
        Err(e) => Err(e),
        Ok(series) => match month_at(row, 1) {
            Err(e) => Err(e),
            Ok(period) => if exists|j: int|
                0 <= j < prev.len() && (#[trigger] prev[j]).0 == series && prev[j].1 == period {
                Err(
                    (
                        EastMoneyErrorKind::SemanticallyRejected,
                        duplicate_reason("series + period"@, prev.len() + 1int),
                    ),
                )
            } else {
                match values_at(row, 2, 3, f) {
                    Err(e) => Err(e),
                    Ok(vs) => match unit_at(row, 5) {
                        Err(e) => Err(e),
                        Ok(unit) => Ok((series, period, vs, unit)),
                    },
                }
            },
        },
    }
}

/// The aggregate financing table outcome of a CSV text.
pub open spec fn aggregate_financing_outcome<F: Fn(&str) -> Option<u64>>(
    input: Seq<char>,
    f: F,
) -> Result<Seq<AggregateFinancingFacts>, Fault> {
    match data_rows(input, aggregate_financing_header()) {
        Err(e) => Err(e),
        Ok(rows) => fold_rows(
            rows,
            |row: Seq<Seq<char>>, prev| aggregate_financing_row(row, prev, f),
        ),
    }
}

#[verifier::loop_isolation(false)]
fn aggregate_financing_row_in<F: Fn(&str) -> Option<u64>>(
    row: &Vec<String>,
    prev: &Vec<EastMoneyAggregateFinancing>,
    index: usize,
    number: &F,
) -> (r: EastMoneyResult<EastMoneyAggregateFinancing>)
    requires
        reads_numbers(*number),
        index == prev.len(),
        index < usize::MAX,
    ensures
        r matches Ok(o) ==> aggregate_financing_row(
            record_view(*row),
            prev@.map_values(|p: EastMoneyAggregateFinancing| aggregate_financing_facts(p)),
            *number,
        ) == Ok::<_, Fault>(aggregate_financing_facts(o)) && o.frequency
            == Frequency::Monthly && o.revision is None,
        r matches Err(e) ==> aggregate_financing_row(
            record_view(*row),
            prev@.map_values(|p: EastMoneyAggregateFinancing| aggregate_financing_facts(p)),
            *number,
        ) == Err::<AggregateFinancingFacts, _>(fault_of(e)),
{
    let ghost facts = prev@.map_values(
        |p: EastMoneyAggregateFinancing| aggregate_financing_facts(p),
    );
    let series = code_in(row, 0)?;
    let period = month_in(row, 1)?;
    let mut j: usize = 0;
    while j < prev.len()
        invariant
            j <= prev.len(),
            forall|k: int| 0 <= k < j ==> !((#[trigger] facts[k]).0 == series@ && facts[k].1 == period),
        decreases prev.len() - j,
    {
        assert(facts[j as int] == aggregate_financing_facts(prev@[j as int]));
        if same_text(prev[j].series.as_str(), series.as_str()) && prev[j].period == period {
            return Err(duplicate_identity(index, "series + period"));
        }
        j = j + 1;
    }
    let values = values_in(row, 2, 3, number)?;
    let unit = unit_in(row, 5)?;
    assert(values@ == seq![values@[0], values@[1], values@[2]]);
    Ok(
        EastMoneyAggregateFinancing {
            series,
            period,
            increment: values[0],
            stock: values[1],
            yoy: values[2],
            unit,
            frequency: Frequency::Monthly,
            revision: None,
        },
    )
}

// ---------------------------------------------------------------------------
// Northbound flows
// ---------------------------------------------------------------------------

/// The facts of a northbound flow observation: date, the values (sh_net,
/// sz_net, total_net, balance) and unit.
pub type NorthboundFlowFacts = (Date, Seq<EastMoneyValue>, Unit);

/// The facts of a northbound flow observation.
pub open spec fn northbound_flow_facts(o: EastMoneyNorthboundFlow) -> NorthboundFlowFacts {
    (o.date, seq![o.sh_net, o.sz_net, o.total_net, o.balance], o.unit)
}

/// The northbound flow header.
pub open spec fn northbound_flow_header() -> Seq<Seq<char>> {
    seq!["date"@, "sh_net"@, "sz_net"@, "total_net"@, "balance"@, "unit"@]
}

/// One northbound flow row: date not seen before, four values, unit.
pub open spec fn northbound_flow_row<F: Fn(&str) -> Option<u64>>(
    row: Seq<Seq<char>>,
    prev: Seq<NorthboundFlowFacts>,
    f: F,
) -> Result<NorthboundFlowFacts, Fault> {
    match date_at(row, 0) {
        Err(e) => Err(e),
        Ok(date) => if exists|j: int| 0 <= j < prev.len() && (#[trigger] prev[j]).0 == date {
            Err(
                (EastMoneyErrorKind::SemanticallyRejected, duplicate_reason("date"@, prev.len() + 1int)),
            )
        } else {
            match values_at(row, 1, 4, f) {
                Err(e) => Err(e),
                Ok(vs) => match unit_at(row, 5) {
                    Err(e) => Err(e),
                    Ok(unit) => Ok((date, vs, unit)),
                },
            }
        },
    }
}

/// The northbound flow table outcome of a CSV text.
pub open spec fn northbound_flow_outcome<F: Fn(&str) -> Option<u64>>(input: Seq<char>, f: F) -> Result<
    Seq<NorthboundFlowFacts>,
    Fault,
> {
    match data_rows(input, northbound_flow_header()) {
        Err(e) => Err(e),
        Ok(rows) => fold_rows(rows, |row: Seq<Seq<char>>, prev| northbound_flow_row(row, prev, f)),
    }
}

#[verifier::loop_isolation(false)]
fn northbound_flow_row_in<F: Fn(&str) -> Option<u64>>(
    row: &Vec<String>,
    prev: &Vec<EastMoneyNorthboundFlow>,
    index: usize,
    number: &F,
) -> (r: EastMoneyResult<EastMoneyNorthboundFlow>)
    requires
        reads_numbers(*number),
        index == prev.len(),
        index < usize::MAX,
    ensures
        r matches Ok(o) ==> northbound_flow_row(
            record_view(*row),
            prev@.map_values(|p: EastMoneyNorthboundFlow| northbound_flow_facts(p)),
            *number,
        ) == Ok::<_, Fault>(northbound_flow_facts(o)) && o.frequency
            == Frequency::Daily && o.revision is None,
        r matches Err(e) ==> northbound_flow_row(
            record_view(*row),
            prev@.map_values(|p: EastMoneyNorthboundFlow| northbound_flow_facts(p)),
            *number,
        ) == Err::<NorthboundFlowFacts, _>(fault_of(e)),
{
    let ghost facts = prev@.map_values(|p: EastMoneyNorthboundFlow| northbound_flow_facts(p));
    let date = date_in(row, 0)?;
    let mut j: usize = 0;
    while j < prev.len()
        invariant
            j <= prev.len(),
            forall|k: int| 0 <= k < j ==> !((#[trigger] facts[k]).0 == date),
        decreases prev.len() - j,
    {
        assert(facts[j as int] == northbound_flow_facts(prev@[j as int]));
        if prev[j].date == date {
            return Err(duplicate_identity(index, "date"));
        }
        j = j + 1;
    }
    let values = values_in(row, 1, 4, number)?;
    let unit = unit_in(row, 5)?;
    assert(values@ == seq![values@[0], values@[1], values@[2], values@[3]]);
    Ok(
        EastMoneyNorthboundFlow {
            date,
            sh_net: values[0],
            sz_net: values[1],
            total_net: values[2],
            balance: values[3],
            unit,
            frequency: Frequency::Daily,
            revision: None,
        },
    )
}

// ---------------------------------------------------------------------------
// Open market operations
// ---------------------------------------------------------------------------

/// The facts of an open market operation: date, op_type, term in days, the
/// values (amount, rate, net_injection) and unit.
pub type OmoOperationFacts = (Date, Seq<char>, u32, Seq<EastMoneyValue>, Unit);

/// The facts of an open market operation.
pub open spec fn omo_operation_facts(o: EastMoneyOmoOperation) -> OmoOperationFacts {
    (o.date, o.op_type@, o.term_days, seq![o.amount, o.rate, o.net_injection], o.unit)
}

/// The open market operation header.
pub open spec fn omo_operation_header() -> Seq<Seq<char>> {
    seq!["date"@, "op_type"@, "term_days"@, "amount"@, "rate"@, "net_injection"@, "unit"@]
}

/// One open market operation row: date, op_type code, identity not seen
/// before, term in days, three values, unit.
pub open spec fn omo_operation_row<F: Fn(&str) -> Option<u64>>(
    row: Seq<Seq<char>>,
    prev: Seq<OmoOperationFacts>,
    f: F,
) -> Result<OmoOperationFacts, Fault> {
    match date_at(row, 0) {
        Err(e) => Err(e),
        Ok(date) => match code_at(row, 1) {
            Err(e) => Err(e),
            Ok(op_type) => if exists|j: int|
                0 <= j < prev.len() && (#[trigger] prev[j]).0 == date && prev[j].1 == op_type {
                Err(
                    (
                        EastMoneyErrorKind::SemanticallyRejected,
                        duplicate_reason("date + op_type"@, prev.len() + 1int),
                    ),
                )
            } else {
                match term_at(row, 2) {
                    Err(e) => Err(e),
                    Ok(term) => match values_at(row, 3, 3, f) {
                        Err(e) => Err(e),
                        Ok(vs) => match unit_at(row, 6) {
                            Err(e) => Err(e),
                            Ok(unit) => Ok((date, op_type, term, vs, unit)),
                        },
                    },
                }
            },
        },
    }
}

/// The open market operation table outcome of a CSV text.
pub open spec fn omo_operation_outcome<F: Fn(&str) -> Option<u64>>(input: Seq<char>, f: F) -> Result<
    Seq<OmoOperationFacts>,
    Fault,
> {
    match data_rows(input, omo_operation_header()) {
        Err(e) => Err(e),
        Ok(rows) => fold_rows(rows, |row: Seq<Seq<char>>, prev| omo_operation_row(row, prev, f)),
    }
}

#[verifier::loop_isolation(false)]
fn omo_operation_row_in<F: Fn(&str) -> Option<u64>>(
    row: &Vec<String>,
    prev: &Vec<EastMoneyOmoOperation>,
    index: usize,
    number: &F,
) -> (r: EastMoneyResult<EastMoneyOmoOperation>)
    requires
        reads_numbers(*number),
        index == prev.len(),
        index < usize::MAX,
    ensures
        r matches Ok(o) ==> omo_operation_row(
            record_view(*row),
            prev@.map_values(|p: EastMoneyOmoOperation| omo_operation_facts(p)),
            *number,
        ) == Ok::<_, Fault>(omo_operation_facts(o)) && o.frequency
            == Frequency::Event && o.revision is None,
        r matches Err(e) ==> omo_operation_row(
            record_view(*row),
            prev@.map_values(|p: EastMoneyOmoOperation| omo_operation_facts(p)),
            *number,
        ) == Err::<OmoOperationFacts, _>(fault_of(e)),
{
    let ghost facts = prev@.map_values(|p: EastMoneyOmoOperation| omo_operation_facts(p));
    let date = date_in(row, 0)?;
    let op_type = code_in(row, 1)?;
    let mut j: usize = 0;
    while j < prev.len()
        invariant
            j <= prev.len(),
            forall|k: int| 0 <= k < j ==> !((#[trigger] facts[k]).0 == date && facts[k].1 == op_type@),
        decreases prev.len() - j,
    {
        assert(facts[j as int] == omo_operation_facts(prev@[j as int]));
        if prev[j].date == date && same_text(prev[j].op_type.as_str(), op_type.as_str()) {
            return Err(duplicate_identity(index, "date + op_type"));
        }
        j = j + 1;
    }
    let term_days = term_in(row, 2)?;
    let values = values_in(row, 3, 3, number)?;
    let unit = unit_in(row, 6)?;
    assert(values@ == seq![values@[0], values@[1], values@[2]]);
    Ok(
        EastMoneyOmoOperation {
            date,
            op_type,
            term_days,
            amount: values[0],
            rate: values[1],
            net_injection: values[2],
            unit,
            frequency: Frequency::Event,
            revision: None,
        },
    )
}

/// Turn interbank rate data rows into observations; the exact outcome is `fold_rows`
/// of the rows with `interbank_rate_row`.
pub fn interbank_rates_from_rows<F: Fn(&str) -> Option<u64>>(
    rows: &Vec<Vec<String>>,
    number: &F,
) -> (r: EastMoneyResult<Vec<EastMoneyInterbankRate>>)
    requires
        reads_numbers(*number),
    ensures
        ({
            let outcome = fold_rows(
                records_view(rows@),
                |row: Seq<Seq<char>>, prev| interbank_rate_row(row, prev, *number),
            );
            &&& r is Ok <==> outcome is Ok
            &&& r matches Ok(out) ==> outcome == Ok::<_, Fault>(
                out@.map_values(|p: EastMoneyInterbankRate| interbank_rate_facts(p)),
            ) && forall|i: int|
                0 <= i < out@.len() ==> (#[trigger] out@[i]).frequency == Frequency::Daily
                    && out@[i].revision is None
            &&& r matches Err(e) ==> outcome == Err::<Seq<InterbankRateFacts>, _>(fault_of(e))
        }),
{
    let ghost rv = records_view(rows@);
    let ghost step = |row: Seq<Seq<char>>, prev| interbank_rate_row(row, prev, *number);
    let mut out: Vec<EastMoneyInterbankRate> = Vec::new();
    let mut i: usize = 0;
    assert(rv.take(0).len() == 0);
    assert(out@.map_values(|p: EastMoneyInterbankRate| interbank_rate_facts(p)) =~= Seq::<InterbankRateFacts>::empty());
    while i < rows.len()
        invariant
            reads_numbers(*number),
            rv == records_view(rows@),
            step == (|row: Seq<Seq<char>>, prev| interbank_rate_row(row, prev, *number)),
            i <= rows.len(),
            out.len() == i,
            fold_rows(rv.take(i as int), step) == Ok::<_, Fault>(
                out@.map_values(|p: EastMoneyInterbankRate| interbank_rate_facts(p)),
            ),
            forall|k: int|
                0 <= k < out@.len() ==> (#[trigger] out@[k]).frequency == Frequency::Daily
                    && out@[k].revision is None,
        decreases rows.len() - i,
    {
        proof {
            lemma_fold_take_next(rv, step, i as int);
        }
        match interbank_rate_row_in(&rows[i], &out, i, number) {
            Ok(o) => {
                let ghost before = out@;
                out.push(o);
                assert(out@.map_values(|p: EastMoneyInterbankRate| interbank_rate_facts(p)) =~= before.map_values(
                    |p: EastMoneyInterbankRate| interbank_rate_facts(p),
                ).push(interbank_rate_facts(o)));
            },
            Err(e) => {
                proof {
                    lemma_fold_err_persists(rv, step, i + 1);
                }
                return Err(e);
            },
        }
        i = i + 1;
    }
    assert(rv.take(rows.len() as int) == rv);
    Ok(out)
}

/// Parse a interbank rate CSV (header `period,series,rate,change_bp,unit`).
///
/// A header that differs, a missing field, an illegal value, a duplicate
/// identity or a failed check refuses the whole text. `number` turns a numeric
/// cell into a binary64 bit pattern (`None` when the text is no number).
pub fn parse_eastmoney_interbank_rates<F: Fn(&str) -> Option<u64>>(input: &str, number: F) -> (r: EastMoneyResult<
    Vec<EastMoneyInterbankRate>,
>)
    requires
        reads_numbers(number),
    ensures
        ({
            let outcome = interbank_rate_outcome(input@, number);
            &&& r is Ok <==> outcome is Ok
            &&& r matches Ok(out) ==> outcome == Ok::<_, Fault>(
                out@.map_values(|p: EastMoneyInterbankRate| interbank_rate_facts(p)),
            ) && forall|i: int|
                0 <= i < out@.len() ==> (#[trigger] out@[i]).frequency == Frequency::Daily
                    && out@[i].revision is None
            &&& r matches Err(e) ==> outcome == Err::<Seq<InterbankRateFacts>, _>(fault_of(e))
        }),
{
    let header: [&str; 5] = ["period", "series", "rate", "change_bp", "unit"];
    assert(header_view(header@) =~= interbank_rate_header());
    let rows = read_rows(input, &header)?;
    interbank_rates_from_rows(&rows, &number)
}

/// Turn aggregate financing data rows into observations; the exact outcome is `fold_rows`
/// of the rows with `aggregate_financing_row`.
pub fn aggregate_financing_from_rows<F: Fn(&str) -> Option<u64>>(
    rows: &Vec<Vec<String>>,
    number: &F,
) -> (r: EastMoneyResult<Vec<EastMoneyAggregateFinancing>>)
    requires
        reads_numbers(*number),
    ensures
        ({
            let outcome = fold_rows(
                records_view(rows@),
                |row: Seq<Seq<char>>, prev| aggregate_financing_row(row, prev, *number),
            );
            &&& r is Ok <==> outcome is Ok
            &&& r matches Ok(out) ==> outcome == Ok::<_, Fault>(
                out@.map_values(|p: EastMoneyAggregateFinancing| aggregate_financing_facts(p)),
            ) && forall|i: int|
                0 <= i < out@.len() ==> (#[trigger] out@[i]).frequency == Frequency::Monthly
                    && out@[i].revision is None
            &&& r matches Err(e) ==> outcome == Err::<Seq<AggregateFinancingFacts>, _>(fault_of(e))
        }),
{
    let ghost rv = records_view(rows@);
    let ghost step = |row: Seq<Seq<char>>, prev| aggregate_financing_row(row, prev, *number);
    let mut out: Vec<EastMoneyAggregateFinancing> = Vec::new();
    let mut i: usize = 0;
    assert(rv.take(0).len() == 0);
    assert(out@.map_values(|p: EastMoneyAggregateFinancing| aggregate_financing_facts(p)) =~= Seq::<AggregateFinancingFacts>::empty());
    while i < rows.len()
        invariant
            reads_numbers(*number),
            rv == records_view(rows@),
            step == (|row: Seq<Seq<char>>, prev| aggregate_financing_row(row, prev, *number)),
            i <= rows.len(),
            out.len() == i,
            fold_rows(rv.take(i as int), step) == Ok::<_, Fault>(
                out@.map_values(|p: EastMoneyAggregateFinancing| aggregate_financing_facts(p)),
            ),
            forall|k: int|
                0 <= k < out@.len() ==> (#[trigger] out@[k]).frequency == Frequency::Monthly
                    && out@[k].revision is None,
        decreases rows.len() - i,
    {
        proof {
            lemma_fold_take_next(rv, step, i as int);
        }
        match aggregate_financing_row_in(&rows[i], &out, i, number) {
            Ok(o) => {
                let ghost before = out@;
                out.push(o);
                assert(out@.map_values(|p: EastMoneyAggregateFinancing| aggregate_financing_facts(p)) =~= before.map_values(
                    |p: EastMoneyAggregateFinancing| aggregate_financing_facts(p),
                ).push(aggregate_financing_facts(o)));
            },
            Err(e) => {
                proof {
                    lemma_fold_err_persists(rv, step, i + 1);
                }
                return Err(e);
            },
        }
        i = i + 1;
    }
    assert(rv.take(rows.len() as int) == rv);
    Ok(out)
}

/// Parse a aggregate financing CSV (header `series,period,increment,stock,yoy,unit`).
///
/// A header that differs, a missing field, an illegal value, a duplicate
/// identity or a failed check refuses the whole text. `number` turns a numeric
/// cell into a binary64 bit pattern (`None` when the text is no number).
pub fn parse_eastmoney_aggregate_financing<F: Fn(&str) -> Option<u64>>(input: &str, number: F) -> (r: EastMoneyResult<
    Vec<EastMoneyAggregateFinancing>,
>)
    requires
        reads_numbers(number),
    ensures
        ({
            let outcome = aggregate_financing_outcome(input@, number);
            &&& r is Ok <==> outcome is Ok
            &&& r matches Ok(out) ==> outcome == Ok::<_, Fault>(
                out@.map_values(|p: EastMoneyAggregateFinancing| aggregate_financing_facts(p)),
            ) && forall|i: int|
                0 <= i < out@.len() ==> (#[trigger] out@[i]).frequency == Frequency::Monthly
                    && out@[i].revision is None
            &&& r matches Err(e) ==> outcome == Err::<Seq<AggregateFinancingFacts>, _>(fault_of(e))
        }),
{
    let header: [&str; 6] = ["series", "period", "increment", "stock", "yoy", "unit"];
    assert(header_view(header@) =~= aggregate_financing_header());
    let rows = read_rows(input, &header)?;
    aggregate_financing_from_rows(&rows, &number)
}

/// Turn northbound flow data rows into observations; the exact outcome is `fold_rows`
/// of the rows with `northbound_flow_row`.
pub fn northbound_flows_from_rows<F: Fn(&str) -> Option<u64>>(
    rows: &Vec<Vec<String>>,
    number: &F,
) -> (r: EastMoneyResult<Vec<EastMoneyNorthboundFlow>>)
    requires
        reads_numbers(*number),
    ensures
        ({
            let outcome = fold_rows(
                records_view(rows@),
                |row: Seq<Seq<char>>, prev| northbound_flow_row(row, prev, *number),
            );
            &&& r is Ok <==> outcome is Ok
            &&& r matches Ok(out) ==> outcome == Ok::<_, Fault>(
                out@.map_values(|p: EastMoneyNorthboundFlow| northbound_flow_facts(p)),
            ) && forall|i: int|
                0 <= i < out@.len() ==> (#[trigger] out@[i]).frequency == Frequency::Daily
                    && out@[i].revision is None
            &&& r matches Err(e) ==> outcome == Err::<Seq<NorthboundFlowFacts>, _>(fault_of(e))
        }),
{
    let ghost rv = records_view(rows@);
    let ghost step = |row: Seq<Seq<char>>, prev| northbound_flow_row(row, prev, *number);
    let mut out: Vec<EastMoneyNorthboundFlow> = Vec::new();
    let mut i: usize = 0;
    assert(rv.take(0).len() == 0);
    assert(out@.map_values(|p: EastMoneyNorthboundFlow| northbound_flow_facts(p)) =~= Seq::<NorthboundFlowFacts>::empty());
    while i < rows.len()
        invariant
            reads_numbers(*number),
            rv == records_view(rows@),
            step == (|row: Seq<Seq<char>>, prev| northbound_flow_row(row, prev, *number)),
            i <= rows.len(),
            out.len() == i,
            fold_rows(rv.take(i as int), step) == Ok::<_, Fault>(
                out@.map_values(|p: EastMoneyNorthboundFlow| northbound_flow_facts(p)),
            ),
            forall|k: int|
                0 <= k < out@.len() ==> (#[trigger] out@[k]).frequency == Frequency::Daily
                    && out@[k].revision is None,
        decreases rows.len() - i,
    {
        proof {
            lemma_fold_take_next(rv, step, i as int);
        }
        match northbound_flow_row_in(&rows[i], &out, i, number) {
            Ok(o) => {
                let ghost before = out@;
                out.push(o);
                assert(out@.map_values(|p: EastMoneyNorthboundFlow| northbound_flow_facts(p)) =~= before.map_values(
                    |p: EastMoneyNorthboundFlow| northbound_flow_facts(p),
                ).push(northbound_flow_facts(o)));
            },
            Err(e) => {
                proof {
                    lemma_fold_err_persists(rv, step, i + 1);
                }
                return Err(e);
            },
        }
        i = i + 1;
    }
    assert(rv.take(rows.len() as int) == rv);
    Ok(out)
}

/// Parse a northbound flow CSV (header `date,sh_net,sz_net,total_net,balance,unit`).
///
/// A header that differs, a missing field, an illegal value, a duplicate
/// identity or a failed check refuses the whole text. `number` turns a numeric
/// cell into a binary64 bit pattern (`None` when the text is no number).
pub fn parse_eastmoney_northbound_flows<F: Fn(&str) -> Option<u64>>(input: &str, number: F) -> (r: EastMoneyResult<
    Vec<EastMoneyNorthboundFlow>,
>)
    requires
        reads_numbers(number),
    ensures
        ({
            let outcome = northbound_flow_outcome(input@, number);
            &&& r is Ok <==> outcome is Ok
            &&& r matches Ok(out) ==> outcome == Ok::<_, Fault>(
                out@.map_values(|p: EastMoneyNorthboundFlow| northbound_flow_facts(p)),
            ) && forall|i: int|
                0 <= i < out@.len() ==> (#[trigger] out@[i]).frequency == Frequency::Daily
                    && out@[i].revision is None
            &&& r matches Err(e) ==> outcome == Err::<Seq<NorthboundFlowFacts>, _>(fault_of(e))
        }),
{
    let header: [&str; 6] = ["date", "sh_net", "sz_net", "total_net", "balance", "unit"];
    assert(header_view(header@) =~= northbound_flow_header());
    let rows = read_rows(input, &header)?;
    northbound_flows_from_rows(&rows, &number)
}

/// Turn open market operation data rows into observations; the exact outcome is `fold_rows`
/// of the rows with `omo_operation_row`.
pub fn omo_operations_from_rows<F: Fn(&str) -> Option<u64>>(
    rows: &Vec<Vec<String>>,
    number: &F,
) -> (r: EastMoneyResult<Vec<EastMoneyOmoOperation>>)
    requires
        reads_numbers(*number),
    ensures
        ({
            let outcome = fold_rows(
                records_view(rows@),
                |row: Seq<Seq<char>>, prev| omo_operation_row(row, prev, *number),
            );
            &&& r is Ok <==> outcome is Ok
            &&& r matches Ok(out) ==> outcome == Ok::<_, Fault>(
                out@.map_values(|p: EastMoneyOmoOperation| omo_operation_facts(p)),
            ) && forall|i: int|
                0 <= i < out@.len() ==> (#[trigger] out@[i]).frequency == Frequency::Event
                    && out@[i].revision is None
            &&& r matches Err(e) ==> outcome == Err::<Seq<OmoOperationFacts>, _>(fault_of(e))
        }),
{
    let ghost rv = records_view(rows@);
    let ghost step = |row: Seq<Seq<char>>, prev| omo_operation_row(row, prev, *number);
    let mut out: Vec<EastMoneyOmoOperation> = Vec::new();
    let mut i: usize = 0;
    assert(rv.take(0).len() == 0);
    assert(out@.map_values(|p: EastMoneyOmoOperation| omo_operation_facts(p)) =~= Seq::<OmoOperationFacts>::empty());
    while i < rows.len()
        invariant
            reads_numbers(*number),
            rv == records_view(rows@),
            step == (|row: Seq<Seq<char>>, prev| omo_operation_row(row, prev, *number)),
            i <= rows.len(),
            out.len() == i,
            fold_rows(rv.take(i as int), step) == Ok::<_, Fault>(
                out@.map_values(|p: EastMoneyOmoOperation| omo_operation_facts(p)),
            ),
            forall|k: int|
                0 <= k < out@.len() ==> (#[trigger] out@[k]).frequency == Frequency::Event
                    && out@[k].revision is None,
        decreases rows.len() - i,
    {
        proof {
            lemma_fold_take_next(rv, step, i as int);
        }
        match omo_operation_row_in(&rows[i], &out, i, number) {
            Ok(o) => {
                let ghost before = out@;
                out.push(o);
                assert(out@.map_values(|p: EastMoneyOmoOperation| omo_operation_facts(p)) =~= before.map_values(
                    |p: EastMoneyOmoOperation| omo_operation_facts(p),
                ).push(omo_operation_facts(o)));
            },
            Err(e) => {
                proof {
                    lemma_fold_err_persists(rv, step, i + 1);
                }
                return Err(e);
            },
        }
        i = i + 1;
    }
    assert(rv.take(rows.len() as int) == rv);
    Ok(out)
}

/// Parse a open market operation CSV (header `date,op_type,term_days,amount,rate,net_injection,unit`).
///
/// A header that differs, a missing field, an illegal value, a duplicate
/// identity or a failed check refuses the whole text. `number` turns a numeric
/// cell into a binary64 bit pattern (`None` when the text is no number).
pub fn parse_eastmoney_omo_operations<F: Fn(&str) -> Option<u64>>(input: &str, number: F) -> (r: EastMoneyResult<
    Vec<EastMoneyOmoOperation>,
>)
    requires
        reads_numbers(number),
    ensures
        ({
            let outcome = omo_operation_outcome(input@, number);
            &&& r is Ok <==> outcome is Ok
            &&& r matches Ok(out) ==> outcome == Ok::<_, Fault>(
                out@.map_values(|p: EastMoneyOmoOperation| omo_operation_facts(p)),
            ) && forall|i: int|
                0 <= i < out@.len() ==> (#[trigger] out@[i]).frequency == Frequency::Event
                    && out@[i].revision is None
            &&& r matches Err(e) ==> outcome == Err::<Seq<OmoOperationFacts>, _>(fault_of(e))
        }),
{
    let header: [&str; 7] = ["date", "op_type", "term_days", "amount", "rate", "net_injection", "unit"];
    assert(header_view(header@) =~= omo_operation_header());
    let rows = read_rows(input, &header)?;
    omo_operations_from_rows(&rows, &number)
}

// ---------------------------------------------------------------------------
// Laws of the parsers
// ---------------------------------------------------------------------------

/// The fault of a text whose first record fails the header check.
pub open spec fn header_fault(input: Seq<char>, header: Seq<Seq<char>>) -> Fault {
    (EastMoneyErrorKind::Invalid, header_verdict(csv_records(input)->Ok_0[0], header)->Err_0)
}

/// The header is strict: a text whose first record is not exactly the
/// expected header (an extra, missing, renamed or reordered column) is refused
/// as `Invalid` by every parser, whatever its data rows hold, with a reason
/// that gives counts or a position and never a cell.
pub proof fn lemma_header_is_strict<F: Fn(&str) -> Option<u64>>(input: Seq<char>, f: F)
    requires
        csv_records(input) is Ok,
        csv_records(input)->Ok_0.len() > 0,
    ensures
        csv_records(input)->Ok_0[0] != money_supply_header() ==> money_supply_outcome(input, f)
            == Err::<Seq<MoneySupplyFacts>, _>(header_fault(input, money_supply_header())),
        csv_records(input)->Ok_0[0] != interbank_rate_header() ==> interbank_rate_outcome(input, f)
            == Err::<Seq<InterbankRateFacts>, _>(header_fault(input, interbank_rate_header())),
        csv_records(input)->Ok_0[0] != aggregate_financing_header() ==> aggregate_financing_outcome(
            input,
            f,
        ) == Err::<Seq<AggregateFinancingFacts>, _>(
            header_fault(input, aggregate_financing_header()),
        ),
        csv_records(input)->Ok_0[0] != northbound_flow_header() ==> northbound_flow_outcome(
            input,
            f,
        ) == Err::<Seq<NorthboundFlowFacts>, _>(header_fault(input, northbound_flow_header())),
        csv_records(input)->Ok_0[0] != omo_operation_header() ==> omo_operation_outcome(input, f)
            == Err::<Seq<OmoOperationFacts>, _>(header_fault(input, omo_operation_header())),
{
}

/// An accepted money supply table holds one observation per data row and
/// never two with the same `series + period`.
pub proof fn lemma_money_supply_identities_unique<F: Fn(&str) -> Option<u64>>(
    input: Seq<char>,
    f: F,
)
    ensures
        money_supply_outcome(input, f) matches Ok(xs) ==> {
            &&& xs.len() == data_rows(input, money_supply_header())->Ok_0.len()
            &&& forall|i: int, j: int|
                0 <= i < j < xs.len() ==> !((#[trigger] xs[i]).0 == (#[trigger] xs[j]).0 && xs[i].1
                    == xs[j].1)
        },
{
    if let Ok(rows) = data_rows(input, money_supply_header()) {
        let step = |row: Seq<Seq<char>>, prev| money_supply_row(row, prev, f);
        lemma_fold_len(rows, step);
        if let Ok(xs) = fold_rows(rows, step) {
            assert forall|i: int, j: int| 0 <= i < j < xs.len() implies !((#[trigger] xs[i]).0 == (
            #[trigger] xs[j]).0 && xs[i].1 == xs[j].1) by {
                lemma_fold_each_step(rows, step, j);
                assert(xs.take(j)[i] == xs[i]);
            }
        }
    }
}

/// An accepted interbank rate table holds one observation per data row, each
/// with a daily period, and never two with the same `series + period`.
pub proof fn lemma_interbank_rate_identities_unique<F: Fn(&str) -> Option<u64>>(
    input: Seq<char>,
    f: F,
)
    ensures
        interbank_rate_outcome(input, f) matches Ok(xs) ==> {
            &&& xs.len() == data_rows(input, interbank_rate_header())->Ok_0.len()
            &&& forall|i: int| 0 <= i < xs.len() ==> (#[trigger] xs[i]).1 is Day
            &&& forall|i: int, j: int|
                0 <= i < j < xs.len() ==> !((#[trigger] xs[i]).0 == (#[trigger] xs[j]).0 && xs[i].1
                    == xs[j].1)
        },
{
    if let Ok(rows) = data_rows(input, interbank_rate_header()) {
        let step = |row: Seq<Seq<char>>, prev| interbank_rate_row(row, prev, f);
        lemma_fold_len(rows, step);
        if let Ok(xs) = fold_rows(rows, step) {
            assert forall|i: int| 0 <= i < xs.len() implies (#[trigger] xs[i]).1 is Day by {
                lemma_fold_each_step(rows, step, i);
            }
            assert forall|i: int, j: int| 0 <= i < j < xs.len() implies !((#[trigger] xs[i]).0 == (
            #[trigger] xs[j]).0 && xs[i].1 == xs[j].1) by {
                lemma_fold_each_step(rows, step, j);
                assert(xs.take(j)[i] == xs[i]);
            }
        }
    }
}

/// An accepted aggregate financing table holds one observation per data row
/// and never two with the same `series + period`.
pub proof fn lemma_aggregate_financing_identities_unique<F: Fn(&str) -> Option<u64>>(
    input: Seq<char>,
    f: F,
)
    ensures
        aggregate_financing_outcome(input, f) matches Ok(xs) ==> {
            &&& xs.len() == data_rows(input, aggregate_financing_header())->Ok_0.len()
            &&& forall|i: int, j: int|
                0 <= i < j < xs.len() ==> !((#[trigger] xs[i]).0 == (#[trigger] xs[j]).0 && xs[i].1
                    == xs[j].1)
        },
{
    if let Ok(rows) = data_rows(input, aggregate_financing_header()) {
        let step = |row: Seq<Seq<char>>, prev| aggregate_financing_row(row, prev, f);
        lemma_fold_len(rows, step);
        if let Ok(xs) = fold_rows(rows, step) {
            assert forall|i: int, j: int| 0 <= i < j < xs.len() implies !((#[trigger] xs[i]).0 == (
            #[trigger] xs[j]).0 && xs[i].1 == xs[j].1) by {
                lemma_fold_each_step(rows, step, j);
                assert(xs.take(j)[i] == xs[i]);
            }
        }
    }
}

/// An accepted northbound flow table holds one observation per data row and
/// never two on the same date.
pub proof fn lemma_northbound_flow_identities_unique<F: Fn(&str) -> Option<u64>>(
    input: Seq<char>,
    f: F,
)
    ensures
        northbound_flow_outcome(input, f) matches Ok(xs) ==> {
            &&& xs.len() == data_rows(input, northbound_flow_header())->Ok_0.len()
            &&& forall|i: int, j: int|
                0 <= i < j < xs.len() ==> (#[trigger] xs[i]).0 != (#[trigger] xs[j]).0
        },
{
    if let Ok(rows) = data_rows(input, northbound_flow_header()) {
        let step = |row: Seq<Seq<char>>, prev| northbound_flow_row(row, prev, f);
        lemma_fold_len(rows, step);
        if let Ok(xs) = fold_rows(rows, step) {
            assert forall|i: int, j: int| 0 <= i < j < xs.len() implies (#[trigger] xs[i]).0 != (
            #[trigger] xs[j]).0 by {
                lemma_fold_each_step(rows, step, j);
                assert(xs.take(j)[i] == xs[i]);
            }
        }
    }
}

/// An accepted open market operation table holds one observation per data row
/// and never two with the same `date + op_type`.
pub proof fn lemma_omo_operation_identities_unique<F: Fn(&str) -> Option<u64>>(
    input: Seq<char>,
    f: F,
)
    ensures
        omo_operation_outcome(input, f) matches Ok(xs) ==> {
            &&& xs.len() == data_rows(input, omo_operation_header())->Ok_0.len()
            &&& forall|i: int, j: int|
                0 <= i < j < xs.len() ==> !((#[trigger] xs[i]).0 == (#[trigger] xs[j]).0 && xs[i].1
                    == xs[j].1)
        },
{
    if let Ok(rows) = data_rows(input, omo_operation_header()) {
        let step = |row: Seq<Seq<char>>, prev| omo_operation_row(row, prev, f);
        lemma_fold_len(rows, step);
        if let Ok(xs) = fold_rows(rows, step) {
            assert forall|i: int, j: int| 0 <= i < j < xs.len() implies !((#[trigger] xs[i]).0 == (
            #[trigger] xs[j]).0 && xs[i].1 == xs[j].1) by {
                lemma_fold_each_step(rows, step, j);
                assert(xs.take(j)[i] == xs[i]);
            }
        }
    }
}

/// Accepted numeric cells are legal values: as many as asked for, each either
/// a named gap or a finite number.
pub proof fn lemma_values_are_legal<F: Fn(&str) -> Option<u64>>(
    row: Seq<Seq<char>>,
    start: int,
    n: nat,
    f: F,
)
    ensures
        values_at(row, start, n, f) matches Ok(vs) ==> vs.len() == n && forall|j: int|
            0 <= j < n ==> (#[trigger] vs[j]).legal(),
    decreases n,
{
    if n > 0 {
        lemma_values_are_legal(row, start, (n - 1) as nat, f);
    }
}

/// Every money supply observation that the parser accepts passes
/// `validate_money_supply`.
pub proof fn lemma_parsed_money_supply_validates<F: Fn(&str) -> Option<u64>>(
    input: Seq<char>,
    f: F,
    out: Seq<EastMoneyMoneySupply>,
)
    requires
        money_supply_outcome(input, f) == Ok::<_, Fault>(
            out.map_values(|p: EastMoneyMoneySupply| money_supply_facts(p)),
        ),
        forall|i: int|
            0 <= i < out.len() ==> (#[trigger] out[i]).frequency == Frequency::Monthly
                && out[i].revision is None,
    ensures
        forall|i: int| 0 <= i < out.len() ==> money_supply_verdict(#[trigger] out[i]) is Ok,
{
    let rows = data_rows(input, money_supply_header())->Ok_0;
    let step = |row: Seq<Seq<char>>, prev| money_supply_row(row, prev, f);
    let xs = out.map_values(|p: EastMoneyMoneySupply| money_supply_facts(p));
    lemma_fold_len(rows, step);
    assert forall|i: int| 0 <= i < out.len() implies money_supply_verdict(#[trigger] out[i]) is Ok by {
        lemma_fold_each_step(rows, step, i);
        lemma_values_are_legal(rows[i], 2, 6, f);
        assert(xs[i] == money_supply_facts(out[i]));
        let vs = xs[i].2;
        assert(vs[0] == out[i].m0 && vs[1] == out[i].m1 && vs[2] == out[i].m2);
        assert(vs[3] == out[i].m0_yoy && vs[4] == out[i].m1_yoy && vs[5] == out[i].m2_yoy);
    }
}

// ---------------------------------------------------------------------------
// What an accepted table holds, and which tables are accepted
// ---------------------------------------------------------------------------

/// Whether the numeric cells `start .. start + n` of a row are all legal.
pub open spec fn values_ok<F: Fn(&str) -> Option<u64>>(
    row: Seq<Seq<char>>,
    start: int,
    n: int,
    f: F,
) -> bool {
    forall|k: int| start <= k < start + n ==> (#[trigger] value_at(row, k, f)) is Ok
}

/// Reading numeric cells as a block is reading them one by one: the block is
/// accepted exactly when every cell is, and then holds each cell's value in
/// column order.
pub proof fn lemma_values_at_cells<F: Fn(&str) -> Option<u64>>(
    row: Seq<Seq<char>>,
    start: int,
    n: nat,
    f: F,
)
    ensures
        values_at(row, start, n, f) is Ok <==> values_ok(row, start, n as int, f),
        values_at(row, start, n, f) matches Ok(vs) ==> vs.len() == n && forall|k: int|
            start <= k < start + n ==> #[trigger] value_at(row, k, f) == Ok::<_, Fault>(
                vs[k - start],
            ),
    decreases n,
{
    if n > 0 {
        lemma_values_at_cells(row, start, (n - 1) as nat, f);
        if values_ok(row, start, n as int, f) {
            assert(value_at(row, start + n - 1, f) is Ok);
        }
    }
}

/// A fold in which every row, given the facts of all rows before it, yields
/// `g` of that row accepts the whole table with `g` of each row.
pub proof fn lemma_fold_accepts_every_row<T>(
    rows: Seq<Seq<Seq<char>>>,
    step: spec_fn(Seq<Seq<char>>, Seq<T>) -> Result<T, Fault>,
    g: spec_fn(Seq<Seq<char>>) -> T,
)
    requires
        forall|k: int|
            0 <= k < rows.len() ==> step(#[trigger] rows[k], Seq::new(k as nat, |i: int| g(rows[i])))
                == Ok::<T, Fault>(g(rows[k])),
    ensures
        fold_rows(rows, step) == Ok::<Seq<T>, Fault>(Seq::new(rows.len(), |i: int| g(rows[i]))),
    decreases rows.len(),
{
    if rows.len() == 0 {
        assert(Seq::new(rows.len(), |i: int| g(rows[i])) =~= Seq::<T>::empty());
    } else {
        let r = rows.drop_last();
        assert forall|k: int| 0 <= k < r.len() implies step(
            #[trigger] r[k],
            Seq::new(k as nat, |i: int| g(r[i])),
        ) == Ok::<T, Fault>(g(r[k])) by {
            assert(Seq::new(k as nat, |i: int| g(r[i])) =~= Seq::new(k as nat, |i: int| g(rows[i])));
            assert(step(rows[k], Seq::new(k as nat, |i: int| g(rows[i]))) == Ok::<T, Fault>(
                g(rows[k]),
            ));
        }
        lemma_fold_accepts_every_row(r, step, g);
        let k = rows.len() - 1;
        assert(Seq::new(r.len(), |i: int| g(r[i])) =~= Seq::new(k as nat, |i: int| g(rows[i])));
        assert(step(rows[k], Seq::new(k as nat, |i: int| g(rows[i]))) == Ok::<T, Fault>(g(rows[k])));
        assert(Seq::new(rows.len(), |i: int| g(rows[i])) =~= Seq::new(k as nat, |i: int| g(rows[i])).push(
            g(rows[k]),
        ));
    }
}

/// In an accepted northbound flow table, observation `i` is data row `i` read
/// column by column in header order: date, sh_net, sz_net, total_net,
/// balance, unit.
pub proof fn lemma_northbound_flow_columns<F: Fn(&str) -> Option<u64>>(
    input: Seq<char>,
    f: F,
    out: Seq<EastMoneyNorthboundFlow>,
)
    requires
        northbound_flow_outcome(input, f) == Ok::<_, Fault>(
            out.map_values(|p: EastMoneyNorthboundFlow| northbound_flow_facts(p)),
        ),
    ensures
        ({
            let rows = data_rows(input, northbound_flow_header())->Ok_0;
            &&& out.len() == rows.len()
            &&& forall|i: int|
                0 <= i < out.len() ==> {
                    &&& date_at(rows[i], 0) == Ok::<_, Fault>((#[trigger] out[i]).date)
                    &&& value_at(rows[i], 1, f) == Ok::<_, Fault>(out[i].sh_net)
                    &&& value_at(rows[i], 2, f) == Ok::<_, Fault>(out[i].sz_net)
                    &&& value_at(rows[i], 3, f) == Ok::<_, Fault>(out[i].total_net)
                    &&& value_at(rows[i], 4, f) == Ok::<_, Fault>(out[i].balance)
                    &&& unit_at(rows[i], 5) == Ok::<_, Fault>(out[i].unit)
                }
        }),
{
    let rows = data_rows(input, northbound_flow_header())->Ok_0;
    let step = |row: Seq<Seq<char>>, prev| northbound_flow_row(row, prev, f);
    let xs = out.map_values(|p: EastMoneyNorthboundFlow| northbound_flow_facts(p));
    lemma_fold_len(rows, step);
    assert forall|i: int| 0 <= i < out.len() implies {
        &&& date_at(rows[i], 0) == Ok::<_, Fault>((#[trigger] out[i]).date)
        &&& value_at(rows[i], 1, f) == Ok::<_, Fault>(out[i].sh_net)
        &&& value_at(rows[i], 2, f) == Ok::<_, Fault>(out[i].sz_net)
        &&& value_at(rows[i], 3, f) == Ok::<_, Fault>(out[i].total_net)
        &&& value_at(rows[i], 4, f) == Ok::<_, Fault>(out[i].balance)
        &&& unit_at(rows[i], 5) == Ok::<_, Fault>(out[i].unit)
    } by {
        lemma_fold_each_step(rows, step, i);
        lemma_values_at_cells(rows[i], 1, 4, f);
        assert(xs[i] == northbound_flow_facts(out[i]));
    }
}

/// A northbound flow table whose data rows each hold a date, four legal
/// numeric cells and a unit, on pairwise different dates, is accepted with one
/// observation per data row.
pub proof fn lemma_northbound_flow_accepts<F: Fn(&str) -> Option<u64>>(input: Seq<char>, f: F)
    requires
        data_rows(input, northbound_flow_header()) is Ok,
        ({
            let rows = data_rows(input, northbound_flow_header())->Ok_0;
            &&& forall|i: int|
                0 <= i < rows.len() ==> {
                    &&& date_at(#[trigger] rows[i], 0) is Ok
                    &&& values_ok(rows[i], 1, 4, f)
                    &&& unit_at(rows[i], 5) is Ok
                }
            &&& forall|i: int, j: int|
                0 <= i < j < rows.len() ==> date_at(#[trigger] rows[i], 0) != date_at(
                    #[trigger] rows[j],
                    0,
                )
        }),
    ensures
        northbound_flow_outcome(input, f) matches Ok(xs) && xs.len() == data_rows(
            input,
            northbound_flow_header(),
        )->Ok_0.len(),
{
    let rows = data_rows(input, northbound_flow_header())->Ok_0;
    let step = |row: Seq<Seq<char>>, prev| northbound_flow_row(row, prev, f);
    let g = |row: Seq<Seq<char>>|
        (date_at(row, 0)->Ok_0, values_at(row, 1, 4, f)->Ok_0, unit_at(row, 5)->Ok_0);
    assert forall|k: int| 0 <= k < rows.len() implies step(
        #[trigger] rows[k],
        Seq::new(k as nat, |i: int| g(rows[i])),
    ) == Ok::<NorthboundFlowFacts, Fault>(g(rows[k])) by {
        let prev = Seq::new(k as nat, |i: int| g(rows[i]));
        lemma_values_at_cells(rows[k], 1, 4, f);
        let date = date_at(rows[k], 0)->Ok_0;
        if exists|j: int| 0 <= j < prev.len() && (#[trigger] prev[j]).0 == date {
            let j = choose|j: int| 0 <= j < prev.len() && (#[trigger] prev[j]).0 == date;
            assert(date_at(rows[j], 0) != date_at(rows[k], 0));
        }
    }
    lemma_fold_accepts_every_row(rows, step, g);
}


/// In an accepted money supply table, observation `i` is data row `i` read
/// column by column in header order: series, period, m0, m1, m2, m0_yoy,
/// m1_yoy, m2_yoy, unit.
pub proof fn lemma_money_supply_columns<F: Fn(&str) -> Option<u64>>(
    input: Seq<char>,
    f: F,
    out: Seq<EastMoneyMoneySupply>,
)
    requires
        money_supply_outcome(input, f) == Ok::<_, Fault>(
            out.map_values(|p: EastMoneyMoneySupply| money_supply_facts(p)),
        ),
    ensures
        ({
            let rows = data_rows(input, money_supply_header())->Ok_0;
            &&& out.len() == rows.len()
            &&& forall|i: int|
                0 <= i < out.len() ==> {
                    &&& code_at(rows[i], 0) == Ok::<_, Fault>((#[trigger] out[i]).series@)
                    &&& month_at(rows[i], 1) == Ok::<_, Fault>(out[i].period)
                    &&& value_at(rows[i], 2, f) == Ok::<_, Fault>(out[i].m0)
                    &&& value_at(rows[i], 3, f) == Ok::<_, Fault>(out[i].m1)
                    &&& value_at(rows[i], 4, f) == Ok::<_, Fault>(out[i].m2)
                    &&& value_at(rows[i], 5, f) == Ok::<_, Fault>(out[i].m0_yoy)
                    &&& value_at(rows[i], 6, f) == Ok::<_, Fault>(out[i].m1_yoy)
                    &&& value_at(rows[i], 7, f) == Ok::<_, Fault>(out[i].m2_yoy)
                    &&& unit_at(rows[i], 8) == Ok::<_, Fault>(out[i].unit)
                }
        }),
{
    let rows = data_rows(input, money_supply_header())->Ok_0;
    let step = |row: Seq<Seq<char>>, prev| money_supply_row(row, prev, f);
    let xs = out.map_values(|p: EastMoneyMoneySupply| money_supply_facts(p));
    lemma_fold_len(rows, step);
    assert forall|i: int| 0 <= i < out.len() implies {
        &&& code_at(rows[i], 0) == Ok::<_, Fault>((#[trigger] out[i]).series@)
        &&& month_at(rows[i], 1) == Ok::<_, Fault>(out[i].period)
        &&& value_at(rows[i], 2, f) == Ok::<_, Fault>(out[i].m0)
        &&& value_at(rows[i], 3, f) == Ok::<_, Fault>(out[i].m1)
        &&& value_at(rows[i], 4, f) == Ok::<_, Fault>(out[i].m2)
        &&& value_at(rows[i], 5, f) == Ok::<_, Fault>(out[i].m0_yoy)
        &&& value_at(rows[i], 6, f) == Ok::<_, Fault>(out[i].m1_yoy)
        &&& value_at(rows[i], 7, f) == Ok::<_, Fault>(out[i].m2_yoy)
        &&& unit_at(rows[i], 8) == Ok::<_, Fault>(out[i].unit)
    } by {
        lemma_fold_each_step(rows, step, i);
        lemma_values_at_cells(rows[i], 2, 6, f);
        assert(xs[i] == money_supply_facts(out[i]));
    }
}

/// A money supply table whose data rows each hold a source code, a monthly
/// period, six legal numeric cells with at least one of m0/m1/m2 present and
/// a unit, with pairwise different `series + period`, is accepted with one
/// observation per data row.
pub proof fn lemma_money_supply_accepts<F: Fn(&str) -> Option<u64>>(input: Seq<char>, f: F)
    requires
        data_rows(input, money_supply_header()) is Ok,
        ({
            let rows = data_rows(input, money_supply_header())->Ok_0;
            &&& forall|i: int|
                0 <= i < rows.len() ==> {
                    &&& code_at(#[trigger] rows[i], 0) is Ok
                    &&& month_at(rows[i], 1) is Ok
                    &&& values_ok(rows[i], 2, 6, f)
                    &&& unit_at(rows[i], 8) is Ok
                    &&& (value_at(rows[i], 2, f)->Ok_0.present() || value_at(rows[i], 3, f)->Ok_0.present()
                        || value_at(rows[i], 4, f)->Ok_0.present())
                }
            &&& forall|i: int, j: int|
                0 <= i < j < rows.len() ==> !(code_at(#[trigger] rows[i], 0) == code_at(
                    #[trigger] rows[j],
                    0,
                ) && month_at(rows[i], 1) == month_at(rows[j], 1))
        }),
    ensures
        money_supply_outcome(input, f) matches Ok(xs) && xs.len() == data_rows(
            input,
            money_supply_header(),
        )->Ok_0.len(),
{
    let rows = data_rows(input, money_supply_header())->Ok_0;
    let step = |row: Seq<Seq<char>>, prev| money_supply_row(row, prev, f);
    let g = |row: Seq<Seq<char>>|
        (
            code_at(row, 0)->Ok_0,
            month_at(row, 1)->Ok_0,
            values_at(row, 2, 6, f)->Ok_0,
            unit_at(row, 8)->Ok_0,
        );
    assert forall|k: int| 0 <= k < rows.len() implies step(
        #[trigger] rows[k],
        Seq::new(k as nat, |i: int| g(rows[i])),
    ) == Ok::<MoneySupplyFacts, Fault>(g(rows[k])) by {
        let prev = Seq::new(k as nat, |i: int| g(rows[i]));
        lemma_values_at_cells(rows[k], 2, 6, f);
        let series = code_at(rows[k], 0)->Ok_0;
        let period = month_at(rows[k], 1)->Ok_0;
        if exists|j: int|
            0 <= j < prev.len() && (#[trigger] prev[j]).0 == series && prev[j].1 == period {
            let j = choose|j: int|
                0 <= j < prev.len() && (#[trigger] prev[j]).0 == series && prev[j].1 == period;
            assert(!(code_at(rows[j], 0) == code_at(rows[k], 0) && month_at(rows[j], 1) == month_at(
                rows[k],
                1,
            )));
        }
    }
    lemma_fold_accepts_every_row(rows, step, g);
}

/// In an accepted interbank rate table, observation `i` is data row `i` read
/// column by column in header order: the date (as a daily period), series,
/// rate, change_bp, unit.
pub proof fn lemma_interbank_rate_columns<F: Fn(&str) -> Option<u64>>(
    input: Seq<char>,
    f: F,
    out: Seq<EastMoneyInterbankRate>,
)
    requires
        interbank_rate_outcome(input, f) == Ok::<_, Fault>(
            out.map_values(|p: EastMoneyInterbankRate| interbank_rate_facts(p)),
        ),
    ensures
        ({
            let rows = data_rows(input, interbank_rate_header())->Ok_0;
            &&& out.len() == rows.len()
            &&& forall|i: int|
                0 <= i < out.len() ==> {
                    &&& date_at(rows[i], 0) matches Ok(d) && (#[trigger] out[i]).period
                        == Period::Day(d)
                    &&& series_at(rows[i], 1) == Ok::<_, Fault>(out[i].series)
                    &&& value_at(rows[i], 2, f) == Ok::<_, Fault>(out[i].rate)
                    &&& value_at(rows[i], 3, f) == Ok::<_, Fault>(out[i].change_bp)
                    &&& unit_at(rows[i], 4) == Ok::<_, Fault>(out[i].unit)
                }
        }),
{
    let rows = data_rows(input, interbank_rate_header())->Ok_0;
    let step = |row: Seq<Seq<char>>, prev| interbank_rate_row(row, prev, f);
    let xs = out.map_values(|p: EastMoneyInterbankRate| interbank_rate_facts(p));
    lemma_fold_len(rows, step);
    assert forall|i: int| 0 <= i < out.len() implies {
        &&& date_at(rows[i], 0) matches Ok(d) && (#[trigger] out[i]).period == Period::Day(d)
        &&& series_at(rows[i], 1) == Ok::<_, Fault>(out[i].series)
        &&& value_at(rows[i], 2, f) == Ok::<_, Fault>(out[i].rate)
        &&& value_at(rows[i], 3, f) == Ok::<_, Fault>(out[i].change_bp)
        &&& unit_at(rows[i], 4) == Ok::<_, Fault>(out[i].unit)
    } by {
        lemma_fold_each_step(rows, step, i);
        lemma_values_at_cells(rows[i], 2, 2, f);
        assert(xs[i] == interbank_rate_facts(out[i]));
    }
}

/// An interbank rate table whose data rows each hold a date, a known series,
/// two legal numeric cells and a unit, with pairwise different
/// `series + date`, is accepted with one observation per data row: the same
/// series on different days, or different series on the same day, is no
/// duplicate.
pub proof fn lemma_interbank_rate_accepts<F: Fn(&str) -> Option<u64>>(input: Seq<char>, f: F)
    requires
        data_rows(input, interbank_rate_header()) is Ok,
        ({
            let rows = data_rows(input, interbank_rate_header())->Ok_0;
            &&& forall|i: int|
                0 <= i < rows.len() ==> {
                    &&& date_at(#[trigger] rows[i], 0) is Ok
                    &&& series_at(rows[i], 1) is Ok
                    &&& values_ok(rows[i], 2, 2, f)
                    &&& unit_at(rows[i], 4) is Ok
                }
            &&& forall|i: int, j: int|
                0 <= i < j < rows.len() ==> !(series_at(#[trigger] rows[i], 1) == series_at(
                    #[trigger] rows[j],
                    1,
                ) && date_at(rows[i], 0) == date_at(rows[j], 0))
        }),
    ensures
        interbank_rate_outcome(input, f) matches Ok(xs) && xs.len() == data_rows(
            input,
            interbank_rate_header(),
        )->Ok_0.len(),
{
    let rows = data_rows(input, interbank_rate_header())->Ok_0;
    let step = |row: Seq<Seq<char>>, prev| interbank_rate_row(row, prev, f);
    let g = |row: Seq<Seq<char>>|
        (
            series_at(row, 1)->Ok_0,
            Period::Day(date_at(row, 0)->Ok_0),
            values_at(row, 2, 2, f)->Ok_0,
            unit_at(row, 4)->Ok_0,
        );
    assert forall|k: int| 0 <= k < rows.len() implies step(
        #[trigger] rows[k],
        Seq::new(k as nat, |i: int| g(rows[i])),
    ) == Ok::<InterbankRateFacts, Fault>(g(rows[k])) by {
        let prev = Seq::new(k as nat, |i: int| g(rows[i]));
        lemma_values_at_cells(rows[k], 2, 2, f);
        let date = date_at(rows[k], 0)->Ok_0;
        let series = series_at(rows[k], 1)->Ok_0;
        if exists|j: int|
            0 <= j < prev.len() && (#[trigger] prev[j]).0 == series && prev[j].1 == Period::Day(
                date,
            ) {
            let j = choose|j: int|
                0 <= j < prev.len() && (#[trigger] prev[j]).0 == series && prev[j].1
                    == Period::Day(date);
            assert(!(series_at(rows[j], 1) == series_at(rows[k], 1) && date_at(rows[j], 0)
                == date_at(rows[k], 0)));
        }
    }
    lemma_fold_accepts_every_row(rows, step, g);
}

/// In an accepted aggregate financing table, observation `i` is data row `i`
/// read column by column in header order: series, period, increment, stock,
/// yoy, unit.
pub proof fn lemma_aggregate_financing_columns<F: Fn(&str) -> Option<u64>>(
    input: Seq<char>,
    f: F,
    out: Seq<EastMoneyAggregateFinancing>,
)
    requires
        aggregate_financing_outcome(input, f) == Ok::<_, Fault>(
            out.map_values(|p: EastMoneyAggregateFinancing| aggregate_financing_facts(p)),
        ),
    ensures
        ({
            let rows = data_rows(input, aggregate_financing_header())->Ok_0;
            &&& out.len() == rows.len()
            &&& forall|i: int|
                0 <= i < out.len() ==> {
                    &&& code_at(rows[i], 0) == Ok::<_, Fault>((#[trigger] out[i]).series@)
                    &&& month_at(rows[i], 1) == Ok::<_, Fault>(out[i].period)
                    &&& value_at(rows[i], 2, f) == Ok::<_, Fault>(out[i].increment)
                    &&& value_at(rows[i], 3, f) == Ok::<_, Fault>(out[i].stock)
                    &&& value_at(rows[i], 4, f) == Ok::<_, Fault>(out[i].yoy)
                    &&& unit_at(rows[i], 5) == Ok::<_, Fault>(out[i].unit)
                }
        }),
{
    let rows = data_rows(input, aggregate_financing_header())->Ok_0;
    let step = |row: Seq<Seq<char>>, prev| aggregate_financing_row(row, prev, f);
    let xs = out.map_values(|p: EastMoneyAggregateFinancing| aggregate_financing_facts(p));
    lemma_fold_len(rows, step);
    assert forall|i: int| 0 <= i < out.len() implies {
        &&& code_at(rows[i], 0) == Ok::<_, Fault>((#[trigger] out[i]).series@)
        &&& month_at(rows[i], 1) == Ok::<_, Fault>(out[i].period)
        &&& value_at(rows[i], 2, f) == Ok::<_, Fault>(out[i].increment)
        &&& value_at(rows[i], 3, f) == Ok::<_, Fault>(out[i].stock)
        &&& value_at(rows[i], 4, f) == Ok::<_, Fault>(out[i].yoy)
        &&& unit_at(rows[i], 5) == Ok::<_, Fault>(out[i].unit)
    } by {
        lemma_fold_each_step(rows, step, i);
        lemma_values_at_cells(rows[i], 2, 3, f);
        assert(xs[i] == aggregate_financing_facts(out[i]));
    }
}

/// An aggregate financing table whose data rows each hold a source code, a
/// monthly period, three legal numeric cells and a unit, with pairwise
/// different `series + period`, is accepted with one observation per data row.
pub proof fn lemma_aggregate_financing_accepts<F: Fn(&str) -> Option<u64>>(input: Seq<char>, f: F)
    requires
        data_rows(input, aggregate_financing_header()) is Ok,
        ({
            let rows = data_rows(input, aggregate_financing_header())->Ok_0;
            &&& forall|i: int|
                0 <= i < rows.len() ==> {
                    &&& code_at(#[trigger] rows[i], 0) is Ok
                    &&& month_at(rows[i], 1) is Ok
                    &&& values_ok(rows[i], 2, 3, f)
                    &&& unit_at(rows[i], 5) is Ok
                }
            &&& forall|i: int, j: int|
                0 <= i < j < rows.len() ==> !(code_at(#[trigger] rows[i], 0) == code_at(
                    #[trigger] rows[j],
                    0,
                ) && month_at(rows[i], 1) == month_at(rows[j], 1))
        }),
    ensures
        aggregate_financing_outcome(input, f) matches Ok(xs) && xs.len() == data_rows(
            input,
            aggregate_financing_header(),
        )->Ok_0.len(),
{
    let rows = data_rows(input, aggregate_financing_header())->Ok_0;
    let step = |row: Seq<Seq<char>>, prev| aggregate_financing_row(row, prev, f);
    let g = |row: Seq<Seq<char>>|
        (
            code_at(row, 0)->Ok_0,
            month_at(row, 1)->Ok_0,
            values_at(row, 2, 3, f)->Ok_0,
            unit_at(row, 5)->Ok_0,
        );
    assert forall|k: int| 0 <= k < rows.len() implies step(
        #[trigger] rows[k],
        Seq::new(k as nat, |i: int| g(rows[i])),
    ) == Ok::<AggregateFinancingFacts, Fault>(g(rows[k])) by {
        let prev = Seq::new(k as nat, |i: int| g(rows[i]));
        lemma_values_at_cells(rows[k], 2, 3, f);
        let series = code_at(rows[k], 0)->Ok_0;
        let period = month_at(rows[k], 1)->Ok_0;
        if exists|j: int|
            0 <= j < prev.len() && (#[trigger] prev[j]).0 == series && prev[j].1 == period {
            let j = choose|j: int|
                0 <= j < prev.len() && (#[trigger] prev[j]).0 == series && prev[j].1 == period;
            assert(!(code_at(rows[j], 0) == code_at(rows[k], 0) && month_at(rows[j], 1) == month_at(
                rows[k],
                1,
            )));
        }
    }
    lemma_fold_accepts_every_row(rows, step, g);
}

/// In an accepted open market operation table, observation `i` is data row
/// `i` read column by column in header order: date, op_type, term_days,
/// amount, rate, net_injection, unit.
pub proof fn lemma_omo_operation_columns<F: Fn(&str) -> Option<u64>>(
    input: Seq<char>,
    f: F,
    out: Seq<EastMoneyOmoOperation>,
)
    requires
        omo_operation_outcome(input, f) == Ok::<_, Fault>(
            out.map_values(|p: EastMoneyOmoOperation| omo_operation_facts(p)),
        ),
    ensures
        ({
            let rows = data_rows(input, omo_operation_header())->Ok_0;
            &&& out.len() == rows.len()
            &&& forall|i: int|
                0 <= i < out.len() ==> {
                    &&& date_at(rows[i], 0) == Ok::<_, Fault>((#[trigger] out[i]).date)
                    &&& code_at(rows[i], 1) == Ok::<_, Fault>(out[i].op_type@)
                    &&& term_at(rows[i], 2) == Ok::<_, Fault>(out[i].term_days)
                    &&& value_at(rows[i], 3, f) == Ok::<_, Fault>(out[i].amount)
                    &&& value_at(rows[i], 4, f) == Ok::<_, Fault>(out[i].rate)
                    &&& value_at(rows[i], 5, f) == Ok::<_, Fault>(out[i].net_injection)
                    &&& unit_at(rows[i], 6) == Ok::<_, Fault>(out[i].unit)
                }
        }),
{
    let rows = data_rows(input, omo_operation_header())->Ok_0;
    let step = |row: Seq<Seq<char>>, prev| omo_operation_row(row, prev, f);
    let xs = out.map_values(|p: EastMoneyOmoOperation| omo_operation_facts(p));
    lemma_fold_len(rows, step);
    assert forall|i: int| 0 <= i < out.len() implies {
        &&& date_at(rows[i], 0) == Ok::<_, Fault>((#[trigger] out[i]).date)
        &&& code_at(rows[i], 1) == Ok::<_, Fault>(out[i].op_type@)
        &&& term_at(rows[i], 2) == Ok::<_, Fault>(out[i].term_days)
        &&& value_at(rows[i], 3, f) == Ok::<_, Fault>(out[i].amount)
        &&& value_at(rows[i], 4, f) == Ok::<_, Fault>(out[i].rate)
        &&& value_at(rows[i], 5, f) == Ok::<_, Fault>(out[i].net_injection)
        &&& unit_at(rows[i], 6) == Ok::<_, Fault>(out[i].unit)
    } by {
        lemma_fold_each_step(rows, step, i);
        lemma_values_at_cells(rows[i], 3, 3, f);
        assert(xs[i] == omo_operation_facts(out[i]));
    }
}

/// An open market operation table whose data rows each hold a date, an
/// op_type code, a term in days, three legal numeric cells and a unit, with
/// pairwise different `date + op_type`, is accepted with one operation per
/// data row.
pub proof fn lemma_omo_operation_accepts<F: Fn(&str) -> Option<u64>>(input: Seq<char>, f: F)
    requires
        data_rows(input, omo_operation_header()) is Ok,
        ({
            let rows = data_rows(input, omo_operation_header())->Ok_0;
            &&& forall|i: int|
                0 <= i < rows.len() ==> {
                    &&& date_at(#[trigger] rows[i], 0) is Ok
                    &&& code_at(rows[i], 1) is Ok
                    &&& term_at(rows[i], 2) is Ok
                    &&& values_ok(rows[i], 3, 3, f)
                    &&& unit_at(rows[i], 6) is Ok
                }
            &&& forall|i: int, j: int|
                0 <= i < j < rows.len() ==> !(date_at(#[trigger] rows[i], 0) == date_at(
                    #[trigger] rows[j],
                    0,
                ) && code_at(rows[i], 1) == code_at(rows[j], 1))
        }),
    ensures
        omo_operation_outcome(input, f) matches Ok(xs) && xs.len() == data_rows(
            input,
            omo_operation_header(),
        )->Ok_0.len(),
{
    let rows = data_rows(input, omo_operation_header())->Ok_0;
    let step = |row: Seq<Seq<char>>, prev| omo_operation_row(row, prev, f);
    let g = |row: Seq<Seq<char>>|
        (
            date_at(row, 0)->Ok_0,
            code_at(row, 1)->Ok_0,
            term_at(row, 2)->Ok_0,
            values_at(row, 3, 3, f)->Ok_0,
            unit_at(row, 6)->Ok_0,
        );
    assert forall|k: int| 0 <= k < rows.len() implies step(
        #[trigger] rows[k],
        Seq::new(k as nat, |i: int| g(rows[i])),
    ) == Ok::<OmoOperationFacts, Fault>(g(rows[k])) by {
        let prev = Seq::new(k as nat, |i: int| g(rows[i]));
        lemma_values_at_cells(rows[k], 3, 3, f);
        let date = date_at(rows[k], 0)->Ok_0;
        let op_type = code_at(rows[k], 1)->Ok_0;
        if exists|j: int|
            0 <= j < prev.len() && (#[trigger] prev[j]).0 == date && prev[j].1 == op_type {
            let j = choose|j: int|
                0 <= j < prev.len() && (#[trigger] prev[j]).0 == date && prev[j].1 == op_type;
            assert(!(date_at(rows[j], 0) == date_at(rows[k], 0) && code_at(rows[j], 1) == code_at(
                rows[k],
                1,
            )));
        }
    }
    lemma_fold_accepts_every_row(rows, step, g);
}

} // verus!
