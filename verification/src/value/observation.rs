//! Observation value objects and typed values.
//!
//! Covers the five planned types: money supply, interbank rates, aggregate
//! financing, northbound flows and open market operations.
//!
//! Units: the `unit` field applies to the amount columns of each type; the
//! secondary columns are fixed by meaning (`change_bp` is always basis points,
//! `*_yoy` always percent), so no extra column is kept and nothing is converted.

use vstd::prelude::*;

use crate::error::{EastMoneyError, EastMoneyErrorKind, EastMoneyResult};
use crate::text::{decimal_string, decimal_text, same_text};
use vstd::std_specs::cmp::PartialEqSpecImpl;
use vstd::utf8::encode_utf8;
use crate::value::{Date, EastMoneyCode, Frequency, Period, Unit};

verus! {

// ---------------------------------------------------------------------------
// Types and series
// ---------------------------------------------------------------------------

/// The five planned types.
#[non_exhaustive]
#[derive(Debug, Clone, Copy, PartialEq, Eq, Hash, Structural)]
pub enum EastMoneySeriesKind {
    /// Money supply (m0/m1/m2 and their year-on-year rates).
    MoneySupply,
    /// Interbank rates (SHIBOR_ON / DR007 / LPR_1Y).
    InterbankRate,
    /// Aggregate financing (increment / stock / year-on-year).
    AggregateFinancing,
    /// Northbound flows (Shanghai / Shenzhen / total net buying and balance).
    NorthboundFlow,
    /// Open market operations (op_type / term_days / amount / rate / net_injection).
    OmoOperation,
}

/// All five planned types, in catalogue order.
pub const SERIES_KINDS: [EastMoneySeriesKind; 5] = [
    EastMoneySeriesKind::MoneySupply,
    EastMoneySeriesKind::InterbankRate,
    EastMoneySeriesKind::AggregateFinancing,
    EastMoneySeriesKind::NorthboundFlow,
    EastMoneySeriesKind::OmoOperation,
];

/// The interbank rate series (three fixed states).
#[non_exhaustive]
#[derive(Debug, Clone, Copy, PartialEq, Eq, Hash, Structural)]
pub enum EastMoneyInterbankSeries {
    /// Overnight SHIBOR.
    ShiborOn,
    /// The 7-day pledged repo weighted rate of depository institutions.
    Dr007,
    /// The one-year loan prime rate.
    Lpr1y,
}

/// The canonical token of a series.
pub open spec fn series_label(s: EastMoneyInterbankSeries) -> Seq<char> {
    match s {
        EastMoneyInterbankSeries::ShiborOn => "SHIBOR_ON"@,
        EastMoneyInterbankSeries::Dr007 => "DR007"@,
        EastMoneyInterbankSeries::Lpr1y => "LPR_1Y"@,
    }
}

/// The series whose canonical token is exactly `t` (case-sensitive), if any.
pub open spec fn interbank_series_from_text(t: Seq<char>) -> Option<EastMoneyInterbankSeries> {
    if t == "SHIBOR_ON"@ {
        Some(EastMoneyInterbankSeries::ShiborOn)
    } else if t == "DR007"@ {
        Some(EastMoneyInterbankSeries::Dr007)
    } else if t == "LPR_1Y"@ {
        Some(EastMoneyInterbankSeries::Lpr1y)
    } else {
        None
    }
}

/// The reason given for an unknown series token: its length in UTF-8 bytes,
/// never the token itself.
pub open spec fn unknown_series_reason(t: Seq<char>) -> Seq<char> {
    "未知的同业利率序列令牌（长度 "@ + decimal_text(encode_utf8(t).len()) + "）"@
}

impl EastMoneyInterbankSeries {
    /// Parse a source series token (case-sensitive, so no silent equivalence).
    ///
    /// An unknown token gives `SemanticallyRejected`.
    pub fn parse(token: &str) -> (r: EastMoneyResult<Self>)
        ensures
            r is Ok <==> interbank_series_from_text(token@) is Some,
            r matches Ok(s) ==> interbank_series_from_text(token@) == Some(s),
            r matches Err(e) ==> e.class() == EastMoneyErrorKind::SemanticallyRejected && e.reason()
                == unknown_series_reason(token@),
    {
        if same_text(token, "SHIBOR_ON") {
            Ok(EastMoneyInterbankSeries::ShiborOn)
        } else if same_text(token, "DR007") {
            Ok(EastMoneyInterbankSeries::Dr007)
        } else if same_text(token, "LPR_1Y") {
            Ok(EastMoneyInterbankSeries::Lpr1y)
        } else {
            let n = decimal_string(token.as_bytes().len() as u64);
            let reason = "未知的同业利率序列令牌（长度 ".to_owned().concat(n.as_str()).concat("）");
            Err(EastMoneyError::SemanticallyRejected(reason))
        }
    }

    /// The canonical token of the series.
    pub fn label(self) -> (r: &'static str)
        ensures
            r@ == series_label(self),
    {
        match self {
            EastMoneyInterbankSeries::ShiborOn => "SHIBOR_ON",
            EastMoneyInterbankSeries::Dr007 => "DR007",
            EastMoneyInterbankSeries::Lpr1y => "LPR_1Y",
        }
    }
}

// ---------------------------------------------------------------------------
// Values
// ---------------------------------------------------------------------------

/// The named reason of a missing value; a gap is never silently turned into 0.
#[non_exhaustive]
#[derive(Debug, Clone, Copy, PartialEq, Eq, Hash, Structural)]
pub enum EastMoneyMissingReason {
    /// The source cell is empty.
    SourceBlank,
    /// The source has not published this period yet.
    NotPublishedYet,
    /// The indicator does not apply to this period.
    NotApplicable,
}

/// One source value.
///
/// A present value is held as the bit pattern of an IEEE-754 binary64 number
/// (what `f64::to_bits` gives), kept exactly as the source stated it. Two
/// values are equal as the numbers compare (`+0` equals `-0`, a NaN equals
/// nothing) or when both are gaps with the same reason.
#[non_exhaustive]
#[derive(Debug, Clone, Copy)]
pub enum EastMoneyValue {
    /// A number given by the source (binary64 bit pattern, unconverted).
    Present(u64),
    /// Missing, with its named reason.
    Missing(EastMoneyMissingReason),
}

/// Whether a binary64 bit pattern denotes a finite number (its exponent field
/// is not all ones, which would mean an infinity or a NaN).
pub open spec fn is_finite_bits(bits: u64) -> bool {
    bits & 0x7ff0_0000_0000_0000u64 != 0x7ff0_0000_0000_0000u64
}

/// Whether a binary64 bit pattern denotes a NaN.
pub open spec fn is_nan_bits(bits: u64) -> bool {
    bits & 0x7ff0_0000_0000_0000u64 == 0x7ff0_0000_0000_0000u64 && bits & 0x000f_ffff_ffff_ffffu64
        != 0
}

/// Whether two binary64 numbers compare equal, as `f64 ==` does: neither is a
/// NaN, and they have the same bits or are both zeros of either sign.
pub open spec fn binary64_equal(a: u64, b: u64) -> bool {
    &&& !is_nan_bits(a)
    &&& !is_nan_bits(b)
    &&& (a == b || (a & 0x7fff_ffff_ffff_ffffu64 == 0 && b & 0x7fff_ffff_ffff_ffffu64 == 0))
}

/// Whether two values are equal.
pub open spec fn values_equal(x: EastMoneyValue, y: EastMoneyValue) -> bool {
    match (x, y) {
        (EastMoneyValue::Present(a), EastMoneyValue::Present(b)) => binary64_equal(a, b),
        (EastMoneyValue::Missing(r), EastMoneyValue::Missing(s)) => r == s,
        _ => false,
    }
}

impl PartialEq for EastMoneyValue {
    fn eq(&self, other: &Self) -> (r: bool) {
        match (self, other) {
            (EastMoneyValue::Present(a), EastMoneyValue::Present(b)) => {
                let a = *a;
                let b = *b;
                let a_nan = a & 0x7ff0_0000_0000_0000u64 == 0x7ff0_0000_0000_0000u64 && a
                    & 0x000f_ffff_ffff_ffffu64 != 0;
                let b_nan = b & 0x7ff0_0000_0000_0000u64 == 0x7ff0_0000_0000_0000u64 && b
                    & 0x000f_ffff_ffff_ffffu64 != 0;
                !a_nan && !b_nan && (a == b || (a & 0x7fff_ffff_ffff_ffffu64 == 0 && b
                    & 0x7fff_ffff_ffff_ffffu64 == 0))
            },
            (EastMoneyValue::Missing(r), EastMoneyValue::Missing(s)) => *r == *s,
            _ => false,
        }
    }
}

impl PartialEqSpecImpl for EastMoneyValue {
    open spec fn obeys_eq_spec() -> bool {
        true
    }

    open spec fn eq_spec(&self, other: &EastMoneyValue) -> bool {
        values_equal(*self, *other)
    }
}

impl EastMoneyValue {
    /// Whether the value is present.
    pub open spec fn present(self) -> bool {
        self is Present
    }

    /// Whether the value is legal: a present value must be finite.
    pub open spec fn legal(self) -> bool {
        match self {
            EastMoneyValue::Present(b) => is_finite_bits(b),
            EastMoneyValue::Missing(_) => true,
        }
    }

    /// Whether the value is present.
    pub(crate) fn is_present(self) -> (r: bool)
        ensures
            r == self.present(),
    {
        match self {
            EastMoneyValue::Present(_) => true,
            EastMoneyValue::Missing(_) => false,
        }
    }

    /// Check that the value is legal (a present value must be finite).
    fn check(self) -> (r: EastMoneyResult<()>)
        ensures
            r is Ok <==> self.legal(),
            r matches Err(e) ==> e.class() == EastMoneyErrorKind::Invalid && e.reason()
                == "取值不得为 NaN 或无穷（缺失须用具名原因表达）"@,
    {
        match self {
            EastMoneyValue::Present(b) => {
                if b & 0x7ff0_0000_0000_0000u64 != 0x7ff0_0000_0000_0000u64 {
                    Ok(())
                } else {
                    Err(
                        EastMoneyError::Invalid(
                            "取值不得为 NaN 或无穷（缺失须用具名原因表达）".to_owned(),
                        ),
                    )
                }
            },
            EastMoneyValue::Missing(_) => Ok(()),
        }
    }
}

// ---------------------------------------------------------------------------
// The five observations
// ---------------------------------------------------------------------------

/// A money supply observation.
#[derive(Debug, Clone, PartialEq)]
pub struct EastMoneyMoneySupply {
    /// The source entry label (a category name, not an endpoint).
    pub series: EastMoneyCode,
    /// Business period (monthly).
    pub period: Period,
    /// M0 balance.
    pub m0: EastMoneyValue,
    /// M1 balance.
    pub m1: EastMoneyValue,
    /// M2 balance.
    pub m2: EastMoneyValue,
    /// M0 year-on-year (always percent).
    pub m0_yoy: EastMoneyValue,
    /// M1 year-on-year (always percent).
    pub m1_yoy: EastMoneyValue,
    /// M2 year-on-year (always percent).
    pub m2_yoy: EastMoneyValue,
    /// Source unit of m0/m1/m2 (kept unconverted).
    pub unit: Unit,
    /// Frequency.
    pub frequency: Frequency,
    /// Revision: this source has no official vintage, so always `None`.
    pub revision: Option<EastMoneyCode>,
}

/// An interbank rate observation.
#[derive(Debug, Clone, PartialEq)]
pub struct EastMoneyInterbankRate {
    /// Series (one of three).
    pub series: EastMoneyInterbankSeries,
    /// Business period.
    pub period: Period,
    /// Rate (always percent).
    pub rate: EastMoneyValue,
    /// Change (always basis points).
    pub change_bp: EastMoneyValue,
    /// Source unit of `rate` (kept unconverted).
    pub unit: Unit,
    /// Frequency.
    pub frequency: Frequency,
    /// Revision (always `None`).
    pub revision: Option<EastMoneyCode>,
}

/// An aggregate financing observation.
#[derive(Debug, Clone, PartialEq)]
pub struct EastMoneyAggregateFinancing {
    /// Source entry label.
    pub series: EastMoneyCode,
    /// Business period (monthly).
    pub period: Period,
    /// Increment.
    pub increment: EastMoneyValue,
    /// Stock.
    pub stock: EastMoneyValue,
    /// Year-on-year (always percent).
    pub yoy: EastMoneyValue,
    /// Source unit of increment / stock (kept unconverted).
    pub unit: Unit,
    /// Frequency.
    pub frequency: Frequency,
    /// Revision (always `None`).
    pub revision: Option<EastMoneyCode>,
}

/// A northbound flow observation.
#[derive(Debug, Clone, PartialEq)]
pub struct EastMoneyNorthboundFlow {
    /// Trading day.
    pub date: Date,
    /// Shanghai connect net buying.
    pub sh_net: EastMoneyValue,
    /// Shenzhen connect net buying.
    pub sz_net: EastMoneyValue,
    /// Total net buying.
    pub total_net: EastMoneyValue,
    /// Balance.
    pub balance: EastMoneyValue,
    /// Source unit (kept unconverted).
    pub unit: Unit,
    /// Frequency (daily).
    pub frequency: Frequency,
    /// Revision (always `None`).
    pub revision: Option<EastMoneyCode>,
}

/// An open market operation observation.
#[derive(Debug, Clone, PartialEq)]
pub struct EastMoneyOmoOperation {
    /// Operation day.
    pub date: Date,
    /// Operation type (its domain is decided by the source).
    pub op_type: EastMoneyCode,
    /// Term in days.
    pub term_days: u32,
    /// Amount.
    pub amount: EastMoneyValue,
    /// Operation rate (always percent).
    pub rate: EastMoneyValue,
    /// Net injection (a source field; the 5-day derived figure is not computed here).
    pub net_injection: EastMoneyValue,
    /// Source unit of amount / net_injection (kept unconverted).
    pub unit: Unit,
    /// Frequency (event).
    pub frequency: Frequency,
    /// Revision (always `None`).
    pub revision: Option<EastMoneyCode>,
}

// ---------------------------------------------------------------------------
// Validation
// ---------------------------------------------------------------------------

/// How a money supply observation is judged, in the order of the checks:
/// a non-monthly period or frequency is `Invalid`, a revision is
/// `SemanticallyRejected`, m0/m1/m2 all missing is `Missing`, and a non-finite
/// value is `Invalid`.
pub open spec fn money_supply_verdict(o: EastMoneyMoneySupply) -> Result<(), EastMoneyErrorKind> {
    if !(o.period is Month) {
        Err(EastMoneyErrorKind::Invalid)
    } else if o.frequency != Frequency::Monthly {
        Err(EastMoneyErrorKind::Invalid)
    } else if o.revision is Some {
        Err(EastMoneyErrorKind::SemanticallyRejected)
    } else if !(o.m0.present() || o.m1.present() || o.m2.present()) {
        Err(EastMoneyErrorKind::Missing)
    } else if !(o.m0.legal() && o.m1.legal() && o.m2.legal() && o.m0_yoy.legal() && o.m1_yoy.legal()
        && o.m2_yoy.legal()) {
        Err(EastMoneyErrorKind::Invalid)
    } else {
        Ok(())
    }
}

/// Why a money supply observation is refused, in the order of the checks.
pub open spec fn money_supply_refusal(o: EastMoneyMoneySupply) -> Seq<char> {
    if !(o.period is Month) {
        "货币供应量观测的业务期间必须是月度（YYYY-MM）"@
    } else if o.frequency != Frequency::Monthly {
        "货币供应量观测的频率必须是 Monthly"@
    } else if o.revision is Some {
        "本域无官方 vintage 面，revision 必须为 None（MUST NOT 伪造）"@
    } else if !(o.m0.present() || o.m1.present() || o.m2.present()) {
        "m0/m1/m2 至少一项须有取值（否则该行不承载任何源事实）"@
    } else {
        "取值不得为 NaN 或无穷（缺失须用具名原因表达）"@
    }
}

/// Check that a money supply observation is complete: monthly period and
/// frequency, no revision (no official vintage exists), at least one of
/// m0/m1/m2 present, and every value legal.
pub fn validate_money_supply(observation: &EastMoneyMoneySupply) -> (r: EastMoneyResult<()>)
    ensures
        r is Ok <==> money_supply_verdict(*observation) is Ok,
        r matches Err(e) ==> money_supply_verdict(*observation) == Err::<(), _>(e.class())
            && e.reason() == money_supply_refusal(*observation),
{
    match observation.period {
        Period::Month { .. } => {},
        _ => {
            return Err(
                EastMoneyError::Invalid("货币供应量观测的业务期间必须是月度（YYYY-MM）".to_owned()),
            );
        },
    }
    match observation.frequency {
        Frequency::Monthly => {},
        _ => {
            return Err(EastMoneyError::Invalid("货币供应量观测的频率必须是 Monthly".to_owned()));
        },
    }
    if observation.revision.is_some() {
        return Err(
            EastMoneyError::SemanticallyRejected(
                "本域无官方 vintage 面，revision 必须为 None（MUST NOT 伪造）".to_owned(),
            ),
        );
    }
    if !(observation.m0.is_present() || observation.m1.is_present()
        || observation.m2.is_present()) {
        return Err(
            EastMoneyError::Missing(
                "m0/m1/m2 至少一项须有取值（否则该行不承载任何源事实）".to_owned(),
            ),
        );
    }
    let values = [
        observation.m0,
        observation.m1,
        observation.m2,
        observation.m0_yoy,
        observation.m1_yoy,
        observation.m2_yoy,
    ];
    let mut i: usize = 0;
    while i < 6
        invariant
            i <= 6,
            values@ == seq![
                observation.m0,
                observation.m1,
                observation.m2,
                observation.m0_yoy,
                observation.m1_yoy,
                observation.m2_yoy,
            ],
            forall|j: int| 0 <= j < i ==> (#[trigger] values@[j]).legal(),
            observation.period is Month,
            observation.frequency == Frequency::Monthly,
            observation.revision is None,
            observation.m0.present() || observation.m1.present() || observation.m2.present(),
        decreases 6 - i,
    {
        match values[i].check() {
            Ok(()) => {},
            Err(e) => return Err(e),
        }
        i = i + 1;
    }
    assert(values@[0].legal() && values@[1].legal() && values@[2].legal() && values@[3].legal()
        && values@[4].legal() && values@[5].legal());
    Ok(())
}


/// A money supply observation passes the check exactly when its period is a
/// month, its frequency monthly, it carries no revision, at least one of
/// m0/m1/m2 is present and all six values are legal (finite when present).
pub proof fn lemma_money_supply_acceptance(o: EastMoneyMoneySupply)
    ensures
        money_supply_verdict(o) is Ok <==> {
            &&& o.period is Month
            &&& o.frequency == Frequency::Monthly
            &&& o.revision is None
            &&& o.m0 is Present || o.m1 is Present || o.m2 is Present
            &&& forall|v: EastMoneyValue|
                #![trigger v.legal()]
                seq![o.m0, o.m1, o.m2, o.m0_yoy, o.m1_yoy, o.m2_yoy].contains(v) ==> match v {
                    EastMoneyValue::Present(b) => is_finite_bits(b),
                    EastMoneyValue::Missing(_) => true,
                }
        },
{
    let vs = seq![o.m0, o.m1, o.m2, o.m0_yoy, o.m1_yoy, o.m2_yoy];
    assert(vs[0] == o.m0 && vs[1] == o.m1 && vs[2] == o.m2);
    assert(vs[3] == o.m0_yoy && vs[4] == o.m1_yoy && vs[5] == o.m2_yoy);
    assert(vs.contains(o.m0) && vs.contains(o.m1) && vs.contains(o.m2));
    assert(vs.contains(o.m0_yoy) && vs.contains(o.m1_yoy) && vs.contains(o.m2_yoy));
    assert(o.m0.legal() && o.m1.legal() && o.m2.legal() && o.m0_yoy.legal() && o.m1_yoy.legal()
        && o.m2_yoy.legal() ==> forall|v: EastMoneyValue|
        #![trigger v.legal()]
        vs.contains(v) ==> match v {
            EastMoneyValue::Present(b) => is_finite_bits(b),
            EastMoneyValue::Missing(_) => true,
        });
}


/// Series tokens and labels correspond one to one: a token names series `s`
/// exactly when it is `s`'s canonical label (case-sensitive).
pub proof fn lemma_series_token_is_label(t: Seq<char>, s: EastMoneyInterbankSeries)
    ensures
        interbank_series_from_text(t) == Some(s) <==> t == series_label(s),
{
    reveal_strlit("SHIBOR_ON");
    reveal_strlit("DR007");
    reveal_strlit("LPR_1Y");
    assert("SHIBOR_ON"@.len() == 9 && "DR007"@.len() == 5 && "LPR_1Y"@.len() == 6);
}

} // verus!
