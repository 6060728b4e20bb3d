//! eastmoneyx: offline source facts for EastMoney macro observations.
//!
//! Typed observations, strict CSV parsing, fail-closed authorization and the
//! refusal of every live execution channel, each with a machine-checked
//! contract.
//!
//! | capability | state |
//! | --- | --- |
//! | value objects of the five planned types | implemented |
//! | de-identified CSV parsing (strict header, atomic failure, duplicate identities refused) | implemented |
//! | product scope guard (only `kind=observation` + `product=macro`) | implemented |
//! | fail-closed authorization and refusal of every execution channel | implemented |
//! | publication semantics (always `Date` + `Inferred` + `NotEligible`) | implemented |
//! | live collection, JSONP stripping, derived indicators | not implemented |
//!
//! Numeric cells are carried as the bit pattern of an IEEE-754 binary64 value
//! (`EastMoneyValue::Present(bits)`); turning decimal text into those bits is
//! the job of a conversion function that the caller hands to each parser, so
//! the library itself never computes with floating point.

pub mod authz;
pub mod error;
pub mod parse;
pub mod pit;
pub mod text;
pub mod value;

pub use authz::{
    authorize_eastmoney_access, current_eastmoney_authorization, guard_live_execution,
    EastMoneyAuthorization, EastMoneyAuthorizationEvidence, EastMoneyExecutionChannel,
    LIVE_PROXY_ACCESS, PROXY_SUPPORT_TARGET,
};
pub use error::{EastMoneyError, EastMoneyErrorKind, EastMoneyResult};
pub use parse::{
    guard_parse_format, parse_eastmoney_aggregate_financing, parse_eastmoney_interbank_rates,
    parse_eastmoney_northbound_flows, parse_eastmoney_observations, parse_eastmoney_omo_operations,
    rows_after_header, CsvFault, EastMoneyParseFormat,
};
pub use pit::{
    eastmoney_publication_semantics, is_formal_pit_eligible, AvailabilityEvidence, PitEligibility,
    TimePrecision,
};
pub use value::{
    validate_money_supply, validate_observation_scope, Date, EastMoneyAggregateFinancing,
    EastMoneyCode, EastMoneyInterbankRate, EastMoneyInterbankSeries, EastMoneyKind,
    EastMoneyMissingReason, EastMoneyMoneySupply, EastMoneyNorthboundFlow, EastMoneyOmoOperation,
    EastMoneyProduct, EastMoneySeriesKind, EastMoneyValue, Frequency, Period, Unit, SERIES_KINDS,
};
