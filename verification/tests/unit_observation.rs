//! Observation values, the money supply check and the interbank series tokens.

use eastmoneyx::{
    validate_money_supply, EastMoneyCode, EastMoneyErrorKind, EastMoneyInterbankSeries,
    EastMoneyMissingReason, EastMoneyMoneySupply, EastMoneySeriesKind, EastMoneyValue, Frequency,
    Period, Unit, SERIES_KINDS,
};

fn present(v: f64) -> EastMoneyValue {
    EastMoneyValue::Present(v.to_bits())
}

fn sample(m2: EastMoneyValue) -> EastMoneyMoneySupply {
    EastMoneyMoneySupply {
        series: EastMoneyCode::new("money_supply").expect("合法码"),
        period: Period::Month {
            year: 2026,
            month: 8,
        },
        m0: EastMoneyValue::Missing(EastMoneyMissingReason::SourceBlank),
        m1: EastMoneyValue::Missing(EastMoneyMissingReason::NotPublishedYet),
        m2,
        m0_yoy: EastMoneyValue::Missing(EastMoneyMissingReason::SourceBlank),
        m1_yoy: EastMoneyValue::Missing(EastMoneyMissingReason::SourceBlank),
        m2_yoy: present(8.1),
        unit: Unit::HundredMillionYuan,
        frequency: Frequency::Monthly,
        revision: None,
    }
}

#[test]
fn valid_money_supply_passes() {
    assert!(validate_money_supply(&sample(present(300.5))).is_ok());
}

#[test]
fn money_supply_rejects_non_monthly_period_and_frequency() {
    let mut observation = sample(present(1.0));
    observation.period = Period::Year(2026);
    assert!(validate_money_supply(&observation).is_err());

    let mut observation = sample(present(1.0));
    observation.frequency = Frequency::Daily;
    assert!(validate_money_supply(&observation).is_err());
}

#[test]
fn money_supply_rejects_fabricated_revision() {
    let mut observation = sample(present(1.0));
    observation.revision = Some(EastMoneyCode::new("v2").expect("合法码"));
    let error = validate_money_supply(&observation).expect_err("伪造 vintage 必须拒绝");
    assert_eq!(error.kind(), EastMoneyErrorKind::SemanticallyRejected);
}

#[test]
fn money_supply_requires_at_least_one_amount() {
    let observation = sample(EastMoneyValue::Missing(EastMoneyMissingReason::SourceBlank));
    let error = validate_money_supply(&observation).expect_err("三项全缺必须拒绝");
    assert_eq!(error.kind(), EastMoneyErrorKind::Missing);
}

#[test]
fn money_supply_rejects_non_finite_value() {
    let error = validate_money_supply(&sample(present(f64::NAN))).expect_err("NaN 拒绝");
    assert_eq!(error.kind(), EastMoneyErrorKind::Invalid);
}

#[test]
fn interbank_series_token_is_case_sensitive() {
    assert!(matches!(
        EastMoneyInterbankSeries::parse("DR007"),
        Ok(EastMoneyInterbankSeries::Dr007)
    ));
    assert!(EastMoneyInterbankSeries::parse("dr007").is_err());
    assert_eq!(EastMoneyInterbankSeries::Dr007.label(), "DR007");
}

#[test]
fn series_kind_catalog_has_five_entries() {
    assert_eq!(SERIES_KINDS.len(), 5);
    assert_eq!(
        SERIES_KINDS[0],
        EastMoneySeriesKind::MoneySupply,
        "顺序须与清单 §1.3 一致"
    );
}
