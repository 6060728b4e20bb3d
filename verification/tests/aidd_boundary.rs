//! Adversarial and boundary cases.

use eastmoneyx::{
    guard_live_execution, parse_eastmoney_northbound_flows, parse_eastmoney_observations,
    validate_money_supply, EastMoneyCode, EastMoneyErrorKind, EastMoneyExecutionChannel,
    EastMoneyMissingReason, EastMoneyMoneySupply, EastMoneyValue, Frequency, Period, Unit,
};

/// Decimal text to the binary64 bit pattern, as `f64::from_str` reads it.
fn number(s: &str) -> Option<u64> {
    s.parse::<f64>().ok().map(f64::to_bits)
}

#[test]
fn extreme_finite_value_is_accepted() {
    let csv = "series,period,m0,m1,m2,m0_yoy,m1_yoy,m2_yoy,unit\n\
money_supply,2026-08,1e308,,,0,0,0,亿元\n";
    let parsed = parse_eastmoney_observations(csv, number).expect("有限极值可解析");
    assert_eq!(parsed[0].m0, EastMoneyValue::Present(1e308f64.to_bits()));
}

#[test]
fn overflowing_value_is_rejected() {
    let csv = "series,period,m0,m1,m2,m0_yoy,m1_yoy,m2_yoy,unit\n\
money_supply,2026-08,1e309,,,0,0,0,亿元\n";
    let error = parse_eastmoney_observations(csv, number).expect_err("无穷必须拒绝");
    assert_eq!(error.kind(), EastMoneyErrorKind::Invalid);
}

#[test]
fn empty_input_is_not_a_valid_table() {
    assert!(parse_eastmoney_observations("", number).is_err());
    assert!(parse_eastmoney_observations("\n", number).is_err());
}

#[test]
fn byte_order_mark_is_stripped_without_shifting_columns() {
    let csv = "\u{feff}series,period,m0,m1,m2,m0_yoy,m1_yoy,m2_yoy,unit\n\
money_supply,2026-08,1,2,3,4,5,6,亿元\n";
    let parsed = parse_eastmoney_observations(csv, number).expect("BOM 由读取器剥离");
    assert_eq!(parsed.len(), 1);
    assert_eq!(
        parsed[0].series.as_str(),
        "money_supply",
        "首列列名不得因 BOM 而改变（否则第 1 条记录会被错位读出）"
    );
    assert_eq!(parsed[0].m2, EastMoneyValue::Present(3.0f64.to_bits()));
}

#[test]
fn unknown_unit_token_is_not_silently_downgraded() {
    let unknown = "series,period,m0,m1,m2,m0_yoy,m1_yoy,m2_yoy,unit\n\
money_supply,2026-08,1,2,3,4,5,6,parsec\n";
    assert!(parse_eastmoney_observations(unknown, number).is_err());

    let blank = "series,period,m0,m1,m2,m0_yoy,m1_yoy,m2_yoy,unit\n\
money_supply,2026-08,1,2,3,4,5,6,\n";
    let parsed = parse_eastmoney_observations(blank, number).expect("空单位列可解析");
    assert_eq!(parsed[0].unit, Unit::Undeclared);
}

#[test]
fn northbound_row_with_only_date_parses() {
    let csv = "date,sh_net,sz_net,total_net,balance,unit\n\
2026-08-15,,,,,亿元\n";
    let parsed = parse_eastmoney_northbound_flows(csv, number).expect("可解析");
    assert_eq!(
        parsed[0].sh_net,
        EastMoneyValue::Missing(EastMoneyMissingReason::SourceBlank)
    );
    assert_eq!(
        parsed[0].total_net,
        EastMoneyValue::Missing(EastMoneyMissingReason::SourceBlank)
    );
}

#[test]
fn proxy_rotation_is_blocked_like_network() {
    for channel in [
        EastMoneyExecutionChannel::Network,
        EastMoneyExecutionChannel::ProxyRotation,
    ] {
        let error = guard_live_execution(channel).expect_err("必须拒绝");
        let message = error.to_string();
        assert!(message.contains("当前执行禁止"), "理由须可读：{message}");
        assert!(
            !message.to_ascii_lowercase().contains("proxy="),
            "理由不得回显任何代理地址"
        );
    }
}

#[test]
fn missing_reasons_and_revision_are_distinguished() {
    assert_ne!(
        EastMoneyMissingReason::SourceBlank,
        EastMoneyMissingReason::NotPublishedYet
    );
    let observation = EastMoneyMoneySupply {
        series: EastMoneyCode::new("money_supply").expect("合法码"),
        period: Period::Month {
            year: 2026,
            month: 8,
        },
        m0: EastMoneyValue::Missing(EastMoneyMissingReason::SourceBlank),
        m1: EastMoneyValue::Missing(EastMoneyMissingReason::NotPublishedYet),
        m2: EastMoneyValue::Missing(EastMoneyMissingReason::NotApplicable),
        m0_yoy: EastMoneyValue::Missing(EastMoneyMissingReason::SourceBlank),
        m1_yoy: EastMoneyValue::Missing(EastMoneyMissingReason::SourceBlank),
        m2_yoy: EastMoneyValue::Missing(EastMoneyMissingReason::SourceBlank),
        unit: Unit::HundredMillionYuan,
        frequency: Frequency::Monthly,
        revision: Some(EastMoneyCode::new("v2").expect("合法码")),
    };
    assert!(
        validate_money_supply(&observation).is_err(),
        "伪造 revision 与三项全缺都必须被拒绝"
    );
}
