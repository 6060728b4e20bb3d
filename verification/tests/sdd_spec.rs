//! The standard's sections as executable assertions.

use eastmoneyx::{
    current_eastmoney_authorization, eastmoney_publication_semantics, guard_live_execution,
    guard_parse_format, parse_eastmoney_northbound_flows, parse_eastmoney_observations,
    validate_observation_scope, AvailabilityEvidence, Date, EastMoneyAuthorization, EastMoneyCode,
    EastMoneyExecutionChannel, EastMoneyKind, EastMoneyMissingReason, EastMoneyParseFormat,
    EastMoneyProduct, EastMoneyValue, Frequency, Period, PitEligibility, TimePrecision, Unit,
    LIVE_PROXY_ACCESS, PROXY_SUPPORT_TARGET, SERIES_KINDS,
};

/// Decimal text to the binary64 bit pattern, as `f64::from_str` reads it.
fn number(s: &str) -> Option<u64> {
    s.parse::<f64>().ok().map(f64::to_bits)
}

#[test]
fn assert_scope_standard() {
    assert!(
        validate_observation_scope(EastMoneyKind::Observation, EastMoneyProduct::Macro).is_ok()
    );
    for product in [
        EastMoneyProduct::Quote,
        EastMoneyProduct::Forex,
        EastMoneyProduct::Search,
        EastMoneyProduct::Calendar,
    ] {
        assert!(
            validate_observation_scope(EastMoneyKind::Observation, product).is_err(),
            "行情 / 汇率 / 搜索 / 日历必须拒绝"
        );
    }
    assert_eq!(SERIES_KINDS.len(), 5, "清单 §1.3 的 5 类规划类型");
}

#[test]
fn assert_value_objects_standard() {
    assert!(Date::parse("2026-08-15").is_ok());
    assert!(Date::parse("2026-2-3").is_err(), "月/日必须两位补零");
    assert!(Date::parse("2026/08/15").is_err(), "分隔符必须为 '-'");
    assert!(matches!(
        Period::parse("2026-08"),
        Ok(Period::Month { month: 8, .. })
    ));
    assert!(Period::parse("2026-8").is_err());
    assert!(EastMoneyCode::new("").is_err(), "源侧码不得为空");
    assert_eq!(
        EastMoneyValue::Missing(EastMoneyMissingReason::SourceBlank),
        EastMoneyValue::Missing(EastMoneyMissingReason::SourceBlank),
        "缺失必须以具名原因表达"
    );
    assert_eq!(Frequency::Monthly, Frequency::Monthly);
    assert_eq!(Unit::HundredMillionYuan, Unit::HundredMillionYuan);
}

#[test]
fn assert_parse_standard() {
    let csv = "series,period,m0,m1,m2,m0_yoy,m1_yoy,m2_yoy,unit\n\
money_supply,2026-08,,,3060.9,,,8.1,亿元\n";
    let parsed = parse_eastmoney_observations(csv, number).expect("解析成功");
    assert_eq!(
        parsed[0].m0,
        EastMoneyValue::Missing(EastMoneyMissingReason::SourceBlank)
    );
    assert_eq!(parsed[0].unit, Unit::HundredMillionYuan);
    assert_eq!(parsed[0].frequency, Frequency::Monthly);

    let extra_column = "series,period,m0,m1,m2,m0_yoy,m1_yoy,m2_yoy,unit,note\n\
money_supply,2026-08,1,2,3,4,5,6,亿元,x\n";
    assert!(
        parse_eastmoney_observations(extra_column, number).is_err(),
        "未知列必须被拒绝"
    );

    let duplicate = "series,period,m0,m1,m2,m0_yoy,m1_yoy,m2_yoy,unit\n\
money_supply,2026-08,1,2,3,4,5,6,亿元\n\
money_supply,2026-08,1,2,4,4,5,7,亿元\n";
    assert!(
        parse_eastmoney_observations(duplicate, number).is_err(),
        "重复身份必须拒绝（本层选择拒绝而非静默去重）"
    );

    assert!(guard_parse_format(EastMoneyParseFormat::Csv).is_ok());
    assert!(
        guard_parse_format(EastMoneyParseFormat::Jsonp).is_err(),
        "JSONP 未实现"
    );
}

#[test]
fn assert_authorization_standard() {
    assert!(matches!(
        current_eastmoney_authorization(),
        EastMoneyAuthorization::Denied { .. }
    ));
    assert_eq!(LIVE_PROXY_ACCESS, "denied_pending_owner_reruling");
    assert_eq!(PROXY_SUPPORT_TARGET, "required");

    let today = Date::new(2026, 9, 22).expect("合法日期");
    assert!(matches!(
        eastmoneyx::authorize_eastmoney_access(None, today),
        EastMoneyAuthorization::Denied { .. }
    ));

    for channel in [
        EastMoneyExecutionChannel::Network,
        EastMoneyExecutionChannel::UserAgentSpoofing,
        EastMoneyExecutionChannel::ProxyRotation,
        EastMoneyExecutionChannel::CookieOrChallenge,
        EastMoneyExecutionChannel::CaptchaBypass,
        EastMoneyExecutionChannel::HeadlessBrowser,
        EastMoneyExecutionChannel::JsonpClaim,
    ] {
        assert!(
            guard_live_execution(channel).is_err(),
            "所有通道当前一律禁止"
        );
    }
}

#[test]
fn assert_publication_standard() {
    assert_eq!(
        eastmoney_publication_semantics(),
        (
            TimePrecision::Date,
            AvailabilityEvidence::Inferred,
            PitEligibility::NotEligible
        )
    );
    assert!(!eastmoneyx::is_formal_pit_eligible());
}

#[test]
fn assert_fixture_declaration() {
    let csv = "date,sh_net,sz_net,total_net,balance,unit\n\
2026-08-15,1200.5,-300.2,900.3,21000.0,亿元\n";
    assert_eq!(
        parse_eastmoney_northbound_flows(csv, number)
            .expect("解析成功")
            .len(),
        1
    );
}
