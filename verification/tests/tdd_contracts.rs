//! Behaviour contracts of every public entry point.

use eastmoneyx::{
    authorize_eastmoney_access, current_eastmoney_authorization, eastmoney_publication_semantics,
    guard_live_execution, guard_parse_format, is_formal_pit_eligible,
    parse_eastmoney_aggregate_financing, parse_eastmoney_interbank_rates,
    parse_eastmoney_northbound_flows, parse_eastmoney_observations, parse_eastmoney_omo_operations,
    validate_money_supply, validate_observation_scope, AvailabilityEvidence, Date,
    EastMoneyAggregateFinancing, EastMoneyAuthorization, EastMoneyAuthorizationEvidence,
    EastMoneyCode, EastMoneyErrorKind, EastMoneyExecutionChannel, EastMoneyKind,
    EastMoneyMissingReason, EastMoneyMoneySupply, EastMoneyParseFormat, EastMoneyProduct,
    EastMoneyValue, Frequency, Period, PitEligibility, TimePrecision, Unit,
};

/// Decimal text to the binary64 bit pattern, as `f64::from_str` reads it.
fn number(s: &str) -> Option<u64> {
    s.parse::<f64>().ok().map(f64::to_bits)
}

fn present(v: f64) -> EastMoneyValue {
    EastMoneyValue::Present(v.to_bits())
}

/// Synthetic money supply sample (three rows; the last has blank cells).
const MONEY_SUPPLY_SAMPLE: &str = "series,period,m0,m1,m2,m0_yoy,m1_yoy,m2_yoy,unit\n\
money_supply,2026-06,109.8,655.0,3040.1,9.0,6.1,7.9,亿元\n\
money_supply,2026-07,110.5,660.1,3050.2,9.1,6.2,8.0,亿元\n\
money_supply,2026-08,,,3060.9,,,8.1,亿元\n";

/// Synthetic open market operation sample (two rows).
const OMO_SAMPLE: &str = "date,op_type,term_days,amount,rate,net_injection,unit\n\
2026-08-15,reverse_repo,7,1200.0,1.42,700.0,亿元\n\
2026-08-16,reverse_repo,14,500.0,1.60,-200.0,亿元\n";

/// A legal money supply observation shared by the `validate_money_supply` cases.
fn sample_money_supply() -> EastMoneyMoneySupply {
    EastMoneyMoneySupply {
        series: EastMoneyCode::new("money_supply").expect("合法码"),
        period: Period::Month {
            year: 2026,
            month: 8,
        },
        m0: EastMoneyValue::Missing(EastMoneyMissingReason::SourceBlank),
        m1: EastMoneyValue::Missing(EastMoneyMissingReason::SourceBlank),
        m2: present(3060.9),
        m0_yoy: EastMoneyValue::Missing(EastMoneyMissingReason::SourceBlank),
        m1_yoy: EastMoneyValue::Missing(EastMoneyMissingReason::SourceBlank),
        m2_yoy: present(8.1),
        unit: Unit::HundredMillionYuan,
        frequency: Frequency::Monthly,
        revision: None,
    }
}

#[test]
fn date_new_validates_calendar_fields() {
    assert!(Date::new(2026, 2, 29).is_err(), "2026 非闰年，2 月无 29 日");
    assert!(Date::new(2026, 4, 31).is_err(), "4 月只有 30 天");
    assert!(Date::new(2026, 13, 1).is_err(), "月份上限 12");
    assert!(Date::new(2026, 0, 1).is_err(), "月份下限 1");
    assert!(Date::new(2026, 1, 0).is_err(), "日下限 1");
    assert!(Date::new(2024, 2, 29).is_ok(), "2024 是闰年");
}

#[test]
fn date_parse_is_strict_iso() {
    assert!(Date::parse("2026-08-15").is_ok());
    for bad in ["2026/08/15", "2026-2-3", "2026-08-15T00:00:00", "20260815"] {
        assert!(Date::parse(bad).is_err(), "{bad} 必须被拒绝");
    }
}

#[test]
fn period_parse_covers_four_forms() {
    assert!(matches!(Period::parse("2026-08-15"), Ok(Period::Day(_))));
    assert!(matches!(
        Period::parse("2026-08"),
        Ok(Period::Month { month: 8, .. })
    ));
    assert!(matches!(
        Period::parse("2026-Q4"),
        Ok(Period::Quarter { quarter: 4, .. })
    ));
    assert!(matches!(Period::parse("2026"), Ok(Period::Year(2026))));
    assert!(Period::parse("2026-Q5").is_err(), "季度上限 4");
    assert!(Period::parse("2026-13").is_err(), "月份上限 12");
}

#[test]
fn code_new_rejects_blank_and_control_chars() {
    assert_eq!(
        EastMoneyCode::new("money_supply").expect("合法码").as_str(),
        "money_supply"
    );
    assert!(EastMoneyCode::new("").is_err());
    assert!(EastMoneyCode::new("  ").is_err());
    assert!(EastMoneyCode::new(" a").is_err(), "前后空白必须拒绝");
    assert!(EastMoneyCode::new("a\nb").is_err(), "控制字符必须拒绝");
    assert!(EastMoneyCode::new(&"x".repeat(65)).is_err(), "超长必须拒绝");
}

#[test]
fn code_as_str_round_trips() {
    let code = EastMoneyCode::new("reverse_repo").expect("合法码");
    assert_eq!(code.as_str(), "reverse_repo");
    let other = EastMoneyCode::new("reverse_repo").expect("合法码");
    assert_eq!(code, other, "同值必须相等（避免静默不等值）");
}

#[test]
fn scope_guard_rejects_non_macro_products() {
    assert!(
        validate_observation_scope(EastMoneyKind::Observation, EastMoneyProduct::Macro).is_ok()
    );
    for product in [
        EastMoneyProduct::Quote,
        EastMoneyProduct::Forex,
        EastMoneyProduct::Search,
        EastMoneyProduct::Calendar,
    ] {
        let error = validate_observation_scope(EastMoneyKind::Observation, product)
            .expect_err("非宏观产品必须拒绝");
        assert_eq!(error.kind(), EastMoneyErrorKind::RoutedElsewhere);
    }
}

#[test]
fn money_supply_validation_rejects_incomplete_rows() {
    assert!(validate_money_supply(&sample_money_supply()).is_ok());

    let mut fabricated = sample_money_supply();
    fabricated.revision = Some(EastMoneyCode::new("v2").expect("合法码"));
    assert!(
        validate_money_supply(&fabricated).is_err(),
        "无官方 vintage 面时 revision 必须为 None"
    );

    let mut all_missing = sample_money_supply();
    all_missing.m2 = EastMoneyValue::Missing(EastMoneyMissingReason::SourceBlank);
    assert!(
        validate_money_supply(&all_missing).is_err(),
        "三项全缺必须拒绝"
    );

    let mut non_finite = sample_money_supply();
    non_finite.m2 = present(f64::NAN);
    assert!(validate_money_supply(&non_finite).is_err(), "NaN 必须拒绝");
}

#[test]
fn parse_format_guard_rejects_jsonp() {
    assert!(guard_parse_format(EastMoneyParseFormat::Csv).is_ok());
    let error = guard_parse_format(EastMoneyParseFormat::Jsonp).expect_err("JSONP 未实现");
    assert_eq!(error.kind(), EastMoneyErrorKind::NotApplicable);
}

#[test]
fn live_execution_guard_denies_every_channel() {
    for channel in [
        EastMoneyExecutionChannel::Network,
        EastMoneyExecutionChannel::UserAgentSpoofing,
        EastMoneyExecutionChannel::ProxyRotation,
        EastMoneyExecutionChannel::CookieOrChallenge,
        EastMoneyExecutionChannel::CaptchaBypass,
        EastMoneyExecutionChannel::HeadlessBrowser,
        EastMoneyExecutionChannel::JsonpClaim,
    ] {
        let error = guard_live_execution(channel).expect_err("当前一律禁止");
        assert_eq!(error.kind(), EastMoneyErrorKind::AuthorizationDenied);
    }
}

#[test]
fn authorize_is_fail_closed() {
    let today = Date::new(2026, 9, 22).expect("合法日期");
    assert!(matches!(
        authorize_eastmoney_access(None, today),
        EastMoneyAuthorization::Denied { .. }
    ));

    let vague = EastMoneyAuthorizationEvidence {
        signer: "owner".into(),
        scope: "everything".into(),
        expires_on: Date::new(2026, 12, 31).expect("合法日期"),
    };
    assert!(matches!(
        authorize_eastmoney_access(Some(&vague), today),
        EastMoneyAuthorization::Denied { .. }
    ));

    let expired = EastMoneyAuthorizationEvidence {
        signer: "owner".into(),
        scope: "kind=observation; product=macro".into(),
        expires_on: Date::new(2026, 1, 1).expect("合法日期"),
    };
    assert!(matches!(
        authorize_eastmoney_access(Some(&expired), today),
        EastMoneyAuthorization::Denied { .. }
    ));

    let complete = EastMoneyAuthorizationEvidence {
        signer: "owner".into(),
        scope: "kind=observation; product=macro".into(),
        expires_on: Date::new(2026, 12, 31).expect("合法日期"),
    };
    assert!(matches!(
        authorize_eastmoney_access(Some(&complete), today),
        EastMoneyAuthorization::Authorized { .. }
    ));
}

#[test]
fn current_authorization_is_always_denied() {
    match current_eastmoney_authorization() {
        EastMoneyAuthorization::Denied { reason } => {
            assert!(reason.contains("UNKNOWN"), "理由须说明端点许可 UNKNOWN");
            assert!(
                reason.contains("denied_pending_owner_reruling"),
                "理由须登记 live_proxy_access 状态"
            );
        }
        other => panic!("当前判定必须为 Denied，实际 {other:?}"),
    }
}

#[test]
fn observations_parser_accepts_fixture_and_rejects_duplicates() {
    let parsed = parse_eastmoney_observations(MONEY_SUPPLY_SAMPLE, number).expect("夹具解析成功");
    assert_eq!(parsed.len(), 3);
    assert_eq!(parsed[2].m2, present(3060.9), "空单元格之外的列必须原样读出");
    assert_eq!(
        parsed[2].m0,
        EastMoneyValue::Missing(EastMoneyMissingReason::SourceBlank)
    );

    let duplicate = "series,period,m0,m1,m2,m0_yoy,m1_yoy,m2_yoy,unit\n\
money_supply,2026-08,1,2,3,4,5,6,亿元\n\
money_supply,2026-08,1,2,4,4,5,7,亿元\n";
    assert!(
        parse_eastmoney_observations(duplicate, number).is_err(),
        "重复身份必须拒绝（不得静默去重）"
    );
}

#[test]
fn interbank_parser_accepts_fixture_and_rejects_unknown_series() {
    let csv = "period,series,rate,change_bp,unit\n\
2026-08-15,SHIBOR_ON,1.42,-3.5,%\n\
2026-08-15,DR007,1.55,2.0,%\n\
2026-08-20,LPR_1Y,3.00,0,%\n";
    let parsed = parse_eastmoney_interbank_rates(csv, number).expect("解析成功");
    assert_eq!(parsed.len(), 3);
    assert_eq!(parsed[0].change_bp, present(-3.5));

    let unknown = "period,series,rate,change_bp,unit\n2026-08-15,USD1M,1.4,0,%\n";
    assert!(
        parse_eastmoney_interbank_rates(unknown, number).is_err(),
        "未知序列令牌必须拒绝"
    );
}

#[test]
fn financing_parser_rejects_unknown_columns() {
    let ok = "series,period,increment,stock,yoy,unit\n\
aggregate_financing,2026-07,7700.0,412500.0,8.4,亿元\n";
    assert_eq!(
        parse_eastmoney_aggregate_financing(ok, number)
            .expect("解析成功")
            .len(),
        1
    );
    assert_eq!(
        parse_eastmoney_aggregate_financing(ok, number).expect("解析成功")[0],
        EastMoneyAggregateFinancing {
            series: EastMoneyCode::new("aggregate_financing").expect("合法码"),
            period: Period::Month {
                year: 2026,
                month: 7
            },
            increment: present(7700.0),
            stock: present(412500.0),
            yoy: present(8.4),
            unit: Unit::HundredMillionYuan,
            frequency: Frequency::Monthly,
            revision: None,
        }
    );

    let extra = "series,period,increment,stock,yoy,unit,note\n\
aggregate_financing,2026-07,7700.0,412500.0,8.4,亿元,x\n";
    assert!(
        parse_eastmoney_aggregate_financing(extra, number).is_err(),
        "未知列必须被拒绝（不得静默忽略）"
    );
}

#[test]
fn northbound_parser_accepts_fixture_and_rejects_bad_date() {
    let ok = "date,sh_net,sz_net,total_net,balance,unit\n\
2026-08-15,1200.5,-300.2,900.3,21000.0,亿元\n";
    assert_eq!(
        parse_eastmoney_northbound_flows(ok, number)
            .expect("解析成功")
            .len(),
        1
    );

    let bad = "date,sh_net,sz_net,total_net,balance,unit\n\
2026-8-15,1200.5,-300.2,900.3,21000.0,亿元\n";
    assert!(
        parse_eastmoney_northbound_flows(bad, number).is_err(),
        "月/日必须补零"
    );

    let dup = "date,sh_net,sz_net,total_net,balance,unit\n\
2026-08-15,1,2,3,4,亿元\n\
2026-08-15,1,2,3,5,亿元\n";
    assert!(
        parse_eastmoney_northbound_flows(dup, number).is_err(),
        "重复日期必须拒绝"
    );
}

#[test]
fn omo_parser_accepts_fixture_and_requires_integer_term_days() {
    let parsed = parse_eastmoney_omo_operations(OMO_SAMPLE, number).expect("夹具解析成功");
    assert_eq!(parsed.len(), 2);
    assert_eq!(parsed[0].term_days, 7);
    assert_eq!(parsed[0].frequency, Frequency::Event);

    let bad = "date,op_type,term_days,amount,rate,net_injection,unit\n\
2026-08-15,reverse_repo,7d,1,2,3,亿元\n";
    assert!(
        parse_eastmoney_omo_operations(bad, number).is_err(),
        "非整数 term_days 必须拒绝（不得静默当 0）"
    );
}

#[test]
fn publication_triple_is_date_inferred_not_eligible() {
    assert_eq!(
        eastmoney_publication_semantics(),
        (
            TimePrecision::Date,
            AvailabilityEvidence::Inferred,
            PitEligibility::NotEligible
        )
    );
}

#[test]
fn formal_pit_is_never_eligible() {
    assert!(!is_formal_pit_eligible());
    assert_eq!(
        eastmoney_publication_semantics().2,
        PitEligibility::NotEligible
    );
}
