//! Concrete cases of the library's laws, its edge cases and every error class.

use eastmoneyx::{
    authorize_eastmoney_access, guard_live_execution, parse_eastmoney_aggregate_financing,
    parse_eastmoney_interbank_rates, parse_eastmoney_northbound_flows,
    parse_eastmoney_observations, parse_eastmoney_omo_operations, rows_after_header,
    validate_money_supply, Date,
    EastMoneyAuthorization, EastMoneyAuthorizationEvidence, EastMoneyCode, EastMoneyError,
    EastMoneyErrorKind, EastMoneyExecutionChannel, EastMoneyValue, Period,
};

/// Decimal text to the binary64 bit pattern, as `f64::from_str` reads it.
fn number(s: &str) -> Option<u64> {
    s.parse::<f64>().ok().map(f64::to_bits)
}

const OMO_HEADER: &str = "date,op_type,term_days,amount,rate,net_injection,unit\n";

#[test]
fn identity_is_the_whole_key_not_a_part_of_it() {
    let same_date_other_type = format!(
        "{OMO_HEADER}2026-08-15,reverse_repo,7,1,2,3,亿元\n2026-08-15,mlf,365,1,2,3,亿元\n"
    );
    assert_eq!(
        parse_eastmoney_omo_operations(&same_date_other_type, number)
            .expect("不同 op_type 不是重复身份")
            .len(),
        2
    );
    let duplicate =
        format!("{OMO_HEADER}2026-08-15,reverse_repo,7,1,2,3,亿元\n2026-08-15,reverse_repo,14,1,2,3,亿元\n");
    let error = parse_eastmoney_omo_operations(&duplicate, number).expect_err("重复身份");
    assert_eq!(error.kind(), EastMoneyErrorKind::SemanticallyRejected);

    let rates = "period,series,rate,change_bp,unit\n\
2026-08-15,DR007,1.5,0,%\n2026-08-16,DR007,1.6,10,%\n2026-08-15,DR007,1.7,0,%\n";
    let error = parse_eastmoney_interbank_rates(rates, number).expect_err("第三行重复");
    assert_eq!(error.kind(), EastMoneyErrorKind::SemanticallyRejected);
}

#[test]
fn every_accepted_money_supply_row_validates() {
    let csv = "series,period,m0,m1,m2,m0_yoy,m1_yoy,m2_yoy,unit\n\
money_supply,2026-06,,,1,,,,\n\
money_supply,2026-07,1,,,,,,元\n\
other_series,2026-07,,2,,1e308,,,%\n";
    let parsed = parse_eastmoney_observations(csv, number).expect("解析成功");
    assert_eq!(parsed.len(), 3);
    for observation in &parsed {
        assert!(validate_money_supply(observation).is_ok());
    }
}

#[test]
fn each_parser_refuses_a_renamed_header_as_invalid() {
    let kinds = [
        parse_eastmoney_observations("series,period,m0,m1,m2,m0_yoy,m1_yoy,m2_yoy,Unit\n", number)
            .map(|_| ())
            .unwrap_err()
            .kind(),
        parse_eastmoney_interbank_rates("period,series,rate,change,unit\n", number)
            .map(|_| ())
            .unwrap_err()
            .kind(),
        parse_eastmoney_aggregate_financing("series,period,increment,stock,yoy,units\n", number)
            .map(|_| ())
            .unwrap_err()
            .kind(),
        parse_eastmoney_northbound_flows("date,sh,sz,total_net,balance,unit\n", number)
            .map(|_| ())
            .unwrap_err()
            .kind(),
        parse_eastmoney_omo_operations("date,op_type,term,amount,rate,net_injection,unit\n", number)
            .map(|_| ())
            .unwrap_err()
            .kind(),
    ];
    for kind in kinds {
        assert_eq!(kind, EastMoneyErrorKind::Invalid);
    }
}

#[test]
fn header_only_text_is_an_empty_table() {
    assert!(parse_eastmoney_northbound_flows("date,sh_net,sz_net,total_net,balance,unit\n", number)
        .expect("只有表头")
        .is_empty());
}

#[test]
fn quoted_fields_are_read_by_the_csv_reader() {
    let csv = "\"date\",sh_net,sz_net,total_net,balance,unit\n\
\"2026-08-15\",\"1,5\",2,3,4,亿元\n";
    let error = parse_eastmoney_northbound_flows(csv, number).expect_err("1,5 不是数值");
    assert_eq!(error.kind(), EastMoneyErrorKind::Invalid);
    let csv = "\"date\",sh_net,sz_net,total_net,balance,unit\n\"2026-08-15\",\"1.5\",2,3,4,亿元\n";
    let parsed = parse_eastmoney_northbound_flows(csv, number).expect("引号字段可解析");
    assert_eq!(parsed[0].sh_net, EastMoneyValue::Present(1.5f64.to_bits()));
    assert_eq!(parsed[0].date, Date::new(2026, 8, 15).expect("合法日期"));
}

#[test]
fn a_record_of_unequal_length_is_a_csv_syntax_error() {
    let csv = "date,sh_net,sz_net,total_net,balance,unit\n2026-08-15,1,2,3,4\n";
    let error = parse_eastmoney_northbound_flows(csv, number).expect_err("少一列");
    assert_eq!(error.kind(), EastMoneyErrorKind::Invalid);
    assert!(error.to_string().starts_with("输入非法：CSV 语法错误"));
}

#[test]
fn term_days_reads_as_u32_from_str() {
    for (raw, want) in [("7", 7u32), ("+7", 7), ("007", 7), ("4294967295", u32::MAX)] {
        let csv = format!("{OMO_HEADER}2026-08-15,reverse_repo,{raw},1,2,3,亿元\n");
        assert_eq!(
            parse_eastmoney_omo_operations(&csv, number).expect("合法期限")[0].term_days,
            want
        );
    }
    for raw in ["4294967296", "-1", "+", "7.0", " 7"] {
        let csv = format!("{OMO_HEADER}2026-08-15,reverse_repo,{raw},1,2,3,亿元\n");
        let error = parse_eastmoney_omo_operations(&csv, number).expect_err("非法期限");
        assert_eq!(error.kind(), EastMoneyErrorKind::Invalid, "{raw}");
    }
    let csv = format!("{OMO_HEADER}2026-08-15,reverse_repo,,1,2,3,亿元\n");
    let error = parse_eastmoney_omo_operations(&csv, number).expect_err("空期限");
    assert_eq!(error.kind(), EastMoneyErrorKind::Missing);
}

#[test]
fn code_limits_count_characters_and_blank_is_invalid() {
    assert!(EastMoneyCode::new(&"x".repeat(64)).is_ok());
    assert!(EastMoneyCode::new(&"中".repeat(22)).is_ok(), "22 个字符在 64 字符上限内");
    assert!(EastMoneyCode::new(&"亿".repeat(64)).is_ok());
    assert_eq!(
        EastMoneyCode::new(&"亿".repeat(65)).expect_err("65 个字符").to_string(),
        "输入非法：源侧码过长（上限 64）"
    );
    assert_eq!(
        EastMoneyCode::new("").expect_err("空码").to_string(),
        "输入非法：源侧码不得为空"
    );
    assert_eq!(
        EastMoneyCode::new("\u{3000}").expect_err("全角空格即空白").kind(),
        EastMoneyErrorKind::Invalid
    );
    assert_eq!(
        EastMoneyCode::new("\u{3000}a").expect_err("前导空白").kind(),
        EastMoneyErrorKind::Invalid
    );
    assert_eq!(
        EastMoneyCode::new("a\u{85}b").expect_err("控制字符").kind(),
        EastMoneyErrorKind::Invalid
    );
}

#[test]
fn period_edges() {
    assert_eq!(
        Period::parse("2026-Q2").expect("季度"),
        Period::Quarter {
            year: 2026,
            quarter: 2
        }
    );
    assert_eq!(
        Period::parse("2026-q2").expect_err("季度须写作大写 Q").kind(),
        EastMoneyErrorKind::Invalid
    );
    assert!(Period::parse("2026-Q0").is_err());
    assert!(Period::parse("9999-12-31").is_ok());
    assert!(Period::parse("2024-02-29").is_ok());
    assert!(Period::parse("2023-02-29").is_err());
    assert!(Period::parse("２０２６").is_err(), "全角数字不是 ASCII 数字");
}

#[test]
fn authorization_expiry_day_counts_and_scope_is_trimmed() {
    let today = Date::new(2026, 9, 22).expect("合法日期");
    let evidence = EastMoneyAuthorizationEvidence {
        signer: "owner".into(),
        scope: "  product=macro; kind=observation \n".into(),
        expires_on: today,
    };
    assert_eq!(
        authorize_eastmoney_access(Some(&evidence), today),
        EastMoneyAuthorization::Authorized {
            scope: "product=macro; kind=observation".into()
        }
    );
    let next_day = Date::new(2026, 9, 23).expect("合法日期");
    assert!(matches!(
        authorize_eastmoney_access(Some(&evidence), next_day),
        EastMoneyAuthorization::Denied { .. }
    ));
    let blank_scope = EastMoneyAuthorizationEvidence {
        signer: "owner".into(),
        scope: " \t ".into(),
        expires_on: today,
    };
    assert_eq!(
        authorize_eastmoney_access(Some(&blank_scope), today),
        EastMoneyAuthorization::Denied {
            reason: "覆盖范围不明：证据未声明被覆盖的范围".into()
        }
    );
}

#[test]
fn error_text_is_prefix_and_reason() {
    assert_eq!(EastMoneyError::Invalid("x".into()).to_string(), "输入非法：x");
    assert_eq!(EastMoneyError::Invariant("y".into()).to_string(), "不变量被破坏：y");
    assert_eq!(
        guard_live_execution(EastMoneyExecutionChannel::ProxyRotation)
            .expect_err("拒绝")
            .to_string(),
        "授权判定未通过：当前执行禁止 代理轮换：本域处于 offline/NO-GO，不得以任何代理池或伪装路径绕过"
    );
}

#[test]
fn money_supply_error_order_follows_the_columns() {
    let csv = "series,period,m0,m1,m2,m0_yoy,m1_yoy,m2_yoy,unit\n\
money_supply,2026-08,x,,,,,,parsec\n";
    let error = parse_eastmoney_observations(csv, number).expect_err("数值列先于单位列");
    assert_eq!(error.kind(), EastMoneyErrorKind::Invalid);
    let csv = "series,period,m0,m1,m2,m0_yoy,m1_yoy,m2_yoy,unit\n\
money_supply,2026-08,,,,,,,parsec\n";
    let error = parse_eastmoney_observations(csv, number).expect_err("单位先于三项全缺");
    assert_eq!(error.kind(), EastMoneyErrorKind::SemanticallyRejected);
    let csv = "series,period,m0,m1,m2,m0_yoy,m1_yoy,m2_yoy,unit\n\
money_supply,2026-08,,,,,,,亿元\n";
    let error = parse_eastmoney_observations(csv, number).expect_err("三项全缺");
    assert_eq!(error.kind(), EastMoneyErrorKind::Missing);
}

#[test]
fn decimal_text_matches_to_string() {
    for n in [0u64, 7, 9, 10, 42, 100, 1_000_007, u64::MAX] {
        assert_eq!(eastmoneyx::text::decimal_string(n), n.to_string());
    }
}

#[test]
fn csv_fault_names_record_and_line() {
    let csv = "date,sh_net,sz_net,total_net,balance,unit\n2026-08-15,1,2,3,4,亿元\n2026-08-16,1,2\n";
    let error = parse_eastmoney_northbound_flows(csv, number).expect_err("第三条记录少列");
    assert_eq!(error.to_string(), "输入非法：CSV 语法错误（记录 2，行 3）");
}

#[test]
fn scope_tokens_match_exactly() {
    let today = Date::new(2026, 9, 22).expect("合法日期");
    let expires_on = Date::new(2026, 12, 31).expect("合法日期");
    for scope in [
        "kind=observations; product=macro",
        "kind=observation; product=macro_x",
        "product=macro, kind=observation",
        "kind=observation;",
    ] {
        let evidence = EastMoneyAuthorizationEvidence {
            signer: "owner".into(),
            scope: scope.into(),
            expires_on,
        };
        assert!(
            matches!(
                authorize_eastmoney_access(Some(&evidence), today),
                EastMoneyAuthorization::Denied { .. }
            ),
            "{scope}"
        );
    }
    let evidence = EastMoneyAuthorizationEvidence {
        signer: "owner".into(),
        scope: "extra=1 ;  product=macro ;kind=observation".into(),
        expires_on,
    };
    assert!(matches!(
        authorize_eastmoney_access(Some(&evidence), today),
        EastMoneyAuthorization::Authorized { .. }
    ));
}

#[test]
fn authorization_dates_are_revalidated() {
    let today = Date::new(2026, 9, 22).expect("合法日期");
    let bad_expiry = EastMoneyAuthorizationEvidence {
        signer: "owner".into(),
        scope: "kind=observation; product=macro".into(),
        expires_on: Date {
            year: 2026,
            month: 13,
            day: 40,
        },
    };
    assert_eq!(
        authorize_eastmoney_access(Some(&bad_expiry), today),
        EastMoneyAuthorization::Denied {
            reason: "授权日期非法：当前日期或有效期截止日不是合法日历日期".into()
        }
    );
    let good = EastMoneyAuthorizationEvidence {
        expires_on: Date::new(2026, 12, 31).expect("合法日期"),
        ..bad_expiry
    };
    let bad_today = Date {
        year: 2026,
        month: 2,
        day: 30,
    };
    assert!(matches!(
        authorize_eastmoney_access(Some(&good), bad_today),
        EastMoneyAuthorization::Denied { .. }
    ));
}

#[test]
fn header_errors_do_not_echo_the_cell() {
    let error = parse_eastmoney_observations(
        "series,period,m0,m1,m2,m0_yoy,m1_yoy,m2_yoy,zzz_raw\n",
        number,
    )
    .expect_err("表头不符");
    assert_eq!(error.kind(), EastMoneyErrorKind::Invalid);
    assert!(!error.to_string().contains("zzz_raw"));
    assert_eq!(
        error.to_string(),
        "输入非法：表头列名不符：第 9 列与期望列名不一致"
    );
}

#[test]
fn rows_after_header_takes_the_records() {
    let header = ["a", "b"];
    let records = vec![
        vec!["a".to_string(), "b".to_string()],
        vec!["1".to_string(), "2".to_string()],
    ];
    assert_eq!(
        rows_after_header(records, &header).expect("表头一致"),
        vec![vec!["1".to_string(), "2".to_string()]]
    );
    let error = rows_after_header(vec![vec!["a".to_string(), "secret".to_string()]], &header)
        .expect_err("列名不符");
    assert_eq!(error.to_string(), "输入非法：表头列名不符：第 2 列与期望列名不一致");
    let error = rows_after_header(Vec::new(), &header).expect_err("空文本");
    assert_eq!(error.kind(), EastMoneyErrorKind::Invalid);
}

#[test]
fn values_compare_as_numbers() {
    assert_eq!(
        EastMoneyValue::Present(0.0f64.to_bits()),
        EastMoneyValue::Present((-0.0f64).to_bits())
    );
    assert_ne!(
        EastMoneyValue::Present(f64::NAN.to_bits()),
        EastMoneyValue::Present(f64::NAN.to_bits())
    );
    assert_ne!(
        EastMoneyValue::Present(1.0f64.to_bits()),
        EastMoneyValue::Present(2.0f64.to_bits())
    );
}
