//! The CSV parsers.

use eastmoneyx::{
    guard_parse_format, parse_eastmoney_aggregate_financing, parse_eastmoney_interbank_rates,
    parse_eastmoney_northbound_flows, parse_eastmoney_observations, parse_eastmoney_omo_operations,
    EastMoneyErrorKind, EastMoneyInterbankSeries, EastMoneyMissingReason, EastMoneyParseFormat,
    EastMoneyValue, Frequency, Unit,
};

/// Decimal text to the binary64 bit pattern, as `f64::from_str` reads it.
fn number(s: &str) -> Option<u64> {
    s.parse::<f64>().ok().map(f64::to_bits)
}

fn present(v: f64) -> EastMoneyValue {
    EastMoneyValue::Present(v.to_bits())
}

const MONEY_SUPPLY: &str = "series,period,m0,m1,m2,m0_yoy,m1_yoy,m2_yoy,unit\n\
money_supply,2026-07,110.5,660.1,3050.2,9.1,6.2,8.0,亿元\n\
money_supply,2026-08,,,3060.9,,,8.1,亿元\n";

const INTERBANK: &str = "period,series,rate,change_bp,unit\n\
2026-08-15,SHIBOR_ON,1.42,-3.5,%\n\
2026-08-15,DR007,1.55,2.0,%\n\
2026-08-20,LPR_1Y,3.00,0,%\n";

const FINANCING: &str = "series,period,increment,stock,yoy,unit\n\
aggregate_financing,2026-07,7700.0,412500.0,8.4,亿元\n";

const NORTHBOUND: &str = "date,sh_net,sz_net,total_net,balance,unit\n\
2026-08-15,1200.5,-300.2,900.3,21000.0,亿元\n";

const OMO: &str = "date,op_type,term_days,amount,rate,net_injection,unit\n\
2026-08-15,reverse_repo,7,1200.0,1.42,700.0,亿元\n";

#[test]
fn money_supply_parses_with_named_missing() {
    let parsed = parse_eastmoney_observations(MONEY_SUPPLY, number).expect("解析成功");
    assert_eq!(parsed.len(), 2);
    assert_eq!(parsed[0].m2, present(3050.2));
    assert_eq!(
        parsed[1].m0,
        EastMoneyValue::Missing(EastMoneyMissingReason::SourceBlank)
    );
    assert_eq!(parsed[1].unit, Unit::HundredMillionYuan);
    assert_eq!(parsed[1].frequency, Frequency::Monthly);
    assert!(parsed[1].revision.is_none(), "无官方 vintage 面须为 None");
}

#[test]
fn money_supply_rejects_unknown_and_reordered_headers() {
    let unknown = "series,period,m0,m1,m2,m0_yoy,m1_yoy,m2_yoy,unit,extra\n\
money_supply,2026-08,1,2,3,4,5,6,亿元,0\n";
    assert!(
        parse_eastmoney_observations(unknown, number).is_err(),
        "多一列必须拒绝"
    );

    let renamed = "series,period,m0,m1,m2,m0_yoy,m1_yoy,m2_yoy,units\n\
money_supply,2026-08,1,2,3,4,5,6,亿元\n";
    assert!(
        parse_eastmoney_observations(renamed, number).is_err(),
        "改名必须拒绝"
    );

    let reordered = "period,series,m0,m1,m2,m0_yoy,m1_yoy,m2_yoy,unit\n\
2026-08,money_supply,1,2,3,4,5,6,亿元\n";
    assert!(
        parse_eastmoney_observations(reordered, number).is_err(),
        "改序必须拒绝"
    );
}

#[test]
fn money_supply_rejects_duplicate_identity_and_bad_values() {
    let duplicate = "series,period,m0,m1,m2,m0_yoy,m1_yoy,m2_yoy,unit\n\
money_supply,2026-08,1,2,3,4,5,6,亿元\n\
money_supply,2026-08,1,2,4,4,5,7,亿元\n";
    let error = parse_eastmoney_observations(duplicate, number).expect_err("重复身份必须拒绝");
    assert_eq!(error.kind(), EastMoneyErrorKind::SemanticallyRejected);

    let bad_period = "series,period,m0,m1,m2,m0_yoy,m1_yoy,m2_yoy,unit\n\
money_supply,2026-08-15,1,2,3,4,5,6,亿元\n";
    assert!(
        parse_eastmoney_observations(bad_period, number).is_err(),
        "非月度必须拒绝"
    );

    let bad_number = "series,period,m0,m1,m2,m0_yoy,m1_yoy,m2_yoy,unit\n\
money_supply,2026-08,1,2,not-a-number,4,5,6,亿元\n";
    assert!(parse_eastmoney_observations(bad_number, number).is_err());

    let bad_unit = "series,period,m0,m1,m2,m0_yoy,m1_yoy,m2_yoy,unit\n\
money_supply,2026-08,1,2,3,4,5,6,parsec\n";
    assert!(parse_eastmoney_observations(bad_unit, number).is_err());
}

#[test]
fn interbank_rate_parses_three_series() {
    let parsed = parse_eastmoney_interbank_rates(INTERBANK, number).expect("解析成功");
    assert_eq!(parsed.len(), 3);
    assert_eq!(parsed[0].series, EastMoneyInterbankSeries::ShiborOn);
    assert_eq!(parsed[1].series, EastMoneyInterbankSeries::Dr007);
    assert_eq!(parsed[2].series, EastMoneyInterbankSeries::Lpr1y);
    assert_eq!(parsed[0].change_bp, present(-3.5));
}

#[test]
fn interbank_rate_rejects_unknown_series_token() {
    let unknown = "period,series,rate,change_bp,unit\n2026-08-15,USD1M,1.4,0,%\n";
    let error = parse_eastmoney_interbank_rates(unknown, number).expect_err("未知序列必须拒绝");
    assert_eq!(error.kind(), EastMoneyErrorKind::SemanticallyRejected);
}

#[test]
fn financing_northbound_and_omo_parse() {
    assert_eq!(
        parse_eastmoney_aggregate_financing(FINANCING, number)
            .expect("解析成功")
            .len(),
        1
    );
    assert_eq!(
        parse_eastmoney_northbound_flows(NORTHBOUND, number)
            .expect("解析成功")
            .len(),
        1
    );
    let omo = parse_eastmoney_omo_operations(OMO, number).expect("解析成功");
    assert_eq!(omo[0].term_days, 7);
    assert_eq!(omo[0].frequency, Frequency::Event);
}

#[test]
fn negative_inputs_are_rejected_per_type() {
    assert!(
        parse_eastmoney_aggregate_financing("series,period,increment,stock,yoy\n", number)
            .is_err()
    );
    assert!(parse_eastmoney_northbound_flows(
        "date,sh_net,sz_net,total_net,balance,unit\n2026-2-3,1,2,3,4,亿元\n",
        number
    )
    .is_err());
    let dup_north = "date,sh_net,sz_net,total_net,balance,unit\n\
2026-08-15,1,2,3,4,亿元\n\
2026-08-15,1,2,3,5,亿元\n";
    assert!(parse_eastmoney_northbound_flows(dup_north, number).is_err());
    let bad_term = "date,op_type,term_days,amount,rate,net_injection,unit\n\
2026-08-15,reverse_repo,,1,2,3,亿元\n";
    assert!(parse_eastmoney_omo_operations(bad_term, number).is_err());
}

#[test]
fn empty_input_is_rejected_as_missing_header() {
    assert!(parse_eastmoney_observations("", number).is_err());
    assert!(parse_eastmoney_interbank_rates("", number).is_err());
}

#[test]
fn jsonp_format_is_not_applicable() {
    assert!(guard_parse_format(EastMoneyParseFormat::Csv).is_ok());
    let error = guard_parse_format(EastMoneyParseFormat::Jsonp).expect_err("未实现");
    assert_eq!(error.kind(), EastMoneyErrorKind::NotApplicable);
}

#[test]
fn adversarial_headers_and_identity_are_not_trimmed() {
    let header = "period,series,rate,change_bp,unit\n";
    for input in [
        " period ,series,rate,change_bp,unit\n2026-08-15,SHIBOR_ON,1,0,%".to_owned(),
        format!("{header}2026-08-15, SHIBOR_ON ,1,0,%"),
    ] {
        assert!(parse_eastmoney_interbank_rates(&input, number).is_err());
    }
}

#[test]
fn adversarial_daily_rate_rejects_other_periods() {
    for period in ["2026", "2026-08", "2026-Q3"] {
        let input = format!("period,series,rate,change_bp,unit\n{period},SHIBOR_ON,1,0,%");
        assert!(parse_eastmoney_interbank_rates(&input, number).is_err());
    }
}
