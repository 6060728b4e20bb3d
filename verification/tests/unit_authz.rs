//! Fail-closed authorization and the execution channel guard.

use eastmoneyx::{
    authorize_eastmoney_access, current_eastmoney_authorization, guard_live_execution, Date,
    EastMoneyAuthorization, EastMoneyAuthorizationEvidence, EastMoneyErrorKind,
    EastMoneyExecutionChannel, LIVE_PROXY_ACCESS, PROXY_SUPPORT_TARGET,
};

fn today() -> Date {
    Date::new(2026, 9, 22).expect("合法日期")
}

fn full_evidence(scope: &str, expires: Date) -> EastMoneyAuthorizationEvidence {
    EastMoneyAuthorizationEvidence {
        signer: "owner".into(),
        scope: scope.into(),
        expires_on: expires,
    }
}

#[test]
fn grants_when_evidence_is_complete_and_covers_scope() {
    let evidence = full_evidence(
        "source=eastmoney; kind=observation; product=macro; expires=2026-12-31",
        Date::new(2026, 12, 31).expect("合法日期"),
    );
    let verdict = authorize_eastmoney_access(Some(&evidence), today());
    assert!(matches!(verdict, EastMoneyAuthorization::Authorized { .. }));
}

#[test]
fn denies_when_evidence_is_absent() {
    assert!(matches!(
        authorize_eastmoney_access(None, today()),
        EastMoneyAuthorization::Denied { .. }
    ));
}

#[test]
fn denies_when_signer_or_scope_is_unknown() {
    let blank_signer = EastMoneyAuthorizationEvidence {
        signer: "   ".into(),
        scope: "kind=observation; product=macro".into(),
        expires_on: Date::new(2026, 12, 31).expect("合法日期"),
    };
    assert!(matches!(
        authorize_eastmoney_access(Some(&blank_signer), today()),
        EastMoneyAuthorization::Denied { .. }
    ));

    let vague = full_evidence("all access", Date::new(2026, 12, 31).expect("合法日期"));
    assert!(matches!(
        authorize_eastmoney_access(Some(&vague), today()),
        EastMoneyAuthorization::Denied { .. }
    ));
}

#[test]
fn denies_when_evidence_is_expired() {
    let expired = full_evidence(
        "kind=observation; product=macro",
        Date::new(2026, 1, 1).expect("合法日期"),
    );
    assert!(matches!(
        authorize_eastmoney_access(Some(&expired), today()),
        EastMoneyAuthorization::Denied { .. }
    ));
}

#[test]
fn current_verdict_is_always_denied() {
    let verdict = current_eastmoney_authorization();
    assert!(matches!(
        verdict,
        EastMoneyAuthorization::Denied { ref reason } if !reason.is_empty()
    ));
    assert_eq!(LIVE_PROXY_ACCESS, "denied_pending_owner_reruling");
    assert_eq!(PROXY_SUPPORT_TARGET, "required");
}

#[test]
fn every_execution_channel_is_blocked() {
    for channel in [
        EastMoneyExecutionChannel::Network,
        EastMoneyExecutionChannel::UserAgentSpoofing,
        EastMoneyExecutionChannel::ProxyRotation,
        EastMoneyExecutionChannel::CookieOrChallenge,
        EastMoneyExecutionChannel::CaptchaBypass,
        EastMoneyExecutionChannel::HeadlessBrowser,
        EastMoneyExecutionChannel::JsonpClaim,
    ] {
        let error = guard_live_execution(channel).expect_err("必须一律拒绝");
        assert_eq!(
            error.kind(),
            EastMoneyErrorKind::AuthorizationDenied,
            "{:?} 必须落到授权拒绝",
            channel
        );
    }
}
