//! Fail-closed authorization verdicts and the refusal of live execution channels.
//!
//! Verdicts are read-only: no registered value is ever changed
//! and nothing grants live access. The verdict concerns whether a scope of the
//! source is authorized, not whether this library is production ready.

use vstd::prelude::*;

use crate::error::{EastMoneyError, EastMoneyErrorKind, EastMoneyResult};
use crate::text::{has_token, is_blank, is_piece, text_has_token, trim, trimmed};
use crate::value::{date_is_after, date_rank, lemma_calendar_order, Date};

verus! {

/// The platform's proxy access state (a read-only registration).
pub const LIVE_PROXY_ACCESS: &'static str = "denied_pending_owner_reruling";

/// The proxy support target: a wiring requirement, not a network authorization.
pub const PROXY_SUPPORT_TARGET: &'static str = "required";

/// The entry-kind token that authorization evidence must cover explicitly.
const REQUIRED_SCOPE_KIND: &'static str = "kind=observation";

/// The product token that authorization evidence must cover explicitly.
const REQUIRED_SCOPE_PRODUCT: &'static str = "product=macro";

/// An authorization verdict.
#[non_exhaustive]
#[derive(Debug, Clone, PartialEq, Eq)]
pub enum EastMoneyAuthorization {
    /// The evidence is valid and covers the requested scope and period.
    Authorized {
        /// The covered scope.
        scope: String,
    },
    /// The evidence is missing, expired, unsigned or of unclear scope.
    Denied {
        /// A readable reason.
        reason: String,
    },
}

/// Authorization evidence (a read-only input from the caller).
///
/// A registry entry saying "approved" is never enough: the evidence must carry
/// a signer, a scope and an expiry date, or the verdict is `Denied`.
#[derive(Debug, Clone, PartialEq, Eq)]
pub struct EastMoneyAuthorizationEvidence {
    /// The signer (owner identity). A blank signer is an unknown signer.
    pub signer: String,
    /// The covered scope; must state `kind=observation` and `product=macro`.
    pub scope: String,
    /// The last day the evidence is valid (inclusive).
    pub expires_on: Date,
}

/// The reason given when no evidence is supplied.
pub open spec fn reason_absent() -> Seq<char> {
    "授权证据缺失：本域无 Owner 签核文件，全部端点许可 UNKNOWN"@
}

/// The reason given when the signer is blank.
pub open spec fn reason_unsigned() -> Seq<char> {
    "签署者不明：证据缺少可识别的 Owner 身份标识"@
}

/// The reason given when the scope is blank.
pub open spec fn reason_blank_scope() -> Seq<char> {
    "覆盖范围不明：证据未声明被覆盖的范围"@
}

/// The reason given when the scope does not name both required tokens.
pub open spec fn reason_uncovered_scope() -> Seq<char> {
    "覆盖范围不明：证据须显式声明 kind=observation 与 product=macro"@
}

/// The reason given when the evidence has expired.
pub open spec fn reason_expired() -> Seq<char> {
    "授权证据已过期：有效期截止日早于当前日期"@
}

/// The reason of the current verdict of this domain.
pub open spec fn reason_current() -> Seq<char> {
    "本域当前无 Owner 签核文件；全部端点许可 UNKNOWN；live_proxy_access=denied_pending_owner_reruling，运行时必须 deny"@
}

/// The reason given when `today` or the expiry date is no calendar date.
pub open spec fn reason_invalid_date() -> Seq<char> {
    "授权日期非法：当前日期或有效期截止日不是合法日历日期"@
}

/// The fail-closed verdict on `evidence` at `today`: `Ok(scope)` grants the
/// trimmed scope, `Err(reason)` denies with that reason. Checks run in order:
/// presence, signer, blank scope, both required tokens (each a whole
/// `;`-separated piece of the scope, trimmed), calendar validity of both
/// dates, expiry.
pub open spec fn authorization_verdict(
    evidence: Option<&EastMoneyAuthorizationEvidence>,
    today: Date,
) -> Result<Seq<char>, Seq<char>> {
    match evidence {
        None => Err(reason_absent()),
        Some(e) => {
            let scope = trim(e.scope@);
            if trim(e.signer@).len() == 0 {
                Err(reason_unsigned())
            } else if scope.len() == 0 {
                Err(reason_blank_scope())
            } else if !has_token(scope, "kind=observation"@) || !has_token(
                scope,
                "product=macro"@,
            ) {
                Err(reason_uncovered_scope())
            } else if !today.is_valid() || !e.expires_on.is_valid() {
                Err(reason_invalid_date())
            } else if today.is_after(e.expires_on) {
                Err(reason_expired())
            } else {
                Ok(scope)
            }
        },
    }
}

/// Whether an exec verdict is the one that `v` describes.
pub open spec fn verdict_matches(
    r: EastMoneyAuthorization,
    v: Result<Seq<char>, Seq<char>>,
) -> bool {
    match (r, v) {
        (EastMoneyAuthorization::Authorized { scope }, Ok(s)) => scope@ == s,
        (EastMoneyAuthorization::Denied { reason }, Err(m)) => reason@ == m,
        _ => false,
    }
}

/// Fail-closed authorization: missing, blank, unsigned, unclear or expired
/// evidence, or a date that is no calendar date, is always `Denied`. Nothing
/// is granted by default and no registered value is changed.
pub fn authorize_eastmoney_access(
    evidence: Option<&EastMoneyAuthorizationEvidence>,
    today: Date,
) -> (r: EastMoneyAuthorization)
    ensures
        verdict_matches(r, authorization_verdict(evidence, today)),
{
    let evidence = match evidence {
        Some(e) => e,
        None => {
            return denied("授权证据缺失：本域无 Owner 签核文件，全部端点许可 UNKNOWN");
        },
    };
    if is_blank(evidence.signer.as_str()) {
        return denied("签署者不明：证据缺少可识别的 Owner 身份标识");
    }
    let scope = trimmed(evidence.scope.as_str());
    if scope.is_empty() {
        return denied("覆盖范围不明：证据未声明被覆盖的范围");
    }
    if !text_has_token(scope, REQUIRED_SCOPE_KIND) || !text_has_token(scope, REQUIRED_SCOPE_PRODUCT) {
        return denied("覆盖范围不明：证据须显式声明 kind=observation 与 product=macro");
    }
    let expires_on = evidence.expires_on;
    if Date::new(today.year, today.month, today.day).is_err() || Date::new(
        expires_on.year,
        expires_on.month,
        expires_on.day,
    ).is_err() {
        return denied("授权日期非法：当前日期或有效期截止日不是合法日历日期");
    }
    if date_is_after(today, evidence.expires_on) {
        return denied("授权证据已过期：有效期截止日早于当前日期");
    }
    EastMoneyAuthorization::Authorized { scope: scope.to_owned() }
}

/// The current verdict of this domain: always `Denied`, since no owner
/// sign-off exists, every endpoint licence is unknown and live proxy access is
/// denied pending an owner ruling.
pub fn current_eastmoney_authorization() -> (r: EastMoneyAuthorization)
    ensures
        r matches EastMoneyAuthorization::Denied { reason } && reason@ == reason_current(),
{
    denied(
        "本域当前无 Owner 签核文件；全部端点许可 UNKNOWN；live_proxy_access=denied_pending_owner_reruling，运行时必须 deny",
    )
}

/// A denial carrying `reason`.
fn denied(reason: &str) -> (r: EastMoneyAuthorization)
    ensures
        r matches EastMoneyAuthorization::Denied { reason: m } && m@ == reason@,
{
    EastMoneyAuthorization::Denied { reason: reason.to_owned() }
}

// ---------------------------------------------------------------------------
// Execution channels
// ---------------------------------------------------------------------------

/// The execution channels that are currently forbidden.
#[non_exhaustive]
#[derive(Debug, Clone, Copy, PartialEq, Eq, Hash, Structural)]
pub enum EastMoneyExecutionChannel {
    /// Network access.
    Network,
    /// User-Agent spoofing.
    UserAgentSpoofing,
    /// Proxy rotation.
    ProxyRotation,
    /// Cookie / challenge responses.
    CookieOrChallenge,
    /// Captcha bypass.
    CaptchaBypass,
    /// Headless browsers.
    HeadlessBrowser,
    /// Claiming that JSONP stripping is implemented.
    JsonpClaim,
}

/// The readable name of a channel.
pub open spec fn channel_label(c: EastMoneyExecutionChannel) -> Seq<char> {
    match c {
        EastMoneyExecutionChannel::Network => "联网访问"@,
        EastMoneyExecutionChannel::UserAgentSpoofing => "User-Agent 伪装"@,
        EastMoneyExecutionChannel::ProxyRotation => "代理轮换"@,
        EastMoneyExecutionChannel::CookieOrChallenge => "Cookie/Challenge"@,
        EastMoneyExecutionChannel::CaptchaBypass => "验证码绕过"@,
        EastMoneyExecutionChannel::HeadlessBrowser => "无头浏览器"@,
        EastMoneyExecutionChannel::JsonpClaim => "JSONP 假宣称"@,
    }
}

/// The reason given when `c` is refused.
pub open spec fn channel_refusal(c: EastMoneyExecutionChannel) -> Seq<char> {
    "当前执行禁止 "@ + channel_label(c) + "：本域处于 offline/NO-GO，不得以任何代理池或伪装路径绕过"@
}

impl EastMoneyExecutionChannel {
    /// The readable name of the channel.
    pub(crate) fn label(self) -> (r: &'static str)
        ensures
            r@ == channel_label(self),
    {
        match self {
            EastMoneyExecutionChannel::Network => "联网访问",
            EastMoneyExecutionChannel::UserAgentSpoofing => "User-Agent 伪装",
            EastMoneyExecutionChannel::ProxyRotation => "代理轮换",
            EastMoneyExecutionChannel::CookieOrChallenge => "Cookie/Challenge",
            EastMoneyExecutionChannel::CaptchaBypass => "验证码绕过",
            EastMoneyExecutionChannel::HeadlessBrowser => "无头浏览器",
            EastMoneyExecutionChannel::JsonpClaim => "JSONP 假宣称",
        }
    }
}

/// The execution channel guard: every channel is refused (fail-closed),
/// proxy rotation included; wiring support is no network authorization.
pub fn guard_live_execution(channel: EastMoneyExecutionChannel) -> (r: EastMoneyResult<()>)
    ensures
        r matches Err(e) && e.class() == EastMoneyErrorKind::AuthorizationDenied && e.reason()
            == channel_refusal(channel),
{
    let reason = "当前执行禁止 ".to_owned().concat(channel.label()).concat(
        "：本域处于 offline/NO-GO，不得以任何代理池或伪装路径绕过",
    );
    Err(EastMoneyError::AuthorizationDenied(reason))
}


/// The verdict is fail-closed: access is granted only on present evidence with
/// a non-blank signer, a trimmed scope that has `kind=observation` and
/// `product=macro` each as a whole `;`-separated piece, a `today` and an expiry
/// date that are both calendar dates, and an expiry date not before `today`
/// (the expiry day itself still counts); the granted scope is that trimmed
/// scope.
pub proof fn lemma_authorization_is_fail_closed(
    evidence: Option<&EastMoneyAuthorizationEvidence>,
    today: Date,
)
    ensures
        authorization_verdict(evidence, today) is Ok <==> (evidence matches Some(e) && {
            &&& trim(e.signer@).len() > 0
            &&& has_token(trim(e.scope@), "kind=observation"@)
            &&& has_token(trim(e.scope@), "product=macro"@)
            &&& today.is_valid()
            &&& e.expires_on.is_valid()
            &&& !today.is_after(e.expires_on)
        }),
        authorization_verdict(evidence, today) matches Ok(scope) ==> scope == trim(
            evidence->Some_0.scope@,
        ),
{
    if let Some(e) = evidence {
        let scope = trim(e.scope@);
        if has_token(scope, "kind=observation"@) {
            let (i, j) = choose|i: int, j: int|
                #[trigger] is_piece(scope, i, j) && trim(scope.subrange(i, j)) == "kind=observation"@;
            assert("kind=observation"@.len() > 0) by {
                reveal_strlit("kind=observation");
            }
            if scope.len() == 0 {
                assert(scope.subrange(i, j).len() == 0);
                assert(trim(scope.subrange(i, j)) == scope.subrange(i, j));
            }
        }
    }
}


/// Expiry follows the calendar: on evidence that is otherwise complete (a
/// signer, both required scope tokens, two calendar dates), access is granted
/// with the trimmed scope exactly when the expiry date is `today` or later in
/// (year, month, day) order, and refused as expired exactly when it is
/// earlier.
pub proof fn lemma_authorization_follows_calendar(e: &EastMoneyAuthorizationEvidence, today: Date)
    requires
        trim(e.signer@).len() > 0,
        has_token(trim(e.scope@), "kind=observation"@),
        has_token(trim(e.scope@), "product=macro"@),
        today.is_valid(),
        e.expires_on.is_valid(),
    ensures
        date_rank(today) <= date_rank(e.expires_on) ==> authorization_verdict(Some(e), today)
            == Ok::<Seq<char>, Seq<char>>(trim(e.scope@)),
        date_rank(today) > date_rank(e.expires_on) ==> authorization_verdict(Some(e), today)
            == Err::<Seq<char>, Seq<char>>(reason_expired()),
{
    lemma_calendar_order(today, e.expires_on, today);
    let scope = trim(e.scope@);
    let (i, j) = choose|i: int, j: int|
        #[trigger] is_piece(scope, i, j) && trim(scope.subrange(i, j)) == "kind=observation"@;
    assert("kind=observation"@.len() > 0) by {
        reveal_strlit("kind=observation");
    }
    if scope.len() == 0 {
        assert(scope.subrange(i, j).len() == 0);
        assert(trim(scope.subrange(i, j)) == scope.subrange(i, j));
    }
}

} // verus!
