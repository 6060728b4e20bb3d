//! Error classification and the error type.
//!
//! The classification follows how a caller should react, so callers branch on
//! [`EastMoneyErrorKind`] and never on message text (authorization refusal,
//! routing refusal, write-authority refusal and semantic refusal stay distinct).

use vstd::prelude::*;

verus! {

/// How a caller should react to an error.
#[non_exhaustive]
#[derive(Debug, Clone, Copy, PartialEq, Eq, Hash, Structural)]
pub enum EastMoneyErrorKind {
    /// The input's shape or value is illegal (fix the data; retrying is pointless).
    Invalid,
    /// A required item is missing.
    Missing,
    /// The authorization verdict did not pass (the fail-closed landing point).
    AuthorizationDenied,
    /// The product does not belong to this domain and was routed elsewhere.
    RoutedElsewhere,
    /// A write outside this domain's authority.
    WriteAuthorityDenied,
    /// Structurally readable but semantically refused (e.g. a duplicate identity).
    SemanticallyRejected,
    /// A planned capability that is not implemented.
    NotApplicable,
    /// A broken invariant (a bug signal inside the library).
    Invariant,
}

/// The error of this crate: a distinguishable class and a readable reason.
#[non_exhaustive]
#[derive(Debug, Clone)]
pub enum EastMoneyError {
    /// Illegal input.
    Invalid(String),
    /// A required item is missing.
    Missing(String),
    /// The authorization verdict did not pass.
    AuthorizationDenied(String),
    /// The product does not belong to this domain.
    RoutedElsewhere(String),
    /// A write outside this domain's authority.
    WriteAuthorityDenied(String),
    /// Semantically refused.
    SemanticallyRejected(String),
    /// A planned capability is not implemented.
    NotApplicable(String),
    /// A broken invariant.
    Invariant(String),
}

/// The result type of this crate.
pub type EastMoneyResult<T> = Result<T, EastMoneyError>;

/// An error as its class and its reason.
pub type Fault = (EastMoneyErrorKind, Seq<char>);

/// The class and the reason of an error.
pub open spec fn fault_of(e: EastMoneyError) -> Fault {
    (e.class(), e.reason())
}

/// The readable prefix that precedes the reason when an error of class `k` is shown.
pub open spec fn display_prefix(k: EastMoneyErrorKind) -> Seq<char> {
    match k {
        EastMoneyErrorKind::Invalid => "输入非法："@,
        EastMoneyErrorKind::Missing => "缺少必需项："@,
        EastMoneyErrorKind::AuthorizationDenied => "授权判定未通过："@,
        EastMoneyErrorKind::RoutedElsewhere => "不属于本域，已路由他处："@,
        EastMoneyErrorKind::WriteAuthorityDenied => "越权写入被拒绝："@,
        EastMoneyErrorKind::SemanticallyRejected => "语义不被接受："@,
        EastMoneyErrorKind::NotApplicable => "规划能力尚未实现："@,
        EastMoneyErrorKind::Invariant => "不变量被破坏："@,
    }
}

impl EastMoneyError {
    /// The class of this error.
    pub open spec fn class(&self) -> EastMoneyErrorKind {
        match self {
            EastMoneyError::Invalid(_) => EastMoneyErrorKind::Invalid,
            EastMoneyError::Missing(_) => EastMoneyErrorKind::Missing,
            EastMoneyError::AuthorizationDenied(_) => EastMoneyErrorKind::AuthorizationDenied,
            EastMoneyError::RoutedElsewhere(_) => EastMoneyErrorKind::RoutedElsewhere,
            EastMoneyError::WriteAuthorityDenied(_) => EastMoneyErrorKind::WriteAuthorityDenied,
            EastMoneyError::SemanticallyRejected(_) => EastMoneyErrorKind::SemanticallyRejected,
            EastMoneyError::NotApplicable(_) => EastMoneyErrorKind::NotApplicable,
            EastMoneyError::Invariant(_) => EastMoneyErrorKind::Invariant,
        }
    }

    /// The reason carried by this error.
    pub open spec fn reason(&self) -> Seq<char> {
        match self {
            EastMoneyError::Invalid(s) => s@,
            EastMoneyError::Missing(s) => s@,
            EastMoneyError::AuthorizationDenied(s) => s@,
            EastMoneyError::RoutedElsewhere(s) => s@,
            EastMoneyError::WriteAuthorityDenied(s) => s@,
            EastMoneyError::SemanticallyRejected(s) => s@,
            EastMoneyError::NotApplicable(s) => s@,
            EastMoneyError::Invariant(s) => s@,
        }
    }

    /// The class, so that callers branch on how to react.
    pub fn kind(&self) -> (k: EastMoneyErrorKind)
        ensures
            k == self.class(),
    {
        match self {
            EastMoneyError::Invalid(_) => EastMoneyErrorKind::Invalid,
            EastMoneyError::Missing(_) => EastMoneyErrorKind::Missing,
            EastMoneyError::AuthorizationDenied(_) => EastMoneyErrorKind::AuthorizationDenied,
            EastMoneyError::RoutedElsewhere(_) => EastMoneyErrorKind::RoutedElsewhere,
            EastMoneyError::WriteAuthorityDenied(_) => EastMoneyErrorKind::WriteAuthorityDenied,
            EastMoneyError::SemanticallyRejected(_) => EastMoneyErrorKind::SemanticallyRejected,
            EastMoneyError::NotApplicable(_) => EastMoneyErrorKind::NotApplicable,
            EastMoneyError::Invariant(_) => EastMoneyErrorKind::Invariant,
        }
    }

    /// Whether retrying is worthwhile. This layer has no network, so only
    /// `Invariant` is retryable.
    pub fn is_retryable(&self) -> (r: bool)
        ensures
            r == (self.class() == EastMoneyErrorKind::Invariant),
    {
        let k = self.kind();
        match k {
            EastMoneyErrorKind::Invariant => true,
            _ => false,
        }
    }

    /// The readable text of this error: the class prefix followed by the reason.
    pub fn to_string(&self) -> (s: String)
        ensures
            s@ == display_prefix(self.class()) + self.reason(),
    {
        let (prefix, reason): (&str, &String) = match self {
            EastMoneyError::Invalid(r) => ("输入非法：", r),
            EastMoneyError::Missing(r) => ("缺少必需项：", r),
            EastMoneyError::AuthorizationDenied(r) => ("授权判定未通过：", r),
            EastMoneyError::RoutedElsewhere(r) => ("不属于本域，已路由他处：", r),
            EastMoneyError::WriteAuthorityDenied(r) => ("越权写入被拒绝：", r),
            EastMoneyError::SemanticallyRejected(r) => ("语义不被接受：", r),
            EastMoneyError::NotApplicable(r) => ("规划能力尚未实现：", r),
            EastMoneyError::Invariant(r) => ("不变量被破坏：", r),
        };
        let head = prefix.to_owned();
        head.concat(reason.as_str())
    }
}

/// Every class maps to its own error variant and back: distinct variants have
/// distinct classes.
pub proof fn lemma_kind_is_injective_on_variants(a: EastMoneyError, b: EastMoneyError)
    requires
        a.class() == b.class(),
    ensures
        (a is Invalid) == (b is Invalid),
        (a is Missing) == (b is Missing),
        (a is AuthorizationDenied) == (b is AuthorizationDenied),
        (a is RoutedElsewhere) == (b is RoutedElsewhere),
        (a is WriteAuthorityDenied) == (b is WriteAuthorityDenied),
        (a is SemanticallyRejected) == (b is SemanticallyRejected),
        (a is NotApplicable) == (b is NotApplicable),
        (a is Invariant) == (b is Invariant),
{
}

} // verus!
