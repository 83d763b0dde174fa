//! Errors of validation and conversion.
use vstd::prelude::*;
use vstd::string::StringExecFns;

verus! {

/// What `str::to_uppercase` returns for the characters `s`.
pub uninterp spec fn upper_of(s: Seq<char>) -> Seq<char>;

/// Relies on str::to_uppercase: the upper-case form of `s`, a function of its characters.
#[verifier::external_body]
pub(crate) fn to_upper(s: &str) -> (r: String)
    ensures
        r@ == upper_of(s@),
{
    s.to_uppercase()
}

/// Errors that can occur during validation and conversion of a query.
#[derive(Debug, Clone)]
pub enum ConversionError {
    /// The platform is not configured.
    UnsupportedPlatform(String),
    /// The query's field operators are inconsistent.
    SyntaxValidationFailed(String),
    /// The field is not known to the platform.
    UnsupportedField { platform: String, field: String },
    /// The operator is not the platform's spelling.
    UnsupportedOperator { platform: String, operator: String, suggestion: String },
    /// The configuration could not be read or has the wrong shape.
    ConfigurationError(String),
    /// An invariant of the conversion did not hold.
    InternalError(String),
}

/// The value of a `ConversionError`, with its texts as character sequences.
pub enum ErrorView {
    UnsupportedPlatform(Seq<char>),
    SyntaxValidationFailed(Seq<char>),
    UnsupportedField { platform: Seq<char>, field: Seq<char> },
    UnsupportedOperator { platform: Seq<char>, operator: Seq<char>, suggestion: Seq<char> },
    ConfigurationError(Seq<char>),
    InternalError(Seq<char>),
}

impl View for ConversionError {
    type V = ErrorView;

    open spec fn view(&self) -> ErrorView {
        match self {
            ConversionError::UnsupportedPlatform(p) => ErrorView::UnsupportedPlatform(p@),
            ConversionError::SyntaxValidationFailed(m) => ErrorView::SyntaxValidationFailed(m@),
            ConversionError::UnsupportedField { platform, field } => ErrorView::UnsupportedField {
                platform: platform@,
                field: field@,
            },
            ConversionError::UnsupportedOperator { platform, operator, suggestion } => {
                ErrorView::UnsupportedOperator {
                    platform: platform@,
                    operator: operator@,
                    suggestion: suggestion@,
                }
            },
            ConversionError::ConfigurationError(m) => ErrorView::ConfigurationError(m@),
            ConversionError::InternalError(m) => ErrorView::InternalError(m@),
        }
    }
}

/// The text that describes an error to a user.
pub open spec fn message_of(e: ErrorView) -> Seq<char> {
    match e {
        ErrorView::UnsupportedPlatform(p) => "Unsupported platform: "@ + p,
        ErrorView::SyntaxValidationFailed(m) => m,
        ErrorView::UnsupportedField { platform, field } => upper_of(platform)
            + " platform does not support field '"@ + field + "'"@,
        ErrorView::UnsupportedOperator { platform, operator, suggestion } => upper_of(platform)
            + " platform does not support '"@ + operator + "' operator, please use '"@
            + suggestion + "' instead"@,
        ErrorView::ConfigurationError(m) => "Configuration error: "@ + m,
        ErrorView::InternalError(m) => "Internal error: "@ + m,
    }
}

impl ConversionError {
    /// The text that describes this error to a user.
    pub fn message(&self) -> (r: String)
        ensures
            r@ == message_of(self@),
    {
        match self {
            ConversionError::UnsupportedPlatform(p) => {
                let mut r = String::from_str("Unsupported platform: ");
                r.append(p.as_str());
                r
            },
            ConversionError::SyntaxValidationFailed(m) => m.clone(),
            ConversionError::UnsupportedField { platform, field } => {
                let mut r = to_upper(platform.as_str());
                r.append(" platform does not support field '");
                r.append(field.as_str());
                r.append("'");
                r
            },
            ConversionError::UnsupportedOperator { platform, operator, suggestion } => {
                let mut r = to_upper(platform.as_str());
                r.append(" platform does not support '");
                r.append(operator.as_str());
                r.append("' operator, please use '");
                r.append(suggestion.as_str());
                r.append("' instead");
                r
            },
            ConversionError::ConfigurationError(m) => {
                let mut r = String::from_str("Configuration error: ");
                r.append(m.as_str());
                r
            },
            ConversionError::InternalError(m) => {
                let mut r = String::from_str("Internal error: ");
                r.append(m.as_str());
                r
            },
        }
    }
}

} // verus!
