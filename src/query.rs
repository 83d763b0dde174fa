//! The conversion of a query from one platform to another.
use vstd::prelude::*;
use vstd::string::StringExecFns;
use crate::config::{names_of, views_of, ConfigManager, PlatformView};
use crate::error::{ConversionError, ErrorView};
use crate::fields::{fields_spec, FieldConverter};
use crate::operators::{not_equal_spec, other_ops_spec, OperatorConverter};
use crate::text::{chars_of, seq_eq};
use crate::validator::{normalize_spec, unit_result_view, validate_spec, SyntaxValidator};

verus! {

/// The stages of a conversion between two distinct platforms: normalization, then
/// not-equal terms, then field prefixes, then the other operators.
pub open spec fn convert_spec(q: Seq<char>, from: PlatformView, to: PlatformView) -> Seq<char> {
    let n = normalize_spec(q);
    let a = not_equal_spec(n, from.operators, to.operators);
    let b = fields_spec(a, from, to);
    other_ops_spec(b, from.operators, to.operators)
}

/// The outcome of converting `q` from platform `from` to platform `to`.
pub open spec fn convert_result(m: ConfigManager, q: Seq<char>, from: Seq<char>, to: Seq<char>) -> Result<
    Seq<char>,
    ErrorView,
> {
    match m.config_of(from) {
        None => Err(ErrorView::UnsupportedPlatform(from)),
        Some(f) => match m.config_of(to) {
            None => Err(ErrorView::UnsupportedPlatform(to)),
            Some(t) => if from == to {
                Ok(q)
            } else {
                Ok(convert_spec(q, f, t))
            },
        },
    }
}

/// The outcome of validating `q` for platform `platform`.
pub open spec fn validation_result(m: ConfigManager, q: Seq<char>, platform: Seq<char>) -> Result<
    (),
    ErrorView,
> {
    match m.config_of(platform) {
        None => Err(ErrorView::UnsupportedPlatform(platform)),
        Some(c) => validate_spec(q, c, platform),
    }
}

pub open spec fn string_result_view(r: Result<String, ConversionError>) -> Result<
    Seq<char>,
    ErrorView,
> {
    match r {
        Ok(s) => Ok(s@),
        Err(e) => Err(e@),
    }
}

/// Converts queries between the configured platforms.
pub struct QueryConverter {
    config_manager: ConfigManager,
}

impl QueryConverter {
    /// The configurations this converter works with.
    pub closed spec fn manager(&self) -> ConfigManager {
        self.config_manager
    }

    pub fn new(config_manager: ConfigManager) -> (r: QueryConverter)
        ensures
            r.manager() == config_manager,
    {
        QueryConverter { config_manager }
    }

    /// Validates `query` for the source platform `platform_name`.
    pub fn validate_query_syntax(&self, query: &str, platform_name: &str) -> (r: Result<
        (),
        ConversionError,
    >)
        ensures
            unit_result_view(r) == validation_result(self.manager(), query@, platform_name@),
    {
        match self.config_manager.get_platform_config(platform_name) {
            Err(e) => Err(e),
            Ok(from_config) => SyntaxValidator::validate_query_syntax(
                query,
                from_config,
                platform_name,
            ),
        }
    }

    /// Converts `query` from platform `from_platform` to platform `to_platform`.
    pub fn convert(&self, query: &str, from_platform: &str, to_platform: &str) -> (r: Result<
        String,
        ConversionError,
    >)
        ensures
            string_result_view(r) == convert_result(
                self.manager(),
                query@,
                from_platform@,
                to_platform@,
            ),
    {
        let from_config = match self.config_manager.get_platform_config(from_platform) {
            Err(e) => {
                return Err(e);
            },
            Ok(c) => c,
        };
        let to_config = match self.config_manager.get_platform_config(to_platform) {
            Err(e) => {
                return Err(e);
            },
            Ok(c) => c,
        };
        let from_name = chars_of(from_platform);
        let to_name = chars_of(to_platform);
        if seq_eq(from_name.as_slice(), to_name.as_slice()) {
            return Ok(String::from_str(query));
        }
        let normalized = SyntaxValidator::normalize_query(query);
        let a = OperatorConverter::convert_not_equal_operator(
            normalized.as_str(),
            from_config,
            to_config,
        );
        let b = FieldConverter::convert_fields(a.as_str(), from_config, to_config);
        let c = OperatorConverter::convert_other_operators(b.as_str(), from_config, to_config);
        Ok(c)
    }

    /// The names of all configured platforms, in order.
    pub fn get_supported_platforms(&self) -> (r: Vec<String>)
        ensures
            views_of(r@) == names_of(self.manager().entries()),
            forall|a: int, b: int| 0 <= a < b < r@.len() ==> #[trigger] r@[a]@ != #[trigger] r@[b]@,
    {
        self.config_manager.get_supported_platforms()
    }

    /// Whether `platform` is configured.
    pub fn is_platform_supported(&self, platform: &str) -> (r: bool)
        ensures
            r == (self.manager().config_of(platform@) is Some),
    {
        self.config_manager.is_platform_supported(platform)
    }
}

} // verus!
