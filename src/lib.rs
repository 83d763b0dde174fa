//! Conversion of asset-search queries between the syntaxes of search platforms.

pub mod text;
pub mod error;
pub mod config;
pub mod validator;
pub mod operators;
pub mod fields;
pub mod query;
pub mod output;
pub mod laws;

pub use config::{ConfigManager, Operators, PlatformConfig};
pub use error::ConversionError;
pub use fields::FieldConverter;
pub use operators::OperatorConverter;
pub use output::{OutputFormat, OutputFormatter};
pub use query::QueryConverter;
pub use validator::SyntaxValidator;
