//! Resolution of configuration values from compiled-in defaults, a command
//! line and a configuration document, by precedence.
//!
//! Options are declared in named groups ([`ConfiguratorGroup`],
//! [`ConfigOption`]). A [`Configurator`] takes a valid set of declarations
//! and seeds a resolved set ([`Matches`]) with one slot for each option,
//! which holds the option's default, if it has one, at the weakest
//! precedence. A pass over a source then offers values at a precedence of
//! the caller's choice: [`Configurator::parse_cli`] those of a command line,
//! [`Configurator::parse_toml_partial`] those of a parsed document. A slot
//! takes an offer only from a source that is strictly stronger than the one
//! it has its value from, and a lower number is a stronger source. So the
//! passes may run in any order, and on equal precedence the earlier one
//! wins. A pass that fails changes nothing.
//!
//! The command line is parsed by the `getopts` crate and documents by the
//! `toml` crate. The modules [`cli`] and [`document`] say what is taken on
//! trust from them. Everything else is proved: the contracts of the
//! functions, and in [`laws`] and [`pass_laws`] what follows from them for
//! every declaration set, every sequence of writes and every source.

pub mod assoc;
pub mod cli;
pub mod coerce;
pub mod configurator;
pub mod declaration;
pub mod document;
pub mod error;
pub mod laws;
pub mod matches;
pub mod pass_laws;
pub mod passes;
pub mod validate;
pub mod value;

pub use configurator::Configurator;
pub use declaration::{ConfigOption, ConfiguratorGroup, HasArg, Occur, ParsingStyle};
pub use document::NativeValue;
pub use error::{ConfigError, DuplicateKeyError, MissingKeyError, MissingKind};
pub use matches::{Match, Matches};
pub use validate::{OptionFault, ValidationError};
pub use value::{Scalar, TomlType};
