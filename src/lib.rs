//! Resolution of command-scoped secret references into environment
//! variables: which rules apply to a command, which reference each variable
//! takes for the acting user, which provider resolves each reference, how
//! references are batched into external calls, and how the answers are put
//! back together.
pub mod args;
pub mod batch;
pub mod config;
pub mod engine;
pub mod error;
pub mod files;
pub mod hydrater;
pub mod interpolate;
pub mod maps;
pub mod reference;
pub mod response;
pub mod secret;
pub mod shell;
pub mod text;

pub use args::{Command, EvalCommand, UpgradeCommand};
pub use batch::{Batch, Target};
pub use config::{Config, KeyOutputs, LadeFile, Pattern, RuleEntry};
pub use engine::{Outputs, assign, combine, split_env_files};
pub use error::LadeError;
pub use files::{FileFormat, check_remove, check_write, file_format};
pub use hydrater::{Hydrater, Plan};
pub use interpolate::{resolve, resolve_one};
pub use maps::StrMap;
pub use reference::{Locator, ProviderKind, Raw, providers, route};
pub use secret::{LadeRule, LadeSecret, RuleConfig, bootstrap_reference, resolve_lade_secret, rule_output, select_secrets};
pub use shell::{Shell, edit_profile};
