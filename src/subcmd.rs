//! The operations behind the tool's subcommands.

pub mod gentxcfg;
pub mod statistics;
pub mod zhconv;
