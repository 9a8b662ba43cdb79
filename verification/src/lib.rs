pub mod text;
pub mod strmap;
pub mod manifest;
pub mod ordering;
pub mod systemd;
pub mod values;
pub mod path;
pub mod leases;
pub mod runtime;
pub mod units;
pub mod properties;
pub mod control;
pub mod daemon;
pub mod cli;
pub mod status;
pub mod tui;
