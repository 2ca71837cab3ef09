// Configuration: system-wide constants.
pub mod constants;
