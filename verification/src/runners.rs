//! The runners: the tools that verify a project, and what their output means.
pub mod parts;
pub mod gotest;
pub mod jest;
pub mod fastcheck;
pub mod kani;
pub mod mypy;
pub mod python_venv;
pub mod playwright;
pub mod proptest;
pub mod pytest;
pub mod bandit;
pub mod cargo_audit;
pub mod pip_audit;
pub mod eslint;
pub mod npm_audit;
pub mod operational_command;
pub mod cargo_fuzz;
pub mod health_check;
pub mod score;
pub mod go_mutesting;
pub mod mutants;
pub mod mutmut;
pub mod stryker;
pub mod aisec;
pub mod semgrep;
