//! The features built on the engine, one module each.

pub mod dork_checker;
pub mod dork_generator;
pub mod keyword_generator;
pub mod parser;
pub mod vuln_scanner;

pub use dork_checker::DorkChecker;
pub use dork_generator::DorkGenerator;
pub use keyword_generator::KeywordGenerator;
pub use parser::WebParser;
pub use vuln_scanner::VulnScanner;
