//! Configuration records consumed by the engine, one per feature.

use vstd::prelude::*;

verus! {

/// Everything the toolkit is configured with.
#[derive(Debug, Clone)]
pub struct Configuration {
    pub parser: Parser,
    pub vulnscanner: VulnScanner,
    pub keywords: KeywordGenerator,
    pub dorkgen: DorkGenerator,
    pub dorkchecker: DorkChecker,
}

/// Settings of the URL harvester.
#[derive(Debug, Clone)]
pub struct Parser {
    pub threads: u32,
    pub pages: u32,
    pub timeouts: u32,
    pub domain_dedupe: bool,
    pub google: bool,
    pub googleproto: bool,
    pub googleknowldge: bool,
    pub googleapi: bool,
    pub googlemobile: bool,
    pub ask: bool,
    pub bing: bool,
    pub yahoo: bool,
    pub startpage: bool,
    pub myway: bool,
    pub tonline: bool,
    pub yandex: bool,
    pub use_antipub: bool,
    pub auto_antipub: bool,
}

/// Settings of the endpoint prober.
#[derive(Debug, Clone)]
pub struct VulnScanner {
    pub threads: u32,
    pub timeouts: u32,
}

/// Settings of the keyword harvester.
#[derive(Debug, Clone)]
pub struct KeywordGenerator {
    pub threads: u32,
    pub timeouts: u32,
    pub google: bool,
    pub bing: bool,
    pub ask: bool,
    pub duckduckgo: bool,
    pub yahoo: bool,
    pub brave: bool,
}

/// Settings of the dork generator.
#[derive(Debug, Clone)]
pub struct DorkGenerator {
    pub limit: u32,
    pub patterns: Vec<String>,
}

/// Settings of the dork checker.
#[derive(Debug, Clone)]
pub struct DorkChecker {
    pub threads: u32,
    pub timeouts: u32,
    pub threshold: u32,
}

} // verus!
