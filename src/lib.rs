/// The kinds of failure a run can end with.
pub mod error;
/// Rules, their ordering by pattern length, and the combined pattern.
pub mod rules;
/// The combined matcher: one left-to-right, non-cascading rewrite pass.
pub mod replacer;
/// A file as a name and a content, rewritten as a whole.
pub mod file;
/// Building the replacer from a flat JSON object of pattern to symbol.
pub mod config;
/// What each walked entry becomes in the output tree.
pub mod materialize;
/// The tool's command line.
pub mod cli;
/// A whole run: every walked entry planned in order, stopping at the first failure.
pub mod run;
