//! Verified core of a set of tools that archive the Volvo 240 forum:
//! text handling, the parsing of archived forum pages into posts and
//! replies, and the bookkeeping around downloading and renaming the
//! archived files.

pub mod dates;
pub mod flat;
pub mod forum;
pub mod outside;
pub mod recode;
pub mod text;
pub mod wayback;
