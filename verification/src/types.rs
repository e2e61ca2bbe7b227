//! The data model: catalog entries, per-character and per-ore totals,
//! date ranges, and the full analysis result.
//!
//! Tables keyed by a name are vectors of rows with pairwise distinct
//! names; their contracts speak of map views defined in the modules
//! that maintain them.
use vstd::prelude::*;

verus! {

/// One cataloged session-log file: its name and its modification time
/// as whole seconds since the Unix epoch, UTC.
#[derive(Clone, Debug)]
pub struct LogFileInfo {
    pub name: String,
    pub mtime_secs: i64,
}

/// Totals for one character across the analyzed files.
#[derive(Clone, Debug)]
pub struct CharacterMiningData {
    pub character_name: String,
    pub total_mined: u64,
    pub crit_mined: u64,
    pub total_cycles: u64,
    pub crit_cycles: u64,
    pub total_residue: u64,
}

/// Totals for one ore type across the analyzed files.
#[derive(Clone, Debug)]
pub struct OreData {
    pub ore_name: String,
    pub non_crit: u64,
    pub crit: u64,
    pub residue: u64,
}

/// Per-ore totals of a single character: one row of the nested
/// character-and-ore breakdown.
#[derive(Clone, Debug)]
pub struct CharacterOreRow {
    pub character_name: String,
    pub ores: Vec<OreData>,
}

/// The nested breakdown: for each character, that character's per-ore
/// totals.
pub type CharacterOreBreakdown = Vec<CharacterOreRow>;

/// A requested analysis window: optional inclusive start and end
/// instants as ISO-8601 date-time strings.  An absent or unparsable
/// bound leaves that side unbounded.
#[derive(Clone, Debug)]
pub struct DateRange {
    pub start: Option<String>,
    pub end: Option<String>,
}

/// The resolved analysis window: concrete start and end instants,
/// echoed from the request or derived from the active days.
#[derive(Clone, Debug)]
pub struct DateRangeResult {
    pub start: String,
    pub end: String,
}

/// Sums of all per-character counters.  The crit and residue rates are
/// exposed as exact integer measures in hundredths of a percent.
#[derive(Clone, Debug)]
pub struct OverallStats {
    pub total_mined: u64,
    pub total_crit: u64,
    pub total_cycles: u64,
    pub total_crit_cycles: u64,
    pub total_residue: u64,
}

/// The full outcome of one analysis run.
#[derive(Clone, Debug)]
pub struct LogAnalysisResult {
    pub characters: Vec<CharacterMiningData>,
    pub ore_breakdown: Vec<OreData>,
    pub character_ore_breakdown: CharacterOreBreakdown,
    pub date_range: DateRangeResult,
    pub active_days: Vec<String>,
    pub overall: OverallStats,
}

/// The views of a sequence of strings.
pub open spec fn string_views(ss: Seq<String>) -> Seq<Seq<char>> {
    Seq::new(ss.len(), |i: int| ss[i]@)
}

/// Why an analysis run was aborted: a file with no character marker, or
/// an amount whose value cannot be carried in the counters.
#[derive(Clone, Debug)]
pub enum LogError {
    MissingCharacter(String),
    AmountOverflow(String),
}

impl LogError {
    /// A readable account of the error, naming the offending file.
    pub fn message(&self) -> (r: String)
        ensures
            match self {
                LogError::MissingCharacter(f) => r@ =~= "could not find character name in "@ + f@,
                LogError::AmountOverflow(f) => r@ =~= "mining amount too large in "@ + f@,
            },
    {
        match self {
            LogError::MissingCharacter(f) => {
                let s = String::from_str("could not find character name in ");
                s.concat(f.as_str())
            },
            LogError::AmountOverflow(f) => {
                let s = String::from_str("mining amount too large in ");
                s.concat(f.as_str())
            },
        }
    }
}

} // verus!
