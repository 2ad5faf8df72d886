//! The command line's arguments as plain values: what each subcommand of the
//! companion was asked to do. Parsing the command line happens outside this
//! crate, which hands the parsed values in.

use vstd::prelude::*;

verus! {

/// Arguments of `sam in-canada`.
#[derive(Clone, PartialEq, Eq, Debug)]
pub struct InCanadaArgs {
    pub command: Option<InCanadaCommand>,
}

/// What `sam in-canada` does.
#[derive(Clone, PartialEq, Eq, Debug)]
pub enum InCanadaCommand {
    /// Show the day counter (the default).
    Status,
    /// List the recorded days spent outside Canada.
    List,
    /// Record one or more days spent outside Canada (YYYY-MM-DD).
    Add { dates: Vec<String> },
    /// Remove one or more recorded days outside Canada (YYYY-MM-DD).
    Remove { dates: Vec<String> },
    /// Show, set (YYYY-MM-DD) or clear the date permanent residency began.
    PrDate { date: Option<String>, clear: bool },
}

/// Arguments of `sam budget`.
#[derive(Clone, PartialEq, Eq, Debug)]
pub struct BudgetArgs {
    pub command: Option<BudgetCommand>,
}

/// What `sam budget` does.
#[derive(Clone, Copy, PartialEq, Eq, Debug)]
pub enum BudgetCommand {
    /// Dashboard with charts over the trailing `months` (default 12).
    Status { months: u32 },
    /// Plain-text summary over the trailing `months` (default 12).
    Summary { months: u32 },
    /// The `limit` most recent expenses (default 20).
    Expenses { limit: u32 },
    /// The `limit` most recent incomes (default 20).
    Income { limit: u32 },
    /// Investments and their value in CAD.
    Investments,
    /// Interactive editor of expenses, income and investments.
    Tui,
}

/// Arguments of a process ranking: how many to show, and by what.
#[derive(Clone, Copy, PartialEq, Eq, Debug)]
pub struct TopArgs {
    pub count: usize,
    pub by: TopSort,
}

/// The metric processes are ranked by.
#[derive(Clone, Copy, PartialEq, Eq, Debug)]
pub enum TopSort {
    /// Percentage of CPU time.
    Cpu,
    /// Percentage of physical memory.
    Mem,
}

/// Arguments of `sam projects`: the directory to scan, `~/Desktop` when
/// omitted.
#[derive(Clone, PartialEq, Eq, Debug)]
pub struct ProjectsArgs {
    pub path: Option<String>,
}

} // verus!
