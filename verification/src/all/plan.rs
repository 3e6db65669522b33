//! Which form a report takes.

use vstd::prelude::*;
use crate::all::rows::AgentReportKind;

verus! {

/// The form of a report.
#[derive(Debug, Clone, Copy, PartialEq, Eq, Structural)]
pub enum Output {
    /// One document with the requested sections.
    SectionsDocument,
    /// One table for each requested section.
    SectionTables,
    /// One document.
    Document,
    /// The grouped summary view.
    Summary,
    /// One table.
    Table,
}

/// What is said in place of a report without rows.
pub const NO_USAGE: &'static str = "No usage data found.";

/// What a report was asked for, and where it goes.
#[derive(Debug, Clone, Copy, PartialEq, Eq, Structural)]
pub struct Request {
    pub kind: AgentReportKind,
    pub sections: bool,
    pub json: bool,
    pub breakdown: bool,
    pub terminal: bool,
}

/// The form of a report: interactive terminals get the grouped summary of a daily report, and
/// pipes, scripts, breakdowns and section lists keep documents and full tables.
pub open spec fn output_of(request: Request) -> Output {
    if request.sections {
        if request.json {
            Output::SectionsDocument
        } else {
            Output::SectionTables
        }
    } else if request.json {
        Output::Document
    } else if request.terminal && !request.breakdown && request.kind == AgentReportKind::Daily {
        Output::Summary
    } else {
        Output::Table
    }
}

/// The form of a report.
pub fn plan(request: &Request) -> (out: Output)
    ensures
        out == output_of(*request),
{
    if request.sections {
        return if request.json {
            Output::SectionsDocument
        } else {
            Output::SectionTables
        };
    }
    if request.json {
        return Output::Document;
    }
    let daily = match request.kind {
        AgentReportKind::Daily => true,
        _ => false,
    };
    if !request.breakdown && daily && request.terminal {
        Output::Summary
    } else {
        Output::Table
    }
}

} // verus!
