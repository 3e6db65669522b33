//! Tables of the reports: what each cell shows and how it is painted.
//!
//! Counts, amounts and model names stand in a table as values; they become text when the table
//! is printed.

use vstd::prelude::*;
use vstd::string::*;
use crate::cost::Cost;
use crate::text::texts;

verus! {

/// The edge that a column is aligned to.
#[derive(Debug, Clone, Copy, PartialEq, Eq, Structural)]
pub enum Align {
    Left,
    Right,
}

/// How a cell is painted.
#[derive(Debug, Clone, Copy, PartialEq, Eq, Structural)]
pub enum Paint {
    Plain,
    Bold,
    Grey,
    Yellow,
}

/// What a cell shows.
#[derive(Debug)]
pub enum Content {
    /// A text as it is.
    Text(String),
    /// A count with separators.
    Number(u64),
    /// An amount as currency.
    Money(Cost),
    /// The sum of amounts as currency, added from the first to the last.
    MoneySum(Vec<Cost>),
    /// Model names, one per line.
    Models(Vec<String>),
    /// A dash and the short form of a model name.
    ModelItem(String),
}

/// A painted cell.
#[derive(Debug)]
pub struct Cell {
    pub content: Content,
    pub paint: Paint,
}

/// A line of a table.
#[derive(Debug)]
pub enum Line {
    Separator,
    Cells(Vec<Cell>),
}

/// A table.
#[derive(Debug)]
pub struct Table {
    pub headers: Vec<&'static str>,
    pub aligns: Vec<Align>,
    pub lines: Vec<Line>,
}

/// What a cell shows, by its values.
pub enum ContentModel {
    Text(Seq<char>),
    Number(nat),
    Money(Cost),
    MoneySum(Seq<Cost>),
    Models(Seq<Seq<char>>),
    ModelItem(Seq<char>),
}

/// A painted cell by its values.
pub struct CellModel {
    pub content: ContentModel,
    pub paint: Paint,
}

/// A line of a table by its values.
pub enum LineModel {
    Separator,
    Cells(Seq<CellModel>),
}

impl View for Content {
    type V = ContentModel;

    open spec fn view(&self) -> ContentModel {
        match self {
            Content::Text(text) => ContentModel::Text(text@),
            Content::Number(n) => ContentModel::Number(*n as nat),
            Content::Money(cost) => ContentModel::Money(*cost),
            Content::MoneySum(costs) => ContentModel::MoneySum(costs@),
            Content::Models(names) => ContentModel::Models(texts(names@)),
            Content::ModelItem(name) => ContentModel::ModelItem(name@),
        }
    }
}

impl View for Cell {
    type V = CellModel;

    open spec fn view(&self) -> CellModel {
        CellModel { content: self.content@, paint: self.paint }
    }
}

impl View for Line {
    type V = LineModel;

    open spec fn view(&self) -> LineModel {
        match self {
            Line::Separator => LineModel::Separator,
            Line::Cells(cells) => LineModel::Cells(cells_view(cells@)),
        }
    }
}

/// What cells show, by their values.
pub open spec fn contents_view(contents: Seq<Content>) -> Seq<ContentModel> {
    contents.map_values(|content: Content| content@)
}

/// Cells by their values.
pub open spec fn cells_view(cells: Seq<Cell>) -> Seq<CellModel> {
    cells.map_values(|cell: Cell| cell@)
}

/// Lines by their values.
pub open spec fn lines_view(lines: Seq<Line>) -> Seq<LineModel> {
    lines.map_values(|line: Line| line@)
}

/// All cells painted alike.
pub open spec fn painted(contents: Seq<ContentModel>, paint: Paint) -> Seq<CellModel> {
    contents.map_values(|content: ContentModel| CellModel { content, paint })
}

/// All cells painted alike.
pub fn paint_all(contents: Vec<Content>, paint: Paint) -> (out: Vec<Cell>)
    ensures
        cells_view(out@) == painted(contents_view(contents@), paint),
{
    let ghost all = painted(contents_view(contents@), paint);
    let mut rest = crate::sort::reversed(contents);
    let mut out: Vec<Cell> = Vec::new();
    let ghost from = contents@;
    assert(rest@.reverse() =~= from);
    while rest.len() > 0
        invariant
            all == painted(contents_view(from), paint),
            rest@.len() + out@.len() == from.len(),
            rest@.reverse() =~= from.skip(out@.len() as int),
            cells_view(out@) =~= all.take(out@.len() as int),
        decreases rest@.len(),
    {
        let ghost n = out@.len() as int;
        assert(rest@.last() == rest@.reverse()[0]);
        assert(rest@.last() == from[n]);
        if let Some(content) = rest.pop() {
            let ghost before = cells_view(out@);
            let cell = Cell { content, paint };
            out.push(cell);
            assert(cells_view(out@) =~= before.push(cell@));
            assert(from.skip(n + 1) =~= from.skip(n).drop_first());
        }
    }
    assert(all.take(out@.len() as int) =~= all);
    out
}

/// Adds a separator to the end of the lines.
pub fn push_separator(lines: &mut Vec<Line>)
    ensures
        lines_view(final(lines)@) == lines_view(old(lines)@).push(LineModel::Separator),
{
    let ghost before = lines_view(lines@);
    lines.push(Line::Separator);
    assert(lines_view(lines@) =~= before.push(LineModel::Separator));
}

/// Adds a line of cells to the end of the lines.
pub fn push_cells(lines: &mut Vec<Line>, cells: Vec<Cell>)
    ensures
        lines_view(final(lines)@) == lines_view(old(lines)@).push(
            LineModel::Cells(cells_view(cells@)),
        ),
{
    let ghost before = lines_view(lines@);
    lines.push(Line::Cells(cells));
    assert(lines_view(lines@) =~= before.push(LineModel::Cells(cells_view(cells@))));
}

/// A text cell's content.
pub fn text(s: &str) -> (out: Content)
    ensures
        out@ == ContentModel::Text(s@),
{
    Content::Text(s.to_owned())
}

} // verus!
