//! Tables of a page as plain values: what the decoders read of a document.

use vstd::prelude::*;

verus! {

/// One cell of a table row.
#[derive(Debug, Clone, PartialEq, Eq)]
pub struct Cell {
    /// The text inside the cell, all its text nodes joined.
    pub text: String,
    /// The cell's `style` attribute.
    pub style: Option<String>,
    /// The cell's `colspan` attribute.
    pub colspan: Option<String>,
}

/// What a [`Cell`] holds, as mathematical values.
pub struct CellModel {
    pub text: Seq<char>,
    pub style: Option<Seq<char>>,
    pub colspan: Option<Seq<char>>,
}

impl View for Cell {
    type V = CellModel;

    open spec fn view(&self) -> CellModel {
        CellModel {
            text: self.text@,
            style: self.style.deep_view(),
            colspan: self.colspan.deep_view(),
        }
    }
}

/// One row of a table: its cells from left to right.
#[derive(Debug, Clone, PartialEq, Eq)]
pub struct Row {
    pub cells: Vec<Cell>,
}

impl View for Row {
    type V = Seq<CellModel>;

    open spec fn view(&self) -> Seq<CellModel> {
        self.cells@.map_values(|c: Cell| c@)
    }
}

/// One table body of a page.
#[derive(Debug, Clone, PartialEq, Eq)]
pub struct Table {
    /// The rows of the body, from top to bottom.
    pub rows: Vec<Row>,
}

/// What a [`Table`] holds, as mathematical values.
pub struct TableModel {
    pub rows: Seq<Seq<CellModel>>,
}

impl View for Table {
    type V = TableModel;

    open spec fn view(&self) -> TableModel {
        TableModel { rows: self.rows@.map_values(|r: Row| r@) }
    }
}

/// What the decoders read of one article.
#[derive(Debug, Clone, PartialEq, Eq)]
pub struct Page {
    /// The address that the article gives for itself; empty where it gives none.
    pub url: String,
    /// The table bodies of the article, in the order in which they were found.
    pub tables: Vec<Table>,
}

/// What a [`Page`] holds, as mathematical values.
pub struct PageModel {
    pub url: Seq<char>,
    pub tables: Seq<TableModel>,
}

impl View for Page {
    type V = PageModel;

    open spec fn view(&self) -> PageModel {
        PageModel { url: self.url@, tables: self.tables@.map_values(|t: Table| t@) }
    }
}

} // verus!
