//! The decoded data: variables, cells, rows and datasets, each with the
//! mathematical value that the contracts speak of.

use vstd::prelude::*;

verus! {

/// The kind of a variable.
#[derive(Clone, Copy, Debug, PartialEq, Eq, Structural)]
pub enum VariableType {
    Numeric,
    Character,
}

/// The description of one variable (column), as its descriptor gives it.
#[derive(Clone, Debug, PartialEq, Eq)]
pub struct VarMeta {
    /// At most 8 characters, trimmed.
    pub name: String,
    /// At most 40 characters, trimmed.
    pub label: String,
    pub format_name: String,
    pub format_len: i16,
    pub format_decimals: i16,
    pub informat_name: String,
    pub informat_len: i16,
    pub informat_decimals: i16,
    /// The number of bytes that the variable takes in a row, at least 1.
    pub length: usize,
    /// The declared byte position in the row. It orders the variables; the
    /// bytes of a row are cut by the lengths alone.
    pub position: usize,
    /// Whether the values are text; else they are numbers.
    pub is_char: bool,
    /// The declared order number.
    pub varnum: i16,
}

/// The value of a `VarMeta`.
pub struct VarMetaView {
    pub name: Seq<char>,
    pub label: Seq<char>,
    pub format_name: Seq<char>,
    pub format_len: i16,
    pub format_decimals: i16,
    pub informat_name: Seq<char>,
    pub informat_len: i16,
    pub informat_decimals: i16,
    pub length: nat,
    pub position: nat,
    pub is_char: bool,
    pub varnum: i16,
}

impl VarMetaView {
    /// What the data model promises of every variable.
    pub open spec fn wf(self) -> bool {
        &&& 1 <= self.length <= 0xFFFF
        &&& self.position <= 0xFFFF_FFFF
        &&& self.name.len() <= 8
        &&& self.label.len() <= 40
        &&& self.format_name.len() <= 8
        &&& self.informat_name.len() <= 8
    }

    pub open spec fn kind(self) -> VariableType {
        if self.is_char {
            VariableType::Character
        } else {
            VariableType::Numeric
        }
    }
}

impl View for VarMeta {
    type V = VarMetaView;

    open spec fn view(&self) -> VarMetaView {
        VarMetaView {
            name: self.name@,
            label: self.label@,
            format_name: self.format_name@,
            format_len: self.format_len,
            format_decimals: self.format_decimals,
            informat_name: self.informat_name@,
            informat_len: self.informat_len,
            informat_decimals: self.informat_decimals,
            length: self.length as nat,
            position: self.position as nat,
            is_char: self.is_char,
            varnum: self.varnum,
        }
    }
}

impl VarMeta {
    /// Numeric or character.
    pub fn kind(&self) -> (k: VariableType)
        ensures
            k == self@.kind(),
    {
        if self.is_char {
            VariableType::Character
        } else {
            VariableType::Numeric
        }
    }
}

/// The values of a list of variables.
pub open spec fn vars_view(vars: Seq<VarMeta>) -> Seq<VarMetaView> {
    Seq::new(vars.len(), |i: int| vars[i]@)
}

/// Every variable of the list is well formed.
pub open spec fn vars_wf(vars: Seq<VarMetaView>) -> bool {
    forall|i: int| 0 <= i < vars.len() ==> (#[trigger] vars[i]).wf()
}

/// One value of a row.
#[derive(Clone, Debug, PartialEq, Eq)]
pub enum Cell {
    /// The text of a character variable, without its padding.
    Character(String),
    /// The value of a numeric variable, as the bit pattern of a binary64
    /// number (`f64::from_bits`); `None` for a missing value.
    Numeric(Option<u64>),
}

/// The value of a `Cell`.
pub enum CellView {
    Character(Seq<char>),
    Numeric(Option<u64>),
}

impl View for Cell {
    type V = CellView;

    open spec fn view(&self) -> CellView {
        match *self {
            Cell::Character(s) => CellView::Character(s@),
            Cell::Numeric(n) => CellView::Numeric(n),
        }
    }
}

/// The values of a list of cells.
pub open spec fn cells_view(cells: Seq<Cell>) -> Seq<CellView> {
    Seq::new(cells.len(), |i: int| cells[i]@)
}

/// One observation: a value for each variable, in the variables' order.
#[derive(Clone, Debug, PartialEq, Eq)]
pub struct XPTRow {
    pub values: Vec<Cell>,
}

impl View for XPTRow {
    type V = Seq<CellView>;

    open spec fn view(&self) -> Seq<CellView> {
        cells_view(self.values@)
    }
}

/// The values of a list of rows.
pub open spec fn rows_view(rows: Seq<XPTRow>) -> Seq<Seq<CellView>> {
    Seq::new(rows.len(), |i: int| rows[i]@)
}

/// One decoded member of a transport file.
#[derive(Clone, Debug, PartialEq, Eq)]
pub struct Dataset {
    /// The member's name where the file gives one, else a placeholder.
    pub name: String,
    /// The variables, in ascending order of their declared positions.
    pub vars: Vec<VarMeta>,
    pub rows: Vec<XPTRow>,
}

/// The value of a `Dataset`.
pub struct DatasetView {
    pub name: Seq<char>,
    pub vars: Seq<VarMetaView>,
    pub rows: Seq<Seq<CellView>>,
}

impl View for Dataset {
    type V = DatasetView;

    open spec fn view(&self) -> DatasetView {
        DatasetView { name: self.name@, vars: vars_view(self.vars@), rows: rows_view(self.rows@) }
    }
}

/// The values of a list of datasets.
pub open spec fn datasets_view(datasets: Seq<Dataset>) -> Seq<DatasetView> {
    Seq::new(datasets.len(), |i: int| datasets[i]@)
}

} // verus!
