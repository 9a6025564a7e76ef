//! Datasets in the shape in which they are written out.
//!
//! A `DatasetOut` is a dataset with the description of each variable cut down
//! to what a listing shows. Its cells map one to one onto the values of a
//! JSON document: text, number, or null for a missing value.

use crate::dataset::{rows_view, vars_view, CellView, Dataset, VarMeta, VarMetaView, XPTRow};
use vstd::prelude::*;

verus! {

/// A variable as a listing shows it.
#[derive(Clone, Debug, PartialEq, Eq)]
pub struct VarOut {
    pub name: String,
    pub label: String,
    pub length: usize,
    pub position: usize,
    pub is_char: bool,
}

/// The value of a `VarOut`.
pub struct VarOutView {
    pub name: Seq<char>,
    pub label: Seq<char>,
    pub length: nat,
    pub position: nat,
    pub is_char: bool,
}

impl View for VarOut {
    type V = VarOutView;

    open spec fn view(&self) -> VarOutView {
        VarOutView {
            name: self.name@,
            label: self.label@,
            length: self.length as nat,
            position: self.position as nat,
            is_char: self.is_char,
        }
    }
}

/// What a listing shows of a variable.
pub open spec fn var_out_of(meta: VarMetaView) -> VarOutView {
    VarOutView {
        name: meta.name,
        label: meta.label,
        length: meta.length,
        position: meta.position,
        is_char: meta.is_char,
    }
}

impl VarOut {
    /// Cuts the description of a variable down to what a listing shows.
    pub fn from_meta(meta: &VarMeta) -> (out: VarOut)
        ensures
            out@ == var_out_of(meta@),
    {
        VarOut {
            name: meta.name.clone(),
            label: meta.label.clone(),
            length: meta.length,
            position: meta.position,
            is_char: meta.is_char,
        }
    }
}

/// The values of a list of variables.
pub open spec fn vars_out_view(vars: Seq<VarOut>) -> Seq<VarOutView> {
    Seq::new(vars.len(), |i: int| vars[i]@)
}

/// A dataset as it is written out.
#[derive(Clone, Debug, PartialEq, Eq)]
pub struct DatasetOut {
    pub name: String,
    pub vars: Vec<VarOut>,
    pub rows: Vec<XPTRow>,
}

/// The value of a `DatasetOut`.
pub struct DatasetOutView {
    pub name: Seq<char>,
    pub vars: Seq<VarOutView>,
    pub rows: Seq<Seq<CellView>>,
}

impl View for DatasetOut {
    type V = DatasetOutView;

    open spec fn view(&self) -> DatasetOutView {
        DatasetOutView {
            name: self.name@,
            vars: vars_out_view(self.vars@),
            rows: rows_view(self.rows@),
        }
    }
}

impl DatasetOut {
    /// Turns a dataset into the shape in which it is written out: the same
    /// name and rows, and of each variable what a listing shows.
    pub fn from_dataset(dataset: Dataset) -> (out: DatasetOut)
        ensures
            out@.name == dataset@.name,
            out@.rows == dataset@.rows,
            out@.vars == Seq::new(dataset@.vars.len(), |i: int| var_out_of(dataset@.vars[i])),
    {
        let Dataset { name, vars, rows } = dataset;
        let mut outs: Vec<VarOut> = Vec::new();
        let mut i: usize = 0;
        while i < vars.len()
            invariant
                i <= vars@.len(),
                outs@.len() == i,
                forall|k: int| 0 <= k < i ==> (#[trigger] outs@[k])@ == var_out_of(vars@[k]@),
            decreases vars@.len() - i,
        {
            outs.push(VarOut::from_meta(&vars[i]));
            i += 1;
        }
        let out = DatasetOut { name, vars: outs, rows };
        assert(out@.vars =~= Seq::new(
            vars_view(vars@).len(),
            |i: int| var_out_of(vars_view(vars@)[i]),
        ));
        out
    }
}

} // verus!
