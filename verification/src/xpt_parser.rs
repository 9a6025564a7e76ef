//! A parser for files that hold one dataset.
//!
//! `XPTParser::parse` decodes the first member of a transport file and hands
//! it out under a title. A variable without a name is named by its place:
//! `VAR1`, `VAR2`, and so on.

use crate::card::has_card;
use crate::dataset::{
    rows_view, vars_view, CellView, VarMetaView, VariableType, XPTRow,
};
use crate::error::{XptError, XptErrorView};
use crate::title::{choose_title, file_stem, marker_title, title_after_marker, title_chosen};
use crate::xpt::{
    decode_member, first_member_start, headers_of, member_decoded, skip_library_header, Member,
    MemberView,
};
use vstd::prelude::*;
use vstd::slice::slice_subrange;
use vstd::string::StringExecFns;

verus! {

/// A variable (column) of a parsed dataset.
#[derive(Clone, Debug, PartialEq, Eq)]
pub struct XPTVariable {
    pub name: String,
    pub label: String,
    pub var_type: VariableType,
    pub length: usize,
    pub position: usize,
}

/// The value of an `XPTVariable`.
pub struct XPTVariableView {
    pub name: Seq<char>,
    pub label: Seq<char>,
    pub var_type: VariableType,
    pub length: nat,
    pub position: nat,
}

impl View for XPTVariable {
    type V = XPTVariableView;

    open spec fn view(&self) -> XPTVariableView {
        XPTVariableView {
            name: self.name@,
            label: self.label@,
            var_type: self.var_type,
            length: self.length as nat,
            position: self.position as nat,
        }
    }
}

/// The values of a list of variables.
pub open spec fn variables_view(variables: Seq<XPTVariable>) -> Seq<XPTVariableView> {
    Seq::new(variables.len(), |i: int| variables[i]@)
}

/// A parsed dataset.
#[derive(Clone, Debug, PartialEq, Eq)]
pub struct XPTDataset {
    pub title: String,
    pub variables: Vec<XPTVariable>,
    pub rows: Vec<XPTRow>,
}

/// The value of an `XPTDataset`.
pub struct XPTDatasetView {
    pub title: Seq<char>,
    pub variables: Seq<XPTVariableView>,
    pub rows: Seq<Seq<CellView>>,
}

impl View for XPTDataset {
    type V = XPTDatasetView;

    open spec fn view(&self) -> XPTDatasetView {
        XPTDatasetView {
            title: self.title@,
            variables: variables_view(self.variables@),
            rows: rows_view(self.rows@),
        }
    }
}

/// The character of a decimal digit.
pub open spec fn digit_char(d: nat) -> char {
    ((0x30 + d) as u8) as char
}

/// A number in decimal, without leading zeros.
pub open spec fn decimal_digits(n: nat) -> Seq<char>
    decreases n,
{
    if n < 10 {
        seq![digit_char(n)]
    } else {
        decimal_digits(n / 10).push(digit_char(n % 10))
    }
}

/// The name of the variable at `index` that has no name of its own: `VAR` and
/// its number, counted from 1.
pub open spec fn default_name(index: nat) -> Seq<char> {
    seq!['V', 'A', 'R'] + decimal_digits(index + 1)
}

/// The variable at `index` of a dataset, as this parser hands it out.
pub open spec fn variable_of(meta: VarMetaView, index: nat) -> XPTVariableView {
    XPTVariableView {
        name: if meta.name.len() == 0 {
            default_name(index)
        } else {
            meta.name
        },
        label: meta.label,
        var_type: meta.kind(),
        length: meta.length,
        position: meta.position,
    }
}

/// The variables of a dataset, as this parser hands them out.
pub open spec fn variables_of(vars: Seq<VarMetaView>) -> Seq<XPTVariableView> {
    Seq::new(vars.len(), |i: int| variable_of(vars[i], i as nat))
}

/// Digits given least significant first, as text.
pub open spec fn digits_text(digits: Seq<u8>) -> Seq<char> {
    Seq::new(digits.len(), |i: int| digit_char(digits[digits.len() - 1 - i] as nat))
}

fn digit_str(d: u8) -> (s: &'static str)
    requires
        d < 10,
    ensures
        s@ == seq![digit_char(d as nat)],
{
    proof {
        reveal_strlit("0");
        reveal_strlit("1");
        reveal_strlit("2");
        reveal_strlit("3");
        reveal_strlit("4");
        reveal_strlit("5");
        reveal_strlit("6");
        reveal_strlit("7");
        reveal_strlit("8");
        reveal_strlit("9");
    }
    let s = match d {
        0 => "0",
        1 => "1",
        2 => "2",
        3 => "3",
        4 => "4",
        5 => "5",
        6 => "6",
        7 => "7",
        8 => "8",
        _ => "9",
    };
    assert(s@ =~= seq![digit_char(d as nat)]);
    s
}

/// Appends a number in decimal to a string.
fn push_decimal(s: &mut String, n: usize)
    ensures
        final(s)@ == old(s)@ + decimal_digits(n as nat),
{
    let mut digits: Vec<u8> = Vec::new();
    digits.push((n % 10) as u8);
    let mut m: usize = n / 10;
    assert(digits_text(digits@) =~= seq![digit_char((n % 10) as nat)]);
    assert(n >= 10 ==> decimal_digits(n as nat) =~= decimal_digits(m as nat) + digits_text(
        digits@,
    ));
    while m > 0
        invariant
            digits@.len() > 0,
            forall|i: int| 0 <= i < digits@.len() ==> digits@[i] < 10,
            m > 0 ==> decimal_digits(n as nat) == decimal_digits(m as nat) + digits_text(digits@),
            m == 0 ==> decimal_digits(n as nat) == digits_text(digits@),
        decreases m,
    {
        let ghost before = digits@;
        digits.push((m % 10) as u8);
        assert(digits_text(digits@) =~= seq![digit_char((m % 10) as nat)] + digits_text(before));
        assert(m >= 10 ==> decimal_digits(m as nat) + digits_text(before) =~= decimal_digits(
            (m / 10) as nat,
        ) + digits_text(digits@));
        m = m / 10;
    }
    let ghost text = digits_text(digits@);
    let mut i: usize = digits.len();
    while i > 0
        invariant
            i <= digits@.len(),
            text == digits_text(digits@),
            forall|k: int| 0 <= k < digits@.len() ==> digits@[k] < 10,
            s@ == old(s)@ + text.subrange(0, digits@.len() - i),
        decreases i,
    {
        i -= 1;
        s.append(digit_str(digits[i]));
        assert(s@ =~= old(s)@ + text.subrange(0, digits@.len() - i));
    }
    assert(text.subrange(0, text.len() as int) =~= text);
}

/// The name of a variable that has none: `VAR` and its number, from 1.
pub fn default_variable_name(index: usize) -> (name: String)
    requires
        index < usize::MAX,
    ensures
        name@ == default_name(index as nat),
{
    proof {
        reveal_strlit("VAR");
    }
    let mut name = String::from_str("VAR");
    assert(name@ =~= seq!['V', 'A', 'R']);
    push_decimal(&mut name, index + 1);
    name
}

/// The first member of a file.
pub open spec fn first_member(data: Seq<u8>) -> Result<MemberView, XptErrorView> {
    match first_member_start(data) {
        Err(e) => Err(e),
        Ok(start) => if !has_card(data, start) {
            Err(XptErrorView::NoDatasetsFound)
        } else {
            member_decoded(data, start)
        },
    }
}

/// The name that the headers of the first member give, if they give one.
pub open spec fn first_member_name(data: Seq<u8>) -> Option<Seq<char>> {
    title_after_marker(headers_of(data, first_member_start(data)->Ok_0, first_member(data)->Ok_0))
}

/// The dataset that the first member becomes, given the stem of the file
/// name that was suggested, if one was and it has a stem.
pub open spec fn parsed_dataset(data: Seq<u8>, stem: Option<Seq<char>>) -> XPTDatasetView {
    XPTDatasetView {
        title: title_chosen(first_member_name(data), stem),
        variables: variables_of(first_member(data)->Ok_0.vars),
        rows: first_member(data)->Ok_0.rows,
    }
}

/// `r` is what parsing `data` gives, with a file name suggested or not
/// (`named`): the failure of the first member, or its variables and rows
/// under a title. The title is the name from the headers, or without a file
/// name the placeholder; with a file name and no name in the headers it is
/// what the platform makes of the file name.
pub open spec fn is_parse_of(data: Seq<u8>, named: bool, r: Result<XPTDataset, XptError>) -> bool {
    match r {
        Ok(dataset) => first_member(data).is_ok() && dataset@.variables == parsed_dataset(
            data,
            None,
        ).variables && dataset@.rows == parsed_dataset(data, None).rows && (first_member_name(
            data,
        ).is_some() || !named ==> dataset@ == parsed_dataset(data, None)),
        Err(e) => first_member(data) == Err::<MemberView, XptErrorView>(e@),
    }
}

/// The value of what a parse returns.
pub open spec fn parsed_view(r: Result<XPTDataset, XptError>) -> Result<
    XPTDatasetView,
    XptErrorView,
> {
    match r {
        Ok(dataset) => Ok(dataset@),
        Err(e) => Err(e@),
    }
}

/// Two parses of the same bytes fail alike or succeed alike, with equal
/// variables and rows. Their titles, and so their whole values, are equal
/// where the headers give a name or no file name is suggested; the stem of a
/// file name is the platform's to give.
pub proof fn lemma_parse_twice(
    data: Seq<u8>,
    named: bool,
    first: Result<XPTDataset, XptError>,
    second: Result<XPTDataset, XptError>,
)
    requires
        is_parse_of(data, named, first),
        is_parse_of(data, named, second),
    ensures
        first.is_ok() == second.is_ok(),
        first.is_err() ==> parsed_view(first) == parsed_view(second),
        first.is_ok() ==> first->Ok_0@.variables == second->Ok_0@.variables && first->Ok_0@.rows
            == second->Ok_0@.rows,
        first_member_name(data).is_some() || !named ==> parsed_view(first) == parsed_view(second),
{
}

/// Parser for SAS XPORT version 5 transport files.
pub struct XPTParser;

impl XPTParser {
    /// Parses the first dataset of a transport file.
    ///
    /// The dataset's title is the name that its headers give; without one,
    /// the stem of `suggested_filename`; without that, `XPT Dataset`. What the
    /// stem of a file name is, the platform decides: `with_title` states the
    /// result for every stem.
    pub fn parse(data: &[u8], suggested_filename: Option<&str>) -> (r: Result<
        XPTDataset,
        XptError,
    >)
        ensures
            is_parse_of(data@, suggested_filename.is_some(), r),
    {
        let start: usize = match skip_library_header(data) {
            Err(e) => {
                return Err(e);
            },
            Ok(start) => start,
        };
        if data.len() - start < crate::card::CARD {
            return Err(XptError::NoDatasetsFound);
        }
        let member = match decode_member(data, start) {
            Err(e) => {
                return Err(e);
            },
            Ok(member) => member,
        };
        let stem = match suggested_filename {
            Some(name) => file_stem(name),
            None => None,
        };
        Ok(Self::with_title(data, start, member, stem))
    }

    /// Hands out the member whose first card is at `start` as a dataset,
    /// titled by the name from its headers, else by `stem`, else `XPT Dataset`.
    pub fn with_title(data: &[u8], start: usize, member: Member, stem: Option<String>) -> (dataset:
        XPTDataset)
        requires
            start <= member.names <= data@.len(),
        ensures
            dataset@.title == title_chosen(
                title_after_marker(headers_of(data@, start as int, member@)),
                match stem {
                    Some(s) => Some(s@),
                    None => None,
                },
            ),
            dataset@.variables == variables_of(member@.vars),
            dataset@.rows == member@.rows,
    {
        let Member { vars, rows, names, end: _ } = member;
        let marker = marker_title(slice_subrange(data, start, names));
        let title = choose_title(marker, stem);
        let mut variables: Vec<XPTVariable> = Vec::new();
        let mut i: usize = 0;
        while i < vars.len()
            invariant
                i <= vars@.len(),
                variables@.len() == i,
                forall|k: int|
                    0 <= k < i ==> (#[trigger] variables@[k])@ == variable_of(vars@[k]@, k as nat),
            decreases vars@.len() - i,
        {
            let meta = &vars[i];
            let name = if meta.name.as_str().unicode_len() == 0 {
                default_variable_name(i)
            } else {
                meta.name.clone()
            };
            variables.push(
                XPTVariable {
                    name,
                    label: meta.label.clone(),
                    var_type: meta.kind(),
                    length: meta.length,
                    position: meta.position,
                },
            );
            i += 1;
        }
        assert(variables_view(variables@) =~= variables_of(vars_view(vars@)));
        XPTDataset { title, variables, rows }
    }
}

} // verus!
