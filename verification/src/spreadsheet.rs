//! Where the cells of a sheet lie, and how a cell holds a list of values.

use vstd::prelude::*;
use vstd::string::*;
use crate::text::split_and_trim;

verus! {

/// The direction in which the records of a sheet follow one another.
#[derive(Clone, Copy, Debug, PartialEq, Eq, Structural)]
pub enum SheetOrientation {
    /// One record per row, below the headings.
    Vertical,
    /// One record per column, to the right of the headings.
    Horizontal,
}

impl SheetOrientation {
    /// The name of the cell style of the headings.
    pub open spec fn spec_heading_cellstyle_name(self) -> Seq<char> {
        match self {
            SheetOrientation::Vertical => "heading_vertical"@,
            SheetOrientation::Horizontal => "heading_horizontal"@,
        }
    }

    /// The name of the cell style of the headings.
    pub fn heading_cellstyle_name(&self) -> (name: &'static str)
        ensures
            name@ == self.spec_heading_cellstyle_name(),
    {
        match self {
            SheetOrientation::Vertical => "heading_vertical",
            SheetOrientation::Horizontal => "heading_horizontal",
        }
    }
}

/// A cell: its row, then its column.
#[derive(Clone, Copy, Debug, PartialEq, Eq, Structural)]
pub struct RowCol(pub u32, pub u32);

impl RowCol {
    pub fn row(&self) -> (row: u32)
        ensures
            row == self.0,
    {
        self.0
    }

    pub fn column(&self) -> (column: u32)
        ensures
            column == self.1,
    {
        self.1
    }

    /// The cell of record `index` under a heading that stands in this cell.
    pub open spec fn spec_next(self, orientation: SheetOrientation, index: u32) -> (int, int) {
        match orientation {
            SheetOrientation::Vertical => (self.0 + 1 + index, self.1 as int),
            SheetOrientation::Horizontal => (self.0 as int, self.1 + 1 + index),
        }
    }

    /// The cell of record `index` under a heading that stands in this cell:
    /// `index + 1` cells further down in a vertical sheet, as many further
    /// to the right in a horizontal one.
    pub fn next(&self, orientation: SheetOrientation, index: u32) -> (cell: RowCol)
        requires
            self.spec_next(orientation, index).0 <= u32::MAX,
            self.spec_next(orientation, index).1 <= u32::MAX,
        ensures
            (cell.0 as int, cell.1 as int) == self.spec_next(orientation, index),
    {
        match orientation {
            SheetOrientation::Vertical => RowCol(self.0 + 1 + index, self.1),
            SheetOrientation::Horizontal => RowCol(self.0, self.1 + 1 + index),
        }
    }
}

/// What stands between the values that a cell lists.
pub const CSV_JOINT: &'static str = ", ";

/// The values that a cell lists: the parts of its text between commas, each
/// trimmed.
pub fn csv_values(text: &str) -> (values: Vec<String>)
    ensures
        crate::input::strings_view(values@) == crate::text::trimmed_fields(text@, ','),
{
    let parts = split_and_trim(text, ',');
    let mut values: Vec<String> = Vec::new();
    let mut i: usize = 0;
    while i < parts.len()
        invariant
            i <= parts.len(),
            values.len() == i,
            forall|k: int| 0 <= k < i ==> (#[trigger] values[k])@ == parts[k]@,
        decreases parts.len() - i,
    {
        values.push(parts[i].to_owned());
        i += 1;
    }
    proof {
        assert(crate::input::strings_view(values@) =~= crate::text::slices_view(parts@));
    }
    values
}

/// The first `count` values of a list, with the joint between them.
pub open spec fn csv_joined(values: Seq<Seq<char>>, count: int) -> Seq<char>
    decreases count,
{
    if count <= 0 {
        Seq::empty()
    } else if count == 1 {
        values[0]
    } else {
        csv_joined(values, count - 1) + CSV_JOINT@ + values[count - 1]
    }
}

/// The text of a cell that lists `values`: the values with the joint
/// between them.
pub fn csv_text(values: &[String]) -> (text: String)
    ensures
        text@ == csv_joined(crate::input::strings_view(values@), values@.len() as int),
{
    let ghost views = crate::input::strings_view(values@);
    let mut text = String::new();
    let mut i: usize = 0;
    while i < values.len()
        invariant
            i <= values.len(),
            views == crate::input::strings_view(values@),
            text@ == csv_joined(views, i as int),
        decreases values.len() - i,
    {
        if i > 0 {
            text.append(CSV_JOINT);
        }
        text.append(values[i].as_str());
        assert(text@ =~= csv_joined(views, i + 1));
        i += 1;
    }
    text
}

} // verus!
