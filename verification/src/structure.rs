use vstd::prelude::*;

verus! {

/// A cell holds exactly three signed integer channel values.
pub open spec fn wf_cell(c: Seq<int>) -> bool {
    &&& c.len() == 3
    &&& forall|k: int| 0 <= k < 3 ==> i32::MIN <= #[trigger] c[k] <= i32::MAX
}

/// A row holds exactly eight cells.
pub open spec fn wf_row(r: Seq<Seq<int>>) -> bool {
    &&& r.len() == 8
    &&& forall|j: int| 0 <= j < 8 ==> wf_cell(#[trigger] r[j])
}

/// A grid holds exactly eight rows: every one of the 64 positions is populated.
pub open spec fn wf_grid(m: Seq<Seq<Seq<int>>>) -> bool {
    &&& m.len() == 8
    &&& forall|i: int| 0 <= i < 8 ==> wf_row(#[trigger] m[i])
}

/// One grid position: an ordered, immutable triple of integer channel values.
#[derive(Copy, Clone)]
pub struct Cell {
    values: [i32; 3],
}

impl View for Cell {
    type V = Seq<int>;

    closed spec fn view(&self) -> Seq<int> {
        self.values@.map_values(|v: i32| v as int)
    }
}

impl DeepView for Cell {
    type V = Seq<int>;

    open spec fn deep_view(&self) -> Seq<int> {
        self.view()
    }
}

impl Cell {
    pub fn new(values: [i32; 3]) -> (c: Cell)
        ensures
            c@ == values@.map_values(|v: i32| v as int),
            wf_cell(c@),
    {
        Cell { values }
    }

    /// The channel value at `pos`; channels are numbered 0 through 2.
    pub fn get_position(&self, pos: u32) -> (v: i32)
        requires
            pos < 3,
        ensures
            v as int == self@[pos as int],
    {
        self.values[pos as usize]
    }
}

/// The fixed 8x8 grid of cells, read-only once constructed.
pub struct Matrix {
    data: Vec<Vec<Cell>>,
}

impl View for Matrix {
    type V = Seq<Seq<Seq<int>>>;

    closed spec fn view(&self) -> Seq<Seq<Seq<int>>> {
        self.data.deep_view()
    }
}

impl Matrix {
    #[verifier::type_invariant]
    spec fn inv(self) -> bool {
        &&& self.data@.len() == 8
        &&& forall|i: int| 0 <= i < 8 ==> #[trigger] self.data@[i]@.len() == 8
    }

    /// Builds the grid from eight fully populated rows; a partial grid is
    /// never accepted, so a constructed `Matrix` always satisfies `wf_grid`.
    pub fn new(data: Vec<Vec<Cell>>) -> (m: Matrix)
        requires
            data@.len() == 8,
            forall|i: int| 0 <= i < 8 ==> #[trigger] data@[i]@.len() == 8,
        ensures
            m@ == data.deep_view(),
            wf_grid(m@),
    {
        let m = Matrix { data };
        proof {
            assert forall|i: int| 0 <= i < 8 implies wf_row(#[trigger] m@[i]) by {
                assert(m@[i] == m.data@[i].deep_view());
                assert forall|j: int| 0 <= j < 8 implies wf_cell(#[trigger] m@[i][j]) by {
                    assert(m@[i][j] == m.data@[i]@[j].deep_view());
                }
            }
        }
        m
    }

    /// A borrow of the cell at (row, column), both in 0..8.
    pub fn get_cell_position(&self, row: u32, column: u32) -> (c: &Cell)
        requires
            row < 8,
            column < 8,
        ensures
            c@ == self@[row as int][column as int],
    {
        proof {
            use_type_invariant(self);
        }
        &self.data[row as usize][column as usize]
    }

    /// The channel value `position` of the cell at (row, column).
    pub fn get_cell_value(&self, row: u32, column: u32, position: u32) -> (v: i32)
        requires
            row < 8,
            column < 8,
            position < 3,
        ensures
            v as int == self@[row as int][column as int][position as int],
    {
        let cell = self.get_cell_position(row, column);
        cell.get_position(position)
    }
}

/// The view of a decrypted artifact: its backing file name and its full
/// textual contents.
pub struct FileView {
    pub name: Seq<char>,
    pub contents: Seq<char>,
}

/// The decrypted artifact: pairs the name of the backing temporary file
/// with the plaintext read from it.
pub struct File {
    name: String,
    contents: String,
}

impl View for File {
    type V = FileView;

    closed spec fn view(&self) -> FileView {
        FileView { name: self.name@, contents: self.contents@ }
    }
}

impl File {
    pub fn new(name: String, contents: String) -> (f: File)
        ensures
            f@.name == name@,
            f@.contents == contents@,
    {
        File { name, contents }
    }

    pub fn get_contents(&self) -> (c: &str)
        ensures
            c@ == self@.contents,
    {
        self.contents.as_str()
    }

    pub fn get_name(&self) -> (n: &str)
        ensures
            n@ == self@.name,
    {
        self.name.as_str()
    }
}

} // verus!
