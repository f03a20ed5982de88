use crate::matrix::Matrix;
use vstd::prelude::*;

verus! {

/// Relies on `String::push_str`: the string gains the characters of `t` at its end.
#[verifier::external_body]
fn append(s: &mut String, t: &str)
    ensures
        final(s)@ == old(s)@ + t@,
{
    s.push_str(t);
}

/// Relies on `String::push`: the string gains `c` at its end.
#[verifier::external_body]
fn append_char(s: &mut String, c: char)
    ensures
        final(s)@ == old(s)@.push(c),
{
    s.push(c);
}

/// The first `j` cells of row `i` of a row-major grid with `cols` columns,
/// separated by tabs.
pub open spec fn row_text(cells: Seq<String>, cols: int, i: int, j: nat) -> Seq<char>
    decreases j,
{
    if j == 0 {
        Seq::empty()
    } else if j == 1 {
        cells[i * cols]@
    } else {
        row_text(cells, cols, i, (j - 1) as nat).push('\t') + cells[i * cols + j - 1]@
    }
}

/// The first `i` rows of a row-major grid with `cols` columns, each row's
/// cells separated by tabs and each row ended by a newline.
pub open spec fn grid_text(cells: Seq<String>, cols: int, i: nat) -> Seq<char>
    decreases i,
{
    if i == 0 {
        Seq::empty()
    } else {
        grid_text(cells, cols, (i - 1) as nat) + row_text(cells, cols, i - 1, cols as nat).push('\n')
    }
}

impl Matrix<String> {
    /// The matrix as text: one line per row, cells separated by a tab, every
    /// line ended by a newline.
    pub fn render(&self) -> (r: String)
        requires
            self.wf(),
        ensures
            r@ == grid_text(self.data@, self.cols as int, self.rows as nat),
    {
        let mut text = String::new();
        let mut i: usize = 0;
        while i < self.rows
            invariant
                self.wf(),
                i <= self.rows,
                text@ == grid_text(self.data@, self.cols as int, i as nat),
            decreases self.rows - i,
        {
            let mut j: usize = 0;
            while j < self.cols
                invariant
                    self.wf(),
                    i < self.rows,
                    j <= self.cols,
                    text@ == grid_text(self.data@, self.cols as int, i as nat) + row_text(
                        self.data@,
                        self.cols as int,
                        i as int,
                        j as nat,
                    ),
                decreases self.cols - j,
            {
                proof {
                    crate::matrix::lemma_index_bounds(
                        i as int,
                        j as int,
                        self.rows as int,
                        self.cols as int,
                    );
                }
                let ghost before = text@;
                if j > 0 {
                    append_char(&mut text, '\t');
                }
                append(&mut text, self.data[i * self.cols + j].as_str());
                proof {
                    let g = grid_text(self.data@, self.cols as int, i as nat);
                    let rt = row_text(self.data@, self.cols as int, i as int, j as nat);
                    let cell = self.data@[i * self.cols + j]@;
                    if j > 0 {
                        assert(text@ == g + rt.push('\t') + cell);
                        assert(g + rt.push('\t') + cell =~= g + (rt.push('\t') + cell));
                    } else {
                        assert(rt == Seq::<char>::empty());
                        assert(g + cell =~= g + (rt + cell));
                        assert(text@ =~= g + cell);
                    }
                }
                j = j + 1;
            }
            append_char(&mut text, '\n');
            proof {
                let g = grid_text(self.data@, self.cols as int, i as nat);
                let rt = row_text(self.data@, self.cols as int, i as int, self.cols as nat);
                assert((g + rt).push('\n') =~= g + rt.push('\n'));
            }
            i = i + 1;
        }
        text
    }
}

} // verus!
