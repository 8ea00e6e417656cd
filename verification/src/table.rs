//! The in-memory table: named columns over rows of text cells.

use vstd::prelude::*;

verus! {

/// Pairwise distinct character sequences.
pub open spec fn distinct_names(names: Seq<Seq<char>>) -> bool {
    forall|a: int, b: int| 0 <= a < b < names.len() ==> names[a] != names[b]
}

/// Pushing onto a vector pushes the element's deep view onto the
/// vector's deep view.
pub proof fn lemma_vec_push_deep_view<T: DeepView>(a: Vec<T>, b: Vec<T>, x: T)
    requires
        b@ == a@.push(x),
    ensures
        b.deep_view() == a.deep_view().push(x.deep_view()),
{
    let dv = b.deep_view();
    let tv = a.deep_view().push(x.deep_view());
    assert forall|k: int| 0 <= k < dv.len() implies dv[k] == tv[k] by {
        if k < a@.len() {
            assert(b@[k] == a@[k]);
        } else {
            assert(b@[k] == x);
        }
    }
    assert(dv =~= tv);
}

/// A copy of a row of cells, character for character.
pub fn clone_row(row: &Vec<String>) -> (r: Vec<String>)
    ensures
        r@ == row@,
        r.deep_view() == row.deep_view(),
{
    let mut r: Vec<String> = Vec::new();
    let mut j: usize = 0;
    while j < row.len()
        invariant
            j <= row@.len(),
            r@ == row@.take(j as int),
        decreases row@.len() - j,
    {
        r.push(row[j].clone());
        proof {
            assert(r@ =~= row@.take(j as int + 1));
        }
        j += 1;
    }
    proof {
        assert(row@.take(row@.len() as int) =~= row@);
        assert(r.deep_view() =~= row.deep_view());
    }
    r
}

/// A table of named columns with rows aligned across all columns,
/// stored row-major: `names[j]` names column `j`, and `rows[i][j]` is
/// the cell of row `i` in column `j`.
#[derive(Debug)]
pub struct Table {
    pub names: Vec<String>,
    pub rows: Vec<Vec<String>>,
}

impl Table {
    /// The column names as character sequences.
    pub open spec fn names_view(self) -> Seq<Seq<char>> {
        self.names.deep_view()
    }

    /// The rows, each a sequence of cell character sequences.
    pub open spec fn rows_view(self) -> Seq<Seq<Seq<char>>> {
        self.rows.deep_view()
    }

    pub open spec fn num_cols(self) -> nat {
        self.names_view().len()
    }

    pub open spec fn row_count(self) -> nat {
        self.rows_view().len()
    }

    /// Well-formed: every row has exactly one cell per column, and the
    /// column names are pairwise distinct.
    pub open spec fn wf(self) -> bool {
        &&& forall|i: int|
            0 <= i < self.rows_view().len() ==> (#[trigger] self.rows_view()[i]).len()
                == self.names_view().len()
        &&& distinct_names(self.names_view())
    }

    /// The number of rows.
    pub fn height(&self) -> (n: usize)
        ensures
            n == self.row_count(),
    {
        self.rows.len()
    }

    /// The first `n` rows, or all rows when fewer than `n` exist: a
    /// bounded preview for display.
    pub fn head_rows(&self, n: usize) -> (r: Vec<Vec<String>>)
        ensures
            r.deep_view() == self.rows_view().take(
                if n <= self.row_count() {
                    n as int
                } else {
                    self.row_count() as int
                },
            ),
    {
        let m = if n <= self.rows.len() {
            n
        } else {
            self.rows.len()
        };
        let mut r: Vec<Vec<String>> = Vec::new();
        proof {
            assert(r.deep_view() =~= self.rows_view().take(0));
        }
        let mut i: usize = 0;
        while i < m
            invariant
                i <= m <= self.rows@.len(),
                r@.len() == i,
                r.deep_view() == self.rows_view().take(i as int),
            decreases m - i,
        {
            let ghost prev = r.deep_view();
            r.push(clone_row(&self.rows[i]));
            proof {
                let dv = r.deep_view();
                let tv = self.rows_view().take(i as int + 1);
                assert forall|k: int| 0 <= k < dv.len() implies dv[k] == tv[k] by {
                    if k < i {
                        assert(dv[k] == prev[k]);
                        assert(tv[k] == self.rows_view().take(i as int)[k]);
                    } else {
                        assert(dv[k] == r@[k].deep_view());
                    }
                }
                assert(dv =~= tv);
            }
            i += 1;
        }
        r
    }
}

} // verus!
