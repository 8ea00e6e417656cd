//! The two table transformations: projection onto a required, ordered
//! list of column names, and normalization of one column by stripping a
//! set of characters from its cells.

use vstd::prelude::*;

use crate::errors::PipelineError;
use crate::table::clone_row;
use crate::table::distinct_names;
use crate::table::lemma_vec_push_deep_view;
use crate::table::Table;
use crate::text::strip_chars;
use crate::text::strip_chars_spec;
use crate::text::lemma_strip_chars_idempotent;

verus! {

/// Index of the first name equal to `target`, or `names.len()` when
/// `target` does not occur.
pub open spec fn find_name(names: Seq<Seq<char>>, target: Seq<char>) -> int
    decreases names.len(),
{
    if names.len() == 0 {
        0
    } else if names[0] == target {
        0
    } else {
        1 + find_name(names.drop_first(), target)
    }
}

pub proof fn lemma_find_name_bounds(names: Seq<Seq<char>>, target: Seq<char>)
    ensures
        0 <= find_name(names, target) <= names.len(),
        forall|k: int| 0 <= k < find_name(names, target) ==> names[k] != target,
        find_name(names, target) < names.len() ==> names[find_name(names, target)] == target,
        (find_name(names, target) < names.len()) == names.contains(target),
    decreases names.len(),
{
    if names.len() != 0 && names[0] != target {
        lemma_find_name_bounds(names.drop_first(), target);
        assert forall|k: int| 0 <= k < find_name(names, target) implies names[k] != target by {
            if k > 0 {
                assert(names.drop_first()[k - 1] != target);
            }
        }
        if find_name(names, target) < names.len() {
            assert(names.drop_first()[find_name(names.drop_first(), target)] == target);
        }
        if names.drop_first().contains(target) {
            let w = choose|w: int|
                0 <= w < names.drop_first().len() && names.drop_first()[w] == target;
            assert(names[w + 1] == target);
        }
        if names.contains(target) {
            let w = choose|w: int| 0 <= w < names.len() && names[w] == target;
            assert(names.drop_first()[w - 1] == target);
        }
    }
}

/// Index of the first entry of `wanted` that is absent from `names`,
/// or `wanted.len()` when every entry is present.
pub open spec fn first_absent(names: Seq<Seq<char>>, wanted: Seq<Seq<char>>) -> int
    decreases wanted.len(),
{
    if wanted.len() == 0 {
        0
    } else if !names.contains(wanted[0]) {
        0
    } else {
        1 + first_absent(names, wanted.drop_first())
    }
}

pub proof fn lemma_first_absent_at(names: Seq<Seq<char>>, wanted: Seq<Seq<char>>, i: int)
    requires
        0 <= i <= wanted.len(),
        forall|k: int| 0 <= k < i ==> names.contains(#[trigger] wanted[k]),
        i < wanted.len() ==> !names.contains(wanted[i]),
    ensures
        first_absent(names, wanted) == i,
    decreases wanted.len(),
{
    if wanted.len() != 0 && names.contains(wanted[0]) {
        assert(i > 0) by {
            if i == 0 {
                assert(!names.contains(wanted[0]));
            }
        }
        assert forall|k: int| 0 <= k < i - 1 implies names.contains(
            #[trigger] wanted.drop_first()[k],
        ) by {
            assert(wanted.drop_first()[k] == wanted[k + 1]);
        }
        lemma_first_absent_at(names, wanted.drop_first(), i - 1);
    }
}

/// The projection of `rows` onto the columns named by `wanted`, in the
/// order of `wanted`: cell `j` of each output row is the cell of the
/// input row in the column named `wanted[j]`.
pub open spec fn project_rows(
    names: Seq<Seq<char>>,
    rows: Seq<Seq<Seq<char>>>,
    wanted: Seq<Seq<char>>,
) -> Seq<Seq<Seq<char>>> {
    Seq::new(
        rows.len(),
        |i: int| Seq::new(wanted.len(), |j: int| rows[i][find_name(names, wanted[j])]),
    )
}

/// `rows` with every cell of the column named `target` stripped of the
/// characters in `banned`, and every other cell unchanged.
pub open spec fn normalize_rows(
    names: Seq<Seq<char>>,
    rows: Seq<Seq<Seq<char>>>,
    target: Seq<char>,
    banned: Seq<char>,
) -> Seq<Seq<Seq<char>>> {
    let j0 = find_name(names, target);
    Seq::new(
        rows.len(),
        |i: int|
            Seq::new(
                rows[i].len(),
                |j: int|
                    if j == j0 {
                        strip_chars_spec(rows[i][j], banned)
                    } else {
                        rows[i][j]
                    },
            ),
    )
}

/// Normalizing an already-normalized table changes nothing: stripping
/// is idempotent cell by cell.
pub proof fn lemma_normalize_rows_idempotent(
    names: Seq<Seq<char>>,
    rows: Seq<Seq<Seq<char>>>,
    target: Seq<char>,
    banned: Seq<char>,
)
    ensures
        normalize_rows(names, normalize_rows(names, rows, target, banned), target, banned)
            == normalize_rows(names, rows, target, banned),
{
    let once = normalize_rows(names, rows, target, banned);
    let twice = normalize_rows(names, once, target, banned);
    let j0 = find_name(names, target);
    assert forall|i: int| 0 <= i < twice.len() implies twice[i] == once[i] by {
        assert forall|j: int| 0 <= j < once[i].len() implies once[i][j] == twice[i][j] by {
            if j == j0 {
                lemma_strip_chars_idempotent(rows[i][j], banned);
            }
        }
        assert(twice[i] =~= once[i]);
    }
    assert(twice =~= once);
}

/// Normalizing a table whose target column already holds no banned
/// character leaves every row unchanged.
pub proof fn lemma_normalize_rows_noop(
    names: Seq<Seq<char>>,
    rows: Seq<Seq<Seq<char>>>,
    target: Seq<char>,
    banned: Seq<char>,
)
    requires
        forall|i: int, k: int|
            0 <= i < rows.len() && find_name(names, target) < rows[i].len() && 0 <= k
                < rows[i][find_name(names, target)].len() ==> !banned.contains(
                #[trigger] rows[i][find_name(names, target)][k],
            ),
    ensures
        normalize_rows(names, rows, target, banned) == rows,
{
    let out = normalize_rows(names, rows, target, banned);
    let j0 = find_name(names, target);
    lemma_find_name_bounds(names, target);
    assert forall|i: int| 0 <= i < out.len() implies out[i] == rows[i] by {
        assert forall|j: int| 0 <= j < rows[i].len() implies out[i][j] == rows[i][j] by {
            if j == j0 {
                assert forall|k: int| 0 <= k < rows[i][j].len() implies !banned.contains(
                    #[trigger] rows[i][j][k],
                ) by {
                    assert(!banned.contains(rows[i][find_name(names, target)][k]));
                }
                crate::text::lemma_strip_chars_noop(rows[i][j], banned);
            }
        }
        assert(out[i] =~= rows[i]);
    }
    assert(out =~= rows);
}

impl Table {
    /// A new table holding exactly the columns named by `wanted`, in
    /// that order, with every row's cells carried over unchanged.
    /// Fails with `MissingColumn` naming the first entry of `wanted`
    /// that the table lacks, without building any partial output.
    pub fn project(&self, wanted: &Vec<String>) -> (r: Result<Table, PipelineError>)
        requires
            self.wf(),
            distinct_names(wanted.deep_view()),
        ensures
            ({
                let fa = first_absent(self.names_view(), wanted.deep_view());
                match r {
                    Ok(out) => {
                        &&& fa == wanted.deep_view().len()
                        &&& out.wf()
                        &&& out.names_view() == wanted.deep_view()
                        &&& out.row_count() == self.row_count()
                        &&& out.rows_view() == project_rows(
                            self.names_view(),
                            self.rows_view(),
                            wanted.deep_view(),
                        )
                    },
                    Err(e) => {
                        &&& fa < wanted.deep_view().len()
                        &&& e matches PipelineError::MissingColumn(n) && n@ == wanted.deep_view()[fa]
                    },
                }
            }),
    {
        let ghost nv = self.names_view();
        let ghost wv = wanted.deep_view();
        let mut idx: Vec<usize> = Vec::new();
        let mut j: usize = 0;
        while j < wanted.len()
            invariant
                j <= wanted@.len(),
                nv == self.names_view(),
                wv == wanted.deep_view(),
                wv.len() == wanted@.len(),
                idx@.len() == j,
                forall|k: int| 0 <= k < j ==> nv.contains(#[trigger] wv[k]),
                forall|k: int|
                    0 <= k < j ==> #[trigger] idx@[k] as int == find_name(nv, wv[k]) && idx@[k]
                        < nv.len(),
            decreases wanted@.len() - j,
        {
            let p = find_col(&self.names, &wanted[j]);
            proof {
                lemma_find_name_bounds(nv, wv[j as int]);
            }
            if p == self.names.len() {
                proof {
                    lemma_first_absent_at(nv, wv, j as int);
                }
                return Err(PipelineError::MissingColumn(wanted[j].clone()));
            }
            idx.push(p);
            j += 1;
        }
        proof {
            lemma_first_absent_at(nv, wv, wv.len() as int);
        }
        let mut rows: Vec<Vec<String>> = Vec::new();
        let ghost target_rows = project_rows(nv, self.rows_view(), wv);
        proof {
            assert(rows.deep_view() =~= target_rows.take(0));
        }
        let mut i: usize = 0;
        while i < self.rows.len()
            invariant
                i <= self.rows@.len(),
                nv == self.names_view(),
                wv == wanted.deep_view(),
                target_rows == project_rows(nv, self.rows_view(), wv),
                target_rows.len() == self.rows@.len(),
                self.wf(),
                idx@.len() == wv.len(),
                wv.len() == wanted@.len(),
                forall|k: int|
                    0 <= k < idx@.len() ==> #[trigger] idx@[k] as int == find_name(nv, wv[k])
                        && idx@[k] < nv.len(),
                rows.deep_view() == target_rows.take(i as int),
            decreases self.rows@.len() - i,
        {
            let mut row: Vec<String> = Vec::new();
            let mut j2: usize = 0;
            while j2 < idx.len()
                invariant
                    j2 <= idx@.len(),
                    i < self.rows@.len(),
                    nv == self.names_view(),
                    wv == wanted.deep_view(),
                    self.wf(),
                    idx@.len() == wv.len(),
                    forall|k: int|
                        0 <= k < idx@.len() ==> #[trigger] idx@[k] as int == find_name(nv, wv[k])
                            && idx@[k] < nv.len(),
                    row.deep_view() == Seq::new(
                        j2 as nat,
                        |j3: int| self.rows_view()[i as int][find_name(nv, wv[j3])],
                    ),
                decreases idx@.len() - j2,
            {
                let ghost prev = row;
                row.push(self.rows[i][idx[j2]].clone());
                proof {
                    lemma_vec_push_deep_view(
                        prev,
                        row,
                        self.rows[i as int][idx@[j2 as int] as int],
                    );
                    assert(row.deep_view() =~= Seq::new(
                        j2 as nat + 1,
                        |j3: int| self.rows_view()[i as int][find_name(nv, wv[j3])],
                    ));
                }
                j2 += 1;
            }
            let ghost prev_rows = rows;
            rows.push(row);
            proof {
                lemma_vec_push_deep_view(prev_rows, rows, row);
                assert(row.deep_view() =~= target_rows[i as int]);
                assert(rows.deep_view() =~= target_rows.take(i as int + 1));
            }
            i += 1;
        }
        let out_names = clone_row(wanted);
        let out = Table { names: out_names, rows };
        proof {
            assert(target_rows.take(target_rows.len() as int) =~= target_rows);
            assert forall|i2: int| 0 <= i2 < out.rows_view().len() implies (
            #[trigger] out.rows_view()[i2]).len() == out.names_view().len() by {}
        }
        Ok(out)
    }

    /// Rewrite every cell of the column named `target` by removing the
    /// characters of `banned`; all other columns, the column names and
    /// the row count stay as they were.
    pub fn normalize(&mut self, target: &String, banned: &Vec<char>)
        requires
            old(self).wf(),
            old(self).names_view().contains(target@),
        ensures
            final(self).wf(),
            final(self).names_view() == old(self).names_view(),
            final(self).row_count() == old(self).row_count(),
            final(self).rows_view() == normalize_rows(
                old(self).names_view(),
                old(self).rows_view(),
                target@,
                banned@,
            ),
    {
        let ghost nv = old(self).names_view();
        let ghost rv = old(self).rows_view();
        let ghost target_rows = normalize_rows(nv, rv, target@, banned@);
        proof {
            lemma_find_name_bounds(nv, target@);
        }
        let j0 = find_col(&self.names, target);
        let mut rows: Vec<Vec<String>> = Vec::new();
        proof {
            assert(rows.deep_view() =~= target_rows.take(0));
        }
        let mut i: usize = 0;
        while i < self.rows.len()
            invariant
                i <= self.rows@.len(),
                *self == *old(self),
                j0 as int == find_name(nv, target@),
                nv == old(self).names_view(),
                rv == old(self).rows_view(),
                target_rows == normalize_rows(nv, rv, target@, banned@),
                target_rows.len() == self.rows@.len(),
                rows.deep_view() == target_rows.take(i as int),
            decreases self.rows@.len() - i,
        {
            let mut row: Vec<String> = Vec::new();
            let n = self.rows[i].len();
            let mut j: usize = 0;
            while j < n
                invariant
                    j <= n,
                    i < self.rows@.len(),
                    *self == *old(self),
                    n == self.rows@[i as int]@.len(),
                    j0 as int == find_name(nv, target@),
                    nv == old(self).names_view(),
                    rv == old(self).rows_view(),
                    row.deep_view() == Seq::new(
                        j as nat,
                        |j2: int|
                            if j2 == j0 as int {
                                strip_chars_spec(rv[i as int][j2], banned@)
                            } else {
                                rv[i as int][j2]
                            },
                    ),
                decreases n - j,
            {
                let ghost prev = row;
                if j == j0 {
                    row.push(strip_chars(self.rows[i][j].as_str(), banned));
                } else {
                    row.push(self.rows[i][j].clone());
                }
                proof {
                    lemma_vec_push_deep_view(prev, row, row@[row@.len() - 1]);
                    assert(row.deep_view() =~= Seq::new(
                        j as nat + 1,
                        |j2: int|
                            if j2 == j0 as int {
                                strip_chars_spec(rv[i as int][j2], banned@)
                            } else {
                                rv[i as int][j2]
                            },
                    ));
                }
                j += 1;
            }
            let ghost prev_rows = rows;
            rows.push(row);
            proof {
                lemma_vec_push_deep_view(prev_rows, rows, row);
                assert(row.deep_view() =~= target_rows[i as int]);
                assert(rows.deep_view() =~= target_rows.take(i as int + 1));
            }
            i += 1;
        }
        proof {
            assert(target_rows.take(target_rows.len() as int) =~= target_rows);
        }
        self.rows = rows;
        proof {
            assert forall|i2: int| 0 <= i2 < final(self).rows_view().len() implies (
            #[trigger] final(self).rows_view()[i2]).len() == final(self).names_view().len() by {}
        }
    }
}

/// Index of the first column named `target`, or `names.len()` when no
/// column has that name.
pub fn find_col(names: &Vec<String>, target: &String) -> (j: usize)
    ensures
        j as int == find_name(names.deep_view(), target@),
{
    let ghost nv = names.deep_view();
    let mut j: usize = 0;
    while j < names.len()
        invariant
            j <= names@.len(),
            nv == names.deep_view(),
            forall|k: int| 0 <= k < j ==> nv[k] != target@,
        decreases names@.len() - j,
    {
        if names[j] == *target {
            proof {
                lemma_find_name_at(nv, target@, j as int);
            }
            return j;
        }
        j += 1;
    }
    proof {
        lemma_find_name_at(nv, target@, names@.len() as int);
    }
    names.len()
}

/// `find_name` returns `i` exactly when `target` stands at `i` and
/// nowhere before it (or `i` is the length and `target` is absent).
pub proof fn lemma_find_name_at(names: Seq<Seq<char>>, target: Seq<char>, i: int)
    requires
        0 <= i <= names.len(),
        forall|k: int| 0 <= k < i ==> names[k] != target,
        i < names.len() ==> names[i] == target,
    ensures
        find_name(names, target) == i,
    decreases names.len(),
{
    if names.len() != 0 && names[0] != target {
        assert(i > 0) by {
            if i == 0 {
                assert(names[0] == target);
            }
        }
        lemma_find_name_at(names.drop_first(), target, i - 1);
    }
}

} // verus!
