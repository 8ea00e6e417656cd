//! The table writer: an in-memory table back to delimited text.  The
//! header line comes first; every row follows, cells in column order
//! joined by the delimiter; every line ends with one newline.  Cell
//! text is carried over exactly as stored.

use vstd::prelude::*;
use vstd::string::StringExecFns;

use crate::table::Table;
use crate::text::join_strs;
use crate::text::join_with;
use crate::text::lemma_terminate_lines_push;
use crate::text::push_char;
use crate::text::terminate_lines;

verus! {

/// The lines of the serialized table: the joined header, then each row
/// joined cell by cell.
pub open spec fn table_lines(names: Seq<Seq<char>>, rows: Seq<Seq<Seq<char>>>) -> Seq<Seq<char>> {
    seq![join_with(names, ',')] + Seq::new(rows.len(), |i: int| join_with(rows[i], ','))
}

/// The serialized table: every line terminated by one newline.
pub open spec fn render_table(names: Seq<Seq<char>>, rows: Seq<Seq<Seq<char>>>) -> Seq<char> {
    terminate_lines(table_lines(names, rows))
}

impl Table {
    /// Serialize the table: header line, then one line per row.
    pub fn write_table(&self) -> (out: String)
        ensures
            out@ == render_table(self.names_view(), self.rows_view()),
    {
        let ghost nv = self.names_view();
        let ghost rv = self.rows_view();
        let ghost ls = table_lines(nv, rv);
        let mut out = join_strs(&self.names, ',');
        push_char(&mut out, '\n');
        proof {
            assert(terminate_lines(Seq::<Seq<char>>::empty()) == Seq::<char>::empty());
            assert(ls.take(1)[0] == ls[0]);
            assert(ls.take(1).drop_first() =~= Seq::<Seq<char>>::empty());
            assert(terminate_lines(ls.take(1)) == ls[0] + seq!['\n'] + Seq::<char>::empty());
            assert(out@ =~= terminate_lines(ls.take(1)));
        }
        let mut i: usize = 0;
        while i < self.rows.len()
            invariant
                i <= self.rows@.len(),
                nv == self.names_view(),
                rv == self.rows_view(),
                rv.len() == self.rows@.len(),
                ls == table_lines(nv, rv),
                ls.len() == rv.len() + 1,
                out@ == terminate_lines(ls.take(i + 1)),
            decreases self.rows@.len() - i,
        {
            let line = join_strs(&self.rows[i], ',');
            out.append(line.as_str());
            push_char(&mut out, '\n');
            proof {
                lemma_terminate_lines_push(ls.take(i + 1), ls[i + 1]);
                assert(ls.take(i + 2) =~= ls.take(i + 1).push(ls[i + 1]));
                assert(ls[i + 1] == join_with(rv[i as int], ','));
                assert(out@ =~= terminate_lines(ls.take(i + 1)) + ls[i + 1] + seq!['\n']);
            }
            i += 1;
        }
        proof {
            assert(ls.take(ls.len() as int) =~= ls);
        }
        out
    }
}

} // verus!
