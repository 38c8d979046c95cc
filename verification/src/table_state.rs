//! What is known of the tables that are open: the alignment of their columns,
//! whether the head or the body is being read, and the column of the next cell.

use crate::event::ColumnAlign;
use vstd::prelude::*;

verus! {

/// The record of one open table.
#[derive(Debug, PartialEq, Eq)]
pub struct TableContext {
    pub alignments: Vec<ColumnAlign>,
    pub head: bool,
    pub column_index: usize,
}

/// What a `TableContext` holds, as mathematical values.
pub struct TableContextView {
    pub alignments: Seq<ColumnAlign>,
    pub head: bool,
    pub column_index: nat,
}

impl View for TableContext {
    type V = TableContextView;

    open spec fn view(&self) -> TableContextView {
        TableContextView {
            alignments: self.alignments@,
            head: self.head,
            column_index: self.column_index as nat,
        }
    }
}

/// The records of the open tables, the innermost last.
#[derive(Debug, PartialEq, Eq)]
pub struct TableState {
    pub contexts: Vec<TableContext>,
}

impl View for TableState {
    type V = Seq<TableContextView>;

    open spec fn view(&self) -> Seq<TableContextView> {
        Seq::new(self.contexts@.len(), |i: int| self.contexts@[i]@)
    }
}

/// The tables with one more opened: it starts in its head, at column 0.
pub open spec fn table_opened(tables: Seq<TableContextView>, alignments: Seq<ColumnAlign>) -> Seq<
    TableContextView,
> {
    tables.push(TableContextView { alignments, head: true, column_index: 0 })
}

/// The tables with the innermost closed.
pub open spec fn table_closed(tables: Seq<TableContextView>) -> Seq<TableContextView> {
    if tables.len() == 0 {
        tables
    } else {
        tables.drop_last()
    }
}

/// The tables with the innermost at the start of its head row.
pub open spec fn head_begun(tables: Seq<TableContextView>) -> Seq<TableContextView> {
    if tables.len() == 0 {
        tables
    } else {
        tables.update(
            tables.len() - 1,
            TableContextView { head: true, column_index: 0, ..tables.last() },
        )
    }
}

/// The tables with the innermost past its head: what follows is its body.
pub open spec fn head_ended(tables: Seq<TableContextView>) -> Seq<TableContextView> {
    if tables.len() == 0 {
        tables
    } else {
        tables.update(tables.len() - 1, TableContextView { head: false, ..tables.last() })
    }
}

/// The tables with the innermost at the start of a row.
pub open spec fn row_begun(tables: Seq<TableContextView>) -> Seq<TableContextView> {
    if tables.len() == 0 {
        tables
    } else {
        tables.update(tables.len() - 1, TableContextView { column_index: 0, ..tables.last() })
    }
}

/// The tables with the innermost one column further.
pub open spec fn cell_ended(tables: Seq<TableContextView>) -> Seq<TableContextView> {
    if tables.len() == 0 {
        tables
    } else {
        tables.update(
            tables.len() - 1,
            TableContextView { column_index: tables.last().column_index + 1, ..tables.last() },
        )
    }
}

/// Whether a cell that starts now is a head cell: it is one unless the innermost
/// table is past its head.
pub open spec fn in_head(tables: Seq<TableContextView>) -> bool {
    tables.len() == 0 || tables.last().head
}

/// The alignment of the column of the next cell: that of the innermost table at
/// its column index, and none where there is no table or the index is beyond
/// the alignments.
pub open spec fn column_alignment(tables: Seq<TableContextView>) -> ColumnAlign {
    if tables.len() > 0 && tables.last().column_index < tables.last().alignments.len() {
        tables.last().alignments[tables.last().column_index as int]
    } else {
        ColumnAlign::Unset
    }
}

/// The name of an alignment as a style value; none for `Unset`.
pub open spec fn alignment_name(alignment: ColumnAlign) -> Option<Seq<char>> {
    match alignment {
        ColumnAlign::Left => Some("left"@),
        ColumnAlign::Center => Some("center"@),
        ColumnAlign::Right => Some("right"@),
        ColumnAlign::Unset => None,
    }
}

/// Every column index is at most `bound`.
pub open spec fn columns_within(tables: Seq<TableContextView>, bound: nat) -> bool {
    forall|i: int| 0 <= i < tables.len() ==> (#[trigger] tables[i]).column_index <= bound
}

fn clone_alignments(v: &Vec<ColumnAlign>) -> (r: Vec<ColumnAlign>)
    ensures
        r@ == v@,
{
    let mut out: Vec<ColumnAlign> = Vec::new();
    let mut i: usize = 0;
    while i < v.len()
        invariant
            i <= v.len(),
            out@ == v@.take(i as int),
        decreases v.len() - i,
    {
        out.push(v[i]);
        assert(out@ =~= v@.take(i + 1));
        i = i + 1;
    }
    assert(v@.take(v.len() as int) =~= v@);
    out
}

impl TableState {
    /// No table is open.
    pub fn new() -> (r: TableState)
        ensures
            r@ == Seq::<TableContextView>::empty(),
    {
        let r = TableState { contexts: Vec::new() };
        assert(r@ =~= Seq::<TableContextView>::empty());
        r
    }

    /// A table starts.
    pub fn open(&mut self, alignments: &Vec<ColumnAlign>)
        ensures
            final(self)@ == table_opened(old(self)@, alignments@),
    {
        self.contexts.push(
            TableContext { alignments: clone_alignments(alignments), head: true, column_index: 0 },
        );
        assert(self@ =~= table_opened(old(self)@, alignments@));
    }

    /// The innermost table ends.
    pub fn close(&mut self)
        ensures
            final(self)@ == table_closed(old(self)@),
    {
        if self.contexts.len() > 0 {
            self.contexts.pop();
        }
        assert(self@ =~= table_closed(old(self)@));
    }

    /// The head of the innermost table starts.
    pub fn begin_head(&mut self)
        ensures
            final(self)@ == head_begun(old(self)@),
    {
        let n = self.contexts.len();
        if n > 0 {
            let mut context = self.contexts.pop().unwrap();
            context.head = true;
            context.column_index = 0;
            self.contexts.push(context);
        }
        assert(self@ =~= head_begun(old(self)@));
    }

    /// The head of the innermost table ends.
    pub fn end_head(&mut self)
        ensures
            final(self)@ == head_ended(old(self)@),
    {
        let n = self.contexts.len();
        if n > 0 {
            let mut context = self.contexts.pop().unwrap();
            context.head = false;
            self.contexts.push(context);
        }
        assert(self@ =~= head_ended(old(self)@));
    }

    /// A row of the innermost table starts.
    pub fn begin_row(&mut self)
        ensures
            final(self)@ == row_begun(old(self)@),
    {
        let n = self.contexts.len();
        if n > 0 {
            let mut context = self.contexts.pop().unwrap();
            context.column_index = 0;
            self.contexts.push(context);
        }
        assert(self@ =~= row_begun(old(self)@));
    }

    /// A cell of the innermost table ends.
    pub fn end_cell(&mut self)
        requires
            old(self)@.len() > 0 ==> old(self)@.last().column_index < usize::MAX,
        ensures
            final(self)@ == cell_ended(old(self)@),
    {
        let n = self.contexts.len();
        if n > 0 {
            let mut context = self.contexts.pop().unwrap();
            assert(context@ == old(self)@.last());
            context.column_index = context.column_index + 1;
            self.contexts.push(context);
        }
        assert(self@ =~= cell_ended(old(self)@));
    }

    /// Whether a cell that starts now is a head cell.
    pub fn head(&self) -> (r: bool)
        ensures
            r == in_head(self@),
    {
        let n = self.contexts.len();
        if n == 0 {
            true
        } else {
            assert(self@.last() == self.contexts@[n - 1]@);
            self.contexts[n - 1].head
        }
    }

    /// The alignment of the column that the next cell stands in, by name: `left`,
    /// `center` or `right`. There is none where no table is open, where the
    /// column lies beyond the alignments of the table, and where the column has
    /// no alignment of its own.
    pub fn alignment(&self) -> (r: Option<String>)
        ensures
            match r {
                Some(name) => alignment_name(column_alignment(self@)) == Some(name@),
                None => alignment_name(column_alignment(self@)) is None,
            },
    {
        let n = self.contexts.len();
        if n == 0 {
            return None;
        }
        assert(self@.last() == self.contexts@[n - 1]@);
        let context = &self.contexts[n - 1];
        if context.column_index >= context.alignments.len() {
            return None;
        }
        match context.alignments[context.column_index] {
            ColumnAlign::Left => Some(String::from_str("left")),
            ColumnAlign::Center => Some(String::from_str("center")),
            ColumnAlign::Right => Some(String::from_str("right")),
            ColumnAlign::Unset => None,
        }
    }
}

} // verus!
