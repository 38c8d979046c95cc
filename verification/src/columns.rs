//! Tables in a well-nested stream: one head and one body, and cells aligned as
//! their columns.

use crate::event::{ColumnAlign, MdEvent, MdTag, TagKind};
use crate::markup::{
    after_image, after_leaf, closed, frames, is_leaf, kind_of, opened, render, table_node,
    well_nested, wrapped, Markup,
};
use crate::model::{cell_element, end_tag, styled, State};
use crate::nesting::{
    head_state, lemma_head_depth, lemma_opened_depth, lemma_render, lemma_span_closed,
    lemma_start_opens, rendered_right,
};
use crate::node::{ElementView, NodeView};
use crate::styling::StyleView;
use crate::table_state::{
    alignment_name, cell_ended, column_alignment, head_begun, head_ended, in_head, row_begun,
    table_opened, TableContextView,
};
use vstd::prelude::*;

verus! {

/// A table has exactly two children: the head, which holds one row of the head
/// cells, and behind it the body, which holds the rows.
pub proof fn lemma_table_shape(head: Seq<NodeView>, body: Seq<NodeView>, styling: StyleView)
    ensures
        table_node(head, body, styling) is Element,
        ({
            let table = table_node(head, body, styling)->Element_0;
            &&& table.tag_name == "table"@
            &&& table.children.len() == 2
            &&& table.children[0] == NodeView::Element(
                styled("thead"@, styling.thead).child(
                    NodeView::Element(styled("tr"@, styling.tr).with_children(head)),
                ),
            )
            &&& table.children[1] == NodeView::Element(
                styled("tbody"@, styling.tbody).with_children(body),
            )
            &&& table.children[0]->Element_0.tag_name == "thead"@
            &&& table.children[1]->Element_0.tag_name == "tbody"@
        }),
{
}

/// A table is rendered to one table element, made of what its head
/// cells and its body are rendered to.
pub proof fn lemma_table_rendered(
    tag: MdTag,
    cells: Markup,
    body: Markup,
    rest: Markup,
    st: State,
    styling: StyleView,
    blocks: Seq<Seq<NodeView>>,
)
    requires
        tag is Table,
    ensures
        ({
            let m = Markup::Span(
                tag,
                Box::new(Markup::Span(MdTag::TableHead, Box::new(cells), Box::new(body))),
                Box::new(rest),
            );
            let head = render(cells, head_state(st, tag, styling), styling, blocks);
            let rows = render(
                body,
                closed(head.state, TagKind::TableHead, styling),
                styling,
                head.blocks,
            );
            &&& render(m, st, styling, blocks).nodes.len() >= 1
            &&& render(m, st, styling, blocks).nodes[0] == table_node(
                head.nodes,
                rows.nodes,
                styling,
            )
        }),
{
}

/// Whether the piece holds no table, and no head, row or cell of one.
pub open spec fn table_free(m: Markup) -> bool
    decreases m,
{
    match m {
        Markup::Empty => true,
        Markup::Leaf(_, rest) => table_free(*rest),
        Markup::Span(tag, inner, rest) => {
            &&& !(tag is Table)
            &&& !(tag is TableHead)
            &&& !(tag is TableRow)
            &&& !(tag is TableCell)
            &&& table_free(*inner)
            &&& table_free(*rest)
        },
    }
}

proof fn lemma_leaf_tables(
    st: State,
    event: MdEvent,
    styling: StyleView,
    blocks: Seq<Seq<NodeView>>,
)
    requires
        is_leaf(event),
    ensures
        after_leaf(st, event, styling, blocks).state.tables == st.tables,
{
    reveal(after_leaf);
    assert(seq![event][0] == event);
}

proof fn lemma_span_tables(st: State, within: State, tag: MdTag, styling: StyleView)
    requires
        !(tag is Table),
        !(tag is TableHead),
        !(tag is TableRow),
        !(tag is TableCell),
        !(tag is Image),
    ensures
        opened(st, tag, styling).tables == st.tables,
        closed(within, kind_of(tag), styling).tables == within.tables,
{
    reveal(opened);
    reveal(closed);
}

/// A piece without tables leaves what is known of the open tables as it is.
pub proof fn lemma_table_free(
    m: Markup,
    st: State,
    styling: StyleView,
    blocks: Seq<Seq<NodeView>>,
)
    requires
        well_nested(m),
        table_free(m),
    ensures
        render(m, st, styling, blocks).state.tables == st.tables,
    decreases m,
{
    match m {
        Markup::Empty => {},
        Markup::Leaf(event, rest) => {
            let next = after_leaf(st, event, styling, blocks);
            lemma_leaf_tables(st, event, styling, blocks);
            lemma_table_free(*rest, next.state, styling, next.blocks);
        },
        Markup::Span(tag, inner, rest) => {
            match tag {
                MdTag::Image { .. } => {
                    reveal(after_image);
                    lemma_table_free(
                        *rest,
                        after_image(st, tag, *inner, styling),
                        styling,
                        blocks,
                    );
                },
                _ => {
                    let within = render(*inner, opened(st, tag, styling), styling, blocks);
                    lemma_span_tables(st, within.state, tag, styling);
                    lemma_table_free(*inner, opened(st, tag, styling), styling, blocks);
                    lemma_table_free(
                        *rest,
                        closed(within.state, kind_of(tag), styling),
                        styling,
                        within.blocks,
                    );
                },
            }
        },
    }
}

/// Whether the piece is a run of table cells, each holding a well-nested piece
/// without tables.
pub open spec fn row_of_cells(m: Markup) -> bool
    decreases m,
{
    match m {
        Markup::Empty => true,
        Markup::Span(MdTag::TableCell, inner, rest) => well_nested(*inner) && table_free(*inner)
            && row_of_cells(*rest),
        _ => false,
    }
}

/// How many cells a run of cells has.
pub open spec fn cell_count(m: Markup) -> nat
    decreases m,
{
    match m {
        Markup::Span(_, _, rest) => 1 + cell_count(*rest),
        _ => 0,
    }
}

/// The alignment of column `k` of a table with the alignments `alignments`:
/// none beyond them.
pub open spec fn alignment_at(alignments: Seq<ColumnAlign>, k: nat) -> ColumnAlign {
    if k < alignments.len() {
        alignments[k as int]
    } else {
        ColumnAlign::Unset
    }
}

/// The attributes of a cell with the alignment `alignment`.
pub open spec fn aligned(alignment: ColumnAlign) -> Seq<(Seq<char>, Seq<char>)> {
    match alignment_name(alignment) {
        Some(name) => seq![("style"@, "text-align: "@ + name)],
        None => Seq::empty(),
    }
}

/// A cell that starts in `tables` is `th` in the head and `td` in the body, and
/// carries the alignment of its column and no other attribute.
pub proof fn lemma_cell_alignment(tables: Seq<TableContextView>, styling: StyleView)
    ensures
        cell_element(tables, styling).tag_name == if in_head(tables) {
            "th"@
        } else {
            "td"@
        },
        cell_element(tables, styling).attributes == aligned(column_alignment(tables)),
        tables.len() > 0 ==> column_alignment(tables) == alignment_at(
            tables.last().alignments,
            tables.last().column_index,
        ),
{
    assert(cell_element(tables, styling).attributes =~= aligned(column_alignment(tables)));
}

proof fn lemma_cell_rendered(
    inner: Markup,
    rest: Markup,
    st: State,
    styling: StyleView,
    blocks: Seq<Seq<NodeView>>,
)
    requires
        well_nested(inner),
        table_free(inner),
        st.stack.len() >= 1,
    ensures
        ({
            let m = Markup::Span(MdTag::TableCell, Box::new(inner), Box::new(rest));
            let within = render(inner, opened(st, MdTag::TableCell, styling), styling, blocks);
            let next = closed(within.state, TagKind::TableCell, styling);
            let nodes = render(m, st, styling, blocks).nodes;
            &&& nodes == seq![
                NodeView::Element(cell_element(st.tables, styling).with_children(within.nodes)),
            ] + render(rest, next, styling, within.blocks).nodes
            &&& next.tables == cell_ended(st.tables)
            &&& next.stack.len() == st.stack.len()
        }),
{
    let tag = MdTag::TableCell;
    let within = render(inner, opened(st, tag, styling), styling, blocks);
    lemma_opened_depth(st, tag, styling);
    lemma_render(inner, opened(st, tag, styling), Seq::empty(), styling, blocks);
    lemma_span_closed(tag, inner, st, Seq::empty(), styling, blocks);
    lemma_table_free(inner, opened(st, tag, styling), styling, blocks);
    reveal(frames);
    reveal_with_fuel(wrapped, 2);
    assert(frames(st, tag, styling).drop_last() =~= Seq::<ElementView>::empty());
    assert(opened(st, tag, styling).tables == st.tables) by {
        reveal(opened);
    }
    assert(closed(within.state, TagKind::TableCell, styling).tables == cell_ended(st.tables)) by {
        reveal(closed);
        reveal(rendered_right);
        lemma_start_opens(st, tag, Seq::empty(), styling);
        reveal(opened);
    }
}

/// In a row of a table whose alignments are `A`, the cell of column `k` carries
/// the alignment `A[k]`, and none where `k` lies beyond `A`: the cell at place
/// `k` of a run of cells that starts at column `c` stands in column `c + k`.
pub proof fn lemma_row_alignment(
    m: Markup,
    st: State,
    styling: StyleView,
    blocks: Seq<Seq<NodeView>>,
    k: int,
)
    requires
        row_of_cells(m),
        st.stack.len() >= 1,
        st.tables.len() > 0,
        0 <= k < cell_count(m),
    ensures
        render(m, st, styling, blocks).nodes.len() == cell_count(m),
        render(m, st, styling, blocks).nodes[k] is Element,
        render(m, st, styling, blocks).nodes[k]->Element_0.attributes == aligned(
            alignment_at(st.tables.last().alignments, (st.tables.last().column_index + k) as nat),
        ),
        render(m, st, styling, blocks).nodes[k]->Element_0.tag_name == if st.tables.last().head {
            "th"@
        } else {
            "td"@
        },
    decreases m,
{
    match m {
        Markup::Span(MdTag::TableCell, inner, rest) => {
            let within = render(*inner, opened(st, MdTag::TableCell, styling), styling, blocks);
            let next = closed(within.state, TagKind::TableCell, styling);
            lemma_cell_rendered(*inner, *rest, st, styling, blocks);
            lemma_cell_alignment(st.tables, styling);
            lemma_row_count(*rest, next, styling, within.blocks);
            if k > 0 {
                lemma_row_alignment(*rest, next, styling, within.blocks, k - 1);
            }
        },
        _ => {},
    }
}

/// A run of cells is rendered to one element for each cell.
pub proof fn lemma_row_count(
    m: Markup,
    st: State,
    styling: StyleView,
    blocks: Seq<Seq<NodeView>>,
)
    requires
        row_of_cells(m),
        st.stack.len() >= 1,
    ensures
        render(m, st, styling, blocks).nodes.len() == cell_count(m),
    decreases m,
{
    match m {
        Markup::Span(MdTag::TableCell, inner, rest) => {
            let within = render(*inner, opened(st, MdTag::TableCell, styling), styling, blocks);
            let next = closed(within.state, TagKind::TableCell, styling);
            lemma_cell_rendered(*inner, *rest, st, styling, blocks);
            lemma_row_count(*rest, next, styling, within.blocks);
        },
        _ => {},
    }
}

/// In a body row of the innermost table, the cell at place `k` carries the
/// alignment of column `k`: a row starts at column 0.
pub proof fn lemma_body_row_aligned(
    cells: Markup,
    rest: Markup,
    st: State,
    styling: StyleView,
    blocks: Seq<Seq<NodeView>>,
    k: int,
)
    requires
        row_of_cells(cells),
        st.stack.len() >= 1,
        st.tables.len() > 0,
        0 <= k < cell_count(cells),
    ensures
        ({
            let row = Markup::Span(MdTag::TableRow, Box::new(cells), Box::new(rest));
            let nodes = render(row, st, styling, blocks).nodes;
            &&& nodes.len() >= 1
            &&& nodes[0] is Element
            &&& nodes[0]->Element_0.tag_name == "tr"@
            &&& nodes[0]->Element_0.children.len() == cell_count(cells)
            &&& nodes[0]->Element_0.children[k] is Element
            &&& nodes[0]->Element_0.children[k]->Element_0.attributes == aligned(
                alignment_at(st.tables.last().alignments, k as nat),
            )
            &&& nodes[0]->Element_0.children[k]->Element_0.tag_name == if st.tables.last().head {
                "th"@
            } else {
                "td"@
            }
        }),
{
    let tag = MdTag::TableRow;
    let begun = opened(st, tag, styling);
    let within = render(cells, begun, styling, blocks);
    lemma_opened_depth(st, tag, styling);
    assert(begun.tables == row_begun(st.tables)) by {
        reveal(opened);
    }
    lemma_row_alignment(cells, begun, styling, blocks, k);
    reveal(frames);
    reveal_with_fuel(wrapped, 2);
    let row = styled("tr"@, styling.tr);
    assert(frames(st, tag, styling).drop_last() =~= Seq::<ElementView>::empty());
    assert(row.with_children(within.nodes).children =~= within.nodes);
}

/// In the head of a table whose alignments are `A`, the cell at place `k` is a
/// `th` and carries the alignment `A[k]`, and none where `k` lies beyond `A`.
pub proof fn lemma_head_row_aligned(
    tag: MdTag,
    cells: Markup,
    st: State,
    styling: StyleView,
    blocks: Seq<Seq<NodeView>>,
    k: int,
)
    requires
        tag is Table,
        row_of_cells(cells),
        st.stack.len() >= 1,
        0 <= k < cell_count(cells),
    ensures
        ({
            let head = render(cells, head_state(st, tag, styling), styling, blocks).nodes;
            &&& head.len() == cell_count(cells)
            &&& head[k] is Element
            &&& head[k]->Element_0.tag_name == "th"@
            &&& head[k]->Element_0.attributes == aligned(alignment_at(tag->Table_0@, k as nat))
        }),
{
    let begun = head_state(st, tag, styling);
    lemma_opened_depth(st, tag, styling);
    lemma_opened_depth(opened(st, tag, styling), MdTag::TableHead, styling);
    assert(begun.tables == head_begun(table_opened(st.tables, tag->Table_0@))) by {
        reveal(opened);
    }
    lemma_row_alignment(cells, begun, styling, blocks, k);
}

/// Whether the innermost table of both is known by the same alignments and to
/// be in the same part, head or body.
pub open spec fn same_table(a: Seq<TableContextView>, b: Seq<TableContextView>) -> bool {
    &&& a.len() == b.len()
    &&& a.len() > 0
    &&& a.last().alignments == b.last().alignments
    &&& a.last().head == b.last().head
}

/// A run of cells moves the column index of the innermost table, and nothing
/// else of it.
pub proof fn lemma_cells_keep_table(
    m: Markup,
    st: State,
    styling: StyleView,
    blocks: Seq<Seq<NodeView>>,
)
    requires
        row_of_cells(m),
        st.stack.len() >= 1,
        st.tables.len() > 0,
    ensures
        same_table(render(m, st, styling, blocks).state.tables, st.tables),
        render(m, st, styling, blocks).state.stack.len() == st.stack.len(),
    decreases m,
{
    match m {
        Markup::Span(MdTag::TableCell, inner, rest) => {
            let within = render(*inner, opened(st, MdTag::TableCell, styling), styling, blocks);
            let next = closed(within.state, TagKind::TableCell, styling);
            lemma_cell_rendered(*inner, *rest, st, styling, blocks);
            lemma_cells_keep_table(*rest, next, styling, within.blocks);
        },
        _ => {},
    }
}

/// Whether the piece is a run of table rows, each a run of cells.
pub open spec fn rows_of_cells(m: Markup) -> bool
    decreases m,
{
    match m {
        Markup::Empty => true,
        Markup::Span(MdTag::TableRow, cells, rest) => row_of_cells(*cells) && rows_of_cells(*rest),
        _ => false,
    }
}

/// How many rows a run of rows has.
pub open spec fn row_count(m: Markup) -> nat
    decreases m,
{
    match m {
        Markup::Span(_, _, rest) => 1 + row_count(*rest),
        _ => 0,
    }
}

/// The cells of row `j` of a run of rows.
pub open spec fn row_cells(m: Markup, j: nat) -> Markup
    decreases m,
{
    match m {
        Markup::Span(_, cells, rest) => if j == 0 {
            *cells
        } else {
            row_cells(*rest, (j - 1) as nat)
        },
        _ => Markup::Empty,
    }
}

/// What is rendered for the cell at place `k` of a row, by the alignments of
/// the table and the part that the row stands in: a `th` or a `td` with the
/// alignment of column `k`, and no other attribute.
pub open spec fn cell_of_column(
    node: NodeView,
    alignments: Seq<ColumnAlign>,
    head: bool,
    k: nat,
) -> bool {
    &&& node is Element
    &&& node->Element_0.tag_name == if head {
        "th"@
    } else {
        "td"@
    }
    &&& node->Element_0.attributes == aligned(alignment_at(alignments, k))
}

/// What is rendered for a row of `cells`: a `tr` that holds one cell for each
/// column, aligned as its column.
pub open spec fn row_of_columns(
    node: NodeView,
    cells: Markup,
    alignments: Seq<ColumnAlign>,
    head: bool,
) -> bool {
    &&& node is Element
    &&& node->Element_0.tag_name == "tr"@
    &&& node->Element_0.children.len() == cell_count(cells)
    &&& forall|k: int|
        0 <= k < cell_count(cells) ==> cell_of_column(
            #[trigger] node->Element_0.children[k],
            alignments,
            head,
            k as nat,
        )
}

proof fn lemma_row_rendered(
    cells: Markup,
    rest: Markup,
    st: State,
    styling: StyleView,
    blocks: Seq<Seq<NodeView>>,
)
    requires
        row_of_cells(cells),
        st.stack.len() >= 1,
        st.tables.len() > 0,
    ensures
        ({
            let row = Markup::Span(MdTag::TableRow, Box::new(cells), Box::new(rest));
            let within = render(cells, opened(st, MdTag::TableRow, styling), styling, blocks);
            let next = closed(within.state, TagKind::TableRow, styling);
            let nodes = render(row, st, styling, blocks).nodes;
            &&& nodes.len() >= 1
            &&& row_of_columns(nodes[0], cells, st.tables.last().alignments, st.tables.last().head)
            &&& nodes.skip(1) == render(rest, next, styling, within.blocks).nodes
            &&& same_table(next.tables, st.tables)
            &&& next.stack.len() == st.stack.len()
        }),
{
    let tag = MdTag::TableRow;
    let row = Markup::Span(tag, Box::new(cells), Box::new(rest));
    let begun = opened(st, tag, styling);
    let within = render(cells, begun, styling, blocks);
    let next = closed(within.state, TagKind::TableRow, styling);
    let nodes = render(row, st, styling, blocks).nodes;
    lemma_opened_depth(st, tag, styling);
    assert(begun.tables == row_begun(st.tables)) by {
        reveal(opened);
    }
    lemma_cells_keep_table(cells, begun, styling, blocks);
    assert(next.tables == within.state.tables && next.stack.len() == st.stack.len()) by {
        reveal(closed);
        reveal(opened);
        lemma_start_opens(st, tag, Seq::empty(), styling);
        reveal(frames);
    }
    assert forall|k: int| 0 <= k < cell_count(cells) implies cell_of_column(
        #[trigger] nodes[0]->Element_0.children[k],
        st.tables.last().alignments,
        st.tables.last().head,
        k as nat,
    ) by {
        lemma_body_row_aligned(cells, rest, st, styling, blocks, k);
    }
    lemma_row_count(cells, begun, styling, blocks);
    reveal(frames);
    reveal_with_fuel(wrapped, 2);
    assert(frames(st, tag, styling).drop_last() =~= Seq::<ElementView>::empty());
    assert(styled("tr"@, styling.tr).with_children(within.nodes).children =~= within.nodes);
    assert(nodes.skip(1) =~= render(rest, next, styling, within.blocks).nodes);
}

/// The rows of a table are rendered to one `tr` each, and in each the cell at
/// place `k` carries the alignment of column `k`.
pub proof fn lemma_rows_aligned(
    m: Markup,
    st: State,
    styling: StyleView,
    blocks: Seq<Seq<NodeView>>,
    j: int,
)
    requires
        rows_of_cells(m),
        st.stack.len() >= 1,
        st.tables.len() > 0,
        0 <= j < row_count(m),
    ensures
        render(m, st, styling, blocks).nodes.len() == row_count(m),
        row_of_columns(
            render(m, st, styling, blocks).nodes[j],
            row_cells(m, j as nat),
            st.tables.last().alignments,
            st.tables.last().head,
        ),
    decreases m,
{
    match m {
        Markup::Span(MdTag::TableRow, cells, rest) => {
            let within = render(*cells, opened(st, MdTag::TableRow, styling), styling, blocks);
            let next = closed(within.state, TagKind::TableRow, styling);
            let nodes = render(m, st, styling, blocks).nodes;
            lemma_row_rendered(*cells, *rest, st, styling, blocks);
            lemma_rows_count(*rest, next, styling, within.blocks);
            let later = render(*rest, next, styling, within.blocks).nodes;
            assert(nodes.len() == 1 + later.len()) by {
                assert(nodes.skip(1).len() == nodes.len() - 1);
            }
            if j > 0 {
                lemma_rows_aligned(*rest, next, styling, within.blocks, j - 1);
                assert(nodes[j] == nodes.skip(1)[j - 1]);
            }
        },
        _ => {},
    }
}

/// A run of rows is rendered to one element for each row.
pub proof fn lemma_rows_count(
    m: Markup,
    st: State,
    styling: StyleView,
    blocks: Seq<Seq<NodeView>>,
)
    requires
        rows_of_cells(m),
        st.stack.len() >= 1,
        st.tables.len() > 0,
    ensures
        render(m, st, styling, blocks).nodes.len() == row_count(m),
    decreases m,
{
    match m {
        Markup::Span(MdTag::TableRow, cells, rest) => {
            let within = render(*cells, opened(st, MdTag::TableRow, styling), styling, blocks);
            let next = closed(within.state, TagKind::TableRow, styling);
            let nodes = render(m, st, styling, blocks).nodes;
            lemma_row_rendered(*cells, *rest, st, styling, blocks);
            lemma_rows_count(*rest, next, styling, within.blocks);
            assert(nodes.skip(1).len() == nodes.len() - 1);
        },
        _ => {},
    }
}

/// A table whose head is a run of cells and whose body is a run of rows of
/// cells, with the alignments `A`: it is rendered to one `table` of one `thead`
/// and one `tbody`, in this order. The head holds one row, of `th`; the body
/// holds the rows, of `td`; and in every row the cell at place `k` carries the
/// alignment `A[k]`, and none where `k` lies beyond `A`.
pub proof fn lemma_table_aligned(
    tag: MdTag,
    cells: Markup,
    body: Markup,
    rest: Markup,
    st: State,
    styling: StyleView,
    blocks: Seq<Seq<NodeView>>,
)
    requires
        tag is Table,
        row_of_cells(cells),
        rows_of_cells(body),
        st.stack.len() >= 1,
    ensures
        ({
            let m = Markup::Span(
                tag,
                Box::new(Markup::Span(MdTag::TableHead, Box::new(cells), Box::new(body))),
                Box::new(rest),
            );
            let table = render(m, st, styling, blocks).nodes[0]->Element_0;
            let thead = table.children[0]->Element_0;
            let tbody = table.children[1]->Element_0;
            &&& render(m, st, styling, blocks).nodes[0] is Element
            &&& table.tag_name == "table"@
            &&& table.children.len() == 2
            &&& table.children[0] is Element
            &&& table.children[1] is Element
            &&& thead.tag_name == "thead"@
            &&& thead.children.len() == 1
            &&& row_of_columns(thead.children[0], cells, tag->Table_0@, true)
            &&& tbody.tag_name == "tbody"@
            &&& tbody.children.len() == row_count(body)
            &&& forall|j: int|
                0 <= j < row_count(body) ==> row_of_columns(
                    #[trigger] tbody.children[j],
                    row_cells(body, j as nat),
                    tag->Table_0@,
                    false,
                )
        }),
{
    let alignments = tag->Table_0@;
    let begun = head_state(st, tag, styling);
    let head = render(cells, begun, styling, blocks);
    let middle = closed(head.state, TagKind::TableHead, styling);
    let rows = render(body, middle, styling, head.blocks);
    lemma_table_rendered(tag, cells, body, rest, st, styling, blocks);
    lemma_table_shape(head.nodes, rows.nodes, styling);
    lemma_opened_depth(st, tag, styling);
    lemma_opened_depth(opened(st, tag, styling), MdTag::TableHead, styling);
    assert(begun.tables == head_begun(table_opened(st.tables, alignments))) by {
        reveal(opened);
    }
    lemma_cells_keep_table(cells, begun, styling, blocks);
    lemma_row_count(cells, begun, styling, blocks);
    let row = styled("tr"@, styling.tr).with_children(head.nodes);
    assert(row.children =~= head.nodes);
    assert forall|k: int| 0 <= k < cell_count(cells) implies cell_of_column(
        #[trigger] row.children[k],
        alignments,
        true,
        k as nat,
    ) by {
        lemma_head_row_aligned(tag, cells, st, styling, blocks, k);
    }
    let thead = styled("thead"@, styling.thead).child(NodeView::Element(row));
    assert(thead.children =~= seq![NodeView::Element(row)]);
    assert(middle.tables == head_ended(head.state.tables) && middle.stack.len() >= 1) by {
        reveal(closed);
        lemma_head_depth(st, tag, styling);
        lemma_end_closes_head(head.state, styling);
    }
    let tbody = styled("tbody"@, styling.tbody).with_children(rows.nodes);
    assert(tbody.children =~= rows.nodes);
    lemma_rows_count(body, middle, styling, head.blocks);
    assert forall|j: int| 0 <= j < row_count(body) implies row_of_columns(
        #[trigger] tbody.children[j],
        row_cells(body, j as nat),
        alignments,
        false,
    ) by {
        lemma_rows_aligned(body, middle, styling, head.blocks, j);
    }
}

/// Behind the head of a table the body is open, and the table is past its head.
proof fn lemma_end_closes_head(st: State, styling: StyleView)
    requires
        st.stack.len() >= 3,
    ensures
        end_tag(st, TagKind::TableHead, styling).tables == head_ended(st.tables),
        end_tag(st, TagKind::TableHead, styling).stack.len() >= 1,
{
}

} // verus!
