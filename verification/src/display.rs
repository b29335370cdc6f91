//! Showing a dictionary: fields, values, components, groups and messages.
use crate::ansi::{capped, plus, write_with_padding};
use crate::colours::{ColourPalette, NEST_INDENT, TAG_WIDTH};
use crate::schema::{borrowed_values, Field, FieldView, Value, ValueView};
use crate::schema_tree::{
    container_nodes, ComponentNode, ComponentNodeView, ContainerNode, FieldNode, FieldNodeView,
    GroupNode, GroupNodeView, MessageNode, MessageNodeView, NodeView, SchemaTree, TreeView,
};
use crate::sorting::{arranged, borrowed_texts, each_once, order_by_text, text_order};
use crate::text::{
    copy_of, decimal, decimal_text, push_repeated, push_right_aligned, repeated, right_aligned,
    same,
};
use crate::textmap::sorted;
use vstd::prelude::*;
use vstd::utf8::encode_utf8;

verus! {

broadcast use vstd::seq_lib::group_seq_properties;

/// A number of blanks.
pub fn indent(level: usize) -> (text: String)
    ensures
        text@ == repeated(' ', level as nat),
{
    let mut text = String::new();
    push_repeated(&mut text, ' ', level);
    assert(text@ =~= repeated(' ', level as nat));
    text
}

/// The columns that values are shown in.
#[derive(Debug, Clone, Copy, PartialEq, Eq, Structural)]
pub struct ColumnLayout {
    pub column_width: usize,
    pub columns: usize,
    pub max_indent: usize,
}

/// Colours, and whether values are shown in columns.
#[derive(Debug, Clone, Copy)]
pub struct DisplayStyle {
    pub colours: ColourPalette,
    pub columns: bool,
    pub layout: Option<ColumnLayout>,
}

impl DisplayStyle {
    pub fn new(colours: ColourPalette, columns: bool) -> (style: DisplayStyle)
        ensures
            style == (DisplayStyle { colours, columns, layout: None }),
    {
        DisplayStyle { colours, columns, layout: None }
    }
}

/// The mark of a required part.
pub open spec fn required_text(required: bool, c: ColourPalette) -> Seq<char> {
    if required {
        " - ("@ + c.title@ + "Y"@ + c.reset@ + ")"@
    } else {
        ""@
    }
}

pub(crate) fn format_required(required: bool, colours: ColourPalette) -> (text: String)
    ensures
        text@ == required_text(required, colours),
{
    if required {
        let mut text = copy_of(" - (");
        text.append(colours.title);
        text.append("Y");
        text.append(colours.reset);
        text.append(")");
        text
    } else {
        copy_of("")
    }
}

/// Tag, name and type of a field.
pub open spec fn field_text(field: FieldView, required: bool, c: ColourPalette) -> Seq<char> {
    right_aligned(decimal(field.number as nat), TAG_WIDTH as nat, ' ') + c.reset@ + ": "@ + c.name@
        + field.name + c.reset@ + " ("@ + c.value@ + field.field_type + c.reset@ + ")"@
        + required_text(required, c)
}

fn format_field(field: &Field, required: bool, colours: ColourPalette) -> (text: String)
    ensures
        text@ == field_text(field@, required, colours),
{
    let mut text = String::new();
    push_right_aligned(&mut text, decimal_text(field.number as u64).as_str(), TAG_WIDTH, ' ');
    assert(text@ =~= right_aligned(decimal(field.number as nat), TAG_WIDTH as nat, ' '));
    text.append(colours.reset);
    text.append(": ");
    text.append(colours.name);
    text.append(field.name.as_str());
    text.append(colours.reset);
    text.append(" (");
    text.append(colours.value);
    text.append(field.field_type.as_str());
    text.append(colours.reset);
    text.append(")");
    text.append(format_required(required, colours).as_str());
    text
}

/// The line of a field.
pub open spec fn field_line(
    field: FieldView,
    required: bool,
    level: usize,
    c: ColourPalette,
) -> Seq<char> {
    repeated(' ', level as nat) + c.tag@ + field_text(field, required, c) + "\n"@
}

/// The line of a field, with a mark where it is required.
pub fn print_field(field: &FieldNode, indent_level: usize, colours: ColourPalette) -> (text: String)
    ensures
        text@ == field_line(field@.field, field@.required, indent_level, colours),
{
    let mut text = indent(indent_level);
    text.append(colours.tag);
    text.append(format_field(&field.field, field.required, colours).as_str());
    text.append("\n");
    text
}

/// The line of a value.
pub open spec fn value_line(value: ValueView, level: usize, c: ColourPalette) -> Seq<char> {
    repeated(' ', capped(level + 4) as nat) + c.value@ + value.enumeration + c.reset@ + " : "@
        + c.enumeration@ + value.description + c.reset@ + "\n"@
}

/// The line of a value.
pub fn print_enum(value: &Value, indent_level: usize, colours: ColourPalette) -> (text: String)
    ensures
        text@ == value_line(value@, indent_level, colours),
{
    let mut text = indent(plus(indent_level, 4));
    text.append(colours.value);
    text.append(value.enumeration.as_str());
    text.append(colours.reset);
    text.append(" : ");
    text.append(colours.enumeration);
    text.append(value.description.as_str());
    text.append(colours.reset);
    text.append("\n");
    text
}

/// How wide a value is shown in a column: code, separator and description.
pub open spec fn value_width(value: ValueView) -> int {
    capped(encode_utf8(value.enumeration).len() + 2 + encode_utf8(value.description).len() as int)
}

fn width_of(value: &Value) -> (width: usize)
    ensures
        width == value_width(value@),
{
    plus(
        plus(value.enumeration.as_str().as_bytes().len(), 2),
        value.description.as_str().as_bytes().len(),
    )
}

/// The largest width of some values; 0 without any.
pub open spec fn widest(values: Seq<ValueView>) -> int
    decreases values.len(),
{
    if values.len() == 0 {
        0
    } else {
        let before = widest(values.drop_last());
        if value_width(values.last()) > before {
            value_width(values.last())
        } else {
            before
        }
    }
}

fn max_width(values: &Vec<&Value>) -> (width: usize)
    ensures
        width == widest(borrowed_values(values@)),
{
    let ghost all = borrowed_values(values@);
    let mut width: usize = 0;
    let mut i: usize = 0;
    while i < values.len()
        invariant
            i <= values@.len(),
            all == borrowed_values(values@),
            width == widest(all.take(i as int)),
        decreases values@.len() - i,
    {
        assert(all.take(i + 1).drop_last() =~= all.take(i as int));
        assert(all.take(i + 1).last() == values@[i as int]@);
        let here: usize = width_of(values[i]);
        if here > width {
            width = here;
        }
        i += 1;
    }
    assert(all.take(all.len() as int) =~= all);
    width
}

/// The codes of some values.
pub open spec fn codes(values: Seq<ValueView>) -> Seq<Seq<char>> {
    values.map_values(|v: ValueView| v.enumeration)
}

/// The values in the order of their codes.
pub open spec fn by_code(values: Seq<ValueView>) -> Seq<ValueView> {
    arranged(values, text_order(codes(values)))
}

/// The values in the order of their codes; equal codes keep their order.
pub fn collect_sorted_values<'a>(values: &Vec<&'a Value>) -> (sorted: Vec<&'a Value>)
    ensures
        borrowed_values(sorted@) == by_code(borrowed_values(values@)),
{
    let ghost all = borrowed_values(values@);
    let mut keys: Vec<&str> = Vec::new();
    let mut i: usize = 0;
    while i < values.len()
        invariant
            i <= values@.len(),
            keys@.len() == i,
            forall|j: int| 0 <= j < i ==> (#[trigger] keys@[j])@ == values@[j].enumeration@,
        decreases values@.len() - i,
    {
        keys.push(values[i].enumeration.as_str());
        i += 1;
    }
    assert(borrowed_texts(keys@) =~= codes(all));
    let order = order_by_text(&keys);
    let mut sorted: Vec<&'a Value> = Vec::new();
    let mut k: usize = 0;
    while k < order.len()
        invariant
            k <= order@.len(),
            each_once(order@, values@.len()),
            sorted@.len() == k,
            forall|j: int| 0 <= j < k ==> #[trigger] sorted@[j] == values@[order@[j] as int],
        decreases order@.len() - k,
    {
        sorted.push(values[order[k]]);
        k += 1;
    }
    assert(borrowed_values(sorted@) =~= by_code(all));
    sorted
}

/// How values are laid out in columns.
#[derive(Debug, Clone, Copy)]
pub struct EnumLayout {
    pub cols: usize,
    pub col_width: usize,
    pub extra_pad: usize,
}

pub open spec fn at_least_one(n: int) -> int {
    if n < 1 {
        1
    } else {
        n
    }
}

pub open spec fn less(a: int, b: int) -> int {
    if a > b {
        a - b
    } else {
        0
    }
}

/// The layout in use, or one that makes the most of the terminal.
pub open spec fn enum_layout(
    level: usize,
    layout: Option<ColumnLayout>,
    values: Seq<ValueView>,
    terminal_width: usize,
) -> EnumLayout {
    match layout {
        Some(layout) => EnumLayout {
            cols: at_least_one(layout.columns as int) as usize,
            col_width: at_least_one(layout.column_width as int) as usize,
            extra_pad: less(layout.max_indent as int, level as int) as usize,
        },
        None => {
            let width = capped(widest(values) + 2);
            EnumLayout {
                cols: at_least_one(less(terminal_width as int, level as int) / width) as usize,
                col_width: width as usize,
                extra_pad: 0,
            }
        },
    }
}

fn determine_enum_layout(
    indent_level: usize,
    layout: Option<ColumnLayout>,
    values: &Vec<&Value>,
    terminal_width: usize,
) -> (params: EnumLayout)
    ensures
        params == enum_layout(indent_level, layout, borrowed_values(values@), terminal_width),
        params.cols >= 1,
{
    match layout {
        Some(layout) => EnumLayout {
            cols: if layout.columns < 1 {
                1
            } else {
                layout.columns
            },
            col_width: if layout.column_width < 1 {
                1
            } else {
                layout.column_width
            },
            extra_pad: layout.max_indent.saturating_sub(indent_level),
        },
        None => {
            let col_width: usize = plus(max_width(values), 2);
            let usable: usize = terminal_width.saturating_sub(indent_level);
            let fit: usize = usable / col_width;
            EnumLayout {
                cols: if fit < 1 {
                    1
                } else {
                    fit
                },
                col_width,
                extra_pad: 0,
            }
        },
    }
}

/// A value in the column `col`, padded to the width of the column.
pub open spec fn value_cell(
    value: ValueView,
    level: usize,
    col: int,
    params: EnumLayout,
    c: ColourPalette,
) -> Seq<char> {
    let first = col == 0;
    let adjust = capped(level + params.extra_pad);
    let plain = value_width(value);
    let visible = if first {
        capped(plain + adjust)
    } else {
        plain
    };
    let width = if first {
        capped(params.col_width + adjust)
    } else {
        params.col_width as int
    };
    let lead = if first {
        repeated(' ', level as nat) + repeated(' ', params.extra_pad as nat)
    } else {
        seq![]
    };
    lead + c.value@ + value.enumeration + c.reset@ + ": "@ + c.enumeration@ + value.description
        + c.reset@ + repeated(' ', less(width, visible) as nat)
}

fn write_enum_cell(
    value: &Value,
    indent_level: usize,
    col: usize,
    params: EnumLayout,
    colours: ColourPalette,
) -> (text: String)
    ensures
        text@ == value_cell(value@, indent_level, col as int, params, colours),
{
    let adjust: usize = plus(indent_level, params.extra_pad);
    let plain: usize = width_of(value);
    let mut text = String::new();
    let mut visible: usize = plain;
    let mut width: usize = params.col_width;
    if col == 0 {
        visible = plus(plain, adjust);
        width = plus(params.col_width, adjust);
        push_repeated(&mut text, ' ', indent_level);
        push_repeated(&mut text, ' ', params.extra_pad);
        assert(text@ =~= repeated(' ', indent_level as nat) + repeated(
            ' ',
            params.extra_pad as nat,
        ));
    }
    text.append(colours.value);
    text.append(value.enumeration.as_str());
    text.append(colours.reset);
    text.append(": ");
    text.append(colours.enumeration);
    text.append(value.description.as_str());
    text.append(colours.reset);
    write_with_padding(text.as_str(), visible, width)
}

/// What `n` items make in rows of `cols`.
pub open spec fn row_count(n: int, cols: int) -> int {
    if cols <= 0 {
        n
    } else if n % cols == 0 {
        n / cols
    } else {
        n / cols + 1
    }
}

/// The cells of a row from the item `idx` in column `col` on.
pub open spec fn row_cells(
    values: Seq<ValueView>,
    idx: int,
    col: int,
    rows: int,
    level: usize,
    params: EnumLayout,
    c: ColourPalette,
) -> Seq<char>
    decreases values.len() - idx,
{
    if idx < 0 || idx >= values.len() || col >= params.cols || rows < 1 {
        seq![]
    } else {
        value_cell(values[idx], level, col, params, c) + if idx + rows >= values.len() {
            seq![]
        } else {
            row_cells(values, idx + rows, col + 1, rows, level, params, c)
        }
    }
}

/// The first `n` rows.
pub open spec fn value_rows(
    values: Seq<ValueView>,
    n: int,
    rows: int,
    level: usize,
    params: EnumLayout,
    c: ColourPalette,
) -> Seq<char>
    decreases n,
{
    if n <= 0 {
        seq![]
    } else {
        value_rows(values, n - 1, rows, level, params, c) + row_cells(
            values,
            n - 1,
            0,
            rows,
            level,
            params,
            c,
        ) + "\n"@
    }
}

/// Values in columns, from top to bottom in the order of their codes.
pub open spec fn values_in_columns(
    values: Seq<ValueView>,
    level: usize,
    layout: Option<ColumnLayout>,
    terminal_width: usize,
    c: ColourPalette,
) -> Seq<char> {
    let ordered = by_code(values);
    let params = enum_layout(level, layout, ordered, terminal_width);
    let rows = row_count(ordered.len() as int, params.cols as int);
    value_rows(ordered, rows, rows, level, params, c)
}

pub(crate) fn count_rows(n: usize, cols: usize) -> (rows: usize)
    requires
        cols >= 1,
    ensures
        rows == row_count(n as int, cols as int),
        n > 0 ==> rows >= 1,
        rows <= n,
{
    let whole: usize = n / cols;
    assert(whole <= n && (n % cols != 0 ==> whole < n) && (n > 0 && n % cols == 0 ==> whole >= 1))
        by (nonlinear_arith)
        requires
            whole == n / cols,
            cols >= 1,
    ;
    if n % cols == 0 {
        whole
    } else {
        whole + 1
    }
}

/// Values in columns, from top to bottom in the order of their codes.
pub fn print_enum_columns(
    values: &Vec<&Value>,
    indent_level: usize,
    colours: ColourPalette,
    layout: Option<ColumnLayout>,
    terminal_width: usize,
) -> (text: String)
    ensures
        text@ == values_in_columns(
            borrowed_values(values@),
            indent_level,
            layout,
            terminal_width,
            colours,
        ),
{
    let sorted = collect_sorted_values(values);
    let ghost all = borrowed_values(sorted@);
    let params: EnumLayout = determine_enum_layout(indent_level, layout, &sorted, terminal_width);
    let total: usize = sorted.len();
    let rows: usize = count_rows(total, params.cols);
    let mut text = String::new();
    let mut row: usize = 0;
    while row < rows
        invariant
            row <= rows,
            rows <= total,
            total == sorted@.len(),
            params.cols >= 1,
            all == borrowed_values(sorted@),
            text@ == value_rows(all, row as int, rows as int, indent_level, params, colours),
        decreases rows - row,
    {
        let ghost before = text@;
        let ghost whole = row_cells(all, row as int, 0, rows as int, indent_level, params, colours);
        let mut idx: usize = row;
        let mut col: usize = 0;
        let mut more: bool = true;
        while more && col < params.cols
            invariant
                rows >= 1,
                total == sorted@.len(),
                all == borrowed_values(sorted@),
                more ==> idx < total,
                col <= params.cols,
                before + whole == text@ + if more {
                    row_cells(
                        all,
                        idx as int,
                        col as int,
                        rows as int,
                        indent_level,
                        params,
                        colours,
                    )
                } else {
                    seq![]
                },
            decreases params.cols - col,
        {
            assert(all[idx as int] == sorted@[idx as int]@);
            let ghost start = text@;
            let ghost rest = row_cells(
                all,
                idx as int,
                col as int,
                rows as int,
                indent_level,
                params,
                colours,
            );
            let cell = write_enum_cell(sorted[idx], indent_level, col, params, colours);
            text.append(cell.as_str());
            more = total - idx > rows;
            if more {
                idx += rows;
            }
            col += 1;
            proof {
                let after = if more {
                    row_cells(
                        all,
                        idx as int,
                        col as int,
                        rows as int,
                        indent_level,
                        params,
                        colours,
                    )
                } else {
                    seq![]
                };
                assert(rest == cell@ + after);
                assert(start + rest =~= text@ + after);
            }
        }
        assert(text@ =~= before + whole);
        text.append("\n");
        row += 1;
    }
    text
}

/// What the widest value takes, and how far in the values stand.
#[derive(Debug, Clone, Copy)]
pub struct LayoutStats {
    pub max_entry_len: usize,
    pub max_indent: usize,
}

pub open spec fn larger(a: usize, b: usize) -> usize {
    if a >= b {
        a
    } else {
        b
    }
}

impl LayoutStats {
    pub open spec fn recorded(self, entry_len: usize, level: usize) -> LayoutStats {
        if entry_len == 0 {
            self
        } else {
            LayoutStats {
                max_entry_len: larger(self.max_entry_len, entry_len),
                max_indent: larger(self.max_indent, level),
            }
        }
    }

    /// The columns that fit the terminal; none without any value.
    pub open spec fn layout(self, terminal_width: usize) -> Option<ColumnLayout> {
        if self.max_entry_len == 0 {
            None
        } else {
            let width = capped(self.max_entry_len + 2);
            Some(
                ColumnLayout {
                    column_width: width as usize,
                    columns: at_least_one(
                        less(terminal_width as int, self.max_indent as int) / width,
                    ) as usize,
                    max_indent: self.max_indent,
                },
            )
        }
    }

    /// Takes note of the width of a field's values and of how far in they stand.
    pub fn record(&mut self, entry_len: usize, indent: usize)
        ensures
            *final(self) == old(self).recorded(entry_len, indent),
    {
        if entry_len == 0 {
            return;
        }
        if entry_len > self.max_entry_len {
            self.max_entry_len = entry_len;
        }
        if indent > self.max_indent {
            self.max_indent = indent;
        }
    }

    /// The columns that fit the terminal; none without any value.
    pub fn finalize(self, terminal_width: usize) -> (layout: Option<ColumnLayout>)
        ensures
            layout == self.layout(terminal_width),
    {
        if self.max_entry_len == 0 {
            return None;
        }
        let column_width: usize = plus(self.max_entry_len, 2);
        let usable: usize = terminal_width.saturating_sub(self.max_indent);
        let fit: usize = usable / column_width;
        Some(
            ColumnLayout {
                column_width,
                columns: if fit < 1 {
                    1
                } else {
                    fit
                },
                max_indent: self.max_indent,
            },
        )
    }
}

impl Default for LayoutStats {
    fn default() -> (stats: LayoutStats)
        ensures
            stats == (LayoutStats { max_entry_len: 0, max_indent: 0 }),
    {
        LayoutStats { max_entry_len: 0, max_indent: 0 }
    }
}

pub open spec fn no_stats() -> LayoutStats {
    LayoutStats { max_entry_len: 0, max_indent: 0 }
}

/// Every value of a field.
pub open spec fn all_values(field: FieldView) -> Seq<ValueView> {
    field.values + field.wrapped
}

pub open spec fn deeper(level: usize, by: usize) -> usize {
    capped(level + by) as usize
}

/// The stats with the first `n` parts and all that is in them.
pub open spec fn stats_of(
    entries: Seq<NodeView>,
    n: int,
    level: usize,
    stats: LayoutStats,
) -> LayoutStats
    decreases entries, n,
{
    if n <= 0 || n > entries.len() {
        stats
    } else {
        let before = stats_of(entries, n - 1, level, stats);
        match entries[n - 1] {
            NodeView::Field(field) => before.recorded(
                widest(all_values(field.field)) as usize,
                deeper(level, 2),
            ),
            NodeView::Group(group) => {
                proof {
                    assert(decreases_to!(entries => entries[n - 1]));
                    assert(decreases_to!(entries[n - 1] => entries[n - 1]->Group_0));
                    assert(decreases_to!(entries[n - 1]->Group_0 => entries[n - 1]->Group_0.body));
                    assert(decreases_to!(entries[n - 1]->Group_0.body
                        => entries[n - 1]->Group_0.body.entries));
                }
                stats_of(
                    group.body.entries,
                    group.body.entries.len() as int,
                    deeper(level, NEST_INDENT),
                    before,
                )
            },
            NodeView::Component(component) => {
                proof {
                    assert(decreases_to!(entries => entries[n - 1]));
                    assert(decreases_to!(entries[n - 1] => entries[n - 1]->Component_0));
                    assert(decreases_to!(entries[n - 1]->Component_0
                        => entries[n - 1]->Component_0.body));
                    assert(decreases_to!(entries[n - 1]->Component_0.body
                        => entries[n - 1]->Component_0.body.entries));
                }
                stats_of(
                    component.body.entries,
                    component.body.entries.len() as int,
                    deeper(level, NEST_INDENT),
                    before,
                )
            },
        }
    }
}

fn collect_container_layout(
    entries: &Vec<ContainerNode>,
    indent_level: usize,
    stats: &mut LayoutStats,
)
    ensures
        *final(stats) == stats_of(
            container_nodes(entries@),
            entries@.len() as int,
            indent_level,
            *old(stats),
        ),
    decreases container_nodes(entries@), 0int,
{
    let ghost all = container_nodes(entries@);
    let ghost start = *stats;
    let mut i: usize = 0;
    while i < entries.len()
        invariant
            i <= entries@.len(),
            all == container_nodes(entries@),
            *stats == stats_of(all, i as int, indent_level, start),
        decreases entries@.len() - i,
    {
        assert(all[i as int] == entries@[i as int].model());
        assert(decreases_to!(all => all[i as int]));
        match &entries[i] {
            ContainerNode::Field(field) => {
                let width: usize = field_layout_width(field);
                stats.record(width, plus(indent_level, 2));
            },
            ContainerNode::Group(group) => {
                assert(decreases_to!(all[i as int] => all[i as int]->Group_0));
                collect_group_layout(group, indent_level, stats);
            },
            ContainerNode::Component(component) => {
                assert(decreases_to!(all[i as int] => all[i as int]->Component_0));
                collect_component_layout(component, indent_level, stats);
            },
        }
        i += 1;
    }
}

/// Takes note of all values in a group that stands at `indent_level`.
pub fn collect_group_layout(group: &GroupNode, indent_level: usize, stats: &mut LayoutStats)
    ensures
        ({
            let entries = group.model().body.entries;
            *final(stats) == stats_of(
                entries,
                entries.len() as int,
                deeper(indent_level, NEST_INDENT),
                *old(stats),
            )
        }),
    decreases group.model(), 0int,
{
    proof {
        group.lemma_model();
        assert(decreases_to!(group.model() => group.model().body));
        assert(decreases_to!(group.model().body => group.model().body.entries));
    }
    collect_container_layout(&group.entries, plus(indent_level, NEST_INDENT), stats);
}

/// Takes note of all values in a component that stands at `indent_level`.
pub fn collect_component_layout(
    component: &ComponentNode,
    indent_level: usize,
    stats: &mut LayoutStats,
)
    ensures
        ({
            let entries = component.model().body.entries;
            *final(stats) == stats_of(
                entries,
                entries.len() as int,
                deeper(indent_level, NEST_INDENT),
                *old(stats),
            )
        }),
    decreases component.model(), 0int,
{
    proof {
        component.lemma_model();
        assert(decreases_to!(component.model() => component.model().body));
        assert(decreases_to!(component.model().body => component.model().body.entries));
    }
    collect_container_layout(&component.entries, plus(indent_level, NEST_INDENT), stats);
}

fn field_layout_width(field: &FieldNode) -> (width: usize)
    ensures
        width == widest(all_values(field@.field)),
{
    max_width(&field.field.values_iter())
}

/// The layout of what stands in a container at `level`.
pub open spec fn body_layout(
    entries: Seq<NodeView>,
    level: usize,
    terminal_width: usize,
) -> Option<ColumnLayout> {
    stats_of(entries, entries.len() as int, deeper(level, NEST_INDENT), no_stats()).layout(
        terminal_width,
    )
}

fn compute_component_layout(
    component: &ComponentNode,
    indent_level: usize,
    terminal_width: usize,
) -> (layout: Option<ColumnLayout>)
    ensures
        layout == body_layout(component.model().body.entries, indent_level, terminal_width),
{
    let mut stats = LayoutStats::default();
    collect_component_layout(component, indent_level, &mut stats);
    stats.finalize(terminal_width)
}

fn compute_group_layout(
    group: &GroupNode,
    indent_level: usize,
    terminal_width: usize,
) -> (layout: Option<ColumnLayout>)
    ensures
        layout == body_layout(group.model().body.entries, indent_level, terminal_width),
{
    let mut stats = LayoutStats::default();
    collect_group_layout(group, indent_level, &mut stats);
    stats.finalize(terminal_width)
}

/// The stats with those of a component of the tree, if it is wanted and there.
pub open spec fn stats_with(
    stats: LayoutStats,
    wanted: bool,
    name: Seq<char>,
    tree: TreeView,
    level: usize,
) -> LayoutStats {
    if wanted && tree.components.contains_key(name) {
        let entries = tree.components[name].body.entries;
        stats_of(entries, entries.len() as int, deeper(level, NEST_INDENT), stats)
    } else {
        stats
    }
}

/// The layout that all parts of a message share.
pub open spec fn message_layout(
    tree: TreeView,
    msg: MessageNodeView,
    header: bool,
    trailer: bool,
    level: usize,
    terminal_width: usize,
) -> Option<ColumnLayout> {
    let entries = msg.body.entries;
    let body = stats_of(
        entries,
        entries.len() as int,
        deeper(level, NEST_INDENT),
        no_stats(),
    );
    stats_with(
        stats_with(body, header, "Header"@, tree, level),
        trailer,
        "Trailer"@,
        tree,
        level,
    ).layout(terminal_width)
}

/// The layout that all parts of a message share; none where nothing has values.
pub fn compute_message_layout(
    schema: &SchemaTree,
    msg: &MessageNode,
    include_header: bool,
    include_trailer: bool,
    indent_level: usize,
    terminal_width: usize,
) -> (layout: Option<ColumnLayout>)
    ensures
        layout == message_layout(
            schema@,
            msg@,
            include_header,
            include_trailer,
            indent_level,
            terminal_width,
        ),
{
    let mut stats = LayoutStats::default();
    collect_container_layout(&msg.entries, plus(indent_level, NEST_INDENT), &mut stats);
    if include_header {
        if let Some(header) = schema.components.get("Header") {
            collect_component_layout(header, indent_level, &mut stats);
        }
    }
    if include_trailer {
        if let Some(trailer) = schema.components.get("Trailer") {
            collect_component_layout(trailer, indent_level, &mut stats);
        }
    }
    stats.finalize(terminal_width)
}

/// The layout of some values that stand at `level`.
pub open spec fn values_layout(
    values: Seq<ValueView>,
    level: usize,
    terminal_width: usize,
) -> Option<ColumnLayout> {
    no_stats().recorded(widest(values) as usize, level).layout(terminal_width)
}

/// The layout of some values that stand at `indent_level`; none without any.
pub fn compute_values_layout(
    values: &Vec<&Value>,
    indent_level: usize,
    terminal_width: usize,
) -> (layout: Option<ColumnLayout>)
    ensures
        layout == values_layout(borrowed_values(values@), indent_level, terminal_width),
{
    let mut stats = LayoutStats::default();
    stats.record(max_width(values), indent_level);
    stats.finalize(terminal_width)
}

/// A layout that was computed before, for a component or a group of a name at an indent.
#[derive(Debug)]
pub struct CachedLayout {
    pub group: bool,
    pub name: String,
    pub indent: usize,
    pub layout: ColumnLayout,
}

pub struct CachedView {
    pub group: bool,
    pub name: Seq<char>,
    pub indent: usize,
    pub layout: ColumnLayout,
}

impl View for CachedLayout {
    type V = CachedView;

    open spec fn view(&self) -> CachedView {
        CachedView {
            group: self.group,
            name: self.name@,
            indent: self.indent,
            layout: self.layout,
        }
    }
}

pub type LayoutCache = Seq<CachedView>;

pub open spec fn cached_views(cache: Seq<CachedLayout>) -> LayoutCache {
    cache.map_values(|l: CachedLayout| l@)
}

/// The layout in the cache, from `at` on.
pub open spec fn cached(
    cache: LayoutCache,
    at: int,
    group: bool,
    name: Seq<char>,
    level: usize,
) -> Option<ColumnLayout>
    decreases cache.len() - at,
{
    if at < 0 || at >= cache.len() {
        None
    } else if cache[at].group == group && cache[at].name == name && cache[at].indent == level {
        Some(cache[at].layout)
    } else {
        cached(cache, at + 1, group, name, level)
    }
}

/// A layout, and the cache behind it.
pub struct CachedResult {
    pub layout: Option<ColumnLayout>,
    pub cache: LayoutCache,
}

/// The layout of a component or group: as computed before, or as computed now.
pub open spec fn layout_through(
    cache: LayoutCache,
    group: bool,
    name: Seq<char>,
    entries: Seq<NodeView>,
    level: usize,
    terminal_width: usize,
) -> CachedResult {
    match cached(cache, 0, group, name, level) {
        Some(layout) => CachedResult { layout: Some(layout), cache },
        None => {
            let layout = body_layout(entries, level, terminal_width);
            CachedResult {
                layout,
                cache: match layout {
                    Some(layout) => cache.push(CachedView { group, name, indent: level, layout }),
                    None => cache,
                },
            }
        },
    }
}

/// What a dictionary is shown from: its tree, whether values are shown, and the width of
/// the terminal.
pub struct RenderEnv {
    pub tree: TreeView,
    pub verbose: bool,
    pub width: usize,
}

/// A text, and the layouts computed by then.
#[verifier::ext_equal]
pub struct Rendered {
    pub text: Seq<char>,
    pub cache: LayoutCache,
}

/// The position of the first value with a code, from `at` on.
pub open spec fn coded(values: Seq<ValueView>, at: int, code: Seq<char>) -> int
    decreases values.len() - at,
{
    if at < 0 || at >= values.len() {
        values.len() as int
    } else if values[at].enumeration == code {
        at
    } else {
        coded(values, at + 1, code)
    }
}

/// The lines of the first `n` values.
pub open spec fn value_lines(
    values: Seq<ValueView>,
    n: int,
    level: usize,
    c: ColourPalette,
) -> Seq<char>
    decreases n,
{
    if n <= 0 || n > values.len() {
        seq![]
    } else {
        value_lines(values, n - 1, level, c) + value_line(values[n - 1], level, c)
    }
}

/// The values of a field. Of the message type, only the one of the message is shown.
pub open spec fn values_text(
    field: FieldView,
    msg_type: Option<Seq<char>>,
    level: usize,
    style: DisplayStyle,
    width: usize,
) -> Seq<char> {
    let values = all_values(field);
    let wanted = match msg_type {
        Some(code) => if field.number == 35 {
            coded(values, 0, code)
        } else {
            values.len() as int
        },
        None => values.len() as int,
    };
    if wanted < values.len() {
        value_line(values[wanted], level, style.colours)
    } else if style.columns {
        values_in_columns(values, level, style.layout, width, style.colours)
    } else {
        value_lines(values, values.len() as int, level, style.colours)
    }
}

/// A style, and the layouts computed by then.
pub struct Styled {
    pub style: DisplayStyle,
    pub cache: LayoutCache,
}

/// The style inside a component or group: with a layout of its own, where columns are shown
/// and none is set.
pub open spec fn styled(
    style: DisplayStyle,
    group: bool,
    name: Seq<char>,
    entries: Seq<NodeView>,
    level: usize,
    env: RenderEnv,
    cache: LayoutCache,
) -> Styled {
    if env.verbose && style.columns && style.layout is None {
        let found = layout_through(cache, group, name, entries, level, env.width);
        Styled { style: DisplayStyle { layout: found.layout, ..style }, cache: found.cache }
    } else {
        Styled { style, cache }
    }
}

pub open spec fn component_line(name: Seq<char>, level: usize, c: ColourPalette) -> Seq<char> {
    repeated(' ', level as nat) + "Component: "@ + c.name@ + name + c.reset@ + "\n"@
}

/// The line of a group: that of its count field, where the field is known.
pub open spec fn group_line(
    group: GroupNodeView,
    level: usize,
    tree: TreeView,
    c: ColourPalette,
) -> Seq<char> {
    if tree.fields.contains_key(group.name) {
        field_line(tree.fields[group.name], group.required, level, c)
    } else {
        repeated(' ', level as nat) + "Group: "@ + c.name@ + group.name + c.reset@ + required_text(
            group.required,
            c,
        ) + "\n"@
    }
}

/// A field with its values.
pub open spec fn field_part(
    field: FieldNodeView,
    level: usize,
    style: DisplayStyle,
    msg_type: Option<Seq<char>>,
    env: RenderEnv,
) -> Seq<char> {
    let line = field_line(field.field, field.required, level, style.colours);
    if env.verbose {
        line + values_text(field.field, msg_type, deeper(level, 2), style, env.width)
    } else {
        line
    }
}

/// The first `n` parts of a container.
pub open spec fn entries_text(
    entries: Seq<NodeView>,
    n: int,
    level: usize,
    style: DisplayStyle,
    msg_type: Option<Seq<char>>,
    env: RenderEnv,
    cache: LayoutCache,
) -> Rendered
    decreases entries, n,
{
    if n <= 0 || n > entries.len() {
        Rendered { text: seq![], cache }
    } else {
        let before = entries_text(entries, n - 1, level, style, msg_type, env, cache);
        match entries[n - 1] {
            NodeView::Field(field) => Rendered {
                text: before.text + field_part(field, level, style, msg_type, env),
                cache: before.cache,
            },
            NodeView::Group(group) => {
                proof {
                    assert(decreases_to!(entries => entries[n - 1]));
                    assert(decreases_to!(entries[n - 1] => entries[n - 1]->Group_0));
                    assert(decreases_to!(entries[n - 1]->Group_0 => entries[n - 1]->Group_0.body));
                    assert(decreases_to!(entries[n - 1]->Group_0.body
                        => entries[n - 1]->Group_0.body.entries));
                }
                let inner = styled(
                    style,
                    true,
                    group.name,
                    group.body.entries,
                    level,
                    env,
                    before.cache,
                );
                let rest = entries_text(
                    group.body.entries,
                    group.body.entries.len() as int,
                    deeper(level, NEST_INDENT),
                    inner.style,
                    msg_type,
                    env,
                    inner.cache,
                );
                Rendered {
                    text: before.text + (group_line(group, level, env.tree, style.colours)
                        + rest.text),
                    cache: rest.cache,
                }
            },
            NodeView::Component(component) => {
                proof {
                    assert(decreases_to!(entries => entries[n - 1]));
                    assert(decreases_to!(entries[n - 1] => entries[n - 1]->Component_0));
                    assert(decreases_to!(entries[n - 1]->Component_0
                        => entries[n - 1]->Component_0.body));
                    assert(decreases_to!(entries[n - 1]->Component_0.body
                        => entries[n - 1]->Component_0.body.entries));
                }
                let inner = styled(
                    style,
                    false,
                    component.name,
                    component.body.entries,
                    level,
                    env,
                    before.cache,
                );
                let rest = entries_text(
                    component.body.entries,
                    component.body.entries.len() as int,
                    deeper(level, NEST_INDENT),
                    inner.style,
                    msg_type,
                    env,
                    inner.cache,
                );
                Rendered {
                    text: before.text + (component_line(component.name, level, style.colours)
                        + rest.text),
                    cache: rest.cache,
                }
            },
        }
    }
}

/// A component with everything in it.
pub open spec fn component_text(
    component: ComponentNodeView,
    level: usize,
    style: DisplayStyle,
    msg_type: Option<Seq<char>>,
    env: RenderEnv,
    cache: LayoutCache,
) -> Rendered {
    let entries = component.body.entries;
    let inner = styled(style, false, component.name, entries, level, env, cache);
    let rest = entries_text(
        entries,
        entries.len() as int,
        deeper(level, NEST_INDENT),
        inner.style,
        msg_type,
        env,
        inner.cache,
    );
    Rendered {
        text: component_line(component.name, level, style.colours) + rest.text,
        cache: rest.cache,
    }
}

/// A group with everything in it.
pub open spec fn group_text(
    group: GroupNodeView,
    level: usize,
    style: DisplayStyle,
    msg_type: Option<Seq<char>>,
    env: RenderEnv,
    cache: LayoutCache,
) -> Rendered {
    let entries = group.body.entries;
    let inner = styled(style, true, group.name, entries, level, env, cache);
    let rest = entries_text(
        entries,
        entries.len() as int,
        deeper(level, NEST_INDENT),
        inner.style,
        msg_type,
        env,
        inner.cache,
    );
    Rendered {
        text: group_line(group, level, env.tree, style.colours) + rest.text,
        cache: rest.cache,
    }
}

/// A component of the tree, if it is wanted and there.
pub open spec fn wanted_component(
    wanted: bool,
    name: Seq<char>,
    level: usize,
    style: DisplayStyle,
    msg_type: Seq<char>,
    env: RenderEnv,
    cache: LayoutCache,
) -> Rendered {
    if wanted && env.tree.components.contains_key(name) {
        component_text(env.tree.components[name], level, style, Some(msg_type), env, cache)
    } else {
        Rendered { text: seq![], cache }
    }
}

pub open spec fn message_line(msg: MessageNodeView, c: ColourPalette) -> Seq<char> {
    "Message: "@ + c.name@ + msg.name + c.reset@ + " ("@ + c.tag@ + msg.msg_type + c.reset@
        + ")\n"@
}

pub open spec fn body_line(level: usize, c: ColourPalette) -> Seq<char> {
    repeated(' ', level as nat) + "Message: "@ + c.name@ + "Body"@ + c.reset@ + "\n"@
}

/// The style of a message: where columns are shown and no layout is set, one that all its
/// parts share.
pub open spec fn message_style(
    msg: MessageNodeView,
    header: bool,
    trailer: bool,
    level: usize,
    style: DisplayStyle,
    env: RenderEnv,
) -> DisplayStyle {
    if env.verbose && style.columns && style.layout is None {
        DisplayStyle {
            layout: message_layout(env.tree, msg, header, trailer, level, env.width),
            ..style
        }
    } else {
        style
    }
}

/// A message with header, body and trailer.
pub open spec fn message_text(
    msg: MessageNodeView,
    header: bool,
    trailer: bool,
    level: usize,
    style: DisplayStyle,
    env: RenderEnv,
    cache: LayoutCache,
) -> Rendered {
    let shared = message_style(msg, header, trailer, level, style, env);
    let top = wanted_component(header, "Header"@, level, shared, msg.msg_type, env, cache);
    let entries = msg.body.entries;
    let body = entries_text(
        entries,
        entries.len() as int,
        deeper(level, NEST_INDENT),
        shared,
        Some(msg.msg_type),
        env,
        top.cache,
    );
    let end = wanted_component(
        trailer,
        "Trailer"@,
        level,
        shared,
        msg.msg_type,
        env,
        body.cache,
    );
    Rendered {
        text: message_line(msg, style.colours) + top.text + body_line(level, style.colours)
            + body.text + end.text,
        cache: end.cache,
    }
}

/// Shows parts of a dictionary; layouts are computed once.
#[derive(Debug)]
pub struct RenderContext<'a> {
    pub schema: &'a SchemaTree,
    pub verbose: bool,
    pub style: DisplayStyle,
    pub terminal_width: usize,
    pub layout_cache: Vec<CachedLayout>,
}

pub open spec fn type_of(msg: Option<&MessageNode>) -> Option<Seq<char>> {
    match msg {
        Some(msg) => Some(msg@.msg_type),
        None => None,
    }
}

impl<'a> RenderContext<'a> {
    pub open spec fn env(self) -> RenderEnv {
        RenderEnv { tree: self.schema@, verbose: self.verbose, width: self.terminal_width }
    }

    pub open spec fn cache(self) -> LayoutCache {
        cached_views(self.layout_cache@)
    }

    /// Everything but the layouts is as it was.
    pub open spec fn continues(self, before: RenderContext<'a>) -> bool {
        self.schema == before.schema && self.verbose == before.verbose && self.style
            == before.style && self.terminal_width == before.terminal_width
    }

    pub fn new(
        schema: &'a SchemaTree,
        style: DisplayStyle,
        verbose: bool,
        terminal_width: usize,
    ) -> (context: RenderContext<'a>)
        ensures
            context.env() == (RenderEnv { tree: schema@, verbose, width: terminal_width }),
            context.style == style,
            context.cache() == LayoutCache::empty(),
    {
        let context = RenderContext {
            schema,
            verbose,
            style,
            terminal_width,
            layout_cache: Vec::new(),
        };
        assert(context.cache() =~= LayoutCache::empty());
        context
    }

    fn find_layout(&self, group: bool, name: &str, level: usize) -> (layout: Option<ColumnLayout>)
        ensures
            layout == cached(self.cache(), 0, group, name@, level),
    {
        let ghost all = self.cache();
        let mut i: usize = 0;
        while i < self.layout_cache.len()
            invariant
                i <= self.layout_cache@.len(),
                all == self.cache(),
                cached(all, 0, group, name@, level) == cached(all, i as int, group, name@, level),
            decreases self.layout_cache@.len() - i,
        {
            assert(all[i as int] == self.layout_cache@[i as int]@);
            if self.layout_cache[i].group == group && self.layout_cache[i].indent == level && same(
                self.layout_cache[i].name.as_str(),
                name,
            ) {
                return Some(self.layout_cache[i].layout);
            }
            i += 1;
        }
        None
    }

    fn keep_layout(&mut self, group: bool, name: &str, level: usize, layout: Option<ColumnLayout>)
        ensures
            final(self).continues(*old(self)),
            final(self).cache() == match layout {
                Some(layout) => old(self).cache().push(
                    CachedView { group, name: name@, indent: level, layout },
                ),
                None => old(self).cache(),
            },
    {
        let ghost before = self.cache();
        if let Some(layout) = layout {
            self.layout_cache.push(
                CachedLayout { group, name: copy_of(name), indent: level, layout },
            );
            assert(self.cache() =~= before.push(
                CachedView { group, name: name@, indent: level, layout },
            ));
        }
    }

    /// The layout of a component at an indent, computed once.
    pub fn cached_component_layout(&mut self, component: &ComponentNode, indent: usize) -> (layout:
        Option<ColumnLayout>)
        ensures
            ({
                let found = layout_through(
                    old(self).cache(),
                    false,
                    component.model().name,
                    component.model().body.entries,
                    indent,
                    old(self).terminal_width,
                );
                layout == found.layout && final(self).cache() == found.cache
            }),
            final(self).continues(*old(self)),
    {
        proof {
            component.lemma_model();
        }
        if let Some(layout) = self.find_layout(false, component.name.as_str(), indent) {
            return Some(layout);
        }
        let layout = compute_component_layout(component, indent, self.terminal_width);
        self.keep_layout(false, component.name.as_str(), indent, layout);
        layout
    }

    fn cached_group_layout(&mut self, group: &GroupNode, indent: usize) -> (layout: Option<
        ColumnLayout,
    >)
        ensures
            ({
                let found = layout_through(
                    old(self).cache(),
                    true,
                    group.model().name,
                    group.model().body.entries,
                    indent,
                    old(self).terminal_width,
                );
                layout == found.layout && final(self).cache() == found.cache
            }),
            final(self).continues(*old(self)),
    {
        proof {
            group.lemma_model();
        }
        if let Some(layout) = self.find_layout(true, group.name.as_str(), indent) {
            return Some(layout);
        }
        let layout = compute_group_layout(group, indent, self.terminal_width);
        self.keep_layout(true, group.name.as_str(), indent, layout);
        layout
    }

    fn resolve_component_style(
        &mut self,
        component: &ComponentNode,
        indent_level: usize,
        style: DisplayStyle,
    ) -> (inner: DisplayStyle)
        ensures
            ({
                let found = styled(
                    style,
                    false,
                    component.model().name,
                    component.model().body.entries,
                    indent_level,
                    old(self).env(),
                    old(self).cache(),
                );
                inner == found.style && final(self).cache() == found.cache
            }),
            final(self).continues(*old(self)),
    {
        if self.verbose && style.columns && style.layout.is_none() {
            let layout = self.cached_component_layout(component, indent_level);
            DisplayStyle { colours: style.colours, columns: style.columns, layout }
        } else {
            style
        }
    }

    fn resolve_group_style(
        &mut self,
        group: &GroupNode,
        indent_level: usize,
        style: DisplayStyle,
    ) -> (inner: DisplayStyle)
        ensures
            ({
                let found = styled(
                    style,
                    true,
                    group.model().name,
                    group.model().body.entries,
                    indent_level,
                    old(self).env(),
                    old(self).cache(),
                );
                inner == found.style && final(self).cache() == found.cache
            }),
            final(self).continues(*old(self)),
    {
        if self.verbose && style.columns && style.layout.is_none() {
            let layout = self.cached_group_layout(group, indent_level);
            DisplayStyle { colours: style.colours, columns: style.columns, layout }
        } else {
            style
        }
    }

    fn render_component_header(
        &self,
        component: &ComponentNode,
        indent_level: usize,
        colours: ColourPalette,
    ) -> (text: String)
        ensures
            text@ == component_line(component.model().name, indent_level, colours),
    {
        proof {
            component.lemma_model();
        }
        let mut text = indent(indent_level);
        text.append("Component: ");
        text.append(colours.name);
        text.append(component.name.as_str());
        text.append(colours.reset);
        text.append("\n");
        text
    }

    fn render_group_header(&self, group: &GroupNode, indent_level: usize, colours: ColourPalette)
        -> (text: String)
        ensures
            text@ == group_line(group.model(), indent_level, self.schema@, colours),
    {
        proof {
            group.lemma_model();
        }
        match self.schema.fields.get(group.name.as_str()) {
            Some(count_field) => {
                let mut text = indent(indent_level);
                text.append(colours.tag);
                text.append(format_field(count_field, group.required, colours).as_str());
                text.append("\n");
                text
            },
            None => {
                let mut text = indent(indent_level);
                text.append("Group: ");
                text.append(colours.name);
                text.append(group.name.as_str());
                text.append(colours.reset);
                text.append(format_required(group.required, colours).as_str());
                text.append("\n");
                text
            },
        }
    }

    fn print_enums_for_field(
        &self,
        field: &FieldNode,
        msg: Option<&MessageNode>,
        indent_level: usize,
        style: DisplayStyle,
    ) -> (text: String)
        ensures
            text@ == values_text(
                field@.field,
                type_of(msg),
                indent_level,
                style,
                self.terminal_width,
            ),
    {
        let values = field.field.values_iter();
        let ghost all = borrowed_values(values@);
        if field.field.number == 35 {
            if let Some(message) = msg {
                let mut i: usize = 0;
                while i < values.len()
                    invariant
                        i <= values@.len(),
                        all == borrowed_values(values@),
                        all == all_values(field@.field),
                        field@.field.number == 35,
                        type_of(msg) == Some(message@.msg_type),
                        coded(all, 0, message@.msg_type) == coded(
                            all,
                            i as int,
                            message@.msg_type,
                        ),
                    decreases values@.len() - i,
                {
                    assert(all[i as int] == values@[i as int]@);
                    if same(values[i].enumeration.as_str(), message.msg_type.as_str()) {
                        return print_enum(values[i], indent_level, style.colours);
                    }
                    i += 1;
                }
            }
        }
        if style.columns {
            return print_enum_columns(
                &values,
                indent_level,
                style.colours,
                style.layout,
                self.terminal_width,
            );
        }
        list_values(&values, indent_level, style.colours)
    }

    fn render_entries(
        &mut self,
        msg: Option<&MessageNode>,
        entries: &Vec<ContainerNode>,
        indent_level: usize,
        style: DisplayStyle,
    ) -> (text: String)
        ensures
            ({
                let shown = entries_text(
                    container_nodes(entries@),
                    entries@.len() as int,
                    indent_level,
                    style,
                    type_of(msg),
                    old(self).env(),
                    old(self).cache(),
                );
                text@ == shown.text && final(self).cache() == shown.cache
            }),
            final(self).continues(*old(self)),
        decreases container_nodes(entries@), 0int,
    {
        let ghost all = container_nodes(entries@);
        let ghost start = *self;
        let mut text = String::new();
        let mut i: usize = 0;
        while i < entries.len()
            invariant
                i <= entries@.len(),
                all == container_nodes(entries@),
                self.continues(start),
                ({
                    let shown = entries_text(
                        all,
                        i as int,
                        indent_level,
                        style,
                        type_of(msg),
                        start.env(),
                        start.cache(),
                    );
                    text@ == shown.text && self.cache() == shown.cache
                }),
            decreases entries@.len() - i,
        {
            assert(all[i as int] == entries@[i as int].model());
            assert(decreases_to!(all => all[i as int]));
            match &entries[i] {
                ContainerNode::Field(field) => {
                    let mut part = print_field(field, indent_level, style.colours);
                    if self.verbose {
                        let values = self.print_enums_for_field(
                            field,
                            msg,
                            plus(indent_level, 2),
                            style,
                        );
                        part.append(values.as_str());
                    }
                    text.append(part.as_str());
                },
                ContainerNode::Group(group) => {
                    assert(decreases_to!(all[i as int] => all[i as int]->Group_0));
                    let part = self.render_group_with_style(msg, group, indent_level, style);
                    text.append(part.as_str());
                },
                ContainerNode::Component(component) => {
                    assert(decreases_to!(all[i as int] => all[i as int]->Component_0));
                    let part = self.render_component_with_style(
                        msg,
                        component,
                        indent_level,
                        style,
                    );
                    text.append(part.as_str());
                },
            }
            i += 1;
        }
        text
    }

    /// A component with everything in it, in the given style.
    pub fn render_component_with_style(
        &mut self,
        msg: Option<&MessageNode>,
        component: &ComponentNode,
        indent_level: usize,
        style: DisplayStyle,
    ) -> (text: String)
        ensures
            ({
                let shown = component_text(
                    component.model(),
                    indent_level,
                    style,
                    type_of(msg),
                    old(self).env(),
                    old(self).cache(),
                );
                text@ == shown.text && final(self).cache() == shown.cache
            }),
            final(self).continues(*old(self)),
        decreases component.model(), 0int,
    {
        proof {
            component.lemma_model();
            assert(decreases_to!(component.model() => component.model().body));
            assert(decreases_to!(component.model().body => component.model().body.entries));
        }
        let inner = self.resolve_component_style(component, indent_level, style);
        let mut text = self.render_component_header(component, indent_level, style.colours);
        let rest = self.render_entries(
            msg,
            &component.entries,
            plus(indent_level, NEST_INDENT),
            inner,
        );
        text.append(rest.as_str());
        text
    }

    /// A group with everything in it, in the given style.
    pub fn render_group_with_style(
        &mut self,
        msg: Option<&MessageNode>,
        group: &GroupNode,
        indent_level: usize,
        style: DisplayStyle,
    ) -> (text: String)
        ensures
            ({
                let shown = group_text(
                    group.model(),
                    indent_level,
                    style,
                    type_of(msg),
                    old(self).env(),
                    old(self).cache(),
                );
                text@ == shown.text && final(self).cache() == shown.cache
            }),
            final(self).continues(*old(self)),
        decreases group.model(), 0int,
    {
        proof {
            group.lemma_model();
            assert(decreases_to!(group.model() => group.model().body));
            assert(decreases_to!(group.model().body => group.model().body.entries));
        }
        let inner = self.resolve_group_style(group, indent_level, style);
        let mut text = self.render_group_header(group, indent_level, style.colours);
        let rest = self.render_entries(msg, &group.entries, plus(indent_level, NEST_INDENT), inner);
        text.append(rest.as_str());
        text
    }

    fn render_wanted(
        &mut self,
        wanted: bool,
        name: &str,
        msg: &MessageNode,
        indent_level: usize,
        style: DisplayStyle,
    ) -> (text: String)
        ensures
            ({
                let shown = wanted_component(
                    wanted,
                    name@,
                    indent_level,
                    style,
                    msg@.msg_type,
                    old(self).env(),
                    old(self).cache(),
                );
                text@ == shown.text && final(self).cache() == shown.cache
            }),
            final(self).continues(*old(self)),
    {
        if wanted {
            let schema = self.schema;
            if let Some(component) = schema.components.get(name) {
                return self.render_component_with_style(Some(msg), component, indent_level, style);
            }
        }
        String::new()
    }

    /// A message with its body, and with header and trailer where they are wanted.
    pub fn render_message(
        &mut self,
        msg: &MessageNode,
        include_header: bool,
        include_trailer: bool,
        indent_level: usize,
    ) -> (text: String)
        ensures
            ({
                let shown = message_text(
                    msg@,
                    include_header,
                    include_trailer,
                    indent_level,
                    old(self).style,
                    old(self).env(),
                    old(self).cache(),
                );
                text@ == shown.text && final(self).cache() == shown.cache
            }),
            final(self).continues(*old(self)),
    {
        let style = self.style;
        let colours = style.colours;
        let mut text = copy_of("Message: ");
        text.append(colours.name);
        text.append(msg.name.as_str());
        text.append(colours.reset);
        text.append(" (");
        text.append(colours.tag);
        text.append(msg.msg_type.as_str());
        text.append(colours.reset);
        text.append(")\n");
        let shared = if self.verbose && style.columns && style.layout.is_none() {
            let layout = compute_message_layout(
                self.schema,
                msg,
                include_header,
                include_trailer,
                indent_level,
                self.terminal_width,
            );
            DisplayStyle { colours: style.colours, columns: style.columns, layout }
        } else {
            style
        };
        let top = self.render_wanted(include_header, "Header", msg, indent_level, shared);
        text.append(top.as_str());
        let mut line = indent(indent_level);
        line.append("Message: ");
        line.append(colours.name);
        line.append("Body");
        line.append(colours.reset);
        line.append("\n");
        text.append(line.as_str());
        let body = self.render_entries(
            Some(msg),
            &msg.entries,
            plus(indent_level, NEST_INDENT),
            shared,
        );
        text.append(body.as_str());
        let end = self.render_wanted(include_trailer, "Trailer", msg, indent_level, shared);
        text.append(end.as_str());
        text
    }
}

pub(crate) fn list_values(values: &Vec<&Value>, indent_level: usize, colours: ColourPalette) -> (text: String)
    ensures
        text@ == value_lines(
            borrowed_values(values@),
            values@.len() as int,
            indent_level,
            colours,
        ),
{
    let ghost all = borrowed_values(values@);
    let mut text = String::new();
    let mut i: usize = 0;
    while i < values.len()
        invariant
            i <= values@.len(),
            all == borrowed_values(values@),
            text@ == value_lines(all, i as int, indent_level, colours),
        decreases values@.len() - i,
    {
        assert(all[i as int] == values@[i as int]@);
        let line = print_enum(values[i], indent_level, colours);
        text.append(line.as_str());
        i += 1;
    }
    text
}

/// A message definition, with header and trailer where they are wanted.
pub fn display_message(
    schema: &SchemaTree,
    msg: &MessageNode,
    verbose: bool,
    include_header: bool,
    include_trailer: bool,
    indent_level: usize,
    style: DisplayStyle,
    terminal_width: usize,
) -> (text: String)
    ensures
        text@ == message_text(
            msg@,
            include_header,
            include_trailer,
            indent_level,
            style,
            (RenderEnv { tree: schema@, verbose, width: terminal_width }),
            LayoutCache::empty(),
        ).text,
{
    let mut context = RenderContext::new(schema, style, verbose, terminal_width);
    context.render_message(msg, include_header, include_trailer, indent_level)
}

/// A component definition.
pub fn display_component(
    schema: &SchemaTree,
    msg: Option<&MessageNode>,
    component: &ComponentNode,
    verbose: bool,
    indent_level: usize,
    style: DisplayStyle,
    terminal_width: usize,
) -> (text: String)
    ensures
        text@ == component_text(
            component.model(),
            indent_level,
            style,
            type_of(msg),
            (RenderEnv { tree: schema@, verbose, width: terminal_width }),
            LayoutCache::empty(),
        ).text,
{
    let mut context = RenderContext::new(schema, style, verbose, terminal_width);
    context.render_component_with_style(msg, component, indent_level, style)
}

/// A group definition.
pub fn display_group(
    schema: &SchemaTree,
    group: &GroupNode,
    verbose: bool,
    indent_level: usize,
    style: DisplayStyle,
    terminal_width: usize,
) -> (text: String)
    ensures
        text@ == group_text(
            group.model(),
            indent_level,
            style,
            None,
            (RenderEnv { tree: schema@, verbose, width: terminal_width }),
            LayoutCache::empty(),
        ).text,
{
    let mut context = RenderContext::new(schema, style, verbose, terminal_width);
    context.render_group_with_style(None, group, indent_level, style)
}

} // verus!
