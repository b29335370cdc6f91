//! Listings of a dictionary: its messages, components and tags.
use crate::ansi::{capped, plus, shown_count, visible_len, write_with_padding};
use crate::colours::ColourPalette;
use crate::counts::{bucket_at, listed_bucket, Listed};
use crate::display::{
    all_values, at_least_one, compute_values_layout, less, print_enum_columns, row_count,
    values_in_columns, values_layout,
};
use crate::message_groups::{bucket_of, classify_message_bucket, MessageBucket};
use crate::schema::{Field, FieldView};
use crate::schema_tree::{MessageNode, MessageNodeView, SchemaTree, TreeView};
use crate::sorting::{
    arranged, borrowed_texts, each_once, number_order, order_by_number, order_by_text, text_order,
};
use crate::text::{
    copy_of, decimal, decimal_text, push_decimal, push_right_aligned, repeated, right_aligned,
    texts,
};
use crate::textmap::sorted;
use std::sync::Arc;
use vstd::prelude::*;

verus! {

broadcast use vstd::seq_lib::group_seq_properties;

/// A text, and how many characters it shows.
#[derive(Debug)]
pub struct DisplayCell {
    pub text: String,
    pub width: usize,
}

pub open spec fn cell_texts(cells: Seq<DisplayCell>) -> Seq<Seq<char>> {
    cells.map_values(|c: DisplayCell| c.text@)
}

pub open spec fn all_measured(cells: Seq<DisplayCell>) -> bool {
    forall|i: int|
        0 <= i < cells.len() ==> (#[trigger] cells[i]).width == shown_count(cells[i].text@)
}

impl DisplayCell {
    pub fn new(text: String) -> (cell: DisplayCell)
        ensures
            cell.text == text,
            cell.width == shown_count(text@),
    {
        let width: usize = visible_len(text.as_str());
        DisplayCell { text, width }
    }
}

/// Type, name and category of a message.
pub open spec fn message_cell_text(msg: MessageNodeView, c: ColourPalette) -> Seq<char> {
    c.tag@ + right_aligned(msg.msg_type, 2, ' ') + c.reset@ + ": "@ + c.name@ + msg.name + c.reset@
        + " ("@ + msg.msg_cat + ")"@
}

/// Type, name and category of a message.
pub fn message_cell(msg: &MessageNode, colours: ColourPalette) -> (cell: DisplayCell)
    ensures
        cell.text@ == message_cell_text(msg@, colours),
        cell.width == shown_count(cell.text@),
{
    let mut text = copy_of(colours.tag);
    push_right_aligned(&mut text, msg.msg_type.as_str(), 2, ' ');
    text.append(colours.reset);
    text.append(": ");
    text.append(colours.name);
    text.append(msg.name.as_str());
    text.append(colours.reset);
    text.append(" (");
    text.append(msg.msg_cat.as_str());
    text.append(")");
    DisplayCell::new(text)
}

pub open spec fn component_cell_text(name: Seq<char>, c: ColourPalette) -> Seq<char> {
    c.name@ + name + c.reset@
}

/// The name of a component.
pub fn component_cell(name: &str, colours: ColourPalette) -> (cell: DisplayCell)
    ensures
        cell.text@ == component_cell_text(name@, colours),
        cell.width == shown_count(cell.text@),
{
    let mut text = copy_of(colours.name);
    text.append(name);
    text.append(colours.reset);
    DisplayCell::new(text)
}

/// Number, name and type of a tag.
pub open spec fn tag_cell_text(
    number: u32,
    name: Seq<char>,
    ty: Seq<char>,
    required: bool,
    c: ColourPalette,
) -> Seq<char> {
    c.tag@ + right_aligned(decimal(number as nat), 4, ' ') + c.reset@ + ": "@ + c.name@ + name
        + c.reset@ + " ("@ + c.value@ + ty + c.reset@ + ")"@ + crate::display::required_text(
        required,
        c,
    )
}

/// Number, name and type of a tag.
pub fn tag_cell(
    number: u32,
    name: &str,
    ty: &str,
    required: bool,
    colours: ColourPalette,
) -> (cell: DisplayCell)
    ensures
        cell.text@ == tag_cell_text(number, name@, ty@, required, colours),
        cell.width == shown_count(cell.text@),
{
    let mut text = copy_of(colours.tag);
    push_right_aligned(&mut text, decimal_text(number as u64).as_str(), 4, ' ');
    text.append(colours.reset);
    text.append(": ");
    text.append(colours.name);
    text.append(name);
    text.append(colours.reset);
    text.append(" (");
    text.append(colours.value);
    text.append(ty);
    text.append(colours.reset);
    text.append(")");
    text.append(crate::display::format_required(required, colours).as_str());
    DisplayCell::new(text)
}

/// The width of the widest text.
pub open spec fn widest_cell(cells: Seq<Seq<char>>) -> int
    decreases cells.len(),
{
    if cells.len() == 0 {
        0
    } else {
        let before = widest_cell(cells.drop_last());
        if shown_count(cells.last()) > before {
            shown_count(cells.last()) as int
        } else {
            before
        }
    }
}

/// A text, padded to a width.
pub open spec fn padded_cell(text: Seq<char>, width: int) -> Seq<char> {
    text + repeated(' ', less(width, shown_count(text) as int) as nat)
}

/// The texts of a row from the item `idx` in column `col` on.
pub open spec fn cell_row(
    cells: Seq<Seq<char>>,
    idx: int,
    col: int,
    rows: int,
    cols: int,
    width: int,
) -> Seq<char>
    decreases cells.len() - idx,
{
    if idx < 0 || idx >= cells.len() || col >= cols || rows < 1 {
        seq![]
    } else {
        padded_cell(cells[idx], width) + if idx + rows >= cells.len() {
            seq![]
        } else {
            cell_row(cells, idx + rows, col + 1, rows, cols, width)
        }
    }
}

/// The first `n` rows.
pub open spec fn cell_rows(
    cells: Seq<Seq<char>>,
    n: int,
    rows: int,
    cols: int,
    width: int,
) -> Seq<char>
    decreases n,
{
    if n <= 0 {
        seq![]
    } else {
        cell_rows(cells, n - 1, rows, cols, width) + cell_row(cells, n - 1, 0, rows, cols, width)
            + "\n"@
    }
}

/// Texts in as many columns as the terminal takes, from top to bottom.
pub open spec fn cells_in_columns(cells: Seq<Seq<char>>, terminal_width: usize) -> Seq<char> {
    let width = capped(widest_cell(cells) + 2);
    let cols = at_least_one(terminal_width as int / width);
    let rows = row_count(cells.len() as int, cols);
    cell_rows(cells, rows, rows, cols, width)
}

fn widest_of(items: &Vec<DisplayCell>) -> (width: usize)
    requires
        all_measured(items@),
    ensures
        width == widest_cell(cell_texts(items@)),
{
    let ghost all = cell_texts(items@);
    let mut width: usize = 0;
    let mut i: usize = 0;
    while i < items.len()
        invariant
            i <= items@.len(),
            all == cell_texts(items@),
            all_measured(items@),
            width == widest_cell(all.take(i as int)),
        decreases items@.len() - i,
    {
        assert(all.take(i + 1).drop_last() =~= all.take(i as int));
        assert(all.take(i + 1).last() == items@[i as int].text@);
        if items[i].width > width {
            width = items[i].width;
        }
        i += 1;
    }
    assert(all.take(all.len() as int) =~= all);
    width
}

/// Cells in as many columns as the terminal takes, from top to bottom.
pub fn print_string_columns(items: &Vec<DisplayCell>, terminal_width: usize) -> (text: String)
    requires
        all_measured(items@),
    ensures
        text@ == cells_in_columns(cell_texts(items@), terminal_width),
{
    let ghost all = cell_texts(items@);
    let width: usize = plus(widest_of(items), 2);
    let fit: usize = terminal_width / width;
    let cols: usize = if fit < 1 {
        1
    } else {
        fit
    };
    let total: usize = items.len();
    let rows: usize = crate::display::count_rows(total, cols);
    let mut text = String::new();
    let mut row: usize = 0;
    while row < rows
        invariant
            row <= rows,
            rows <= total,
            total == items@.len(),
            cols >= 1,
            all == cell_texts(items@),
            all_measured(items@),
            text@ == cell_rows(all, row as int, rows as int, cols as int, width as int),
        decreases rows - row,
    {
        let ghost before = text@;
        let ghost whole = cell_row(all, row as int, 0, rows as int, cols as int, width as int);
        let mut idx: usize = row;
        let mut col: usize = 0;
        let mut more: bool = true;
        while more && col < cols
            invariant
                rows >= 1,
                total == items@.len(),
                all == cell_texts(items@),
                all_measured(items@),
                more ==> idx < total,
                col <= cols,
                before + whole == text@ + if more {
                    cell_row(
                        all,
                        idx as int,
                        col as int,
                        rows as int,
                        cols as int,
                        width as int,
                    )
                } else {
                    seq![]
                },
            decreases cols - col,
        {
            assert(all[idx as int] == items@[idx as int].text@);
            let ghost start = text@;
            let ghost rest = cell_row(
                all,
                idx as int,
                col as int,
                rows as int,
                cols as int,
                width as int,
            );
            let cell = write_with_padding(items[idx].text.as_str(), items[idx].width, width);
            text.append(cell.as_str());
            more = total - idx > rows;
            if more {
                idx += rows;
            }
            col += 1;
            proof {
                let after = if more {
                    cell_row(
                        all,
                        idx as int,
                        col as int,
                        rows as int,
                        cols as int,
                        width as int,
                    )
                } else {
                    seq![]
                };
                assert(rest == cell@ + after);
                assert(start + rest =~= text@ + after);
            }
        }
        assert(text@ =~= before + whole);
        text.append("\n");
        row += 1;
    }
    text
}

/// The messages in the order of their names.
pub open spec fn named_messages(tree: TreeView) -> Seq<MessageNodeView> {
    sorted(tree.messages.dom()).map_values(|name: Seq<char>| tree.messages[name])
}

/// The messages in the order of their types.
pub open spec fn typed_messages(tree: TreeView) -> Seq<MessageNodeView> {
    let named = named_messages(tree);
    arranged(named, text_order(named.map_values(|m: MessageNodeView| m.msg_type)))
}

/// The messages of a kind, as cells.
pub open spec fn kind_cells(
    messages: Seq<MessageNodeView>,
    bucket: MessageBucket,
    c: ColourPalette,
) -> Seq<Seq<char>>
    decreases messages.len(),
{
    if messages.len() == 0 {
        seq![]
    } else {
        let before = kind_cells(messages.drop_last(), bucket, c);
        let last = messages.last();
        if bucket_of(last.msg_type, None, Some(last.msg_cat)) == bucket {
            before.push(message_cell_text(last, c))
        } else {
            before
        }
    }
}

/// The heading of a kind, and what is listed under it: with a gap behind earlier kinds, and
/// with a title where it is the first about business.
pub open spec fn kind_part(
    before: Listed,
    bucket: MessageBucket,
    body: Seq<char>,
    c: ColourPalette,
) -> Seq<char> {
    let business = bucket != MessageBucket::SessionAdmin;
    (if before.any {
        "\n"@
    } else {
        ""@
    }) + (if business && !before.business {
        c.title@ + "Business:"@ + c.reset@ + "\n"@
    } else {
        ""@
    }) + (if business {
        "  "@
    } else {
        ""@
    }) + c.name@ + bucket.title() + ":"@ + c.reset@ + "\n"@ + body
}

/// The first `n` kinds under their headings; kinds with nothing to list are left out.
pub open spec fn kinds_listed(bodies: Seq<Seq<char>>, n: int, c: ColourPalette) -> Listed
    decreases n,
{
    if n <= 0 {
        Listed { text: seq![], any: false, business: false }
    } else {
        let before = kinds_listed(bodies, n - 1, c);
        let bucket = bucket_at(n - 1);
        if bodies[n - 1].len() == 0 {
            before
        } else {
            Listed {
                text: before.text + kind_part(before, bucket, bodies[n - 1], c),
                any: true,
                business: before.business || bucket != MessageBucket::SessionAdmin,
            }
        }
    }
}

/// The messages of each kind in lines.
pub open spec fn kinds_in_lines(tree: TreeView, c: ColourPalette) -> Seq<Seq<char>> {
    Seq::new(4, |n: int| cell_lines(kind_cells(typed_messages(tree), bucket_at(n), c)))
}

/// The messages of each kind in columns.
pub open spec fn kinds_in_columns(tree: TreeView, c: ColourPalette, terminal_width: usize) -> Seq<
    Seq<char>,
> {
    Seq::new(
        4,
        |n: int|
            cells_in_columns(kind_cells(typed_messages(tree), bucket_at(n), c), terminal_width),
    )
}

pub open spec fn component_cells(tree: TreeView, c: ColourPalette) -> Seq<Seq<char>> {
    sorted(tree.components.dom()).map_values(|name: Seq<char>| component_cell_text(name, c))
}

/// The fields in the order of their names.
pub open spec fn named_fields(tree: TreeView) -> Seq<FieldView> {
    sorted(tree.fields.dom()).map_values(|name: Seq<char>| tree.fields[name])
}

/// The fields in the order of their numbers.
pub open spec fn numbered_fields(tree: TreeView) -> Seq<FieldView> {
    let named = named_fields(tree);
    arranged(named, number_order(named.map_values(|f: FieldView| f.number)))
}

pub open spec fn tag_cells(tree: TreeView, c: ColourPalette) -> Seq<Seq<char>> {
    numbered_fields(tree).map_values(
        |f: FieldView| tag_cell_text(f.number, f.name, f.field_type, false, c),
    )
}

/// Texts, one to a line.
pub open spec fn cell_lines(cells: Seq<Seq<char>>) -> Seq<char>
    decreases cells.len(),
{
    if cells.len() == 0 {
        seq![]
    } else {
        cell_lines(cells.drop_last()) + cells.last() + "\n"@
    }
}

pub open spec fn borrowed_messages(messages: Seq<&MessageNode>) -> Seq<MessageNodeView> {
    messages.map_values(|m: &MessageNode| m@)
}

fn collect_messages(schema: &SchemaTree) -> (messages: Vec<&MessageNode>)
    ensures
        borrowed_messages(messages@) == typed_messages(schema@),
{
    schema.messages.know_keys();
    let ghost names = schema.messages.keys();
    let ghost tree = schema@;
    assert(tree.messages.dom() =~= schema.messages@.dom());
    let ghost named = named_messages(tree);
    let count: usize = schema.messages.len();
    let mut found: Vec<&MessageNode> = Vec::new();
    let mut keys: Vec<&str> = Vec::new();
    let mut i: usize = 0;
    while i < count
        invariant
            i <= count,
            count == names.len(),
            names == schema.messages.keys(),
            names == sorted(tree.messages.dom()),
            tree == schema@,
            named == named_messages(tree),
            found@.len() == i,
            keys@.len() == i,
            forall|j: int| 0 <= j < i ==> (#[trigger] found@[j])@ == named[j],
            forall|j: int| 0 <= j < i ==> (#[trigger] keys@[j])@ == named[j].msg_type,
        decreases count - i,
    {
        let (_, msg) = schema.messages.entry(i);
        assert(tree.messages[names[i as int]] == msg@);
        found.push(msg);
        keys.push(msg.msg_type.as_str());
        i += 1;
    }
    assert(borrowed_texts(keys@) =~= named.map_values(|m: MessageNodeView| m.msg_type));
    let order = order_by_text(&keys);
    let ghost typed = typed_messages(tree);
    let mut messages: Vec<&MessageNode> = Vec::new();
    let mut k: usize = 0;
    while k < order.len()
        invariant
            k <= order@.len(),
            each_once(order@, found@.len()),
            found@.len() == named.len(),
            forall|j: int| 0 <= j < found@.len() ==> (#[trigger] found@[j])@ == named[j],
            typed == arranged(named, order@),
            messages@.len() == k,
            forall|j: int| 0 <= j < k ==> (#[trigger] messages@[j])@ == typed[j],
        decreases order@.len() - k,
    {
        assert(typed[k as int] == named[order@[k as int] as int]);
        messages.push(found[order[k]]);
        k += 1;
    }
    assert(borrowed_messages(messages@) =~= typed);
    messages
}

fn collect_kind(messages: &Vec<&MessageNode>, bucket: MessageBucket, colours: ColourPalette) -> (
    cells: Vec<DisplayCell>)
    ensures
        cell_texts(cells@) == kind_cells(borrowed_messages(messages@), bucket, colours),
        all_measured(cells@),
{
    let ghost all = borrowed_messages(messages@);
    let mut cells: Vec<DisplayCell> = Vec::new();
    let mut i: usize = 0;
    assert(cell_texts(cells@) =~= kind_cells(all.take(0), bucket, colours));
    while i < messages.len()
        invariant
            i <= messages@.len(),
            all == borrowed_messages(messages@),
            cell_texts(cells@) == kind_cells(all.take(i as int), bucket, colours),
            all_measured(cells@),
        decreases messages@.len() - i,
    {
        let msg = messages[i];
        assert(all.take(i + 1).drop_last() =~= all.take(i as int));
        assert(all.take(i + 1).last() == msg@);
        let kind = classify_message_bucket(
            msg.msg_type.as_str(),
            None,
            Some(msg.msg_cat.as_str()),
        );
        if kind == bucket {
            let ghost before = cells@;
            let cell = message_cell(msg, colours);
            let ghost text = cell.text@;
            cells.push(cell);
            assert(cell_texts(cells@) =~= cell_texts(before).push(text));
        }
        i += 1;
    }
    assert(all.take(i as int) =~= all);
    cells
}

fn list_kinds(bodies: &Vec<String>, colours: ColourPalette) -> (text: String)
    requires
        bodies@.len() == 4,
    ensures
        text@ == kinds_listed(texts(bodies@), 4, colours).text,
{
    let ghost all = texts(bodies@);
    let mut text = String::new();
    let mut any: bool = false;
    let mut business: bool = false;
    let mut n: usize = 0;
    while n < 4
        invariant
            n <= 4,
            bodies@.len() == 4,
            all == texts(bodies@),
            (Listed { text: text@, any, business }) == kinds_listed(all, n as int, colours),
        decreases 4 - n,
    {
        let bucket = listed_bucket(n);
        assert(all[n as int] == bodies@[n as int]@);
        if bodies[n].as_str().unicode_len() > 0 {
            let ghost before = kinds_listed(all, n as int, colours);
            let mut part = copy_of(
                if any {
                    "\n"
                } else {
                    ""
                },
            );
            let mut title = copy_of("");
            if bucket.is_business() && !business {
                title = copy_of(colours.title);
                title.append("Business:");
                title.append(colours.reset);
                title.append("\n");
            }
            part.append(title.as_str());
            part.append(
                if bucket.is_business() {
                    "  "
                } else {
                    ""
                },
            );
            part.append(colours.name);
            part.append(bucket.heading());
            part.append(":");
            part.append(colours.reset);
            part.append("\n");
            part.append(bodies[n].as_str());
            assert(part@ =~= kind_part(before, bucket, bodies@[n as int]@, colours));
            text.append(part.as_str());
            any = true;
            business = business || bucket.is_business();
        }
        n += 1;
    }
    text
}

fn collect_component_cells(schema: &SchemaTree, colours: ColourPalette) -> (cells: Vec<
    DisplayCell,
>)
    ensures
        cell_texts(cells@) == component_cells(schema@, colours),
        all_measured(cells@),
{
    schema.components.know_keys();
    let ghost names = schema.components.keys();
    assert(schema@.components.dom() =~= schema.components@.dom());
    let count: usize = schema.components.len();
    let mut cells: Vec<DisplayCell> = Vec::new();
    let mut i: usize = 0;
    while i < count
        invariant
            i <= count,
            count == names.len(),
            names == schema.components.keys(),
            cells@.len() == i,
            all_measured(cells@),
            forall|j: int|
                0 <= j < i ==> (#[trigger] cells@[j]).text@ == component_cell_text(
                    names[j],
                    colours,
                ),
        decreases count - i,
    {
        let (name, _) = schema.components.entry(i);
        cells.push(component_cell(name.as_str(), colours));
        i += 1;
    }
    assert(cell_texts(cells@) =~= component_cells(schema@, colours));
    cells
}

fn collect_tag_cells(schema: &SchemaTree, colours: ColourPalette) -> (cells: Vec<DisplayCell>)
    ensures
        cell_texts(cells@) == tag_cells(schema@, colours),
        all_measured(cells@),
{
    schema.fields.know_keys();
    let ghost names = schema.fields.keys();
    let ghost tree = schema@;
    assert(tree.fields.dom() =~= schema.fields@.dom());
    let ghost named = named_fields(tree);
    let count: usize = schema.fields.len();
    let mut found: Vec<&Arc<Field>> = Vec::new();
    let mut keys: Vec<u32> = Vec::new();
    let mut i: usize = 0;
    while i < count
        invariant
            i <= count,
            count == names.len(),
            names == schema.fields.keys(),
            names == sorted(tree.fields.dom()),
            tree == schema@,
            named == named_fields(tree),
            found@.len() == i,
            keys@.len() == i,
            forall|j: int| 0 <= j < i ==> (#[trigger] found@[j])@ == named[j],
            forall|j: int| 0 <= j < i ==> #[trigger] keys@[j] == named[j].number,
        decreases count - i,
    {
        let (_, field) = schema.fields.entry(i);
        assert(tree.fields[names[i as int]] == field@);
        found.push(field);
        keys.push(field.number);
        i += 1;
    }
    assert(keys@ =~= named.map_values(|f: FieldView| f.number));
    let order = order_by_number(&keys);
    let ghost ordered = numbered_fields(tree);
    let mut cells: Vec<DisplayCell> = Vec::new();
    let mut k: usize = 0;
    while k < order.len()
        invariant
            k <= order@.len(),
            each_once(order@, found@.len()),
            found@.len() == named.len(),
            forall|j: int| 0 <= j < found@.len() ==> (#[trigger] found@[j])@ == named[j],
            ordered == arranged(named, order@),
            cells@.len() == k,
            all_measured(cells@),
            forall|j: int|
                0 <= j < k ==> (#[trigger] cells@[j]).text@ == tag_cell_text(
                    ordered[j].number,
                    ordered[j].name,
                    ordered[j].field_type,
                    false,
                    colours,
                ),
        decreases order@.len() - k,
    {
        assert(ordered[k as int] == named[order@[k as int] as int]);
        let field = found[order[k]];
        cells.push(
            tag_cell(field.number, field.name.as_str(), field.field_type.as_str(), false, colours),
        );
        k += 1;
    }
    assert(cell_texts(cells@) =~= tag_cells(tree, colours));
    cells
}

fn lines_of(cells: &Vec<DisplayCell>) -> (text: String)
    ensures
        text@ == cell_lines(cell_texts(cells@)),
{
    let ghost all = cell_texts(cells@);
    let mut text = String::new();
    let mut i: usize = 0;
    while i < cells.len()
        invariant
            i <= cells@.len(),
            all == cell_texts(cells@),
            text@ == cell_lines(all.take(i as int)),
        decreases cells@.len() - i,
    {
        assert(all.take(i + 1).drop_last() =~= all.take(i as int));
        assert(all.take(i + 1).last() == cells@[i as int].text@);
        text.append(cells[i].text.as_str());
        text.append("\n");
        i += 1;
    }
    assert(all.take(all.len() as int) =~= all);
    text
}

/// The messages in columns, by kind and within a kind in the order of their types.
pub fn print_message_columns(
    schema: &SchemaTree,
    colours: ColourPalette,
    terminal_width: usize,
) -> (text: String)
    ensures
        text@ == kinds_listed(kinds_in_columns(schema@, colours, terminal_width), 4, colours).text,
{
    let messages = collect_messages(schema);
    let ghost all = kinds_in_columns(schema@, colours, terminal_width);
    let mut bodies: Vec<String> = Vec::new();
    let mut n: usize = 0;
    while n < 4
        invariant
            n <= 4,
            borrowed_messages(messages@) == typed_messages(schema@),
            all == kinds_in_columns(schema@, colours, terminal_width),
            bodies@.len() == n,
            forall|j: int| 0 <= j < n ==> (#[trigger] bodies@[j])@ == all[j],
        decreases 4 - n,
    {
        let cells = collect_kind(&messages, listed_bucket(n), colours);
        bodies.push(print_string_columns(&cells, terminal_width));
        n += 1;
    }
    assert(texts(bodies@) =~= all);
    list_kinds(&bodies, colours)
}

/// The components in columns, in the order of their names.
pub fn print_component_columns(
    schema: &SchemaTree,
    colours: ColourPalette,
    terminal_width: usize,
) -> (text: String)
    ensures
        text@ == cells_in_columns(component_cells(schema@, colours), terminal_width),
{
    print_string_columns(&collect_component_cells(schema, colours), terminal_width)
}

/// The messages, one to a line, by kind and within a kind in the order of their types.
pub fn list_all_messages(schema: &SchemaTree, colours: ColourPalette) -> (text: String)
    ensures
        text@ == kinds_listed(kinds_in_lines(schema@, colours), 4, colours).text,
{
    let messages = collect_messages(schema);
    let ghost all = kinds_in_lines(schema@, colours);
    let mut bodies: Vec<String> = Vec::new();
    let mut n: usize = 0;
    while n < 4
        invariant
            n <= 4,
            borrowed_messages(messages@) == typed_messages(schema@),
            all == kinds_in_lines(schema@, colours),
            bodies@.len() == n,
            forall|j: int| 0 <= j < n ==> (#[trigger] bodies@[j])@ == all[j],
        decreases 4 - n,
    {
        let cells = collect_kind(&messages, listed_bucket(n), colours);
        bodies.push(lines_of(&cells));
        n += 1;
    }
    assert(texts(bodies@) =~= all);
    list_kinds(&bodies, colours)
}

/// The components, one to a line, in the order of their names.
pub fn list_all_components(schema: &SchemaTree, colours: ColourPalette) -> (text: String)
    ensures
        text@ == cell_lines(component_cells(schema@, colours)),
{
    lines_of(&collect_component_cells(schema, colours))
}

/// The tags, one to a line, in the order of their numbers.
pub fn list_all_tags(schema: &SchemaTree, colours: ColourPalette) -> (text: String)
    ensures
        text@ == cell_lines(tag_cells(schema@, colours)),
{
    lines_of(&collect_tag_cells(schema, colours))
}

/// The tags in columns, in the order of their numbers.
pub fn print_tags_in_columns(
    schema: &SchemaTree,
    colours: ColourPalette,
    terminal_width: usize,
) -> (text: String)
    ensures
        text@ == cells_in_columns(tag_cells(schema@, colours), terminal_width),
{
    print_string_columns(&collect_tag_cells(schema, colours), terminal_width)
}

/// A tag, with its values where they are wanted.
pub open spec fn tag_details_text(
    field: FieldView,
    verbose: bool,
    columns: bool,
    c: ColourPalette,
    terminal_width: usize,
) -> Seq<char> {
    let head = tag_cell_text(field.number, field.name, field.field_type, false, c) + "\n"@;
    let values = all_values(field);
    if !verbose {
        head
    } else if columns {
        head + values_in_columns(
            values,
            4,
            values_layout(values, 4, terminal_width),
            terminal_width,
            c,
        )
    } else {
        head + crate::display::value_lines(values, values.len() as int, 4, c)
    }
}

/// A tag, with its values where they are wanted.
pub fn print_tag_details(
    field: &Field,
    verbose: bool,
    columns: bool,
    colours: ColourPalette,
    terminal_width: usize,
) -> (text: String)
    ensures
        text@ == tag_details_text(field@, verbose, columns, colours, terminal_width),
{
    let cell = tag_cell(
        field.number,
        field.name.as_str(),
        field.field_type.as_str(),
        false,
        colours,
    );
    let mut text = cell.text;
    text.append("\n");
    if verbose {
        let values = field.values_iter();
        if columns {
            let layout = compute_values_layout(&values, 4, terminal_width);
            let shown = print_enum_columns(&values, 4, colours, layout, terminal_width);
            text.append(shown.as_str());
        } else {
            let shown = crate::display::list_values(&values, 4, colours);
            text.append(shown.as_str());
        }
    }
    text
}

/// The counts, version and service pack of a dictionary.
pub open spec fn schema_summary_text(tree: TreeView) -> Seq<char> {
    "Fields: "@ + decimal(sorted(tree.fields.dom()).len()) + "   Components: "@ + decimal(
        sorted(tree.components.dom()).len(),
    ) + "   Messages: "@ + decimal(sorted(tree.messages.dom()).len()) + "   Version: "@
        + tree.version + "  Service Pack: "@ + tree.service_pack + "\n"@
}

/// The counts, version and service pack of a dictionary, on one line.
pub fn print_schema_summary(schema: &SchemaTree) -> (text: String)
    ensures
        text@ == schema_summary_text(schema@),
{
    schema.fields.know_keys();
    schema.components.know_keys();
    schema.messages.know_keys();
    assert(schema@.fields.dom() =~= schema.fields@.dom());
    assert(schema@.components.dom() =~= schema.components@.dom());
    assert(schema@.messages.dom() =~= schema.messages@.dom());
    let mut text = copy_of("Fields: ");
    push_decimal(&mut text, schema.fields.len() as u64);
    text.append("   Components: ");
    push_decimal(&mut text, schema.components.len() as u64);
    text.append("   Messages: ");
    push_decimal(&mut text, schema.messages.len() as u64);
    text.append("   Version: ");
    text.append(schema.version.as_str());
    text.append("  Service Pack: ");
    text.append(schema.service_pack.as_str());
    text.append("\n");
    text
}

} // verus!
