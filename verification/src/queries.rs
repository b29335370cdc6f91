//! Questions about dictionaries: what there is, and what a message, tag or component is.
use crate::catalogue::{
    all_dictionary_keys, all_keys, available_fix_versions, custom_views, dictionary_marker,
    dictionary_row, dictionary_source, load_dictionary_summary_for_key, print_dictionary_header,
    print_dictionary_row, sizes_for, source_of, table_header, CustomDictionary, CustomMap,
};
use crate::cli_error::{plain_error, CliError, CliErrorView};
use crate::cli_options::CliOptions;
use crate::colours::ColourPalette;
use crate::dictionaries::opt_str;
use crate::display::{
    component_text, display_component, display_message, message_text, DisplayStyle, LayoutCache,
    RenderEnv,
};
use crate::listing::{
    cell_lines, cells_in_columns, component_cells, kinds_in_columns, kinds_in_lines, kinds_listed,
    list_all_components, list_all_messages, list_all_tags, print_component_columns,
    print_message_columns,
    print_tag_details, print_tags_in_columns, tag_cells, tag_details_text,
};
use crate::pager_command::text_result;
use crate::schema_tree::{
    message_nodes, numbered_field, MessageNode, MessageNodeView, SchemaTree, TreeView,
};
use crate::text::{
    copy_of, decimal, join, lowered, parse_u32, parsed_unsigned, push_decimal, same, texts,
};
use crate::textmap::{sorted, TextMap};
use vstd::prelude::*;

verus! {

broadcast use vstd::seq_lib::group_seq_properties;

// ---------------------------------------------------------------------------
// What there is

/// The mark of a dictionary in the table.
pub open spec fn mark_of(highlight: Option<Seq<char>>, key: Seq<char>) -> Seq<char> {
    match highlight {
        Some(target) => if lowered(target) == lowered(key) {
            "*"@
        } else {
            " "@
        },
        None => " "@,
    }
}

/// The rows of the dictionaries that can be read.
pub open spec fn info_rows(
    custom: CustomMap,
    keys: Seq<Seq<char>>,
    highlight: Option<Seq<char>>,
) -> Seq<char>
    decreases keys.len(),
{
    if keys.len() == 0 {
        seq![]
    } else {
        let key = keys.last();
        info_rows(custom, keys.drop_last(), highlight) + match sizes_for(custom, key) {
            Ok(sizes) => dictionary_row(
                mark_of(highlight, key),
                key,
                sizes,
                source_of(custom, key),
            ),
            Err(_) => seq![],
        }
    }
}

/// A warning for each dictionary that cannot be read.
pub open spec fn info_warnings(custom: CustomMap, keys: Seq<Seq<char>>) -> Seq<Seq<char>>
    decreases keys.len(),
{
    if keys.len() == 0 {
        seq![]
    } else {
        let rest = info_warnings(custom, keys.drop_last());
        match sizes_for(custom, keys.last()) {
            Ok(_) => rest,
            Err(error) => rest.push(
                "warning: failed to load "@ + keys.last() + ": "@ + error.message,
            ),
        }
    }
}

/// The table of all dictionaries, with the one in use marked.
pub open spec fn info_text(custom: CustomMap, highlight: Option<Seq<char>>) -> Seq<char> {
    "Available FIX Dictionaries: "@ + join(all_keys(custom), ","@) + "\n"@
        + "\nLoaded dictionaries:\n"@ + table_header() + info_rows(
        custom,
        all_keys(custom),
        highlight,
    ) + "\n"@
}

/// The table of all dictionaries with the one in use marked, and a warning for each that
/// cannot be read.
pub fn print_all_dictionary_info(
    custom_dicts: &TextMap<CustomDictionary>,
    highlight: Option<&str>,
) -> (info: (String, Vec<String>))
    ensures
        info.0@ == info_text(custom_views(custom_dicts@), opt_str(highlight)),
        texts(info.1@) == info_warnings(
            custom_views(custom_dicts@),
            all_keys(custom_views(custom_dicts@)),
        ),
{
    let ghost custom = custom_views(custom_dicts@);
    let keys = all_dictionary_keys(custom_dicts);
    let ghost all = texts(keys@);
    let mut rows = String::new();
    let mut warnings: Vec<String> = Vec::new();
    let mut i: usize = 0;
    assert(all.take(0) =~= seq![]);
    assert(texts(warnings@) =~= seq![]);
    while i < keys.len()
        invariant
            i <= keys@.len(),
            all == texts(keys@),
            custom == custom_views(custom_dicts@),
            rows@ == info_rows(custom, all.take(i as int), opt_str(highlight)),
            texts(warnings@) == info_warnings(custom, all.take(i as int)),
        decreases keys@.len() - i,
    {
        assert(all[i as int] == keys@[i as int]@);
        assert(all.take(i + 1).drop_last() =~= all.take(i as int));
        let key = keys[i].as_str();
        match load_dictionary_summary_for_key(key, custom_dicts) {
            Ok(summary) => {
                let source = dictionary_source(custom_dicts, key);
                let mark = dictionary_marker(highlight, key);
                rows.append(
                    print_dictionary_row(mark, key, &summary, source.as_str()).as_str(),
                );
            },
            Err(error) => {
                let mut text = copy_of("warning: failed to load ");
                text.append(key);
                text.append(": ");
                text.append(error.message.as_str());
                let ghost before = texts(warnings@);
                let ghost view = text@;
                warnings.push(text);
                assert(texts(warnings@) =~= before.push(view));
                assert(rows@ + Seq::<char>::empty() =~= rows@);
            },
        }
        i += 1;
    }
    assert(all.take(i as int) =~= all);
    let mut text = copy_of("Available FIX Dictionaries: ");
    text.append(available_fix_versions(custom_dicts).as_str());
    text.append("\n");
    text.append("\nLoaded dictionaries:\n");
    text.append(print_dictionary_header().as_str());
    text.append(rows.as_str());
    text.append("\n");
    (text, warnings)
}

// ---------------------------------------------------------------------------
// Messages

/// The first of the named messages, from `at` on, that has a type.
pub open spec fn typed_message(
    names: Seq<Seq<char>>,
    at: int,
    messages: Map<Seq<char>, MessageNodeView>,
    msg_type: Seq<char>,
) -> Option<MessageNodeView>
    decreases names.len() - at,
{
    if at < 0 || at >= names.len() {
        None
    } else if messages[names[at]].msg_type == msg_type {
        Some(messages[names[at]])
    } else {
        typed_message(names, at + 1, messages, msg_type)
    }
}

/// The message with a name, or else with a type.
pub open spec fn message_for(tree: TreeView, query: Seq<char>) -> Option<MessageNodeView> {
    if tree.messages.contains_key(query) {
        Some(tree.messages[query])
    } else {
        typed_message(sorted(tree.messages.dom()), 0, tree.messages, query)
    }
}

pub open spec fn node_view(node: Option<&MessageNode>) -> Option<MessageNodeView> {
    match node {
        Some(node) => Some(node@),
        None => None,
    }
}

/// The message with a name, or else with a type.
pub fn find_message<'a>(schema: &'a SchemaTree, query: &str) -> (message: Option<&'a MessageNode>)
    ensures
        node_view(message) == message_for(schema@, query@),
{
    if let Some(message) = schema.messages.get(query) {
        return Some(message);
    }
    schema.messages.know_keys();
    let ghost names = schema.messages.keys();
    let ghost all = schema@.messages;
    assert(all.dom() =~= schema.messages@.dom());
    let count: usize = schema.messages.len();
    let mut i: usize = 0;
    while i < count
        invariant
            i <= count,
            count == names.len(),
            names == schema.messages.keys(),
            all == message_nodes(schema.messages@),
            !all.contains_key(query@),
            names == sorted(all.dom()),
            all == schema@.messages,
            typed_message(names, 0, all, query@) == typed_message(names, i as int, all, query@),
        decreases count - i,
    {
        let (name, message) = schema.messages.entry(i);
        assert(all[names[i as int]] == message@);
        if same(message.msg_type.as_str(), query) {
            return Some(message);
        }
        i += 1;
    }
    None
}

/// What is shown for a question about messages.
pub open spec fn message_answer(
    tree: TreeView,
    value: Option<Seq<char>>,
    columns: bool,
    verbose: bool,
    header: bool,
    trailer: bool,
    c: ColourPalette,
    width: usize,
) -> Seq<char> {
    match value {
        None => if columns {
            kinds_listed(kinds_in_columns(tree, c, width), 4, c).text
        } else {
            kinds_listed(kinds_in_lines(tree, c), 4, c).text
        },
        Some(query) => match message_for(tree, query) {
            Some(message) => message_text(
                message,
                header,
                trailer,
                4,
                DisplayStyle { colours: c, columns, layout: None },
                RenderEnv { tree, verbose, width },
                LayoutCache::empty(),
            ).text,
            None => "Message not found: "@ + query + "\n"@,
        },
    }
}

/// What is shown for a question about messages: all of them, or the one asked for.
pub fn handle_messages(
    opts: &CliOptions,
    schema: &SchemaTree,
    colours: ColourPalette,
    terminal_width: usize,
) -> (text: String)
    ensures
        text@ == message_answer(
            schema@,
            opts@.message_value,
            opts@.column,
            opts@.verbose,
            opts@.include_header,
            opts@.include_trailer,
            colours,
            terminal_width,
        ),
{
    match &opts.message_value {
        None => if opts.column {
            print_message_columns(schema, colours, terminal_width)
        } else {
            list_all_messages(schema, colours)
        },
        Some(value) => match find_message(schema, value.as_str()) {
            Some(message) => display_message(
                schema,
                message,
                opts.verbose,
                opts.include_header,
                opts.include_trailer,
                4,
                DisplayStyle::new(colours, opts.column),
                terminal_width,
            ),
            None => {
                let mut text = copy_of("Message not found: ");
                text.append(value.as_str());
                text.append("\n");
                text
            },
        },
    }
}

// ---------------------------------------------------------------------------
// Tags

/// What is shown for a question about tags.
pub open spec fn tag_answer(
    tree: TreeView,
    value: Option<Seq<char>>,
    columns: bool,
    verbose: bool,
    c: ColourPalette,
    width: usize,
) -> Result<Seq<char>, CliErrorView> {
    match value {
        None => Ok(
            if columns {
                cells_in_columns(tag_cells(tree, c), width)
            } else {
                cell_lines(tag_cells(tree, c))
            },
        ),
        Some(text) => match parsed_unsigned(text, u32::MAX as nat) {
            None => Err(plain_error("Invalid tag: "@ + text)),
            Some(tag) => Ok(
                match numbered_field(sorted(tree.fields.dom()), 0, tree.fields, tag as u32) {
                    Some(field) => tag_details_text(field, verbose, columns, c, width),
                    None => "Tag not found: "@ + decimal(tag) + "\n"@,
                },
            ),
        },
    }
}

/// What is shown for a question about tags: all of them, or the one asked for.
pub fn handle_tags(
    opts: &CliOptions,
    schema: &SchemaTree,
    colours: ColourPalette,
    terminal_width: usize,
) -> (text: Result<String, CliError>)
    ensures
        text_result(text) == tag_answer(
            schema@,
            opts@.tag_value,
            opts@.column,
            opts@.verbose,
            colours,
            terminal_width,
        ),
{
    let value = match &opts.tag_value {
        Some(value) => value.as_str(),
        None => {
            return if opts.column {
                Ok(print_tags_in_columns(schema, colours, terminal_width))
            } else {
                Ok(list_all_tags(schema, colours))
            };
        },
    };
    let tag: u32 = match parse_u32(value) {
        Some(tag) => tag,
        None => {
            return Err(CliError::plain("Invalid tag: ", value));
        },
    };
    match schema.find_field_by_number(tag) {
        Some(field) => Ok(
            print_tag_details(field, opts.verbose, opts.column, colours, terminal_width),
        ),
        None => {
            let mut text = copy_of("Tag not found: ");
            push_decimal(&mut text, tag as u64);
            text.append("\n");
            Ok(text)
        },
    }
}

// ---------------------------------------------------------------------------
// Components

/// What is shown for a question about components.
pub open spec fn component_answer(
    tree: TreeView,
    value: Option<Seq<char>>,
    columns: bool,
    verbose: bool,
    c: ColourPalette,
    width: usize,
) -> Seq<char> {
    match value {
        None => if columns {
            cells_in_columns(component_cells(tree, c), width)
        } else {
            cell_lines(component_cells(tree, c))
        },
        Some(name) => if tree.components.contains_key(name) {
            component_text(
                tree.components[name],
                0,
                DisplayStyle { colours: c, columns, layout: None },
                None,
                RenderEnv { tree, verbose, width },
                LayoutCache::empty(),
            ).text
        } else {
            "Component not found: "@ + name + "\n"@
        },
    }
}

/// What is shown for a question about components: all of them, or the one asked for.
pub fn handle_components(
    opts: &CliOptions,
    schema: &SchemaTree,
    colours: ColourPalette,
    terminal_width: usize,
) -> (text: String)
    ensures
        text@ == component_answer(
            schema@,
            opts@.component_value,
            opts@.column,
            opts@.verbose,
            colours,
            terminal_width,
        ),
{
    match &opts.component_value {
        None => if opts.column {
            print_component_columns(schema, colours, terminal_width)
        } else {
            list_all_components(schema, colours)
        },
        Some(name) => match schema.components.get(name.as_str()) {
            Some(component) => display_component(
                schema,
                None,
                component,
                opts.verbose,
                0,
                DisplayStyle::new(colours, opts.column),
                terminal_width,
            ),
            None => {
                let mut text = copy_of("Component not found: ");
                text.append(name.as_str());
                text.append("\n");
                text
            },
        },
    }
}

} // verus!
