use fixdecoder::ansi::{pad_ansi, visible_len, visible_width, write_with_padding};
use fixdecoder::colours::ColourPalette;
use fixdecoder::display::{
    collect_group_layout, collect_sorted_values, compute_message_layout, compute_values_layout,
    print_enum, print_enum_columns, print_field, ColumnLayout, DisplayStyle, LayoutStats,
    RenderContext,
};
use fixdecoder::listing::{message_cell, tag_cell};
use fixdecoder::schema::{Field, Value, ValuesWrapper};
use fixdecoder::schema_tree::{
    ComponentNode, ContainerNode, FieldNode, GroupNode, MessageNode, SchemaTree,
};
use fixdecoder::textmap::TextMap;
use std::sync::Arc;

const WIDTH: usize = 80;

#[test]
fn visible_width_ignores_ansi_sequences() {
    let coloured = "\u{1b}[31mred\u{1b}[0m";
    assert_eq!(visible_width(coloured), 3);
}

#[test]
fn pad_ansi_extends_to_requested_width() {
    let coloured = "\u{1b}[32mok\u{1b}[0m";
    let padded = pad_ansi(coloured, 5);
    assert_eq!(visible_width(&padded), 5);
    assert!(padded.ends_with("   "));
}

#[test]
fn collect_sorted_values_orders_by_enum() {
    let values = [
        Value {
            enumeration: "B".into(),
            description: "Second".into(),
        },
        Value {
            enumeration: "A".into(),
            description: "First".into(),
        },
    ];
    let refs: Vec<&Value> = values.iter().collect();
    let sorted = collect_sorted_values(&refs);
    let enums: Vec<&str> = sorted.iter().map(|v| v.enumeration.as_str()).collect();
    assert_eq!(enums, vec!["A", "B"]);
}

#[test]
fn layout_stats_produces_layout() {
    let mut stats = LayoutStats::default();
    stats.record(5, 2);
    stats.record(10, 4);
    let layout = stats.finalize(WIDTH).expect("layout expected");
    assert!(layout.column_width >= 12);
    assert!(layout.columns >= 1);
}

fn sample_value(enum_code: &str, desc: &str) -> Value {
    Value {
        enumeration: enum_code.to_string(),
        description: desc.to_string(),
    }
}

fn sample_field_node(required: bool) -> FieldNode {
    let field = Field {
        name: "TestField".into(),
        number: 999,
        field_type: "STRING".into(),
        values: vec![sample_value("A", "Alpha")],
        values_wrapper: ValuesWrapper::default(),
    };
    FieldNode {
        required,
        field: Arc::new(field),
    }
}

fn schema_with_structures() -> SchemaTree {
    let msg_type_field = Arc::new(Field {
        name: "MsgType".into(),
        number: 35,
        field_type: "STRING".into(),
        values: vec![
            sample_value("D", "NewOrderSingle"),
            sample_value("8", "ExecutionReport"),
        ],
        values_wrapper: ValuesWrapper::default(),
    });

    let aux_field = sample_field_node(false);
    let group_count_field = Arc::new(Field {
        name: "Nested".into(),
        number: 200,
        field_type: "NUMINGROUP".into(),
        values: Vec::new(),
        values_wrapper: ValuesWrapper::default(),
    });
    let allocs_count_field = Arc::new(Field {
        name: "Allocs".into(),
        number: 201,
        field_type: "NUMINGROUP".into(),
        values: Vec::new(),
        values_wrapper: ValuesWrapper::default(),
    });
    let group_field = sample_field_node(true);
    let nested_group = GroupNode {
        name: "Nested".into(),
        required: false,
        fields: vec![group_field.duplicate()],
        components: Vec::new(),
        groups: Vec::new(),
        entries: vec![ContainerNode::Field(group_field.duplicate())],
    };

    let component = ComponentNode {
        name: "Block".into(),
        fields: vec![aux_field.duplicate()],
        groups: vec![nested_group.duplicate()],
        components: Vec::new(),
        entries: vec![
            ContainerNode::Field(aux_field.duplicate()),
            ContainerNode::Group(nested_group.duplicate()),
        ],
    };

    let header = ComponentNode {
        name: "Header".into(),
        fields: vec![FieldNode {
            required: true,
            field: msg_type_field.clone(),
        }],
        groups: Vec::new(),
        components: Vec::new(),
        entries: vec![ContainerNode::Field(FieldNode {
            required: true,
            field: msg_type_field.clone(),
        })],
    };

    let trailer = ComponentNode {
        name: "Trailer".into(),
        fields: vec![aux_field.duplicate()],
        groups: Vec::new(),
        components: Vec::new(),
        entries: vec![ContainerNode::Field(aux_field.duplicate())],
    };

    let allocs_group = GroupNode {
        name: "Allocs".into(),
        required: true,
        fields: vec![group_field.duplicate()],
        components: vec![component.duplicate()],
        groups: Vec::new(),
        entries: vec![
            ContainerNode::Field(group_field.duplicate()),
            ContainerNode::Component(component.duplicate()),
        ],
    };

    let message = MessageNode {
        name: "NewOrder".into(),
        msg_type: "D".into(),
        msg_cat: "app".into(),
        fields: vec![
            FieldNode {
                required: true,
                field: msg_type_field.clone(),
            },
            aux_field.duplicate(),
        ],
        components: vec![component.duplicate()],
        groups: vec![allocs_group.duplicate()],
        entries: vec![
            ContainerNode::Field(FieldNode {
                required: true,
                field: msg_type_field.clone(),
            }),
            ContainerNode::Field(aux_field.duplicate()),
            ContainerNode::Component(component.duplicate()),
            ContainerNode::Group(allocs_group),
        ],
    };

    let mut fields = TextMap::new();
    fields.insert(msg_type_field.name.clone().as_str(), msg_type_field.clone());
    fields.insert(aux_field.field.name.clone().as_str(), aux_field.field.clone());
    fields.insert(group_count_field.name.clone().as_str(), group_count_field.clone());
    fields.insert(allocs_count_field.name.clone().as_str(), allocs_count_field.clone());

    let mut components = TextMap::new();
    components.insert(header.name.clone().as_str(), header);
    components.insert(trailer.name.clone().as_str(), trailer);
    components.insert(component.name.clone().as_str(), component);

    let mut messages = TextMap::new();
    messages.insert(message.name.clone().as_str(), message);

    SchemaTree {
        fields,
        components,
        messages,
        version: "FIX 4.4".into(),
        service_pack: "-".into(),
    }
}

#[test]
fn print_field_renders_required_indicator() {
    let node = sample_field_node(true);
    let s = print_field(&node, 2, ColourPalette::standard());
    assert!(s.contains("999"));
    assert!(s.contains("TestField"));
    assert!(s.contains("STRING"));
    assert!(s.contains('Y'), "required marker should be present: {s}");
}

#[test]
fn print_enum_outputs_coloured_enum() {
    let value = sample_value("B", "Beta");
    let s = print_enum(&value, 0, ColourPalette::standard());
    assert!(s.contains("B"));
    assert!(s.contains("Beta"));
}

#[test]
fn print_enum_columns_respects_layout_columns() {
    let values = [sample_value("C", "Gamma"), sample_value("A", "Alpha")];
    let refs: Vec<&Value> = values.iter().collect();
    let layout = ColumnLayout {
        column_width: 12,
        columns: 2,
        max_indent: 0,
    };
    let s = print_enum_columns(&refs, 0, ColourPalette::standard(), Some(layout), WIDTH);
    // Two entries sorted and rendered in at most two lines.
    assert!(s.contains("A"));
    assert!(s.contains("C"));
    assert!(s.lines().count() <= 2);
}

#[test]
fn compute_values_layout_uses_max_entry() {
    let values = [sample_value("LONG", "desc"), sample_value("S", "short")];
    let refs: Vec<&Value> = values.iter().collect();
    let layout = compute_values_layout(&refs, 4, WIDTH).expect("layout expected");
    assert!(layout.column_width >= "LONG: desc".len());
    assert!(layout.columns >= 1);
}

#[test]
fn render_message_includes_header_and_trailer() {
    let schema = schema_with_structures();
    let msg = schema.messages.get("NewOrder").unwrap();
    let style = DisplayStyle::new(ColourPalette::standard(), true);
    let mut ctx = RenderContext::new(&schema, style, true, WIDTH);
    let s = ctx.render_message(msg, true, true, 0);
    assert!(s.contains("Component:"));
    assert!(s.contains("Header"));
    assert!(s.contains("Message: "));
    assert!(s.contains("Body"));
    assert!(s.contains("Allocs"));
    assert!(s.contains("201")); // group count tag number
    assert!(s.contains("Trailer"));
}

#[test]
fn render_component_prints_matching_msg_type_enum_only() {
    let schema = schema_with_structures();
    let msg = schema.messages.get("NewOrder").unwrap();
    let header = schema.components.get("Header").unwrap();
    let style = DisplayStyle::new(ColourPalette::standard(), false);
    let mut ctx = RenderContext::new(&schema, style, true, WIDTH);
    let s = ctx.render_component_with_style(Some(msg), header, 0, style);
    assert!(s.contains("NewOrderSingle"));
    assert!(!s.contains("ExecutionReport"));
}

#[test]
fn render_message_preserves_interleaved_container_order() {
    let before = Arc::new(Field {
        name: "BeforeField".into(),
        number: 11,
        field_type: "STRING".into(),
        values: Vec::new(),
        values_wrapper: ValuesWrapper::default(),
    });
    let after = Arc::new(Field {
        name: "AfterField".into(),
        number: 22,
        field_type: "STRING".into(),
        values: Vec::new(),
        values_wrapper: ValuesWrapper::default(),
    });
    let component = ComponentNode {
        name: "Block".into(),
        fields: vec![FieldNode {
            required: false,
            field: after.clone(),
        }],
        groups: Vec::new(),
        components: Vec::new(),
        entries: vec![ContainerNode::Field(FieldNode {
            required: false,
            field: after.clone(),
        })],
    };
    let message = MessageNode {
        name: "Ordered".into(),
        msg_type: "Z".into(),
        msg_cat: "app".into(),
        fields: vec![
            FieldNode {
                required: true,
                field: before.clone(),
            },
            FieldNode {
                required: false,
                field: after.clone(),
            },
        ],
        components: vec![component.duplicate()],
        groups: Vec::new(),
        entries: vec![
            ContainerNode::Field(FieldNode {
                required: true,
                field: before.clone(),
            }),
            ContainerNode::Component(component),
            ContainerNode::Field(FieldNode {
                required: false,
                field: after.clone(),
            }),
        ],
    };
    let mut fields = TextMap::new();
    fields.insert(before.name.clone().as_str(), before);
    fields.insert(after.name.clone().as_str(), after);
    let mut components = TextMap::new();
    components.insert("Block", message.components[0].duplicate());
    let mut messages = TextMap::new();
    messages.insert("Ordered", message);
    let schema = SchemaTree {
        fields,
        components,
        messages,
        version: "FIX 4.4".into(),
        service_pack: "-".into(),
    };

    let message = schema.messages.get("Ordered").unwrap();
    let mut ctx = RenderContext::new(
        &schema,
        DisplayStyle::new(ColourPalette::plain(), false),
        false,
        WIDTH,
    );
    let rendered = ctx.render_message(message, false, false, 0);
    let before_pos = rendered.find("BeforeField").expect("before field present");
    let component_pos = rendered
        .find("Component: ")
        .expect("component label present");
    let after_pos = rendered.find("AfterField").expect("after field present");

    assert!(
        before_pos < component_pos && component_pos < after_pos,
        "rendered order should follow message entries: {rendered}"
    );
}

#[test]
fn cached_layout_is_reused_for_component() {
    let schema = schema_with_structures();
    let component = schema.components.get("Block").unwrap();
    let style = DisplayStyle::new(ColourPalette::standard(), true);
    let mut ctx = RenderContext::new(&schema, style, true, WIDTH);
    let first = ctx.cached_component_layout(component, 2);
    let second = ctx.cached_component_layout(component, 2);
    assert_eq!(first, second);
    assert_eq!(ctx.layout_cache.len(), 1);
}

#[test]
fn compute_message_layout_counts_header_and_trailer() {
    let schema = schema_with_structures();
    let msg = schema.messages.get("NewOrder").unwrap();
    let layout =
        compute_message_layout(&schema, msg, true, true, 0, WIDTH).expect("layout should be computed");
    assert!(layout.column_width > 0);
    assert!(layout.columns >= 1);
}

#[test]
fn collect_group_layout_counts_nested_components() {
    let field = sample_field_node(false);
    let component = ComponentNode {
        name: "Comp".into(),
        fields: vec![field.duplicate()],
        groups: Vec::new(),
        components: Vec::new(),
        entries: vec![ContainerNode::Field(field.duplicate())],
    };
    let group = GroupNode {
        name: "Group".into(),
        required: false,
        fields: vec![field.duplicate()],
        components: vec![component.duplicate()],
        groups: Vec::new(),
        entries: vec![
            ContainerNode::Field(field.duplicate()),
            ContainerNode::Component(component),
        ],
    };
    let mut stats = LayoutStats::default();
    collect_group_layout(&group, 0, &mut stats);
    assert!(stats.max_entry_len > 0);
}

#[test]
fn tag_and_message_cells_include_expected_text() {
    let colours = ColourPalette::standard();
    let tag = tag_cell(1, "Test", "INT", true, colours);
    assert!(tag.text.contains("Test"));
    let msg = MessageNode {
        name: "Heartbeat".into(),
        msg_type: "0".into(),
        msg_cat: "app".into(),
        fields: Vec::new(),
        components: Vec::new(),
        groups: Vec::new(),
        entries: Vec::new(),
    };
    let cell = message_cell(&msg, colours);
    assert!(cell.text.contains("Heartbeat"));
}

#[test]
fn visible_len_ignores_escape_sequences() {
    let text = "\u{1b}[33mhello\u{1b}[0m";
    assert_eq!(visible_len(text), 5);
}

#[test]
fn write_with_padding_adds_spaces() {
    let s = write_with_padding("hey", 3, 5);
    assert!(s.ends_with("  "));
    assert_eq!(s, "hey  ");
}
