pub mod ansi;
pub mod capture;
pub mod catalogue;
pub mod cli_error;
pub mod cli_options;
pub mod collections;
pub mod colours;
pub mod column_laws;
pub mod counts;
pub mod decoded;
pub mod decoded_laws;
pub mod dictionaries;
pub mod display;
pub mod document_laws;
pub mod embedded;
pub mod entry_laws;
pub mod expansion;
pub mod field_types;
pub mod figure_laws;
pub mod fixparser;
pub mod flow_laws;
pub mod flows;
pub mod framing;
pub mod framing_laws;
pub mod group_laws;
pub mod groups;
pub mod integrity;
pub mod interface_laws;
pub mod layout_laws;
pub mod listing;
pub mod log_laws;
pub mod log_lines;
pub mod message_groups;
pub mod message_laws;
pub mod message_view;
pub mod name_laws;
pub mod obfuscation_laws;
pub mod obfuscator;
pub mod option_laws;
pub mod order_labels;
pub mod order_laws;
pub mod order_record;
pub mod ordering;
pub mod output_style;
pub mod outside;
pub mod packet_laws;
pub mod packets;
pub mod pager_command;
pub mod paths;
pub mod queries;
pub mod reassembly;
pub mod reassembly_laws;
pub mod repair_laws;
pub mod report;
pub mod report_laws;
pub mod schema;
pub mod schema_laws;
pub mod schema_tree;
pub mod screen_laws;
pub mod secret_files;
pub mod sensitive;
pub mod sessions;
pub mod shards;
pub mod slicing;
pub mod sorting;
pub mod stream_laws;
pub mod summary;
pub mod summary_laws;
pub mod summary_output;
pub mod summary_pager;
pub mod summary_render;
pub mod summary_sections;
pub mod tag_lookup;
pub mod tag_order;
pub mod text;
pub mod textmap;
pub mod tree_laws;
pub mod type_laws;
pub mod validation_laws;
pub mod validator;
pub mod verdict_laws;
pub mod version;
pub mod words;
pub mod xml;
