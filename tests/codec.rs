use potty_msbt::binary::bytes_to_nodes;
use potty_msbt::markup::bbcode_to_nodes;
use potty_msbt::message::{to_bytes, to_string};
use potty_msbt::model::{encode_nodes, render_nodes, Error, Node, Param, Tag, Value};
use potty_msbt::schema::{fallback_tag_name, parse_fallback_name, TagSchema};

fn units(us: &[u16]) -> Vec<u8> {
    let mut out = Vec::new();
    for u in us {
        out.extend_from_slice(&u.to_le_bytes());
    }
    out
}

fn round_trip_text(schema: &TagSchema, b: &[u8]) -> (String, Vec<u8>) {
    let nodes = bytes_to_nodes(schema, b).unwrap();
    let text = render_nodes(&nodes);
    let again = bbcode_to_nodes(schema, &text).unwrap();
    (text, encode_nodes(&again).unwrap())
}

fn tag_of(n: &Node) -> &Tag {
    match n {
        Node::Tag(t) => t,
        Node::Text(s) => panic!("expected a tag, found text {:?}", s),
    }
}

fn text_of(n: &Node) -> &str {
    match n {
        Node::Text(s) => s,
        Node::Tag(t) => panic!("expected text, found tag {}", t.name),
    }
}

#[test]
fn size_tag_renders_and_reencodes() {
    let schema = TagSchema::botw();
    let b = units(&[0x0E, 0x0000, 0x0002, 0x0002, 0x0041]);
    assert_eq!(b.len(), 10);
    let (text, again) = round_trip_text(&schema, &b);
    assert_eq!(text, "[Size percent=\"65\" ]");
    assert_eq!(again, b);
}

#[test]
fn whole_message_conversion_adds_terminator() {
    let schema = TagSchema::botw();
    let b = units(&[0x48, 0x0E, 0x0000, 0x0002, 0x0002, 0x0041, 0x69]);
    let text = to_string(&schema, &b).unwrap();
    assert_eq!(text, "H[Size percent=\"65\" ]i");
    let mut expected = b.clone();
    expected.extend_from_slice(&[0, 0]);
    assert_eq!(to_bytes(&schema, &text).unwrap(), expected);
}

#[test]
fn closing_tag_matches_nearest_open_tag_of_its_name() {
    let schema = TagSchema::botw();
    let nodes = bbcode_to_nodes(&schema, "[Size][Font]x[/Size]y[/Font]").unwrap();
    assert_eq!(nodes.len(), 3);
    let size = tag_of(&nodes[0]);
    assert_eq!(size.name, "Size");
    assert_eq!(size.contents.len(), 2);
    assert_eq!(tag_of(&size.contents[0]).name, "Font");
    assert!(tag_of(&size.contents[0]).contents.is_empty());
    assert_eq!(text_of(&size.contents[1]), "x");
    assert_eq!(text_of(&nodes[1]), "y");
    assert_eq!(text_of(&nodes[2]), "");
}

#[test]
fn closed_tag_is_not_matched_again() {
    let schema = TagSchema::botw();
    let nodes = bbcode_to_nodes(&schema, "[Size]a[/Size]b[/Size]").unwrap();
    assert_eq!(nodes.len(), 3);
    assert_eq!(tag_of(&nodes[0]).contents.len(), 1);
    assert_eq!(text_of(&nodes[1]), "b");
}

#[test]
fn surplus_record_bytes_become_a_hidden_blob() {
    let schema = TagSchema::botw();
    let b = vec![0x0E, 0, 0, 0, 2, 0, 4, 0, 0x41, 0, 0xAB, 0xCD];
    let nodes = bytes_to_nodes(&schema, &b).unwrap();
    let size = tag_of(&nodes[1]);
    assert_eq!(size.params.len(), 2);
    let blob = &size.params[1];
    assert!(blob.stubbed);
    match &blob.value {
        Value::Bytes(len, v) => {
            assert_eq!(*len, 2);
            assert_eq!(v, &vec![0xAB, 0xCD]);
        },
        _ => panic!("expected a blob"),
    }
    assert_eq!(render_nodes(&nodes), "[Size percent=\"65\" ]");
    assert_eq!(encode_nodes(&nodes).unwrap(), b);
}

#[test]
fn unknown_code_round_trips() {
    let schema = TagSchema::botw();
    let b = units(&[0x0E, 0x0007, 0x0009, 0x0000]);
    let (text, again) = round_trip_text(&schema, &b);
    assert_eq!(text, "[07:09 ]");
    assert_eq!(again, b);
}

#[test]
fn wide_unknown_code_round_trips() {
    let schema = TagSchema::cardboard();
    let b = units(&[0x0E, 0x0123, 0x0004, 0x0000]);
    let (text, again) = round_trip_text(&schema, &b);
    assert_eq!(text, "[123:04 ]");
    assert_eq!(again, b);
}

#[test]
fn enumeration_value_renders_symbolic_and_returns() {
    let schema = TagSchema::botw();
    let b = units(&[0x0E, 0x0000, 0x0003, 0x0002, 0x0001]);
    let (text, again) = round_trip_text(&schema, &b);
    assert_eq!(text, "[Color name=\"green\" ]");
    assert_eq!(again, b);
}

#[test]
fn unmapped_enumeration_value_renders_decimal() {
    let schema = TagSchema::botw();
    let b = units(&[0x0E, 0x0000, 0x0003, 0x0002, 0x0009]);
    let (text, again) = round_trip_text(&schema, &b);
    assert_eq!(text, "[Color name=\"9\" ]");
    assert_eq!(again, b);
}

#[test]
fn stubbed_parameters_are_hidden_but_written() {
    let schema = TagSchema::botw();
    let b = vec![0x0E, 0, 1, 0, 7, 0, 2, 0, 5, 0xCD];
    let (text, again) = round_trip_text(&schema, &b);
    assert_eq!(text, "[Icon id=\"5\" ]");
    assert_eq!(again, b);
    let pause = units(&[0x0E, 0x0001, 0x0000, 0x0004, 0x001E, 0x0000]);
    let (text, again) = round_trip_text(&schema, &pause);
    assert_eq!(text, "[Pause frames=\"30\" ]");
    assert_eq!(again, pause);
}

#[test]
fn stubbed_parameter_ignores_attribute() {
    let schema = TagSchema::botw();
    let nodes = bbcode_to_nodes(&schema, "[Choice1 label=\"3\" stubbed=\"FFFF\" ]").unwrap();
    assert_eq!(
        encode_nodes(&nodes).unwrap(),
        vec![0x0E, 0, 1, 0, 0x0A, 0, 4, 0, 3, 0, 0x01, 0xCD]
    );
}

#[test]
fn end_marker_gives_contents() {
    let schema = TagSchema::botw();
    let b = units(&[0x0E, 0x0000, 0x0002, 0x0002, 0x0041, 0x78, 0x0F]);
    let (text, again) = round_trip_text(&schema, &b);
    assert_eq!(text, "[Size percent=\"65\" ]x[/Size ]");
    assert_eq!(again, b);
}

#[test]
fn zero_unit_ends_the_message() {
    let schema = TagSchema::botw();
    let b = units(&[0x41, 0x0000, 0x42]);
    assert_eq!(to_string(&schema, &b).unwrap(), "A");
}

#[test]
fn string_parameters_decode_and_encode() {
    let schema = TagSchema::botw();
    let b = units(&[0x0E, 0x0004, 0x0002, 0x0006, 0x0004, 0x0068, 0x0069]);
    let (text, again) = round_trip_text(&schema, &b);
    assert_eq!(text, "[Animation name=\"hi\" ]");
    assert_eq!(again, b);
}

#[test]
fn surrogate_pair_text_round_trips() {
    let schema = TagSchema::botw();
    let b = units(&[0xD83D, 0xDE00, 0x41]);
    let (text, again) = round_trip_text(&schema, &b);
    assert_eq!(text, "\u{1F600}A");
    assert_eq!(again, b);
}

#[test]
fn lone_surrogate_decodes_to_replacement() {
    let schema = TagSchema::botw();
    let b = units(&[0xD800, 0x41]);
    assert_eq!(to_string(&schema, &b).unwrap(), "\u{FFFD}A");
}

#[test]
fn attribute_escapes_are_undone() {
    let schema = TagSchema::botw();
    let nodes = bbcode_to_nodes(&schema, "[Animation name=\"a\\\"b\\tc\\rd\" ]").unwrap();
    match &tag_of(&nodes[0]).params[0].value {
        Value::String(s) => assert_eq!(s, "a\"b\tc\rd"),
        _ => panic!("expected a string"),
    }
}

#[test]
fn unknown_bracket_is_text() {
    let schema = TagSchema::botw();
    let nodes = bbcode_to_nodes(&schema, "[Nope] hi").unwrap();
    assert_eq!(nodes.len(), 1);
    assert_eq!(text_of(&nodes[0]), "[Nope] hi");
    assert_eq!(render_nodes(&nodes), "[Nope] hi");
}

#[test]
fn unclosed_bracket_is_text() {
    let schema = TagSchema::botw();
    let nodes = bbcode_to_nodes(&schema, "a[Size").unwrap();
    assert_eq!(render_nodes(&nodes), "a[Size");
}

#[test]
fn params_exceeding_record_fail() {
    let schema = TagSchema::botw();
    let b = vec![0x0E, 0, 0, 0, 2, 0, 1, 0, 0x41];
    assert_eq!(bytes_to_nodes(&schema, &b).unwrap_err(), Error::ParamsExceedRecord);
}

#[test]
fn cut_record_fails() {
    let schema = TagSchema::botw();
    assert_eq!(bytes_to_nodes(&schema, &[0x0E, 0, 0, 0]).unwrap_err(), Error::Truncated);
    let b = units(&[0x0E, 0x0000, 0x0002, 0x0004, 0x0041]);
    assert_eq!(bytes_to_nodes(&schema, &b).unwrap_err(), Error::Truncated);
}

#[test]
fn non_numeric_attribute_fails() {
    let schema = TagSchema::botw();
    assert_eq!(
        bbcode_to_nodes(&schema, "[Size percent=\"abc\" ]").unwrap_err(),
        Error::TypeMismatch
    );
    assert_eq!(
        bbcode_to_nodes(&schema, "[Size percent=\"70000\" ]").unwrap_err(),
        Error::TypeMismatch
    );
}

#[test]
fn blob_of_wrong_length_fails() {
    let p = Param::new("b", Value::Bytes(2, vec![1]));
    assert_eq!(p.to_bytes().unwrap_err(), Error::LengthMismatch);
    let mut q = Param::new("b", Value::Bytes(2, vec![0, 0]));
    assert_eq!(q.set_text(&['A', 'B']).unwrap_err(), Error::LengthMismatch);
    assert_eq!(q.set_text(&['X', 'Y', '0', '0']).unwrap_err(), Error::TypeMismatch);
}

#[test]
fn overlong_string_fails() {
    let p = Param::new("s", Value::String("a".repeat(40000)));
    assert_eq!(p.to_bytes().unwrap_err(), Error::TooLong);
}

#[test]
fn blob_text_is_upper_hex() {
    assert_eq!(Value::Bytes(2, vec![0xAB, 0x01]).to_string(), "AB01");
    let p = Param::new("raw", Value::Bytes(2, vec![0xAB, 0x01]));
    assert_eq!(p.to_string(), "raw=\"AB01\" ");
}

#[test]
fn blob_attribute_reads_hex_of_either_case() {
    let mut p = Param::new("raw", Value::Bytes(2, vec![0, 0]));
    p.set_text(&['a', 'b', 'C', 'D']).unwrap();
    assert_eq!(p.to_bytes().unwrap(), vec![0xAB, 0xCD]);
}

#[test]
fn enumeration_blob_is_substituted() {
    let p = Param::new_mapped("k", Value::Bytes(1, vec![0x07]), &[("FF", "07")]);
    assert_eq!(p.to_bytes().unwrap(), vec![0xFF]);
}

#[test]
fn fallback_names_spell_codes() {
    assert_eq!(fallback_tag_name(0x0A, 0x1B), "0A:1B");
    assert_eq!(fallback_tag_name(0x123, 0x04), "123:04");
    assert_eq!(fallback_tag_name(0x1234, 0x5), "1234:05");
    assert_eq!(parse_fallback_name("123:05"), Some((0x123, 0x05)));
    assert_eq!(parse_fallback_name("a:1"), Some((0x0A, 0x01)));
    assert_eq!(parse_fallback_name("12345:01"), None);
    assert_eq!(parse_fallback_name("0A:1B"), Some((0x0A, 0x1B)));
    assert_eq!(parse_fallback_name("0123:04"), Some((0x123, 0x04)));
    assert_eq!(parse_fallback_name("zz:01"), None);
    assert_eq!(parse_fallback_name("Size"), None);
}

#[test]
fn registry_resolves_both_ways() {
    let schema = TagSchema::botw();
    let (name, params) = schema.resolve_by_code(0x01, 0x06);
    assert_eq!(name, "Choice4");
    assert_eq!(params.len(), 6);
    let (name, params) = schema.resolve_by_code(0x02, 0x0B);
    assert_eq!(name, "02:0B");
    assert_eq!(params.len(), 2);
    assert!(params[1].stubbed);
    let (g, t, params) = schema.resolve_by_name(&"Gender".to_string()).unwrap();
    assert_eq!((g, t), (0xC9, 0x05));
    assert_eq!(params.len(), 3);
    assert!(schema.resolve_by_name(&"Nope".to_string()).is_none());
    let card = TagSchema::cardboard();
    let (g, t, params) = card.resolve_by_name(&"System:Color".to_string()).unwrap();
    assert_eq!((g, t), (0, 3));
    assert_eq!(params[0].map.len(), 4);
}

#[test]
fn tag_markup_and_record() {
    let mut t = Tag::new_with_params("Size", &[0, 0, 2, 0], vec![Param::new("percent", Value::U16(0))]);
    assert_eq!(t.apply_bytes(&[0x64, 0], 0, 2), Some(2));
    assert_eq!(t.to_string(), "[Size percent=\"100\" ]");
    assert_eq!(t.to_bytes().unwrap(), vec![0x0E, 0, 0, 0, 2, 0, 2, 0, 0x64, 0]);
    let plain = Tag::new("PageBreak", &[0, 0, 4, 0]);
    assert_eq!(Node::Tag(plain).to_string(), "[PageBreak ]");
    assert_eq!(Node::Text("hé".to_string()).to_bytes().unwrap(), vec![0x68, 0, 0xE9, 0]);
}

#[test]
fn empty_values_are_not_rendered() {
    let p = Param::new("rt", Value::String(String::new()));
    assert_eq!(p.to_string(), "");
    let s = Param::new_stubbed(Value::U16(9));
    assert_eq!(s.to_string(), "");
    assert_eq!(s.to_bytes().unwrap(), vec![9, 0]);
}

#[test]
fn builtin_schemas_are_well_formed() {
    for schema in [TagSchema::botw(), TagSchema::cardboard()] {
        assert!(schema.is_well_formed());
        for entry in &schema.entries {
            for p in &entry.params {
                assert!(p.enumeration_is_consistent());
            }
        }
    }
}

#[test]
fn inconsistent_schemas_are_detected() {
    let mut schema = TagSchema::botw();
    let (_, params) = schema.resolve_by_code(0, 2);
    schema.entries.push(potty_msbt::schema::SchemaEntry {
        group: 0x30,
        tag: 0x31,
        name: Some("0A:0B".to_string()),
        params,
    });
    assert!(!schema.is_well_formed());
    let dup = Param::new_mapped("n", Value::U16(0), &[("0", "a"), ("1", "a")]);
    assert!(!dup.enumeration_is_consistent());
    let numeric = Param::new_mapped("n", Value::U16(0), &[("0", "7")]);
    assert!(!numeric.enumeration_is_consistent());
}

#[test]
fn end_markers_close_records_last_in_first_out() {
    let schema = TagSchema::botw();
    let b = units(&[0x0E, 0x0000, 0x0003, 0x0002, 0x0002, 0x0E, 0x0000, 0x0002, 0x0002, 0x0041, 0x0F, 0x0F]);
    let (text, again) = round_trip_text(&schema, &b);
    assert_eq!(text, "[Color name=\"blue\" ][Size percent=\"65\" ][/Size ][/Color ]");
    assert_eq!(again, b);
}

#[test]
fn empty_closed_record_keeps_its_end_marker() {
    let schema = TagSchema::botw();
    let b = units(&[0x0E, 0x0000, 0x0002, 0x0002, 0x0041, 0x0F]);
    let (text, again) = round_trip_text(&schema, &b);
    assert_eq!(text, "[Size percent=\"65\" ][/Size ]");
    assert_eq!(again, b);
}

#[test]
fn unclosed_records_are_self_closing() {
    let schema = TagSchema::botw();
    let b = units(&[0x0E, 0x0000, 0x0002, 0x0002, 0x0041, 0x78, 0x0E, 0x0000, 0x0004, 0x0000, 0x79]);
    let nodes = bytes_to_nodes(&schema, &b).unwrap();
    assert_eq!(nodes.len(), 5);
    assert!(tag_of(&nodes[1]).contents.is_empty());
    assert_eq!(text_of(&nodes[2]), "x");
    assert_eq!(tag_of(&nodes[3]).name, "PageBreak");
    assert_eq!(text_of(&nodes[4]), "y");
}

#[test]
fn attribute_values_are_escaped_and_read_back() {
    let p = Param::new("name", Value::String("a\"b\tc\rd".to_string()));
    assert_eq!(p.to_string(), "name=\"a\\\"b\\tc\\rd\" ");
    let schema = TagSchema::botw();
    let b = units(&[0x0E, 0x0004, 0x0002, 0x0006, 0x0004, 0x0022, 0x0009]);
    let (text, again) = round_trip_text(&schema, &b);
    assert_eq!(text, "[Animation name=\"\\\"\\t\" ]");
    assert_eq!(again, b);
}

#[test]
fn table_layouts_are_as_listed() {
    let schema = TagSchema::botw();
    let (name, params) = schema.resolve_by_code(0, 2);
    assert_eq!(name, "Size");
    assert_eq!(params.len(), 1);
    assert_eq!(params[0].name, "percent");
    for t in [0x00u16, 0x03] {
        let (_, params) = schema.resolve_by_code(1, t);
        assert_eq!(params.len(), 2);
        assert_eq!(params[0].name, "frames");
        assert!(params[1].stubbed);
    }
    for t in 0u16..0x20 {
        let (_, params) = schema.resolve_by_code(2, t);
        let shared = [0x01, 0x02, 0x09, 0x0B, 0x0C, 0x0E, 0x0F, 0x10, 0x11, 0x12, 0x13].contains(&t);
        assert_eq!(params.len(), if shared { 2 } else { 0 });
    }
    let (_, params) = schema.resolve_by_code(0x40, 0x40);
    assert!(params.is_empty());
}
