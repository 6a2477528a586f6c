use xml2lua::convert::{convert_xml_to_lua, is_xml_file, module_name, tokens_to_lua};
use xml2lua::text::indent;
use xml2lua::token::{Attr, XmlToken};

#[test]
fn two_records_under_plain_root() {
    let content = b"<root><item id=\"1\" name=\"a\"/><item id=\"2\"/></root>";
    let out = convert_xml_to_lua(content, "cfg.xml").unwrap();
    assert_eq!(
        out,
        "local M = {\n    {id=\"1\",name=\"a\",},\n    {id=\"2\",},\n}\n_G.ConfigTable.cfg = M"
    );
}

#[test]
fn no_attributes_gives_empty_body() {
    let content = b"<root><a><b/></a></root>";
    let out = convert_xml_to_lua(content, "plain.xml").unwrap();
    assert_eq!(out, "local M = {\n}\n_G.ConfigTable.plain = M");
}

#[test]
fn one_record_per_attribute_bearing_element() {
    let content = b"<r><a x=\"1\"/><b/><c y=\"2\"><d/><e z=\"3\"/></c></r>";
    let out = convert_xml_to_lua(content, "r.xml").unwrap();
    let records = out.matches("},\n").count();
    assert_eq!(records, 3);
}

#[test]
fn entity_decoded_value_between_quotes() {
    let content = b"<r><i v=\"a&amp;b &lt;c&gt;\"/></r>";
    let out = convert_xml_to_lua(content, "e.xml").unwrap();
    assert_eq!(out, "local M = {\n    {v=\"a&b <c>\",},\n}\n_G.ConfigTable.e = M");
}

#[test]
fn indentation_grows_four_spaces_per_depth() {
    let content = b"<a x=\"1\"><b y=\"2\"><c z=\"3\"/></b></a>";
    let out = convert_xml_to_lua(content, "deep.xml").unwrap();
    assert_eq!(
        out,
        "local M = {\n{x=\"1\",},\n    {y=\"2\",},\n        {z=\"3\",},\n}\n_G.ConfigTable.deep = M"
    );
}

#[test]
fn sibling_after_close_returns_to_outer_depth() {
    let content = b"<r><a p=\"1\"><b q=\"2\"/></a><c s=\"3\"/></r>";
    let out = convert_xml_to_lua(content, "sib.xml").unwrap();
    assert_eq!(
        out,
        "local M = {\n    {p=\"1\",},\n        {q=\"2\",},\n    {s=\"3\",},\n}\n_G.ConfigTable.sib = M"
    );
}

#[test]
fn rerun_is_byte_identical() {
    let content = b"<root><item id=\"1\" name=\"a\"/><item id=\"2\"/></root>";
    let first = convert_xml_to_lua(content, "cfg.xml").unwrap();
    let second = convert_xml_to_lua(content, "cfg.xml").unwrap();
    assert_eq!(first, second);
}

#[test]
fn module_name_splits_on_first_period() {
    assert_eq!(module_name("cfg.items.xml"), "cfg");
    assert_eq!(module_name("cfg.xml"), "cfg");
    assert_eq!(module_name("noext"), "noext");
    assert_eq!(module_name(".hidden"), "");
}

#[test]
fn multi_extension_file_names_module_after_first_part() {
    let content = b"<root/>";
    let out = convert_xml_to_lua(content, "cfg.items.xml").unwrap();
    assert_eq!(out, "local M = {\n}\n_G.ConfigTable.cfg = M");
}

#[test]
fn extension_filter_is_exact_and_case_sensitive() {
    assert!(is_xml_file("a.xml"));
    assert!(is_xml_file("cfg.items.xml"));
    assert!(!is_xml_file("a.txt"));
    assert!(!is_xml_file("a.XML"));
    assert!(!is_xml_file("xml"));
    assert!(!is_xml_file(".xml"));
    assert!(!is_xml_file("a.xmlx"));
    assert!(!is_xml_file(""));
}

#[test]
fn malformed_document_is_an_error() {
    assert!(convert_xml_to_lua(b"<root>", "bad.xml").is_err());
    assert!(convert_xml_to_lua(b"", "empty.xml").is_err());
    assert!(convert_xml_to_lua(b"<a></b>", "mismatch.xml").is_err());
}

#[test]
fn parse_error_carries_a_diagnostic() {
    let err = convert_xml_to_lua(b"<root>", "bad.xml").unwrap_err();
    assert!(!err.message.is_empty());
}

#[test]
fn indent_repeats_four_space_unit() {
    assert_eq!(indent(0), "");
    assert_eq!(indent(1), "    ");
    assert_eq!(indent(3), "            ");
}

#[test]
fn token_pass_emits_record_per_open_with_attributes() {
    let tokens = vec![
        XmlToken::Other,
        XmlToken::Open { attrs: vec![] },
        XmlToken::Open {
            attrs: vec![
                Attr { key: String::from("k"), value: String::from("v") },
                Attr { key: String::from("n"), value: String::from("2") },
            ],
        },
        XmlToken::Close,
        XmlToken::Close,
        XmlToken::Other,
    ];
    let out = tokens_to_lua(&tokens, "m");
    assert_eq!(out, "local M = {\n    {k=\"v\",n=\"2\",},\n}\n_G.ConfigTable.m = M");
}

#[test]
fn ignored_events_emit_nothing() {
    let content = b"<?xml version=\"1.0\"?><r><!-- note --><i a=\"1\"/>text</r>";
    let out = convert_xml_to_lua(content, "mix.xml").unwrap();
    assert_eq!(out, "local M = {\n    {a=\"1\",},\n}\n_G.ConfigTable.mix = M");
}
