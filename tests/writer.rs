#![allow(unused_must_use)]

use std::str;

use xmlwriter::{XmlError, XmlWriter};

fn output(xml: XmlWriter<'_, Vec<u8>>) -> String {
    String::from_utf8(xml.into_inner()).unwrap()
}

#[test]
fn integration() {
    let mut nsmap = Vec::new();
    nsmap.push((None, "http://localhost/"));
    nsmap.push((Some("st"), "http://127.0.0.1/"));
    let mut xml = XmlWriter::new(Vec::new());
    xml.begin_elem("OTDS");
    xml.ns_decl(&nsmap);
    xml.comment("nice to see you");
    xml.namespace = Some("st");
    xml.empty_elem("success");
    xml.begin_elem("node");
    xml.attr_esc("name", "\"123\"");
    xml.attr("id", "abc");
    xml.attr("'unescaped'", "\"123\"");
    xml.text("'text'");
    xml.end_elem();
    xml.namespace = None;
    xml.begin_elem("stuff");
    xml.cdata("blablab");
    xml.close();
    xml.flush();

    let actual = xml.into_inner();
    assert_eq!(
        str::from_utf8(&actual).unwrap(),
        "<OTDS xmlns=\"http://localhost/\" xmlns:st=\"http://127.0.0.1/\">\n  <!-- nice to see you -->\n  <st:success/>\n  <st:node name=\"&quot;123&quot;\" id=\"abc\" \'unescaped\'=\"\"123\"\">&apos;text&apos;</st:node>\n  <stuff><![CDATA[blablab]]></stuff></OTDS>"
    );
}

#[test]
fn comment() {
    let mut xml = XmlWriter::new(Vec::new());
    xml.comment("comment");

    let actual = xml.into_inner();
    assert_eq!(str::from_utf8(&actual).unwrap(), "<!-- comment -->");
}

#[test]
fn documented_sequence() {
    let mut xml = XmlWriter::new(Vec::new());
    assert!(xml.begin_elem("OTDS").is_ok());
    assert!(xml.comment("nice to see you").is_ok());
    assert!(xml.begin_elem("node").is_ok());
    assert!(xml.attr_esc("name", "\"123\"").is_ok());
    assert!(xml.attr("id", "abc").is_ok());
    assert!(xml.text("'text'").is_ok());
    assert!(xml.end_elem().is_ok());
    assert!(xml.begin_elem("stuff").is_ok());
    assert!(xml.cdata("blablab").is_ok());
    assert!(xml.close().is_ok());
    assert_eq!(
        output(xml),
        "<OTDS>\n  <!-- nice to see you -->\n  <node name=\"&quot;123&quot;\" id=\"abc\">&apos;text&apos;</node>\n  <stuff><![CDATA[blablab]]></stuff></OTDS>"
    );
}

#[test]
fn attr_after_end_is_refused() {
    let mut xml = XmlWriter::new(Vec::new());
    assert!(xml.begin_elem("a").is_ok());
    assert!(xml.end_elem().is_ok());
    let r = xml.attr("x", "y");
    assert!(matches!(r, Err(XmlError::NoOpenElement)));
    let r = xml.attr_esc("x", "y");
    assert!(matches!(r, Err(XmlError::NoOpenElement)));
    assert_eq!(output(xml), "<a></a>");
}

#[test]
fn attr_after_text_is_refused() {
    let mut xml = XmlWriter::new(Vec::new());
    assert!(xml.begin_elem("a").is_ok());
    assert!(xml.text("t").is_ok());
    assert!(matches!(xml.attr("x", "y"), Err(XmlError::NoOpenElement)));
    assert_eq!(output(xml), "<a>t");
}

#[test]
fn ns_decl_without_open_tag_is_refused() {
    let mut xml = XmlWriter::new(Vec::new());
    let decls = vec![(None, "urn:x")];
    assert!(matches!(xml.ns_decl(&decls), Err(XmlError::NoOpenElement)));
    assert_eq!(output(xml), "");
}

#[test]
fn end_without_open_element_is_refused() {
    let mut xml = XmlWriter::new(Vec::new());
    assert!(matches!(xml.end_elem(), Err(XmlError::NothingToClose)));
    assert!(xml.begin_elem("a").is_ok());
    assert!(xml.end_elem().is_ok());
    assert!(matches!(xml.end_elem(), Err(XmlError::NothingToClose)));
    assert_eq!(output(xml), "<a></a>");
}

#[test]
fn escaper_replaces_specials() {
    let mut xml = XmlWriter::new(Vec::new());
    assert!(xml.text("a\"b'c&d<e>f\\g").is_ok());
    assert_eq!(output(xml), "a&quot;b&apos;c&amp;d&lt;e&gt;f\\g");
}

#[test]
fn identifier_mode_doubles_backslash() {
    let mut xml = XmlWriter::new(Vec::new());
    assert!(xml.begin_elem("e").is_ok());
    assert!(xml.attr_esc("a\\b<", "c\\d&").is_ok());
    assert_eq!(output(xml), "<e a\\\\b&lt;=\"c\\d&amp;\"");
}

#[test]
fn multibyte_characters_pass_through() {
    let mut xml = XmlWriter::new(Vec::new());
    assert!(xml.text("é€<𝄞").is_ok());
    let bytes = xml.into_inner();
    assert_eq!(
        bytes,
        vec![0xc3, 0xa9, 0xe2, 0x82, 0xac, b'&', b'l', b't', b';', 0xf0, 0x9d, 0x84, 0x9e]
    );
}

#[test]
fn close_closes_in_reverse_order() {
    let mut xml = XmlWriter::new(Vec::new());
    assert!(xml.begin_elem("a").is_ok());
    assert!(xml.begin_elem("b").is_ok());
    assert!(xml.begin_elem("c").is_ok());
    assert!(xml.close().is_ok());
    assert!(matches!(xml.end_elem(), Err(XmlError::NothingToClose)));
    assert_eq!(output(xml), "<a>\n  <b>\n    <c></c></b></a>");
}

#[test]
fn close_on_empty_writer_writes_nothing() {
    let mut xml = XmlWriter::new(Vec::new());
    assert!(xml.close().is_ok());
    assert_eq!(output(xml), "");
}

#[test]
fn namespace_kept_for_closing_tag() {
    let mut xml = XmlWriter::new(Vec::new());
    xml.namespace = Some("p");
    assert!(xml.begin_elem("outer").is_ok());
    xml.namespace = Some("q");
    assert!(xml.begin_elem("inner").is_ok());
    xml.namespace = None;
    assert!(xml.end_elem().is_ok());
    assert!(xml.end_elem().is_ok());
    assert_eq!(output(xml), "<p:outer>\n  <q:inner></q:inner></p:outer>");
}

#[test]
fn indentation_follows_depth() {
    let mut xml = XmlWriter::new(Vec::new());
    assert!(xml.begin_elem("a").is_ok());
    assert!(xml.begin_elem("b").is_ok());
    assert!(xml.begin_elem("c").is_ok());
    assert!(xml.elem("d").is_ok());
    assert!(xml.comment("x").is_ok());
    assert_eq!(
        output(xml),
        "<a>\n  <b>\n    <c>\n      <d/>\n      <!-- x -->"
    );
}

#[test]
fn no_indentation_without_pretty() {
    let mut xml = XmlWriter::new(Vec::new());
    xml.pretty = false;
    assert!(xml.begin_elem("a").is_ok());
    assert!(xml.begin_elem("b").is_ok());
    assert!(xml.comment("c").is_ok());
    assert!(xml.close().is_ok());
    assert_eq!(output(xml), "<a><b><!-- c --></b></a>");
}

#[test]
fn elem_text_escapes_and_closes_without_prefix() {
    let mut xml = XmlWriter::new(Vec::new());
    assert!(xml.elem_text("n", "1 < 2").is_ok());
    xml.namespace = Some("s");
    assert!(xml.elem_text("m", "x").is_ok());
    assert_eq!(output(xml), "<n>1 &lt; 2</n><s:m>x</m>");
}

#[test]
fn dtd_writes_declaration() {
    let mut xml = XmlWriter::new(Vec::new());
    assert!(xml.dtd("UTF-8").is_ok());
    assert!(xml.elem("r").is_ok());
    assert_eq!(output(xml), "<?xml version=\"1.0\" encoding=\"UTF-8\" ?>\n<r/>");
}

#[test]
fn raw_write_and_cdata_are_not_escaped() {
    let mut xml = XmlWriter::new(Vec::new());
    assert!(xml.begin_elem("a").is_ok());
    assert!(xml.write(" b=\"<&>\"").is_ok());
    assert!(xml.cdata("<]]>").is_ok());
    assert!(xml.end_elem().is_ok());
    assert_eq!(output(xml), "<a b=\"<&>\"><![CDATA[<]]>]]></a>");
}

#[test]
fn ns_decl_writes_unescaped_uris() {
    let mut xml = XmlWriter::new(Vec::new());
    assert!(xml.begin_elem("r").is_ok());
    let decls = vec![(None, "a&b"), (Some("x"), "urn:x")];
    assert!(xml.ns_decl(&decls).is_ok());
    assert!(xml.end_elem().is_ok());
    assert_eq!(output(xml), "<r xmlns=\"a&b\" xmlns:x=\"urn:x\"></r>");
}

#[test]
fn setters_change_prefix_and_pretty() {
    let mut xml = XmlWriter::new(Vec::new());
    xml.set_namespace(Some("p"));
    assert!(xml.begin_elem("a").is_ok());
    xml.set_namespace(None);
    xml.set_pretty(false);
    assert!(xml.begin_elem("b").is_ok());
    assert!(xml.close().is_ok());
    assert_eq!(output(xml), "<p:a><b></b></p:a>");
}

#[test]
fn sink_keeps_its_earlier_bytes() {
    let mut xml = XmlWriter::new(b"x".to_vec());
    assert!(xml.elem("e").is_ok());
    assert_eq!(xml.into_inner(), b"x<e/>".to_vec());
}

#[test]
fn close_twice_writes_once() {
    let mut xml = XmlWriter::new(Vec::new());
    assert!(xml.begin_elem("a").is_ok());
    assert!(xml.close().is_ok());
    assert!(xml.close().is_ok());
    assert_eq!(output(xml), "<a></a>");
}

#[test]
fn open_elements_stay_open_when_handed_back() {
    let mut xml = XmlWriter::new(Vec::new());
    assert!(xml.begin_elem("a").is_ok());
    assert!(xml.attr("k", "v").is_ok());
    assert_eq!(output(xml), "<a k=\"v\"");
}
