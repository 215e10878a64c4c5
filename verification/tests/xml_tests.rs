use episodic::xml::{escape_xml_attribute, escape_xml_text, unescape_xml_attribute};

#[test]
fn escape_xml_text_replaces_core_entities() {
    let raw = "a&b<c>d\"'x";
    assert_eq!(escape_xml_text(raw), "a&amp;b&lt;c&gt;d\"'x");
}

#[test]
fn escape_xml_attribute_replaces_attribute_entities() {
    let raw = "a&b<c>d\"'x";
    assert_eq!(escape_xml_attribute(raw), "a&amp;b&lt;c&gt;d&quot;&#39;x");
}

#[test]
fn escape_xml_is_identity_for_plain_text() {
    let raw = "plain_text_123";
    assert_eq!(escape_xml_text(raw), raw);
    assert_eq!(escape_xml_attribute(raw), raw);
}

#[test]
fn escape_xml_drops_disallowed_control_characters() {
    let raw = format!("a{}b{}c\t\n\r", '\u{0}', '\u{1F}');
    assert_eq!(escape_xml_text(&raw), "abc\t\n\r");
    assert_eq!(escape_xml_attribute(&raw), "abc\t\n\r");
}

#[test]
fn unescape_xml_attribute_decodes_named_and_numeric_entities() {
    let raw = "a&amp;b&lt;c&gt;d&quot;&#39;e&#x41;&#65;";
    assert_eq!(unescape_xml_attribute(raw), "a&b<c>d\"'eAA");
}
