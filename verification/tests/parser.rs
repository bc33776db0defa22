use webby::ui::{Definition, IdAutogenerator, parse_web_tag};

#[test]
fn test_new_definition_removes_web_attrs() {
    let body = r#"<interface><object id="button" web:clicked="do_something();" /></interface>"#;
    let def = Definition::new(body).unwrap();
    assert_eq!(def.buildable, r#"<interface><object id="button"/></interface>"#);
}

#[test]
fn test_parse_href() {
    let body = r#"<interface><object id="button" web:href="/some/page" /></interface>"#;
    let def = Definition::new(body).unwrap();
    assert_eq!(
        def.hrefs,
        vec![(String::from("button"), String::from("/some/page"))]
    );
}

#[test]
fn test_autogen_ids() {
    let mut id_autogenerator = IdAutogenerator::new();
    assert_eq!(id_autogenerator.next(&"GtkButton".to_string()), "GtkButton-1");
    assert_eq!(id_autogenerator.next(&"GtkButton".to_string()), "GtkButton-2");
    assert_eq!(id_autogenerator.next(&"GtkButton".to_string()), "GtkButton-3");
    assert_eq!(id_autogenerator.next(&"GtkLabel".to_string()), "GtkLabel-1");
}

#[test]
fn test_parse_web_tag() {
    assert_eq!(parse_web_tag("web:script"), Some(String::from("script")));
    assert_eq!(parse_web_tag("web:page"), Some(String::from("page")));
    assert_eq!(parse_web_tag("object"), None);
}

#[test]
fn test_autogen_id_injected_into_output() {
    let body = r#"<interface><object class="GtkButton" web:href="/a"/><object class="GtkButton" web:href="/b"/></interface>"#;
    let def = Definition::new(body).unwrap();
    assert_eq!(
        def.buildable,
        r#"<interface><object class="GtkButton" id="GtkButton-1"/><object class="GtkButton" id="GtkButton-2"/></interface>"#
    );
    assert_eq!(
        def.hrefs,
        vec![
            (String::from("GtkButton-1"), String::from("/a")),
            (String::from("GtkButton-2"), String::from("/b")),
        ]
    );
}

#[test]
fn test_href_without_id_or_class_is_dropped() {
    let body = r#"<interface><object web:href="/a"/></interface>"#;
    let def = Definition::new(body).unwrap();
    assert_eq!(def.hrefs, Vec::<(String, String)>::new());
    assert_eq!(def.buildable, r#"<interface><object/></interface>"#);
}

#[test]
fn test_round_trip_without_reserved_content() {
    let body = "<interface>\n  <object id=\"a\">text &amp; more</object>\n  <!-- note -->\n</interface>";
    let def = Definition::new(body).unwrap();
    assert_eq!(def.buildable, body);
    assert!(def.hrefs.is_empty());
    assert!(def.scripts.is_empty());
    assert_eq!(def.styles, "");
    assert_eq!(def.title, None);
}

#[test]
fn test_script_collected_in_order() {
    let body = r#"<a><web:script type="lua">print(1)</web:script><web:script type="lua">print(2)</web:script></a>"#;
    let def = Definition::new(body).unwrap();
    assert_eq!(def.scripts.len(), 2);
    assert_eq!(def.scripts[0].text, "print(1)");
    assert_eq!(def.scripts[1].text, "print(2)");
    assert_eq!(def.buildable, "<a></a>");
}

#[test]
fn test_script_body_unescaped() {
    let body = r#"<a><web:script type="lua">if a &lt; b then c = a &amp; b end</web:script></a>"#;
    let def = Definition::new(body).unwrap();
    assert_eq!(def.scripts[0].text, "if a < b then c = a & b end");
}

#[test]
fn test_unknown_script_type_skipped() {
    let body = r#"<a><web:script type="python">print(1)</web:script></a>"#;
    let def = Definition::new(body).unwrap();
    assert!(def.scripts.is_empty());
    // The whole element is skipped: neither its tags nor its body text
    // reach the clean markup.
    assert_eq!(def.buildable, "<a></a>");
}

#[test]
fn test_script_without_type_skipped() {
    // Without a type the whole script element is skipped, its body included.
    let body = r#"<a><web:script>print(1)</web:script></a>"#;
    let def = Definition::new(body).unwrap();
    assert!(def.scripts.is_empty());
    assert_eq!(def.buildable, "<a></a>");
}

#[test]
fn test_styles_collected() {
    let body = r#"<a><web:style>label { color: red; }</web:style></a>"#;
    let def = Definition::new(body).unwrap();
    assert_eq!(def.styles, "label { color: red; }");
    assert_eq!(def.buildable, "<a></a>");
}

#[test]
fn test_page_title_captured() {
    let body = r#"<a><web:page title="Hello"/></a>"#;
    let def = Definition::new(body).unwrap();
    assert_eq!(def.title, Some(String::from("Hello")));
    assert_eq!(def.buildable, "<a></a>");
}

#[test]
fn test_unknown_reserved_attribute_dropped() {
    let body = r#"<a web:frob="x" id="k"/>"#;
    let def = Definition::new(body).unwrap();
    assert_eq!(def.buildable, r#"<a id="k"/>"#);
    assert!(def.hrefs.is_empty());
}

#[test]
fn test_malformed_markup_is_parse_error() {
    let def = Definition::new("<interface><object");
    assert!(def.is_err());
    let msg = def.err().unwrap().message();
    assert!(msg.starts_with("xml error: "));
}

#[test]
fn test_bad_character_reference_is_parse_error() {
    let body = r#"<a><web:style>x &unknown; y</web:style></a>"#;
    assert!(Definition::new(body).is_err());
}

#[test]
fn test_comment_and_declaration_pass_through() {
    let body = "<?xml version=\"1.0\"?><!-- c --><a>t</a>";
    let def = Definition::new(body).unwrap();
    assert_eq!(def.buildable, body);
}

#[test]
fn test_href_of_returns_last_registration() {
    let body = r#"<x><a id="k" web:href="/one"/><b id="k" web:href="/two"/></x>"#;
    let def = Definition::new(body).unwrap();
    assert_eq!(def.href_of(&String::from("k")), Some(&String::from("/two")));
    assert_eq!(def.href_of(&String::from("missing")), None);
}

#[test]
fn test_realistic_document() {
    let body = r#"<?xml version="1.0" encoding="UTF-8"?>
<interface>
    <object class="GtkBox" id="body">
        <property name="orientation">vertical</property>
        <child>
            <object class="GtkButton" web:href="/about">
                <property name="label">About</property>
            </object>
        </child>
        <child>
            <object class="GtkButton">
                <property name="label">Click Me</property>
            </object>
        </child>
    </object>
    <web:page title="Welcome"/>
    <web:script type="lua">alert("hi")</web:script>
</interface>"#;
    let def = Definition::new(body).unwrap();
    assert_eq!(def.title, Some(String::from("Welcome")));
    assert_eq!(def.scripts.len(), 1);
    assert_eq!(def.scripts[0].text, "alert(\"hi\")");
    assert_eq!(
        def.hrefs,
        vec![(String::from("GtkButton-1"), String::from("/about"))]
    );
    assert!(def.buildable.contains(r#"<object class="GtkButton" id="GtkButton-1">"#));
    assert!(!def.buildable.contains("web:"));
    // The untouched second button keeps its exact input spelling.
    assert!(def.buildable.contains("<object class=\"GtkButton\">"));
}

#[test]
fn test_numeric_character_references_decoded() {
    let body = r#"<a><web:style>&#65;&#x41;&#x2013;</web:style></a>"#;
    let def = Definition::new(body).unwrap();
    assert_eq!(def.styles, "AA\u{2013}");
    let body2 = r#"<a><web:script type="lua">x = "&#34;q&#34;"</web:script></a>"#;
    let def2 = Definition::new(body2).unwrap();
    assert_eq!(def2.scripts[0].text, "x = \"\"q\"\"");
}

#[test]
fn test_invalid_numeric_references_are_parse_errors() {
    // A surrogate code point, a value beyond the last code point, an empty
    // digit run, and a non-digit in the run are all malformed.
    assert!(Definition::new(r#"<a><web:style>&#xD800;</web:style></a>"#).is_err());
    assert!(Definition::new(r#"<a><web:style>&#1114112;</web:style></a>"#).is_err());
    assert!(Definition::new(r#"<a><web:style>&#;</web:style></a>"#).is_err());
    assert!(Definition::new(r#"<a><web:style>&#12a;</web:style></a>"#).is_err());
}

#[test]
fn test_mismatched_end_tag_is_parse_error() {
    assert!(Definition::new("<a></b>").is_err());
    assert!(Definition::new("<a><b></a></b>").is_err());
}

#[test]
fn test_unclosed_element_is_parse_error() {
    assert!(Definition::new("<a><b></b>").is_err());
    assert!(Definition::new("</a>").is_err());
}

#[test]
fn test_duplicate_attribute_is_parse_error() {
    assert!(Definition::new(r#"<a id="1" id="2"></a>"#).is_err());
    assert!(Definition::new(r#"<a web:href="/x" web:href="/y" class="C"></a>"#).is_err());
}
