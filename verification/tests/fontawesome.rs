use mdbook_verified::fontawesome::{convert_fontawesome, icon_html, parse_icon_kind, IconError, IconKind};
use mdbook_verified::html_serialize::{serialize, AttrNamespace, HtmlElement, HtmlNode, NodeValue};

fn i_element(class: &str) -> HtmlNode {
    HtmlNode {
        value: NodeValue::Element(HtmlElement {
            name: "i".to_string(),
            attrs: vec![
                (AttrNamespace::Plain, "class".to_string(), class.to_string()),
                (AttrNamespace::Plain, "title".to_string(), "t".to_string()),
            ],
            self_closing: false,
            was_raw: true,
        }),
        children: vec![],
    }
}

#[test]
fn icon_styles_are_read_by_name() {
    assert_eq!(parse_icon_kind("brands"), Some(IconKind::Brands));
    assert_eq!(parse_icon_kind("regular"), Some(IconKind::Regular));
    assert_eq!(parse_icon_kind("solid"), Some(IconKind::Solid));
    assert_eq!(parse_icon_kind("Solid"), None);
}

#[test]
fn helper_writes_the_svg_in_a_span() {
    let html = icon_html(Some("solid"), Some("fa-gear"), None).unwrap();
    assert!(html.starts_with("<span class=fa-svg><svg"));
    assert!(html.ends_with("</svg></span>"));
    let with_id = icon_html(Some("solid"), Some("fas-gear"), Some("x")).unwrap();
    assert!(with_id.starts_with("<span class=fa-svg id=\"x\"><svg"));
}

#[test]
fn helper_errors() {
    assert_eq!(icon_html(None, Some("gear"), None), Err(IconError::TypeRequired));
    assert_eq!(icon_html(Some("bold"), Some("gear"), None), Err(IconError::TypeRequired));
    assert_eq!(icon_html(Some("solid"), None, None), Err(IconError::NameRequired));
    let e = icon_html(Some("solid"), Some("fa-gibberish"), None).unwrap_err();
    assert_eq!(e, IconError::MissingFont("gibberish".to_string()));
    assert_eq!(e.message(), "Missing font gibberish");
    assert_eq!(IconError::TypeRequired.message(), "Param 0 with String type is required for fontawesome helper.");
}

#[test]
fn empty_icon_elements_become_svg_spans() {
    let root = HtmlNode { value: NodeValue::Fragment, children: vec![i_element("fas fa-gear extra")] };
    let out = convert_fontawesome(root);
    let span = &out.children[0];
    match &span.value {
        NodeValue::Element(el) => {
            assert_eq!(el.name, "span");
            assert_eq!(
                el.attrs,
                vec![
                    (AttrNamespace::Plain, "class".to_string(), "fa-svg extra".to_string()),
                    (AttrNamespace::Plain, "title".to_string(), "t".to_string()),
                ]
            );
        }
        other => panic!("not an element: {other:?}"),
    }
    match &span.children[0].value {
        NodeValue::RawData(svg) => assert!(svg.starts_with("<svg")),
        other => panic!("not raw data: {other:?}"),
    }
}

#[test]
fn unknown_icons_and_filled_elements_stay() {
    let root = HtmlNode {
        value: NodeValue::Fragment,
        children: vec![i_element("fa fa-gibberish"), i_element("plain"), i_element("fa fa-gear")],
    };
    let out = convert_fontawesome(root);
    let mut text = String::new();
    serialize(&out, &mut text);
    assert_eq!(
        text,
        "<i class=\"fa fa-gibberish\" title=\"t\"></i><i class=\"plain\" title=\"t\"></i><i class=\"fa fa-gear\" title=\"t\"></i>"
    );
}
