use simple_xml_serialize::{split_cdata, XMLAttr, XMLElement};


#[test]
fn xmlelement_eq() {
    let ele1 = XMLElement::new("test_element");
    let mut ele2 = XMLElement{
        name: String::from("test_element"),
        contents: None,
        text: None,
        attrs: None,
        empty_attrs: None,
    };
    assert_eq!(ele1, ele2);
    ele2.text = Some(String::from("hey"));
    assert_ne!(ele1, ele2);
}

#[test]
fn xmlelement_new() {
    let newele = XMLElement::new("test_element");
    let testele = XMLElement{
        name: String::from("test_element"),
        contents: None,
        text: None,
        attrs: None,
        empty_attrs: None,
    };
    assert_eq!(newele, testele);
}

#[test]
fn xmlelement_name() {
    let ele1 = XMLElement::new("test_element").name("new_name");
    let ele2 = XMLElement{
        name: String::from("new_name"),
        contents: None,
        text: None,
        attrs: None,
        empty_attrs: None,
    };
    assert_eq!(ele1, ele2);
}

#[test]
fn xmlelement_set_name() {
    let mut ele1 = XMLElement::new("test_element");
    ele1.set_name("new_name");
    let ele2 = XMLElement{
        name: String::from("new_name"),
        contents: None,
        text: None,
        attrs: None,
        empty_attrs: None,
    };
    assert_eq!(ele1, ele2);
}

#[test]
fn xmlelement_attr() {
    let ele1 = XMLElement::new("test_element").attr("a1", 42);
    let test_attr = XMLAttr{name: String::from("a1"), value: 42.to_string()};
    let ele2 = XMLElement{
        name: String::from("test_element"),
        contents: None,
        text: None,
        attrs: Some(vec![test_attr]),
        empty_attrs: None,
    };
    assert_eq!(ele1, ele2);
}

#[test]
fn xmlelement_add_attr() {
    let mut ele1 = XMLElement::new("test_element");
    ele1.add_attr("a1", 42);
    let test_attr = XMLAttr{name: String::from("a1"), value: 42.to_string()};
    let ele2 = XMLElement{
        name: String::from("test_element"),
        contents: None,
        text: None,
        attrs: Some(vec![test_attr]),
        empty_attrs: None,
    };
    assert_eq!(ele1, ele2);
}

struct Point {
    lat: f32,
    lon: f32,
}

impl From<Point> for XMLElement {
    fn from(p: Point) -> Self {
        XMLElement::new("point").attr("lat", p.lat).attr("lon", p.lon)
    }
}

#[test]
fn xmlelement_element() {
    let ele1 = XMLElement::new("test_element").element(Point{lat: 12.3, lon: 45.6});

    let point_ele: XMLElement = Point{lat: 12.3, lon: 45.6}.into();
    let ele2 = XMLElement{
        name: String::from("test_element"),
        contents: Some(vec![point_ele]),
        text: None,
        attrs: None,
        empty_attrs: None,
    };
    assert_eq!(ele1, ele2);
}

#[test]
fn xmlelement_add_element() {
    let mut ele1 = XMLElement::new("test_element");
    ele1.add_element(Point{lat: 12.3, lon: 45.6});

    let point_ele: XMLElement = Point{lat: 12.3, lon: 45.6}.into();
    let ele2 = XMLElement{
        name: String::from("test_element"),
        contents: Some(vec![point_ele]),
        text: None,
        attrs: None,
        empty_attrs: None,
    };
    assert_eq!(ele1, ele2);
}

#[test]
fn xmlelement_elements() {
    let ele_vec = vec![Point{lat: 12.3, lon: 45.6}, Point{lat: 32.1, lon: 65.4}];
    let ele1 = XMLElement::new("test_element").elements(ele_vec);

    let point_ele1: XMLElement = Point{lat: 12.3, lon: 45.6}.into();
    let point_ele2: XMLElement = Point{lat: 32.1, lon: 65.4}.into();
    let ele2 = XMLElement{
        name: String::from("test_element"),
        contents: Some(vec![point_ele1, point_ele2]),
        text: None,
        attrs: None,
        empty_attrs: None,
    };
    assert_eq!(ele1, ele2);
}

#[test]
fn xmlelement_add_elements() {
    let ele_vec = vec![Point{lat: 12.3, lon: 45.6}, Point{lat: 32.1, lon: 65.4}];
    let mut ele1 = XMLElement::new("test_element");
    ele1.add_elements(ele_vec);

    let point_ele1: XMLElement = Point{lat: 12.3, lon: 45.6}.into();
    let point_ele2: XMLElement = Point{lat: 32.1, lon: 65.4}.into();
    let ele2 = XMLElement{
        name: String::from("test_element"),
        contents: Some(vec![point_ele1, point_ele2]),
        text: None,
        attrs: None,
        empty_attrs: None,
    };
    assert_eq!(ele1, ele2);
}

#[test]
fn xmlelement_add_elements_with_name() {
    let ele_vec = vec![Point{lat: 12.3, lon: 45.6}, Point{lat: 32.1, lon: 65.4}];
    let mut ele1 = XMLElement::new("test_element");
    ele1.add_elements_with_name("new_name", ele_vec);

    let mut point_ele1: XMLElement = Point{lat: 12.3, lon: 45.6}.into();
    point_ele1.set_name("new_name");
    let mut point_ele2: XMLElement = Point{lat: 32.1, lon: 65.4}.into();
    point_ele2.set_name("new_name");
    let ele2 = XMLElement{
        name: String::from("test_element"),
        contents: Some(vec![point_ele1, point_ele2]),
        text: None,
        attrs: None,
        empty_attrs: None,
    };
    assert_eq!(ele1, ele2);
}

#[test]
fn xmlelement_text() {
    let ele1 = XMLElement::new("test_element").text("some content");
    let ele2 = XMLElement{
        name: String::from("test_element"),
        contents: None,
        text: Some(String::from("some content")),
        attrs: None,
        empty_attrs: None,
    };
    assert_eq!(ele1, ele2);
}

#[test]
fn xmlelement_set_text() {
    let mut ele1 = XMLElement::new("test_element");
    ele1.set_text("some content");
    let ele2 = XMLElement{
        name: String::from("test_element"),
        contents: None,
        text: Some(String::from("some content")),
        attrs: None,
        empty_attrs: None,
    };
    assert_eq!(ele1, ele2);
}

#[test]
fn xmlelement_to_string() {
    let expected = r#"<test_element a1="42" a2="24"><point lat="12.3" lon="45.6"/><point lat="32.1" lon="65.4"/>some content</test_element>"#;

    let point_ele1: XMLElement = Point{lat: 12.3, lon: 45.6}.into();
    let point_ele2: XMLElement = Point{lat: 32.1, lon: 65.4}.into();
    let test_attr1 = XMLAttr{name: String::from("a1"), value: 42.to_string()};
    let test_attr2 = XMLAttr{name: String::from("a2"), value: 24.to_string()};
    let ele2 = XMLElement{
        name: String::from("test_element"),
        contents: Some(vec![point_ele1, point_ele2]),
        text: Some(String::from("some content")),
        attrs: Some(vec![test_attr1, test_attr2]),
        empty_attrs: None,
    };

    assert_eq!(expected, ele2.to_string());
}

#[test]
fn xmlelement_to_string_cdata1() {
    let expected = r#"<test_element><![CDATA[1<2]]></test_element>"#;

    let ele = XMLElement{
        name: String::from("test_element"),
        contents: None,
        text: Some(String::from("<![CDATA[1<2]]>")),
        attrs: None,
        empty_attrs: None,
    };

    assert_eq!(expected, ele.to_string());
}

#[test]
fn xmlelement_to_string_cdata2() {
    let expected = r#"<test_element>1&lt;2<![CDATA[1<2]]>1&lt;2</test_element>"#;

    let ele = XMLElement{
        name: String::from("test_element"),
        contents: None,
        text: Some(String::from("1<2<![CDATA[1<2]]>1<2")),
        attrs: None,
        empty_attrs: None,
    };

    assert_eq!(expected, ele.to_string());
}

#[test]
fn xmlelement_to_string_entity_ref_lt() {
    let expected = r#"<test_element>1&lt;2</test_element>"#;

    let ele = XMLElement{
        name: String::from("test_element"),
        contents: None,
        text: Some(String::from("1<2")),
        attrs: None,
        empty_attrs: None,
    };

    assert_eq!(expected, ele.to_string());
}

#[test]
fn xmlelement_to_string_entity_ref_gt() {
    let expected = r#"<test_element>3&gt;2</test_element>"#;

    let ele = XMLElement{
        name: String::from("test_element"),
        contents: None,
        text: Some(String::from("3>2")),
        attrs: None,
        empty_attrs: None,
    };

    assert_eq!(expected, ele.to_string());
}
#[test]
fn xmlelement_to_string_entity_ref_amp() {
    let expected = r#"<test_element>5&amp;1=1</test_element>"#;

    let ele = XMLElement{
        name: String::from("test_element"),
        contents: None,
        text: Some(String::from("5&1=1")),
        attrs: None,
        empty_attrs: None,
    };

    assert_eq!(expected, ele.to_string());
}
#[test]
fn xmlelement_to_string_entity_ref_apos() {
    let expected = r#"<test_element>&apos;a</test_element>"#;

    let ele = XMLElement{
        name: String::from("test_element"),
        contents: None,
        text: Some(String::from("'a")),
        attrs: None,
        empty_attrs: None,
    };

    assert_eq!(expected, ele.to_string());
}
#[test]
fn xmlelement_to_string_entity_ref_quot() {
    let expected = r#"<test_element>&quot;Hello World&quot;</test_element>"#;

    let ele = XMLElement{
        name: String::from("test_element"),
        contents: None,
        text: Some(String::from(r#""Hello World""#)),
        attrs: None,
        empty_attrs: None,
    };

    assert_eq!(expected, ele.to_string());
}

#[test]
fn xmlelement_to_string_pretty1() {
    let expected = format!(r#"<test_element a1="42" a2="24">{}<point lat="12.3" lon="45.6"/>{}<point lat="32.1" lon="65.4"/>{}some content{}</test_element>"#, "\n\t", "\n\t", "\n\t", "\n");

    let point_ele1: XMLElement = Point{lat: 12.3, lon: 45.6}.into();
    let point_ele2: XMLElement = Point{lat: 32.1, lon: 65.4}.into();
    let test_attr1 = XMLAttr{name: String::from("a1"), value: 42.to_string()};
    let test_attr2 = XMLAttr{name: String::from("a2"), value: 24.to_string()};
    let ele2 = XMLElement{
        name: String::from("test_element"),
        contents: Some(vec![point_ele1, point_ele2]),
        text: Some(String::from("some content")),
        attrs: Some(vec![test_attr1, test_attr2]),
        empty_attrs: None,
    };

    assert_eq!(expected, ele2.to_string_pretty("\n","\t"));
}

#[test]
fn xmlelement_to_string_pretty2() {
    let expected = format!(r#"<test_element a1="42" a2="24">{}<point lat="12.3" lon="45.6">{}point content{}</point>{}<point lat="32.1" lon="65.4"/>{}some content{}</test_element>"#, "\n\t", "\n\t\t","\n\t","\n\t", "\n\t", "\n");

    let mut point_ele1: XMLElement = Point{lat: 12.3, lon: 45.6}.into();
    point_ele1.set_text("point content");
    let point_ele2: XMLElement = Point{lat: 32.1, lon: 65.4}.into();
    let test_attr1 = XMLAttr{name: String::from("a1"), value: 42.to_string()};
    let test_attr2 = XMLAttr{name: String::from("a2"), value: 24.to_string()};
    let ele2 = XMLElement{
        name: String::from("test_element"),
        contents: Some(vec![point_ele1, point_ele2]),
        text: Some(String::from("some content")),
        attrs: Some(vec![test_attr1, test_attr2]),
        empty_attrs: None,
    };
    assert_eq!(expected, ele2.to_string_pretty("\n","\t"));
}

#[test]
fn xmlelement_to_string_pretty_prolog() {
    let expected = format!(r#"<?xml version="1.0" encoding="UTF-8"?>{}<test_element>{}some content{}</test_element>"#, "\n", "\n\t", "\n");

    let ele = XMLElement{
        name: String::from("test_element"),
        contents: None,
        text: Some(String::from("some content")),
        attrs: None,
        empty_attrs: None,
    };

    assert_eq!(expected, ele.to_string_pretty_prolog("\n","\t"));
}

#[test]
fn test_split_cdata() {
    let input = "<![CDATA[]]>";
    let (before_cdata, opt_cdata) = split_cdata(&input);
    assert_eq!(before_cdata, "");
    assert_eq!(opt_cdata, Some((String::from("<![CDATA[]]>"), String::from(""))));

    let input = "<![CDATA[]>";
    let (before_cdata, opt_cdata) = split_cdata(&input);
    assert_eq!(before_cdata, "<![CDATA[]>");
    assert_eq!(opt_cdata, None);

    let input = "<![CDTA[]]>";
    let (before_cdata, opt_cdata) = split_cdata(&input);
    assert_eq!(before_cdata, "<![CDTA[]]>");
    assert_eq!(opt_cdata, None);

    let input = "hello<![CDATA[]]>";
    let (before_cdata, opt_cdata) = split_cdata(&input);
    assert_eq!(before_cdata, "hello");
    assert_eq!(opt_cdata, Some((String::from("<![CDATA[]]>"), String::from(""))));

    let input = "hello<![CDATA[]]>world";
    let (before_cdata, opt_cdata) = split_cdata(&input);
    assert_eq!(before_cdata, "hello");
    assert_eq!(opt_cdata, Some((String::from("<![CDATA[]]>"), String::from("world"))));

    let input = "hello<![CDATA[world]]>";
    let (before_cdata, opt_cdata) = split_cdata(&input);
    assert_eq!(before_cdata, "hello");
    assert_eq!(opt_cdata, Some((String::from("<![CDATA[world]]>"), String::from(""))));

    let input = "hello<![CDATA[wor]]>ld";
    let (before_cdata, opt_cdata) = split_cdata(&input);
    assert_eq!(before_cdata, "hello");
    assert_eq!(opt_cdata, Some((String::from("<![CDATA[wor]]>"), String::from("ld"))));

    let input = "<![CDATA[]]>world";
    let (before_cdata, opt_cdata) = split_cdata(&input);
    assert_eq!(before_cdata, "");
    assert_eq!(opt_cdata, Some((String::from("<![CDATA[]]>"), String::from("world"))));

    let input = "<![CDATA[hello]]>world";
    let (before_cdata, opt_cdata) = split_cdata(&input);
    assert_eq!(before_cdata, "");
    assert_eq!(opt_cdata, Some((String::from("<![CDATA[hello]]>"), String::from("world"))));

    let input = "<![CDATA[hel]]>lo]]>world";
    let (before_cdata, opt_cdata) = split_cdata(&input);
    assert_eq!(before_cdata, "");
    assert_eq!(opt_cdata, Some((String::from("<![CDATA[hel]]>"), String::from("lo]]>world"))));

    let input = "<![CDATA[hel<![CDATA[lo]]>world";
    let (before_cdata, opt_cdata) = split_cdata(&input);
    assert_eq!(before_cdata, "");
    assert_eq!(opt_cdata, Some((String::from("<![CDATA[hel<![CDATA[lo]]>"), String::from("world"))));
}
