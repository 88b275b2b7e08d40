use simple_xml_serialize::{split_cdata, XMLAttr, XMLElement};

fn text_of(text: &str) -> String {
    let rendered = XMLElement::new("t").text(text).to_string();
    rendered[3..rendered.len() - 4].to_string()
}

fn without(s: &str, padding: &str) -> String {
    s.chars().filter(|c| !padding.contains(*c)).collect()
}

fn family() -> XMLElement {
    let child = XMLElement::new("child")
        .attr("age", 4)
        .element(XMLElement::new("toy").text("ball"))
        .element(XMLElement::new("pet"))
        .text("Jane");
    XMLElement::new("person").attr("age", 28).attr("id", "p1").element(child).text("John")
}

#[test]
fn element_with_only_a_name_is_self_closed() {
    for name in ["a", "test_element", "x:y", "", "né"] {
        let e = XMLElement::new(name);
        assert_eq!(e.to_string(), format!("<{}/>", name));
        assert_eq!(e.to_string_pretty("\n", "\t"), format!("<{}/>", name));
    }
}

#[test]
fn documented_use_renders_as_documented() {
    let mut ele = XMLElement::new("person");
    ele.add_attr("age", 28);
    ele.set_text("John Doe");

    let sub_ele = XMLElement::new("person").attr("age", 4).text("Jane Doe");
    ele.add_element(sub_ele);

    let expected = r#"<person age="28"><person age="4">Jane Doe</person>John Doe</person>"#;
    assert_eq!(expected, ele.to_string());

    ele.set_text("John Doe > John Deere");
    let expected =
        r#"<person age="28"><person age="4">Jane Doe</person>John Doe &gt; John Deere</person>"#;
    assert_eq!(expected, ele.to_string());

    ele.set_text("<![CDATA[John Doe > John Deere]]>");
    let expected = r#"<person age="28"><person age="4">Jane Doe</person><![CDATA[John Doe > John Deere]]></person>"#;
    assert_eq!(expected, ele.to_string());
}

#[test]
fn text_without_special_characters_is_not_changed() {
    for text in ["", "plain", "a b\tc", "1=2;3", "]]", "[CDATA[", "é ü 漢字 🙂", "a\nb\r\n"] {
        assert_eq!(text_of(text), text);
    }
}

#[test]
fn each_special_character_becomes_its_entity() {
    assert_eq!(text_of("&"), "&amp;");
    assert_eq!(text_of("<"), "&lt;");
    assert_eq!(text_of(">"), "&gt;");
    assert_eq!(text_of("'"), "&apos;");
    assert_eq!(text_of("\""), "&quot;");
    assert_eq!(text_of("&<>'\""), "&amp;&lt;&gt;&apos;&quot;");
    assert_eq!(text_of("a&b<c>d'e\"f"), "a&amp;b&lt;c&gt;d&apos;e&quot;f");
    assert_eq!(text_of("<<>>"), "&lt;&lt;&gt;&gt;");
}

#[test]
fn entities_in_the_input_are_escaped_once() {
    assert_eq!(text_of("&lt;"), "&amp;lt;");
    assert_eq!(text_of("&amp;"), "&amp;amp;");
    assert_eq!(text_of("&quot;&apos;&gt;"), "&amp;quot;&amp;apos;&amp;gt;");
    assert_eq!(text_of("&amp;lt;"), "&amp;amp;lt;");
}

#[test]
fn escaped_text_holds_no_markup_character() {
    let rendered = text_of("if a < b && b > c { say('x', \"y\") } &amp; &#38;");
    assert!(!rendered.contains('<'));
    assert!(!rendered.contains('>'));
    assert!(!rendered.contains('\''));
    assert!(!rendered.contains('"'));
    for (at, _) in rendered.match_indices('&') {
        let rest = &rendered[at..];
        assert!(
            ["&amp;", "&lt;", "&gt;", "&apos;", "&quot;"].iter().any(|e| rest.starts_with(e)),
            "{}",
            rest
        );
    }
}

#[test]
fn cdata_section_is_left_as_it_stands() {
    assert_eq!(text_of("<![CDATA[a<b]]>"), "<![CDATA[a<b]]>");
    assert_eq!(text_of("x<![CDATA[a<b]]>y>z"), "x<![CDATA[a<b]]>y&gt;z");
    assert_eq!(text_of("<![CDATA[&<>'\"]]>"), "<![CDATA[&<>'\"]]>");
    assert_eq!(text_of("<![CDATA[é🙂]]>é<"), "<![CDATA[é🙂]]>é&lt;");
}

#[test]
fn only_the_first_cdata_section_is_special() {
    assert_eq!(
        text_of("<![CDATA[a]]><![CDATA[b]]>"),
        "<![CDATA[a]]>&lt;![CDATA[b]]&gt;"
    );
    assert_eq!(text_of("a>b<![CDATA[c]]>d]]>e"), "a&gt;b<![CDATA[c]]>d]]&gt;e");
}

#[test]
fn unfinished_cdata_section_is_plain_text() {
    assert_eq!(text_of("<![CDATA[a<b"), "&lt;![CDATA[a&lt;b");
    assert_eq!(text_of("<![CDATA[a]>"), "&lt;![CDATA[a]&gt;");
    assert_eq!(text_of("]]><![CDATA[a"), "]]&gt;&lt;![CDATA[a");
    assert_eq!(text_of("<![cdata[a]]>"), "&lt;![cdata[a]]&gt;");
}

#[test]
fn closing_marker_before_the_section_is_escaped() {
    assert_eq!(text_of("]]><![CDATA[a]]>"), "]]&gt;<![CDATA[a]]>");
}

#[test]
fn split_cdata_counts_characters_not_bytes() {
    let (before, rest) = split_cdata("é🙂<![CDATA[漢]]>ü");
    assert_eq!(before, "é🙂");
    assert_eq!(rest, Some((String::from("<![CDATA[漢]]>"), String::from("ü"))));
    assert_eq!(split_cdata(""), (String::new(), None));
    assert_eq!(split_cdata("<![CDATA[]]"), (String::from("<![CDATA[]]"), None));
}

#[test]
fn attribute_values_are_written_as_they_are() {
    let e = XMLElement::new("a").attr("x", "1<2 & \"q\"").attr("y", "<![CDATA[z]]>");
    assert_eq!(e.to_string(), "<a x=\"1<2 & \"q\"\" y=\"<![CDATA[z]]>\"/>");
}

#[test]
fn attribute_value_is_printed_when_it_is_added() {
    let e = XMLElement::new("a")
        .attr("int", -7)
        .attr("float", 2.5f64)
        .attr("bool", true)
        .attr("char", 'c')
        .attr("string", String::from("s"));
    assert_eq!(
        e.attrs,
        Some(vec![
            XMLAttr { name: "int".to_string(), value: "-7".to_string() },
            XMLAttr { name: "float".to_string(), value: "2.5".to_string() },
            XMLAttr { name: "bool".to_string(), value: "true".to_string() },
            XMLAttr { name: "char".to_string(), value: "c".to_string() },
            XMLAttr { name: "string".to_string(), value: "s".to_string() },
        ])
    );
    assert_eq!(e.to_string(), r#"<a int="-7" float="2.5" bool="true" char="c" string="s"/>"#);
}

#[test]
fn attributes_and_children_keep_the_order_of_addition() {
    let mut e = XMLElement::new("r");
    e.add_attr("z", 1);
    e.add_element(XMLElement::new("z"));
    e.add_attr("a", 2);
    e.set_text("t");
    e.add_element(XMLElement::new("a"));
    e.add_attr("m", 3);
    e.add_elements(vec![XMLElement::new("m"), XMLElement::new("b")]);
    assert_eq!(e.to_string(), r#"<r z="1" a="2" m="3"><z/><a/><m/><b/>t</r>"#);
    assert_eq!(
        e.to_string_pretty("\n", " "),
        "<r z=\"1\" a=\"2\" m=\"3\">\n <z/>\n <a/>\n <m/>\n <b/>\n t\n</r>"
    );
}

#[test]
fn pushed_parts_render_like_added_ones() {
    let mut pushed = XMLElement::new("r");
    pushed.push_attr(XMLAttr { name: "a".to_string(), value: "1".to_string() });
    pushed.push_empty_attr("e".to_string());
    pushed.push_element(XMLElement::new("c"));
    pushed.push_elements(vec![XMLElement::new("d"), XMLElement::new("e")]);
    pushed.put_text("t".to_string());
    let added = XMLElement::new("r")
        .attr("a", 1)
        .empty_attr("e")
        .element(XMLElement::new("c"))
        .elements(vec![XMLElement::new("d"), XMLElement::new("e")])
        .text("t");
    assert_eq!(pushed, added);
    assert_eq!(pushed.to_string(), r#"<r a="1" e><c/><d/><e/>t</r>"#);
}

#[test]
fn attributes_without_a_value_render_as_bare_tokens() {
    let mut e = XMLElement::new("input");
    e.add_empty_attr("disabled");
    assert_eq!(e.empty_attrs, Some(vec!["disabled".to_string()]));
    assert_eq!(e.to_string(), "<input disabled/>");
    e.add_attr("type", "checkbox");
    e.add_empty_attr(true);
    assert_eq!(e.to_string(), r#"<input type="checkbox" disabled true/>"#);
    e.set_text("x");
    assert_eq!(e.to_string(), r#"<input type="checkbox" disabled true>x</input>"#);
    assert_eq!(
        e.to_string_pretty("\n", "  "),
        "<input type=\"checkbox\" disabled true>\n  x\n</input>"
    );
    assert_eq!(
        XMLElement::new("a").empty_attr("b").empty_attr(1).to_string(),
        "<a b 1/>"
    );
}

#[test]
fn text_is_rendered_behind_the_children() {
    let first = XMLElement::new("a").text("t").element(XMLElement::new("c"));
    let second = XMLElement::new("a").element(XMLElement::new("c")).text("t");
    assert_eq!(first.to_string(), "<a><c/>t</a>");
    assert_eq!(first, second);
}

#[test]
fn set_text_and_set_name_replace() {
    let mut e = XMLElement::new("a").text("one");
    e.set_text("two");
    e.set_text(3);
    e.set_name("b");
    e.set_name("c");
    assert_eq!(e.to_string(), "<c>3</c>");
    assert_eq!(e.text, Some("3".to_string()));
}

#[test]
fn adding_no_children_leaves_children_absent() {
    let none: Vec<XMLElement> = vec![];
    let mut e = XMLElement::new("a");
    e.add_elements(none);
    assert_eq!(e.contents, None);
    assert_eq!(e.to_string(), "<a/>");
    let none: Vec<XMLElement> = vec![];
    e.add_elements_with_name("x", none);
    assert_eq!(e, XMLElement::new("a"));
    e.push_elements(vec![]);
    assert_eq!(e, XMLElement::new("a"));
}

#[test]
fn present_but_empty_parts_open_the_element() {
    let mut e = XMLElement::new("a");
    e.contents = Some(vec![]);
    assert_eq!(e.to_string(), "<a></a>");
    assert_eq!(e.to_string_pretty("\n", " "), "<a>\n</a>");
    let e = XMLElement::new("a").text("");
    assert_eq!(e.to_string(), "<a></a>");
    assert_eq!(e.to_string_pretty("\n", " "), "<a>\n</a>");
    let mut e = XMLElement::new("a");
    e.attrs = Some(vec![]);
    e.empty_attrs = Some(vec![]);
    assert_eq!(e.to_string(), "<a/>");
}

#[test]
fn shared_name_is_given_to_every_added_child() {
    let mut e = XMLElement::new("r");
    let children = vec![
        XMLElement::new("one").attr("k", 1),
        XMLElement::new("two").text("t"),
    ];
    e.add_elements_with_name("Name", children);
    assert_eq!(e.to_string(), r#"<r><Name k="1"/><Name>t</Name></r>"#);
}

#[test]
fn copy_of_an_element_is_equal_and_independent() {
    let source = family().empty_attr("flag");
    let mut copy = XMLElement::from(&source);
    assert_eq!(copy, source);
    assert_eq!(copy.clone(), source);
    copy.set_name("other");
    assert_ne!(copy, source);
    assert_eq!(source.to_string(), family().empty_attr("flag").to_string());
    let parent = XMLElement::new("p").element(&source).element(&source);
    assert_eq!(
        parent.to_string(),
        format!("<p>{}{}</p>", source.to_string(), source.to_string())
    );
}

#[test]
fn pretty_rendering_indents_by_depth() {
    let expected = "<person age=\"28\" id=\"p1\">\n  <child age=\"4\">\n    <toy>\n      ball\n    </toy>\n    <pet/>\n    Jane\n  </child>\n  John\n</person>";
    assert_eq!(family().to_string_pretty("\n", "  "), expected);
}

#[test]
fn pretty_rendering_of_the_documented_point() {
    let point = XMLElement::new("custom_name_here")
        .attr("lat", 43.38f32)
        .attr("lon", 60.11f32)
        .attr("active", true)
        .element(XMLElement::new("Identifier").text("p1"));
    let expected = r#"<custom_name_here lat="43.38" lon="60.11" active="true">
  <Identifier>
    p1
  </Identifier>
</custom_name_here>"#;
    assert_eq!(point.to_string_pretty("\n", "  "), expected);
    assert_eq!(
        point.to_string(),
        r#"<custom_name_here lat="43.38" lon="60.11" active="true"><Identifier>p1</Identifier></custom_name_here>"#
    );
}

#[test]
fn pretty_rendering_with_carriage_return_line_feed() {
    let e = XMLElement::new("a").element(XMLElement::new("b").text("x")).text("t");
    assert_eq!(
        e.to_string_pretty("\r\n", "\t"),
        "<a>\r\n\t<b>\r\n\t\tx\r\n\t</b>\r\n\tt\r\n</a>"
    );
}

#[test]
fn pretty_rendering_with_a_newline_that_breaks_no_line() {
    let e = XMLElement::new("a").element(XMLElement::new("b")).text("t");
    assert_eq!(e.to_string_pretty(" | ", "--"), "<a> | --<b/> | t | </a>");
    assert_eq!(e.to_string_pretty("", ""), "<a><b/>t</a>");
    assert_eq!(e.to_string_pretty("", ""), e.to_string());
    assert_eq!(e.to_string_pretty("", "  "), "<a>  <b/>t</a>");
}

#[test]
fn lines_of_the_text_are_indented_one_by_one() {
    let e = XMLElement::new("a").text("l1\nl2\r\nl3\n");
    assert_eq!(e.to_string(), "<a>l1\nl2\r\nl3\n</a>");
    assert_eq!(e.to_string_pretty("\n", " "), "<a>\n l1\n l2\n l3\n</a>");
    let e = XMLElement::new("a").text("\n\nx");
    assert_eq!(e.to_string_pretty("\n", "-"), "<a>\n-\n-\n-x\n</a>");
    let e = XMLElement::new("a").text("\n");
    assert_eq!(e.to_string_pretty("\n", "-"), "<a>\n-\n</a>");
}

#[test]
fn carriage_return_ends_a_line_only_before_a_line_feed() {
    let inner = XMLElement::new("a").text("x\ry\r");
    assert_eq!(inner.to_string_pretty("\n", " "), "<a>\n x\ry\r\n</a>");
    let outer = XMLElement::new("p").element(inner);
    assert_eq!(outer.to_string_pretty("\n", " "), "<p>\n <a>\n  x\ry\n </a>\n</p>");
}

#[test]
fn pretty_rendering_with_prolog_starts_with_the_prolog_line() {
    let e = XMLElement::new("name").text("Some content").element(XMLElement::new("point"));
    let expected = r#"<?xml version="1.0" encoding="UTF-8"?>
<name>
  <point/>
  Some content
</name>"#;
    assert_eq!(e.to_string_pretty_prolog("\n", "  "), expected);
    assert_eq!(
        XMLElement::new("a").to_string_pretty_prolog("\r\n", "  "),
        "<?xml version=\"1.0\" encoding=\"UTF-8\"?>\r\n<a/>"
    );
    assert_eq!(
        XMLElement::new("a").to_string_pretty_prolog("", ""),
        "<?xml version=\"1.0\" encoding=\"UTF-8\"?><a/>"
    );
}

#[test]
fn pretty_and_compact_agree_but_for_padding() {
    let trees = vec![
        family(),
        XMLElement::new("a").text("x y\nz\r\n"),
        XMLElement::new("a b").attr("k", " v ").element(XMLElement::new("c").text(" ")),
        XMLElement::new("a").text("<![CDATA[ 1 < 2 ]]> & more"),
    ];
    for tree in &trees {
        for (newline, indent) in [("\n", "  "), ("\r\n", "\t"), ("", ""), (" | ", "--"), ("\n", "")] {
            let padding = format!("{}{}\n\r", newline, indent);
            assert_eq!(
                without(&tree.to_string_pretty(newline, indent), &padding),
                without(&tree.to_string(), &padding)
            );
        }
    }
    let plain = XMLElement::new("a")
        .attr("k", "v")
        .element(XMLElement::new("b").text("x"))
        .element(XMLElement::new("c"))
        .text("y");
    let compact = plain.to_string();
    assert_eq!(compact, r#"<a k="v"><b>x</b><c/>y</a>"#);
    assert_eq!(without(&plain.to_string_pretty("\n", "\t"), "\n\t\r"), compact);
}

#[test]
fn names_and_values_of_any_script_pass_through() {
    let e = XMLElement::new("être").attr("clé", "välue").text("漢字 & 🙂");
    assert_eq!(e.to_string(), "<être clé=\"välue\">漢字 &amp; 🙂</être>");
    assert_eq!(e.to_string_pretty("\n", "→"), "<être clé=\"välue\">\n→漢字 &amp; 🙂\n</être>");
}

fn words(alphabet: &[&str], max_len: usize) -> Vec<String> {
    let mut all = vec![String::new()];
    let mut last = vec![String::new()];
    for _ in 0..max_len {
        let mut next = Vec::new();
        for w in &last {
            for a in alphabet {
                next.push(format!("{}{}", w, a));
            }
        }
        all.extend(next.iter().cloned());
        last = next;
    }
    all
}

fn replaced_in_order(text: &str) -> String {
    text.replace("&", "&amp;")
        .replace("<", "&lt;")
        .replace(">", "&gt;")
        .replace("'", "&apos;")
        .replace("\"", "&quot;")
}

#[test]
fn escaping_is_five_replacements_in_order() {
    for text in words(&["&", "<", ">", "'", "\"", "a", ";", "lt"], 4) {
        assert_eq!(text_of(&text), replaced_in_order(&text), "{:?}", text);
    }
}

#[test]
fn cdata_section_is_found_like_a_substring() {
    for text in words(&["<![CDATA[", "]]>", "x", "]", "<", "é"], 5) {
        let found = text.find("<![CDATA[").and_then(|start| {
            text[start..].find("]]>").map(|end| (start, start + end + 3))
        });
        let expected = match found {
            Some((start, end)) => (
                text[..start].to_string(),
                Some((text[start..end].to_string(), text[end..].to_string())),
            ),
            None => (text.clone(), None),
        };
        assert_eq!(split_cdata(&text), expected, "{:?}", text);
        let rendered = match &expected {
            (before, Some((section, after))) => {
                format!("{}{}{}", replaced_in_order(before), section, replaced_in_order(after))
            }
            (all, None) => replaced_in_order(all),
        };
        assert_eq!(text_of(&text), rendered, "{:?}", text);
    }
}

fn rendered_by_hand(text: &str) -> String {
    match split_cdata(text) {
        (before, Some((section, after))) => {
            format!("{}{}{}", replaced_in_order(&before), section, replaced_in_order(&after))
        }
        (all, None) => replaced_in_order(&all),
    }
}

fn opening_by_hand(e: &XMLElement) -> String {
    let mut ret = format!("<{}", e.name);
    for a in e.attrs.iter().flatten() {
        ret.push_str(&format!(" {}=\"{}\"", a.name, a.value));
    }
    for token in e.empty_attrs.iter().flatten() {
        ret.push_str(&format!(" {}", token));
    }
    ret
}

fn compact_by_hand(e: &XMLElement) -> String {
    let mut ret = opening_by_hand(e);
    if e.contents.is_none() && e.text.is_none() {
        ret.push_str("/>");
        return ret;
    }
    ret.push('>');
    for c in e.contents.iter().flatten() {
        ret.push_str(&compact_by_hand(c));
    }
    if let Some(text) = &e.text {
        ret.push_str(&rendered_by_hand(text));
    }
    ret.push_str(&format!("</{}>", e.name));
    ret
}

fn pretty_by_hand(e: &XMLElement, newline: &str, indent: &str) -> String {
    let mut ret = opening_by_hand(e);
    if e.contents.is_none() && e.text.is_none() {
        ret.push_str("/>");
        return ret;
    }
    ret.push('>');
    let mut body = String::new();
    for c in e.contents.iter().flatten() {
        body.push_str(&pretty_by_hand(c, newline, indent));
        body.push_str(newline);
    }
    if let Some(text) = &e.text {
        body.push_str(&rendered_by_hand(text));
    }
    for l in body.lines() {
        ret.push_str(newline);
        ret.push_str(indent);
        ret.push_str(l);
    }
    ret.push_str(newline);
    ret.push_str(&format!("</{}>", e.name));
    ret
}

fn small_trees() -> Vec<XMLElement> {
    let texts = ["", "t", "a\nb", "x\r", "\r\n", "1<2", "<![CDATA[\n<\r\n]]>\n&"];
    let mut leaves = vec![XMLElement::new("l"), XMLElement::new("l").attr("k", "v\n")];
    for t in texts {
        leaves.push(XMLElement::new("l").text(t));
        leaves.push(XMLElement::new("l").empty_attr("e").attr("k", 1).text(t));
    }
    let mut trees = leaves.clone();
    for (i, a) in leaves.iter().enumerate() {
        for b in leaves.iter().skip(i % 3).step_by(3) {
            let pair = XMLElement::new("p").element(a).element(b);
            trees.push(XMLElement::new("r").attr("n", i).element(&pair).element(a).text("end\r"));
            trees.push(pair.text("\n"));
        }
    }
    let mut hollow = XMLElement::new("h");
    hollow.contents = Some(vec![]);
    trees.push(XMLElement::new("r").element(hollow));
    trees
}

#[test]
fn rendering_agrees_with_rendering_by_hand() {
    let trees = small_trees();
    assert!(trees.len() > 100);
    for tree in &trees {
        assert_eq!(tree.to_string(), compact_by_hand(tree));
        for (newline, indent) in [("\n", "  "), ("\r\n", "\t"), ("", ""), ("\n", ""), ("|", "\r")] {
            assert_eq!(
                tree.to_string_pretty(newline, indent),
                pretty_by_hand(tree, newline, indent)
            );
            assert_eq!(
                tree.to_string_pretty_prolog(newline, indent),
                format!(
                    "<?xml version=\"1.0\" encoding=\"UTF-8\"?>{}{}",
                    newline,
                    pretty_by_hand(tree, newline, indent)
                )
            );
            let padding = format!("{}{}\n\r", newline, indent);
            assert_eq!(
                without(&tree.to_string_pretty(newline, indent), &padding),
                without(&tree.to_string(), &padding)
            );
        }
    }
}
