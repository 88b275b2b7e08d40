use simple_xml_serialize::chars::{append_chars, append_str, chars_of, same_text, string_of};
use simple_xml_serialize::text::{char_data_into, indent_into};

#[test]
fn characters_of_a_string_and_back() {
    for s in ["", "a", "abc", "é🙂漢", "a\r\nb"] {
        let chars = chars_of(s);
        assert_eq!(chars, s.chars().collect::<Vec<char>>());
        assert_eq!(string_of(&chars), s);
    }
    assert_eq!(chars_of("é🙂").len(), 2);
}

#[test]
fn appending_keeps_what_was_there() {
    let mut out = vec!['x'];
    append_chars(&mut out, &vec!['a', 'b']);
    append_chars(&mut out, &vec![]);
    append_str(&mut out, "cé");
    append_str(&mut out, "");
    assert_eq!(out, vec!['x', 'a', 'b', 'c', 'é']);
}

#[test]
fn same_text_compares_character_by_character() {
    assert!(same_text("", ""));
    assert!(same_text("rename", "rename"));
    assert!(same_text("é", "é"));
    assert!(!same_text("rename", "renam"));
    assert!(!same_text("renam", "rename"));
    assert!(!same_text("rename", "renamE"));
    assert!(!same_text("", "a"));
}

#[test]
fn character_data_is_appended_escaped() {
    let mut out = chars_of("<t>");
    char_data_into(&mut out, "a<b<![CDATA[<>]]>c>d");
    assert_eq!(string_of(&out), "<t>a&lt;b<![CDATA[<>]]>c&gt;d");
    char_data_into(&mut out, "");
    assert_eq!(string_of(&out), "<t>a&lt;b<![CDATA[<>]]>c&gt;d");
}

#[test]
fn each_line_of_a_block_gets_its_prefix() {
    let block = |body: &str, newline: &str, indent: &str| {
        let mut out = chars_of(">");
        indent_into(&mut out, &chars_of(body), &chars_of(newline), &chars_of(indent));
        string_of(&out)
    };
    assert_eq!(block("", "\n", "  "), ">");
    assert_eq!(block("a", "\n", "  "), ">\n  a");
    assert_eq!(block("a\nb", "\n", "  "), ">\n  a\n  b");
    assert_eq!(block("a\nb\n", "\n", "  "), ">\n  a\n  b");
    assert_eq!(block("a\r\nb\r\n", "\n", "  "), ">\n  a\n  b");
    assert_eq!(block("a\r\n\r\nb", "\r\n", "\t"), ">\r\n\ta\r\n\t\r\n\tb");
    assert_eq!(block("\n", "\n", "-"), ">\n-");
    assert_eq!(block("\r", "\n", "-"), ">\n-\r");
    assert_eq!(block("\r\n", "\n", "-"), ">\n-");
    assert_eq!(block("a\r", "\n", "-"), ">\n-a\r");
    assert_eq!(block("a\rb\n\rc", "\n", "-"), ">\n-a\rb\n-\rc");
    assert_eq!(block("a\r\r\n", "\n", "-"), ">\n-a\r");
    assert_eq!(block("a\nb", "", ""), ">ab");
    assert_eq!(block("a b", " ", " "), ">  a b");
}

fn words(alphabet: &[&str], max_len: usize) -> Vec<String> {
    let mut all = vec![String::new()];
    let mut last = vec![String::new()];
    for _ in 0..max_len {
        let mut next = Vec::new();
        for w in &last {
            for a in alphabet {
                next.push(format!("{}{}", w, a));
            }
        }
        all.extend(next.iter().cloned());
        last = next;
    }
    all
}

#[test]
fn lines_are_those_of_the_standard_library() {
    for body in words(&["a", "\r", "\n", " "], 6) {
        for (newline, indent) in [("\n", "\t"), ("\r\n", " "), ("", "")] {
            let mut out = Vec::new();
            indent_into(&mut out, &chars_of(&body), &chars_of(newline), &chars_of(indent));
            let mut expected = String::new();
            for l in body.lines() {
                expected.push_str(newline);
                expected.push_str(indent);
                expected.push_str(l);
            }
            assert_eq!(string_of(&out), expected, "{:?}", body);
        }
    }
}
