use applepi::markdown::{
    convert_inline, convert_inline_line, find_marker, find_single, md_to_tg_html, strip_atx_header,
    strip_ordered_item,
};

fn chars(s: &str) -> Vec<char> {
    s.chars().collect()
}

#[test]
fn marks_within_a_line() {
    assert_eq!(convert_inline("`a*b*`"), "<code>a*b*</code>");
    assert_eq!(convert_inline("**b** __c__"), "<b>b</b> <b>c</b>");
    assert_eq!(convert_inline("*i* _j_"), "<i>i</i> <i>j</i>");
    assert_eq!(convert_inline("~~s~~"), "<s>s</s>");
    assert_eq!(convert_inline("[*t*](u?a&amp;b)"), "<a href=\"u?a&amp;b\"><i>t</i></a>");
    assert_eq!(convert_inline("a*b*c"), "a*b*c");
    assert_eq!(convert_inline("字_b_"), "字_b_");
    assert_eq!(convert_inline("**open"), "**open");
    assert_eq!(convert_inline("* x*"), "* x*");
    assert_eq!(convert_inline("[a] (b)"), "[a] (b)");
    assert_eq!(convert_inline("[a](b"), "[a](b");
    assert_eq!(convert_inline("[x](a\"b)"), "[x](a\"b)");
    assert_eq!(convert_inline("[\"x\"](ab)"), "<a href=\"ab\">\"x\"</a>");
    assert_eq!(convert_inline("_a_b_"), "<i>a_b</i>");
    assert_eq!(convert_inline("*a*b"), "*a*b");
    assert_eq!(convert_inline(""), "");
}

#[test]
fn marks_are_found() {
    assert_eq!(find_marker(&chars("a**b**"), 2, "**"), Some(4));
    assert_eq!(find_marker(&chars("ab"), 0, ""), None);
    assert_eq!(find_marker(&chars("ab"), 5, "a"), None);
    assert_eq!(find_single(&chars("ab*"), 0, '*'), Some(2));
    assert_eq!(find_single(&chars("a **b*"), 0, '*'), Some(5));
    assert_eq!(find_single(&chars("a *"), 0, '*'), None);
    assert_eq!(find_single(&chars("a*b"), 0, '*'), None);
    assert_eq!(find_single(&chars("字*b*."), 0, '*'), Some(3));
}

#[test]
fn lines_with_structure() {
    assert_eq!(strip_atx_header("## a"), Some("a".to_string()));
    assert_eq!(strip_atx_header("#"), Some("".to_string()));
    assert_eq!(strip_atx_header("#a"), None);
    assert_eq!(strip_atx_header("####### a"), None);
    assert_eq!(strip_ordered_item("12. x"), Some("x".to_string()));
    assert_eq!(strip_ordered_item("3."), Some("".to_string()));
    assert_eq!(strip_ordered_item("3.x"), None);
    assert_eq!(strip_ordered_item("x"), None);
    assert_eq!(convert_inline_line("# *a*"), "<b>*a*</b>");
    assert_eq!(convert_inline_line("- *a*"), "- <i>a</i>");
    assert_eq!(convert_inline_line("* *a*"), "* <i>a</i>");
    assert_eq!(convert_inline_line("1. **a**"), "1. <b>a</b>");
}

#[test]
fn text_is_escaped_and_code_is_verbatim() {
    assert_eq!(md_to_tg_html("a < b & c > d"), "a &lt; b &amp; c &gt; d");
    assert_eq!(
        md_to_tg_html("x\n```rust\nlet a = *b;\n\n```\ny"),
        "x\n<pre><code>let a = *b;</code></pre>\ny"
    );
    assert_eq!(md_to_tg_html("~~~\n**a**"), "<pre><code>**a**</code></pre>");
    assert_eq!(md_to_tg_html("```\n~~~\n```"), "<pre><code>~~~</code></pre>");
    assert_eq!(md_to_tg_html("a\r\n"), "a\n");
    assert_eq!(md_to_tg_html(""), "");
}

#[test]
fn ordinary_text_comes_through_unchanged() {
    let text = "一段文字, with 1. numbers\n- item\n\n2. two (x) \"y\"";
    assert_eq!(md_to_tg_html(text), text);
}

/// Reads HTML as far as tags go: known tags only, nested, all closed.
fn reads_well(html: &str) -> bool {
    let mut open: Vec<String> = vec![];
    let mut rest = html;
    while let Some(at) = rest.find(['<', '>']) {
        if rest.as_bytes()[at] == b'>' {
            return false;
        }
        let Some(end) = rest[at..].find('>') else { return false };
        let tag = &rest[at + 1..at + end];
        if let Some(name) = tag.strip_prefix('/') {
            if open.pop().as_deref() != Some(name) {
                return false;
            }
        } else if ["b", "i", "s", "code", "pre"].contains(&tag) {
            open.push(tag.to_string());
        } else if tag.starts_with("a href=\"") && tag.ends_with('"') {
            open.push("a".to_string());
        } else {
            return false;
        }
        rest = &rest[at + end + 1..];
    }
    open.is_empty()
}

#[test]
fn html_reads_well_whatever_the_marks() {
    for text in [
        "**a *b** c*",
        "[a **b](c) d**",
        "`a [x`](y)",
        "# <b>\n```\n</pre>\n",
        "[[a](b)](c)",
        "~~**a~~**",
        "&lt;<>&amp",
    ] {
        assert!(reads_well(&md_to_tg_html(text)), "{text}");
    }
}

#[test]
fn parts_on_lines_of_their_own_are_converted_by_themselves() {
    for a in ["", "x", "*x*\r", "# x\n", "1. x\n\n- y", "```\n*c*\n```"] {
        for b in ["", "*y*", "```\nz", "\n"] {
            let whole = md_to_tg_html(&format!("{a}\n{b}"));
            assert_eq!(whole, format!("{}\n{}", md_to_tg_html(a), md_to_tg_html(b)));
        }
    }
}

#[test]
fn open_code_reads_as_closed_at_the_end() {
    for md in ["```", "```rust\nlet a;", "x\n```\na\n\n", "```\na\n```\n```\nb\r\n"] {
        assert_eq!(md_to_tg_html(&format!("{md}\n```")), md_to_tg_html(md));
    }
    assert_eq!(md_to_tg_html("~~~\na\n~~~"), md_to_tg_html("~~~\na"));
}
