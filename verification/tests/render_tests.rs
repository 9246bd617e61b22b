use lib::chars::upperish;
use lib::head::{colon_head_html, head};
use lib::parse::{parse, Item};
use lib::refs::{match_key, ref_html};
use lib::render::{match_keys, render_body, render_document, render_line};
use lib::page::render_page;
use lib::text::esc;
use lib::elements::inline_min;

fn strings(v: &[&str]) -> Vec<String> {
    v.iter().map(|s| s.to_string()).collect()
}

fn item(level: usize, text: &str, literal: bool) -> Item {
    Item { level, text: text.to_string(), literal }
}

fn inline(s: &str, self_ix: usize, texts: &[String]) -> String {
    lib::elements::inline(s, self_ix, texts)
}

#[test]
fn esc_replaces_the_three_specials() {
    assert_eq!(esc("a<b>&c"), "a&lt;b&gt;&amp;c");
    assert_eq!(esc(""), "");
    assert_eq!(esc("plain text"), "plain text");
}

#[test]
fn esc_output_has_no_angle_brackets() {
    let out = esc("<<>><tag attr=\"x\">");
    assert!(!out.contains('<') && !out.contains('>'));
}

#[test]
fn esc_of_concatenation() {
    assert_eq!(esc("a<b&c>d"), format!("{}{}", esc("a<b"), esc("&c>d")));
}

#[test]
fn upperish_classes() {
    assert!(upperish('A'));
    assert!(!upperish('a'));
    assert!(upperish('é'));
    assert!(!upperish('1'));
    assert!(!upperish(' '));
}

#[test]
fn head_starter() {
    let (h, rest) = head("- Item");
    assert_eq!(h, "<span class=start>- </span>");
    assert_eq!(rest, "Item");
    let (h, rest) = head("* Star");
    assert_eq!(h, "<span class=start>* </span>");
    assert_eq!(rest, "Star");
}

#[test]
fn head_identifier_keeps_the_space() {
    let (h, rest) = head("1.2 Item");
    assert_eq!(h, "<span class=start>1.2</span>");
    assert_eq!(rest, " Item");
    let (h, rest) = head("1 [x] Done");
    assert_eq!(h, "<span class=start>1</span> <span class=\"qual cb\" onclick=\"cb(event,this)\">\u{2611} </span>");
    assert_eq!(rest, "Done");
    let (h, rest) = head("2.1 [_] TODO: later");
    assert_eq!(h, "<span class=start>2.1</span> <span class=\"qual cb\" onclick=\"cb(event,this)\">\u{2610} </span><span class=op>TODO:</span>");
    assert_eq!(rest, " later");
    let (h, rest) = head("3 S: [x] Go");
    assert_eq!(h, "<span class=start>3</span><span class=op> S:</span>");
    assert_eq!(rest, " [x] Go");
    let (h, rest) = head("4  [x] two spaces");
    assert_eq!(h, "<span class=start>4</span>");
    assert_eq!(rest, "  [x] two spaces");
    let (h, rest) = head("... dots");
    assert_eq!(h, "");
    assert_eq!(rest, "... dots");
}

#[test]
fn head_operator() {
    let (h, rest) = head("TODO: fix");
    assert_eq!(h, "<span class=op>TODO:</span>");
    assert_eq!(rest, " fix");
}

#[test]
fn head_property() {
    let (h, rest) = head("Name: value");
    assert_eq!(h, "<span class=prop>Name:</span>");
    assert_eq!(rest, " value");
    let (h, rest) = head("Name:value");
    assert_eq!(h, "");
    assert_eq!(rest, "Name:value");
}

#[test]
fn head_property_with_comment() {
    let (h, rest) = head("AB (note): x");
    assert_eq!(h, "<span class=prop>AB <span class=cmt>(note)</span>:</span>");
    assert_eq!(rest, " x");
}

#[test]
fn head_checkbox_and_marker() {
    let (h, rest) = head("[x] Done");
    assert_eq!(h, "<span class=\"qual cb\" onclick=\"cb(event,this)\">\u{2611} </span>");
    assert_eq!(rest, "Done");
    let (h, rest) = head("[_] Open");
    assert_eq!(h, "<span class=\"qual cb\" onclick=\"cb(event,this)\">\u{2610} </span>");
    assert_eq!(rest, "Open");
    let (h, rest) = head("[O] Half");
    assert_eq!(h, "<span class=\"qual cb\" onclick=\"cb(event,this)\">\u{25d4} </span>");
    assert_eq!(rest, "Half");
    let (h, rest) = head("S: Start");
    assert_eq!(h, "<span class=op>S: </span>");
    assert_eq!(rest, "Start");
    let (h, rest) = head("- | Choice");
    assert_eq!(h, "<span class=start>- </span><span class=op>| </span>");
    assert_eq!(rest, "Choice");
}

#[test]
fn head_rest_is_a_suffix() {
    for text in ["- [x] 1 TODO: a", "plain", "2 x", "AB CD: e", ""] {
        let (h, rest) = head(text);
        assert!(text.ends_with(rest.as_str()));
        assert_eq!(h.is_empty(), rest == text);
    }
}

#[test]
fn colon_head_comments() {
    assert_eq!(
        colon_head_html("A (b) c (d", "op"),
        "<span class=op>A <span class=cmt>(b)</span> c (d</span>"
    );
    assert_eq!(colon_head_html("X<Y:", "prop"), "<span class=prop>X&lt;Y:</span>");
}

#[test]
fn match_key_strips_and_lowercases() {
    assert_eq!(match_key("  - [x] 1.2 Hello World"), "hello world");
    assert_eq!(match_key("2. Step"), "step");
    assert_eq!(match_key("... x"), "... x");
    assert_eq!(match_key("Hello"), "hello");
    assert_eq!(match_key("- + * Item"), "item");
}

#[test]
fn match_key_is_fully_stripped() {
    let k = match_key("S: [ ] 3 - Thing");
    assert_eq!(k, "thing");
    assert_eq!(match_key(&k), k);
}

#[test]
fn ref_external() {
    assert_eq!(
        ref_html("https://x.org/a<b", 0, &[]),
        "<a class=ref href=\"https://x.org/a&lt;b\">&lt;https://x.org/a&lt;b&gt;</a>"
    );
    assert_eq!(
        ref_html("file:doc.txt", 0, &[]),
        "<a class=ref href=\"doc.txt\">&lt;file:doc.txt&gt;</a>"
    );
}

#[test]
fn ref_to_item() {
    let texts = strings(&["plan", "step two items", "step two"]);
    assert_eq!(
        ref_html("Plan/Step two", 0, &texts),
        "<a class=ref href=\"#i1\" onclick=\"go('i1');return false\">&lt;Plan/Step two&gt;</a>"
    );
}

#[test]
fn ref_never_targets_itself() {
    let texts = strings(&["x", "step", "step b"]);
    assert_eq!(
        ref_html("Step", 1, &texts),
        "<a class=ref href=\"#i2\" onclick=\"go('i2');return false\">&lt;Step&gt;</a>"
    );
    let texts = strings(&["x", "step"]);
    assert_eq!(ref_html("Step", 1, &texts), "<span class=ref>&lt;Step&gt;</span>");
}

#[test]
fn ref_two_digit_index() {
    let mut v: Vec<&str> = vec!["a"; 12];
    v.push("target");
    let texts = strings(&v);
    assert_eq!(
        ref_html("target", 0, &texts),
        "<a class=ref href=\"#i12\" onclick=\"go('i12');return false\">&lt;target&gt;</a>"
    );
}

#[test]
fn ref_unresolved() {
    assert_eq!(ref_html("nothing", 0, &strings(&["a"])), "<span class=ref>&lt;nothing&gt;</span>");
    assert_eq!(ref_html("a/", 0, &strings(&["a", "b"])), "<span class=ref>&lt;a/&gt;</span>");
    assert_eq!(ref_html(" a / b ", 0, &strings(&["x", "b"])),
        "<a class=ref href=\"#i1\" onclick=\"go('i1');return false\">&lt; a / b &gt;</a>");
}

#[test]
fn inline_qualifiers_tags_keywords() {
    assert_eq!(
        inline("see [opt] and #tag; TODO now", 0, &[]),
        "see <span class=qual>[opt]</span> and <span class=tag>#tag</span><span class=qual>;</span> <span class=todo>TODO</span> now"
    );
}

#[test]
fn inline_markup() {
    assert_eq!(inline("*bold* and /it/ _u_", 0, &[]), "<b>bold</b> and <i>it</i> <u>u</u>");
    assert_eq!(inline("a*b*", 0, &[]), "a*b*");
    assert_eq!(inline("* x*", 0, &[]), "* x*");
    assert_eq!(inline("** x", 0, &[]), "** x");
}

#[test]
fn inline_comments_quotes_refs() {
    let texts = strings(&["x"]);
    assert_eq!(
        inline("(see <x>) \"q\"", 5, &texts),
        "<span class=cmt>(see <a class=ref href=\"#i0\" onclick=\"go('i0');return false\">&lt;x&gt;</a>)</span> <span class=cmt>\"q\"</span>"
    );
    assert_eq!(inline("<x>", 0, &texts), "<span class=ref>&lt;x&gt;</span>");
}

#[test]
fn inline_keywords_need_word_ends() {
    assert_eq!(inline("ENDING END", 0, &[]), "ENDING <span class=start>END</span>");
    assert_eq!(inline("xSKIP FIXME", 0, &[]), "xSKIP <span class=todo>FIXME</span>");
}

#[test]
fn inline_unclosed_is_escaped() {
    assert_eq!(inline("a < b", 0, &[]), "a &lt; b");
    assert_eq!(inline("[open (x \"y", 0, &[]), "[open (x \"y");
    assert_eq!(inline("# x", 0, &[]), "# x");
}

#[test]
fn inline_min_only_refs() {
    assert_eq!(inline_min("a <b> c", 0, &[]), "a <span class=ref>&lt;b&gt;</span> c");
    assert_eq!(inline_min("a & *b*", 0, &[]), "a &amp; *b*");
}

#[test]
fn render_line_literal_and_plain() {
    assert_eq!(render_line(&item(0, "a<b", true), 0, &[]), "<span class=lit>a&lt;b</span>");
    assert_eq!(render_line(&item(0, "- Item *x*", false), 0, &[]), "<span class=start>- </span>Item <b>x</b>");
}

#[test]
fn parse_levels_and_literal_blocks() {
    let items = parse("Top\n\tChild\n   Three\n\n\\\n  raw\n\\\nEnd\r\n");
    let got: Vec<(usize, String, bool)> = items.iter().map(|it| (it.level, it.text.clone(), it.literal)).collect();
    assert_eq!(
        got,
        vec![
            (0, "Top".to_string(), false),
            (1, "Child".to_string(), false),
            (1, "Three".to_string(), false),
            (0, "\\".to_string(), true),
            (0, "  raw".to_string(), true),
            (0, "\\".to_string(), true),
            (0, "End".to_string(), false),
        ]
    );
}

#[test]
fn parse_nested_backslash_stays_literal() {
    let items = parse("\\\n\t\\\nx\n\\\ny");
    let got: Vec<(usize, bool)> = items.iter().map(|it| (it.level, it.literal)).collect();
    assert_eq!(got, vec![(0, true), (1, true), (0, true), (0, true), (0, false)]);
}

#[test]
fn parse_without_backslash_has_no_literal() {
    let items = parse("a\n\tb\n\t\tc  \n");
    assert_eq!(items.len(), 3);
    assert!(items.iter().all(|it| !it.literal));
    assert_eq!(items[2].text, "c");
    assert_eq!(items[2].level, 2);
    assert!(parse("").is_empty());
    assert!(parse("\n \n\t\n").is_empty());
}

#[test]
fn body_nests_details() {
    let items = vec![item(0, "A", false), item(1, "B", false), item(0, "C", false)];
    let keys = match_keys(&items);
    assert_eq!(keys, strings(&["a", "b", "c"]));
    assert_eq!(
        render_body(&items, &keys),
        "<details class=node open data-l=0 data-t=\"A\" id=i0><summary>A</summary><div class=kids>\
<div class=\"item leaf node\" data-t=\"B\" id=i1>B</div></div></details>\
<div class=\"item leaf node\" data-t=\"C\" id=i2>C</div>"
    );
}

#[test]
fn body_closes_what_is_left_open() {
    let items = vec![item(0, "A", false), item(1, "B", false), item(2, "C", false)];
    let keys = match_keys(&items);
    let body = render_body(&items, &keys);
    assert!(body.ends_with("<div class=\"item leaf node\" data-t=\"C\" id=i2>C</div></div></details></div></details>"));
    assert_eq!(body.matches("<details").count(), body.matches("</details>").count());
}

#[test]
fn body_data_t_quotes() {
    let items = vec![item(0, "say \"hi\"", false)];
    let keys = match_keys(&items);
    assert_eq!(
        render_body(&items, &keys),
        "<div class=\"item leaf node\" data-t=\"say &amp;quot;hi&amp;quot;\" id=i0>say <span class=cmt>\"hi\"</span></div>"
    );
}

#[test]
fn page_frame() {
    let page = render_page("A&B", "1.0", "<p>x</p>");
    assert!(page.starts_with("<!doctype html><html><head><meta charset=utf-8>"));
    assert!(page.contains("<title>A&amp;B</title>"));
    assert!(page.contains("<h1>A&amp;B</h1>"));
    assert!(page.contains("<div id=root><p>x</p></div>"));
    assert!(page.contains("rendered by hl2web 1.0 \u{2014} <a class=ref href=\"https://isene.org/hyperlist/\">HyperList</a>"));
    assert!(page.ends_with("</script></body></html>"));
}

#[test]
fn document_end_to_end() {
    let page = render_document("Plan\n\tStep <plan>\n", "T", "0");
    assert!(page.contains(
        "<div id=root><details class=node open data-l=0 data-t=\"Plan\" id=i0><summary>Plan</summary><div class=kids>\
<div class=\"item leaf node\" data-t=\"Step &lt;plan&gt;\" id=i1>Step <a class=ref href=\"#i0\" onclick=\"go('i0');return false\">&lt;plan&gt;</a></div>\
</div></details></div>"
    ));
}

fn decode(s: &str) -> String {
    let mut out = String::new();
    let mut rest = s;
    while !rest.is_empty() {
        if let Some(r) = rest.strip_prefix("&amp;") {
            out.push('&');
            rest = r;
        } else if let Some(r) = rest.strip_prefix("&lt;") {
            out.push('<');
            rest = r;
        } else if let Some(r) = rest.strip_prefix("&gt;") {
            out.push('>');
            rest = r;
        } else {
            let c = rest.chars().next().unwrap();
            out.push(c);
            rest = &rest[c.len_utf8()..];
        }
    }
    out
}

#[test]
fn esc_decodes_back() {
    for s in ["a<b>&c", "&amp;", "&lt;&&gt;", "", "x & y < z > w"] {
        let e = esc(s);
        assert_eq!(decode(&e), s);
        for (i, _) in e.match_indices('&') {
            let t = &e[i..];
            assert!(t.starts_with("&amp;") || t.starts_with("&lt;") || t.starts_with("&gt;"));
        }
    }
}

#[test]
fn colon_head_decodes_back() {
    for text in ["A (b) c (d:", "X<Y (&) :", "plain:"] {
        let h = colon_head_html(text, "prop");
        assert!(h.starts_with("<span class=prop>") && h.ends_with("</span>"));
        let body = &h["<span class=prop>".len()..h.len() - "</span>".len()];
        let stripped = body.replace("<span class=cmt>", "").replace("</span>", "");
        assert_eq!(decode(&stripped), text);
    }
}

#[test]
fn inline_writes_only_own_tags() {
    let own = ["<span class=", "</span>", "<a class=ref href=", "</a>", "<b>", "</b>", "<i>", "</i>", "<u>", "</u>"];
    let texts = strings(&["x", "y"]);
    for s in ["a < b > c", "<x> (<y> <z) \"<q>\" [<]", "*<b>* /</i>/ _<u>_ #t<a> ; TODO <", "<<>>"] {
        let out = inline(s, 0, &texts);
        for (i, _) in out.match_indices('<') {
            assert!(own.iter().any(|t| out[i..].starts_with(t)), "{} at {} in {}", s, i, out);
        }
    }
}

#[test]
fn parse_items_follow_their_lines() {
    let items = parse("\t   x  \n  \n   \ty\t\n");
    let got: Vec<(usize, String)> = items.iter().map(|it| (it.level, it.text.clone())).collect();
    assert_eq!(got, vec![(2, "x".to_string()), (2, "y".to_string())]);
}

#[test]
fn parse_unclosed_block_runs_to_the_end() {
    let items = parse("a\n\t\\\n\tb\n\\\nc");
    let got: Vec<bool> = items.iter().map(|it| it.literal).collect();
    assert_eq!(got, vec![false, true, true, true, true]);
}
