use crml::{Parser, Token, TokenType};

#[test]
fn blank_token_fields() {
    let t = Token::from_indent_ln(3, 7);
    assert_eq!(t.kind, TokenType::Raw);
    assert_eq!(t.raw, "\n");
    assert_eq!(t.html, "\n");
    assert_eq!(t.indent, 3);
    assert_eq!(t.line, 7);
    assert!(t.selector.is_none());
}

#[test]
fn comment_becomes_blank() {
    let t = Token::from_string("/ a comment".to_string(), 2, 5).unwrap();
    assert_eq!(t.kind, TokenType::Raw);
    assert_eq!(t.raw, "\n");
    assert_eq!(t.indent, 2);
    assert_eq!(t.line, 5);
}

#[test]
fn close_marker_is_not_comment() {
    let t = Token::from_string("/>rest".to_string(), 0, 0).unwrap();
    assert_eq!(t.kind, TokenType::Raw);
    assert_eq!(t.raw, "/>rest");
    assert_eq!(t.html, "/>rest");
}

#[test]
fn host_statement_token() {
    let t = Token::from_string("- let x = 1".to_string(), 0, 4).unwrap();
    assert_eq!(t.kind, TokenType::RustString);
    assert_eq!(t.raw, " let x = 1");
    assert_eq!(t.html, "");
}

#[test]
fn host_expression_token() {
    let t = Token::from_string("= a + b".to_string(), 0, 0).unwrap();
    assert_eq!(t.kind, TokenType::PushedRustString);
    assert_eq!(t.raw, " a + b");
}

#[test]
fn raw_html_token() {
    let t = Token::from_string("@<!DOCTYPE html>".to_string(), 0, 0).unwrap();
    assert_eq!(t.kind, TokenType::Html);
    assert_eq!(t.raw, "<!DOCTYPE html>");
    assert_eq!(t.html, "<!DOCTYPE html>");
}

#[test]
fn element_token_renders() {
    let t = Token::from_string("%div.c#i[k=v]".to_string(), 1, 2).unwrap();
    assert_eq!(t.kind, TokenType::Selector);
    assert_eq!(t.raw, "div.c#i[k=v]");
    assert_eq!(t.html, "<div class=\"c \" id=\"i\" k=v>");
    assert_eq!(t.indent, 1);
    let sel = t.selector.unwrap();
    assert_eq!(sel.tag, "div");
}

#[test]
fn inline_element_closes_itself() {
    let t = Token::from_string("%a=hello".to_string(), 0, 0).unwrap();
    assert_eq!(t.kind, TokenType::Selector);
    assert_eq!(t.raw, "ahello");
    assert_eq!(t.html, "<a>hello</a>");
}

#[test]
fn inline_marker_ignored_inside_brackets() {
    let t = Token::from_string("%div[attr=value]".to_string(), 0, 0).unwrap();
    assert_eq!(t.html, "<div attr=value>");
    assert_eq!(t.raw, "div[attr=value]");
}

#[test]
fn exempt_marker_sets_sentinel_indent() {
    let t = Token::from_string("%~pre".to_string(), 4, 0).unwrap();
    assert_eq!(t.indent, -1);
    assert_eq!(t.selector.unwrap().tag, "pre");
}

#[test]
fn unmatched_line_is_raw() {
    let t = Token::from_string("just text".to_string(), 0, 9).unwrap();
    assert_eq!(t.kind, TokenType::Raw);
    assert_eq!(t.raw, "just text");
    assert_eq!(t.html, "just text");
}

#[test]
fn parser_walks_lines() {
    let mut stream = Parser::new("a\n\n  %p".to_string()).parse();
    let t0 = stream.next().unwrap();
    assert_eq!(t0.raw, "a");
    assert_eq!(t0.line, 0);
    assert_eq!(t0.indent, 0);
    let t1 = stream.next().unwrap();
    assert_eq!(t1.raw, "\n");
    assert_eq!(t1.line, 1);
    let t2 = stream.next().unwrap();
    assert_eq!(t2.indent, 2);
    assert_eq!(t2.html, "<p>");
    assert!(stream.next().is_none());
    assert!(stream.next().is_none());
}

#[test]
fn indent_counts_tabs_and_spaces() {
    let mut p = Parser::new("\t  x".to_string());
    let t = p.next().unwrap();
    assert_eq!(t.indent, 3);
    assert_eq!(t.raw, "x");
}

#[test]
fn trailing_newline_yields_blank_token() {
    let mut p = Parser::new("a\n".to_string());
    let t0 = p.next().unwrap();
    assert_eq!(t0.raw, "a");
    let t1 = p.next().unwrap();
    assert_eq!(t1.raw, "\n");
    assert_eq!(t1.indent, 0);
    assert!(p.next().is_none());
}
