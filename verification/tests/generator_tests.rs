use crml::Parser;
use crml::compose::CompileError;

fn compile_body(source: &str, templates: &Vec<(String, String)>, fuel: u64) -> Result<String, CompileError> {
    let stream = Parser::new(source.to_string()).parse();
    crml::compose::Generator::new(stream).consume(templates, fuel)
}

fn compile_plain(source: &str, name: &str, props: &str) -> String {
    let stream = Parser::new(source.to_string()).parse();
    crml::generator::Generator::new(stream).consume(name.to_string(), props.to_string())
}

#[test]
fn element_host_code_and_auto_close() {
    // an element line, a host statement, a host expression, then a dedent
    // on the final blank line auto-closes the element
    let src = "%div.class#id[attr=value]\n  - let a = 1\n  = a\n";
    let out = compile_body(src, &Vec::new(), 4).unwrap();
    let expected = "let mut crml_rendered = String::new();
crml_rendered.push_str(&format!(\"<div class=\\\"class \\\" id=\\\"id\\\" attr=value>\"));//line: 0
 let a = 1;//line: 1
crml_rendered.push_str(& a);//line: 2
crml_rendered.push_str(&format!(\"</div>\"));
crml_rendered.push_str(\"\\n\");
crml_rendered
";
    assert_eq!(out, expected);
}

#[test]
fn auto_close_emits_one_statement_per_frame() {
    let src = "%div\n  %span\ntext";
    let out = compile_body(src, &Vec::new(), 4).unwrap();
    let expected = "let mut crml_rendered = String::new();
crml_rendered.push_str(&format!(\"<div>\"));//line: 0
crml_rendered.push_str(&format!(\"<span>\"));//line: 1
crml_rendered.push_str(&format!(\"</span>\"));
crml_rendered.push_str(&format!(\"text\"));//line: 2
crml_rendered
";
    assert_eq!(out, expected);
    assert_eq!(out.matches("</span>").count(), 1);
    assert!(!out.contains("</div>"));
}

#[test]
fn sensitive_braces_neutral_sibling_braces_kept() {
    let src = "%script\n  let a = {x};\n%p\n  {x}";
    let out = compile_body(src, &Vec::new(), 4).unwrap();
    let expected = "let mut crml_rendered = String::new();
crml_rendered.push_str(&format!(\"<script>\"));//line: 0
crml_rendered.push_str(&format!(\"let a = {{x}};\"));//line: 1
crml_rendered.push_str(&format!(\"<p>\"));//line: 2
crml_rendered.push_str(&format!(\"{x}\"));//line: 3
crml_rendered
";
    assert_eq!(out, expected);
}

#[test]
fn raw_block_passes_source_through() {
    let src = "%r:demo\n  {y}\n%-r:demo\nafter";
    let out = compile_body(src, &Vec::new(), 4).unwrap();
    let expected = "let mut crml_rendered = String::new();
crml_rendered.push_str(&format!(\"{{y}}\"));//line: 1
crml_rendered.push_str(&format!(\"after\"));//line: 3
crml_rendered
";
    assert_eq!(out, expected);
}

#[test]
fn exempt_element_never_auto_closes() {
    let src = "%~div\ntext";
    let out = compile_body(src, &Vec::new(), 4).unwrap();
    assert!(out.contains("<div>"));
    assert!(!out.contains("</div>"));
}

#[test]
fn slot_marker_leaves_placeholder() {
    let src = "%html\n%slot[name=\"main\"]";
    let out = compile_body(src, &Vec::new(), 4).unwrap();
    let expected = "let mut crml_rendered = String::new();
crml_rendered.push_str(&format!(\"<html>\"));//line: 0
crml_rendered.push_str(\"<slot name=\\\"main\\\"/>\");
crml_rendered
";
    assert_eq!(out, expected);
}

#[test]
fn slot_round_trip() {
    // the base's prefix wraps the including template's body; its suffix
    // follows; the placeholder is gone from the final output
    let templates = vec![("base".to_string(), "%html\n%slot[name=\"main\"]".to_string())];
    let out = compile_body("%s:base.main\n= x", &templates, 4).unwrap();
    let expected = "let mut crml_rendered = String::new();
crml_rendered.push_str(&format!(\"<html>\"));//line: 0
crml_rendered.push_str(& x);//line: 1
crml_rendered
";
    assert_eq!(out, expected);
    assert!(!out.contains("<slot"));
}

#[test]
fn slot_round_trip_with_suffix() {
    let templates = vec![(
        "base".to_string(),
        "@<head>\n%slot[name=\"main\"]\n@</head>".to_string(),
    )];
    let out = compile_body("%s:base.main\n= x", &templates, 4).unwrap();
    let expected = "let mut crml_rendered = String::new();
crml_rendered.push_str(&format!(\"<head>\"));//line: 0
crml_rendered.push_str(& x);//line: 1
crml_rendered.push_str(&format!(\"</head>\"));//line: 2
crml_rendered
";
    assert_eq!(out, expected);
}

#[test]
fn quotes_in_content_are_escaped() {
    let src = "%p\n  say \"hi\"";
    let out = compile_body(src, &Vec::new(), 4).unwrap();
    assert!(out.contains("crml_rendered.push_str(&format!(\"say \\\"hi\\\"\"));//line: 1\n"));
}

#[test]
fn missing_slot_name_is_fatal() {
    let r = compile_body("%slot", &Vec::new(), 4);
    assert_eq!(r.unwrap_err(), CompileError::MissingSlotName);
}

#[test]
fn missing_slot_target_is_fatal() {
    let r = compile_body("%s:base", &Vec::new(), 4);
    assert_eq!(r.unwrap_err(), CompileError::MissingSlotTarget);
}

#[test]
fn unknown_template_is_fatal() {
    let r = compile_body("%s:none.main", &Vec::new(), 4);
    assert_eq!(r.unwrap_err(), CompileError::UnknownTemplate("none".to_string()));
}

#[test]
fn unresolved_slot_is_fatal() {
    let templates = vec![("base".to_string(), "%p".to_string())];
    let r = compile_body("%s:base.main", &templates, 4);
    assert_eq!(r.unwrap_err(), CompileError::UnresolvedSlot("main".to_string()));
}

#[test]
fn exhausted_depth_is_fatal() {
    let templates = vec![("base".to_string(), "%slot[name=\"main\"]".to_string())];
    let r = compile_body("%s:base.main", &templates, 0);
    assert_eq!(r.unwrap_err(), CompileError::DepthExceeded);
}

#[test]
fn self_inclusion_stops_at_depth_limit() {
    let templates = vec![("loop_tpl".to_string(), "%s:loop_tpl.main".to_string())];
    let r = compile_body("%s:loop_tpl.main", &templates, 8);
    assert_eq!(r.unwrap_err(), CompileError::DepthExceeded);
}

#[test]
fn compiling_twice_is_identical() {
    let templates = vec![("base".to_string(), "%html\n%slot[name=\"main\"]".to_string())];
    let src = "%s:base.main\n%div.a\n  = v\n";
    let first = compile_body(src, &templates, 4).unwrap();
    let second = compile_body(src, &templates, 4).unwrap();
    assert_eq!(first, second);
    let p1 = compile_plain("%p\n  = a\n  end", "t", "P");
    let p2 = compile_plain("%p\n  = a\n  end", "t", "P");
    assert_eq!(p1, p2);
}

#[test]
fn plain_generator_wraps_function() {
    let out = compile_plain("%div\n  = a\n  end", "page_tpl", "Props");
    let expected = "/// Render the `page_tpl.crml` template with the given [`Props`] properties.
///
/// # Arguments
/// * `page` - [`Props`]
///
/// # Returns
/// Rendered string.
///
/// # Example
/// ```rust
/// println!(\"rendered: {}\", page_tpl(Props::default()));
/// ```
pub fn page_tpl(page: Props) -> String {
    let mut crml_rendered = String::new();
crml_rendered.push_str(&format!(\"<div>\"));//line: 0
crml_rendered.push_str(& a);//line: 1
crml_rendered.push_str(&format!(\"</div>\"));
crml_rendered
}
";
    assert_eq!(out, expected);
}

#[test]
fn plain_generator_skips_blank_lines() {
    let out = compile_plain("a\n\nb", "t", "P");
    assert!(out.contains("crml_rendered.push_str(&format!(\"a\"));//line: 0\n"));
    assert!(out.contains("crml_rendered.push_str(&format!(\"b\"));//line: 2\n"));
    assert!(!out.contains("\\n"));
}

#[test]
fn plain_generator_keeps_script_open() {
    let out = compile_plain("%script\n  var a;\nafter", "t", "P");
    assert!(!out.contains("</script>"));
    assert!(out.contains("crml_rendered.push_str(&format!(\"var a;\"));//line: 1\n"));
}

#[test]
fn host_block_delimiters_get_no_semicolon() {
    let out = compile_body("- if a {\n-}\n- let b = 1", &Vec::new(), 4).unwrap();
    assert!(out.contains(" if a {//line: 0\n"));
    assert!(out.contains("}//line: 1\n"));
    assert!(!out.contains("};//line: 1\n"));
    assert!(out.contains(" let b = 1;//line: 2\n"));
}

#[test]
fn self_closing_fragment_pops_its_tag() {
    // the inline element closes itself, so the following dedent closes the
    // outer element, not the inline one
    let out = compile_body("%div\n  %a=hi\nx", &Vec::new(), 4).unwrap();
    let expected = "let mut crml_rendered = String::new();
crml_rendered.push_str(&format!(\"<div>\"));//line: 0
crml_rendered.push_str(&format!(\"<a>hi</a>\"));//line: 1
crml_rendered.push_str(&format!(\"</div>\"));
crml_rendered.push_str(&format!(\"x\"));//line: 2
crml_rendered
";
    assert_eq!(out, expected);
}
