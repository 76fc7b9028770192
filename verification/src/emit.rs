//! The concrete syntax of the generated code: one spec function per emitted
//! statement form, with an executable builder proved against each.
use vstd::prelude::*;

verus! {

use vstd::string::StringExecFns;
use crate::text::{
    chars_to_string,
    escape_quotes,
    u64_dec_chars,
    escape_quotes_spec,
    dec_str,
};

/// The line annotation appended to generated statements.
pub open spec fn line_note(line: int) -> Seq<char> {
    "//line: "@ + dec_str(line as nat) + "\n"@
}

/// The statement closing an element: `crml_rendered.push_str(&format!("</tag>"));`.
pub open spec fn close_stmt(tag: Seq<char>) -> Seq<char> {
    "crml_rendered.push_str(&format!(\"</"@ + tag + ">\"));\n"@
}

/// A host-code line as emitted: a semicolon is appended unless the line
/// ends a block head (`{`) or is exactly a block end (`}`).
pub open spec fn host_code(raw: Seq<char>) -> Seq<char> {
    if (raw.len() > 0 && raw.last() == '{') || raw == "}"@ {
        raw
    } else {
        raw + ";"@
    }
}

/// The statement carrying a host-code line, with its line annotation.
pub open spec fn host_stmt(raw: Seq<char>, line: int) -> Seq<char> {
    host_code(raw) + line_note(line)
}

/// The statement appending a host expression's value to the output.
pub open spec fn expr_stmt(raw: Seq<char>, line: int) -> Seq<char> {
    "crml_rendered.push_str(&"@ + raw + ");"@ + line_note(line)
}

/// The statement appending a rendered fragment (already escaped) to the
/// output.
pub open spec fn frag_stmt(text: Seq<char>, line: int) -> Seq<char> {
    "crml_rendered.push_str(&format!(\""@ + text + "\"));"@ + line_note(line)
}

/// The statement appending a literal newline to the output.
pub open spec fn newline_stmt() -> Seq<char> {
    "crml_rendered.push_str(\"\\n\");\n"@
}

/// The placeholder statement a slot marker leaves in the output, embedding
/// the slot's first attribute.
pub open spec fn slot_stmt(attr: Seq<char>) -> Seq<char> {
    "crml_rendered.push_str(\"<slot "@ + escape_quotes_spec(attr) + "/>\");\n"@
}

/// The placeholder statement of a slot declared with the attribute
/// `name="n"`; slot-block directives split a compiled base template on it.
pub open spec fn slot_placeholder(name: Seq<char>) -> Seq<char> {
    "crml_rendered.push_str(\"<slot name=\\\""@ + name + "\\\"/>\");\n"@
}

/// The first statement of a compiled template body.
pub open spec fn body_preamble() -> Seq<char> {
    "let mut crml_rendered = String::new();\n"@
}

/// The final expression of a compiled template body.
pub open spec fn body_postamble() -> Seq<char> {
    "crml_rendered\n"@
}

/// The documented function head wrapped around a compiled template.
pub open spec fn fn_header(name: Seq<char>, props: Seq<char>) -> Seq<char> {
    "/// Render the `"@ + name + ".crml` template with the given [`"@ + props
        + "`] properties.\n///\n/// # Arguments\n/// * `page` - [`"@ + props
        + "`]\n///\n/// # Returns\n/// Rendered string.\n///\n/// # Example\n/// ```rust\n/// println!(\"rendered: {}\", "@
        + name + "("@ + props + "::default()));\n/// ```\npub fn "@ + name + "(page: "@ + props
        + ") -> String {\n    let mut crml_rendered = String::new();\n"@
}

/// The closing lines of the wrapped function.
pub open spec fn fn_footer() -> Seq<char> {
    "crml_rendered\n}\n"@
}

pub fn close_stmt_exec(tag: &Vec<char>) -> (r: String)
    ensures
        r@ == close_stmt(tag@),
{
    let mut s = String::from_str("crml_rendered.push_str(&format!(\"</");
    s.append(chars_to_string(tag).as_str());
    s.append(">\"));\n");
    proof {
        assert(s@ =~= close_stmt(tag@));
    }
    s
}

fn line_note_exec(line: i32) -> (r: String)
    requires
        0 <= line,
    ensures
        r@ == line_note(line as int),
{
    let mut s = String::from_str("//line: ");
    let d = u64_dec_chars(line as u64);
    s.append(chars_to_string(&d).as_str());
    s.append("\n");
    proof {
        assert(s@ =~= line_note(line as int));
    }
    s
}

pub fn host_stmt_exec(raw: &Vec<char>, line: i32) -> (r: String)
    requires
        0 <= line,
    ensures
        r@ == host_stmt(raw@, line as int),
{
    let mut s = chars_to_string(raw);
    let ends_open = raw.len() > 0 && raw[raw.len() - 1] == '{';
    let is_close = crate::text::eq_lit(raw, "}");
    if !(ends_open || is_close) {
        s.append(";");
    }
    s.append(line_note_exec(line).as_str());
    proof {
        assert(s@ =~= host_stmt(raw@, line as int));
    }
    s
}

pub fn expr_stmt_exec(raw: &Vec<char>, line: i32) -> (r: String)
    requires
        0 <= line,
    ensures
        r@ == expr_stmt(raw@, line as int),
{
    let mut s = String::from_str("crml_rendered.push_str(&");
    s.append(chars_to_string(raw).as_str());
    s.append(");");
    s.append(line_note_exec(line).as_str());
    proof {
        assert(s@ =~= expr_stmt(raw@, line as int));
    }
    s
}

pub fn frag_stmt_exec(text: &Vec<char>, line: i32) -> (r: String)
    requires
        0 <= line,
    ensures
        r@ == frag_stmt(text@, line as int),
{
    let mut s = String::from_str("crml_rendered.push_str(&format!(\"");
    s.append(chars_to_string(text).as_str());
    s.append("\"));");
    s.append(line_note_exec(line).as_str());
    proof {
        assert(s@ =~= frag_stmt(text@, line as int));
    }
    s
}

pub fn newline_stmt_exec() -> (r: String)
    ensures
        r@ == newline_stmt(),
{
    String::from_str("crml_rendered.push_str(\"\\n\");\n")
}

pub fn slot_stmt_exec(attr: &Vec<char>) -> (r: String)
    ensures
        r@ == slot_stmt(attr@),
{
    let mut s = String::from_str("crml_rendered.push_str(\"<slot ");
    let esc = escape_quotes(attr);
    s.append(chars_to_string(&esc).as_str());
    s.append("/>\");\n");
    proof {
        assert(s@ =~= slot_stmt(attr@));
    }
    s
}

pub fn slot_placeholder_exec(name: &Vec<char>) -> (r: String)
    ensures
        r@ == slot_placeholder(name@),
{
    let mut s = String::from_str("crml_rendered.push_str(\"<slot name=\\\"");
    s.append(chars_to_string(name).as_str());
    s.append("\\\"/>\");\n");
    proof {
        assert(s@ =~= slot_placeholder(name@));
    }
    s
}

pub fn fn_header_exec(name: &String, props: &String) -> (r: String)
    ensures
        r@ == fn_header(name@, props@),
{
    let mut s = String::from_str("/// Render the `");
    s.append(name.as_str());
    s.append(".crml` template with the given [`");
    s.append(props.as_str());
    s.append("`] properties.\n///\n/// # Arguments\n/// * `page` - [`");
    s.append(props.as_str());
    s.append(
        "`]\n///\n/// # Returns\n/// Rendered string.\n///\n/// # Example\n/// ```rust\n/// println!(\"rendered: {}\", ",
    );
    s.append(name.as_str());
    s.append("(");
    s.append(props.as_str());
    s.append("::default()));\n/// ```\npub fn ");
    s.append(name.as_str());
    s.append("(page: ");
    s.append(props.as_str());
    s.append(") -> String {\n    let mut crml_rendered = String::new();\n");
    proof {
        assert(s@ =~= fn_header(name@, props@));
    }
    s
}

} // verus!
