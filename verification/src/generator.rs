//! The plain code generator: walks the token stream, auto-closes elements
//! on dedent, and wraps the emitted statements in a documented rendering
//! function.
use vstd::prelude::*;

verus! {

use vstd::string::StringExecFns;
use crate::{TokenStream, TokenType, ParserV, line_token};
use crate::emit::{
    close_stmt,
    host_stmt,
    expr_stmt,
    frag_stmt,
    fn_header,
    fn_footer,
    close_stmt_exec,
    host_stmt_exec,
    expr_stmt_exec,
    frag_stmt_exec,
    fn_header_exec,
};
use crate::text::{
    to_chars,
    eq_lit,
    contains_lit,
    escape_braces,
    escape_quotes,
    contains_sub,
    escape_braces_spec,
    escape_quotes_spec,
};

/// Tags the plain generator never auto-closes: they must be closed by hand.
pub open spec fn ws_core(t: Seq<char>) -> bool {
    t == "script"@ || t == "style"@
}

/// Whether `t` holds the text of one of the tags of `ws_core`.
fn is_ws_core(t: &Vec<char>) -> (r: bool)
    ensures
        r == ws_core(t@),
{
    if eq_lit(t, "script") {
        true
    } else {
        eq_lit(t, "style")
    }
}

/// The generator's running state: the indent and tag of the innermost open
/// element, and the statements emitted so far.
#[verifier::ext_equal]
pub struct CoreSt {
    pub last_indent: int,
    pub last_tag: Seq<char>,
    pub out: Seq<char>,
}

/// The state before any token was consumed.
pub open spec fn init_core() -> CoreSt {
    CoreSt { last_indent: 0, last_tag: Seq::<char>::empty(), out: Seq::<char>::empty() }
}

/// The full text emitted after consuming the tokens of lines `k..`,
/// starting from state `st`.  For each token: auto-close the open element
/// if the token dedents past it, then emit by token kind; `end` closes the
/// remembered element by hand; a fragment that closes itself clears the
/// remembered element; fragments under a whitespace-sensitive tag have
/// their braces neutralized.
pub open spec fn gen_core(lines: Seq<Seq<char>>, k: int, st: CoreSt) -> Seq<char>
    decreases lines.len() - k,
{
    if k < 0 || k >= lines.len() || k > i32::MAX {
        st.out
    } else {
        let t = line_token(lines, k);
        let auto = t.indent < st.last_indent && st.last_tag.len() > 0 && !ws_core(st.last_tag);
        let tag1 = if auto {
            Seq::<char>::empty()
        } else {
            st.last_tag
        };
        let out1 = if auto {
            st.out + close_stmt(st.last_tag)
        } else {
            st.out
        };
        let ind1 = t.indent;
        if t.kind is RustString {
            gen_core(
                lines,
                k + 1,
                CoreSt { last_indent: ind1, last_tag: tag1, out: out1 + host_stmt(t.raw, t.line) },
            )
        } else if t.kind is PushedRustString {
            gen_core(
                lines,
                k + 1,
                CoreSt { last_indent: ind1, last_tag: tag1, out: out1 + expr_stmt(t.raw, t.line) },
            )
        } else {
            if t.raw == "\n"@ {
                gen_core(lines, k + 1, CoreSt { last_indent: ind1, last_tag: tag1, out: out1 })
            } else if t.raw == "end"@ {
                gen_core(
                    lines,
                    k + 1,
                    CoreSt { last_indent: ind1, last_tag: tag1, out: out1 + close_stmt(tag1) },
                )
            } else {
                let tag2 = match t.selector {
                    Option::Some(s) => s.tag,
                    Option::None => tag1,
                };
                let tag3 = if contains_sub(t.html, "</"@) {
                    Seq::<char>::empty()
                } else {
                    tag2
                };
                let html1 = if ws_core(tag3) {
                    escape_braces_spec(t.html)
                } else {
                    t.html
                };
                gen_core(
                    lines,
                    k + 1,
                    CoreSt {
                        last_indent: ind1,
                        last_tag: tag3,
                        out: out1 + frag_stmt(escape_quotes_spec(html1), t.line),
                    },
                )
            }
        }
    }
}

/// Generate host code from a given [`TokenStream`].
pub struct Generator(TokenStream);

impl View for Generator {
    type V = ParserV;

    closed spec fn view(&self) -> ParserV {
        self.0@
    }
}

impl Generator {
    /// See [`crate::Parser::wf`].
    pub open spec fn wf(&self) -> bool {
        -1 <= self@.cursor
    }

    /// Create a new [`Generator`].
    pub fn new(input: TokenStream) -> (r: Self)
        ensures
            r@ == input@,
            input.wf() ==> r.wf(),
    {
        Generator(input)
    }

    /// Generate a full rendering function from the remaining tokens.
    ///
    /// The output takes a single `page` argument of type `props_type` and
    /// is named `name`; its body is the emitted statement text of
    /// `gen_core`.
    pub fn consume(self, name: String, props_type: String) -> (r: String)
        requires
            self.wf(),
        ensures
            r@ == fn_header(name@, props_type@) + gen_core(
                self@.lines,
                self@.cursor + 1,
                init_core(),
            ) + fn_footer(),
    {
        let Generator(mut stream) = self;
        let ghost lines = stream@.lines;
        let ghost k0 = stream@.cursor + 1;
        let ghost total = gen_core(lines, k0, init_core());
        let mut body = String::new();
        let mut last_indent: i32 = 0;
        let mut last_tag: Vec<char> = Vec::new();
        proof {
            assert(CoreSt {
                last_indent: last_indent as int,
                last_tag: last_tag@,
                out: body@,
            } =~= init_core());
        }
        loop
            invariant_except_break
                stream.wf(),
                stream@.lines == lines,
                gen_core(
                    lines,
                    stream@.cursor + 1,
                    CoreSt { last_indent: last_indent as int, last_tag: last_tag@, out: body@ },
                ) == total,
            ensures
                body@ == total,
            decreases lines.len() - stream@.cursor,
        {
            let ghost pre = CoreSt {
                last_indent: last_indent as int,
                last_tag: last_tag@,
                out: body@,
            };
            let ghost k = stream@.cursor + 1;
            let tok_opt = stream.next();
            if tok_opt.is_none() {
                proof {
                    assert(gen_core(lines, k, pre) == pre.out);
                }
                break ;
            }
            let token = tok_opt.unwrap();
            let ghost t = line_token(lines, k);
            // automatically close the previous element on dedent
            if token.indent < last_indent && last_tag.len() > 0 && !is_ws_core(&last_tag) {
                let cs = close_stmt_exec(&last_tag);
                body.append(cs.as_str());
                last_tag = Vec::new();
            }
            let ghost auto_st = CoreSt {
                last_indent: pre.last_indent,
                last_tag: last_tag@,
                out: body@,
            };
            last_indent = token.indent;
            match token.kind {
                TokenType::RustString => {
                    let rawv = to_chars(token.raw.as_str());
                    let st = host_stmt_exec(&rawv, token.line);
                    body.append(st.as_str());
                },
                TokenType::PushedRustString => {
                    let rawv = to_chars(token.raw.as_str());
                    let st = expr_stmt_exec(&rawv, token.line);
                    body.append(st.as_str());
                },
                _ => {
                    let rawv = to_chars(token.raw.as_str());
                    if eq_lit(&rawv, "\n") {
                        // a blank line emits nothing here
                    } else if eq_lit(&rawv, "end") {
                        let cs = close_stmt_exec(&last_tag);
                        body.append(cs.as_str());
                    } else {
                        match &token.selector {
                            Option::Some(sel) => {
                                last_tag = to_chars(sel.tag.as_str());
                            },
                            Option::None => {},
                        }
                        let htmlv = to_chars(token.html.as_str());
                        if contains_lit(&htmlv, "</") {
                            // the token closed its tag itself
                            last_tag = Vec::new();
                        }
                        let html1: Vec<char> = if is_ws_core(&last_tag) {
                            // whitespace sensitive blocks do not accept format params
                            escape_braces(&htmlv)
                        } else {
                            htmlv
                        };
                        let esc = escape_quotes(&html1);
                        let st = frag_stmt_exec(&esc, token.line);
                        body.append(st.as_str());
                    }
                },
            }
            proof {
                assert(gen_core(lines, k + 1, CoreSt {
                    last_indent: last_indent as int,
                    last_tag: last_tag@,
                    out: body@,
                }) == total);
            }
        }
        let mut out = fn_header_exec(&name, &props_type);
        out.append(body.as_str());
        out.append("crml_rendered\n}\n");
        proof {
            assert(out@ =~= fn_header(name@, props_type@) + total + fn_footer());
        }
        out
    }
}

} // verus!
