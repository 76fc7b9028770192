//! A compiler for a compact, indentation- and sigil-based markup language.
//! Source text is tokenized line by line, element descriptors are parsed as
//! CSS-like selectors, and a stack-driven generator emits the body of a
//! rendering function as text.
use vstd::prelude::*;

pub mod compose;
pub mod emit;
pub mod generator;
pub mod laws;
pub mod selector;
pub mod text;

verus! {

use vstd::string::StringExecFns;
use crate::selector::{Selector, SelectorState, SelectorV, sel_parse, render_spec};
use crate::text::{
    to_chars,
    chars_to_string,
    sub_vec,
    split_lines_exec,
    trim_chars,
    count_indent_exec,
    split_lines,
    trim_spec,
    count_indent,
};

/// A trait to render template structs.
pub trait Template {
    fn render(self) -> String;
}

/// The type of a given [`Token`].
#[derive(Debug, PartialEq, Eq, Structural)]
pub enum TokenType {
    /// A comment (a line starting with `/`), kept as a blank token.
    Comment,
    /// A direct line of host code, starting with `-`.
    RustString,
    /// A host expression whose value is pushed to the output, starting with
    /// `=`.
    PushedRustString,
    /// A CSS selector which will be transformed into an HTML element,
    /// starting with `%`.
    Selector,
    /// Raw HTML data passed through verbatim, starting with `@`.
    Html,
    /// Raw text: anything not matched into the previous types.
    Raw,
}

/// Spec-level shape of a token.
#[verifier::ext_equal]
pub struct TokenV {
    pub kind: TokenType,
    pub raw: Seq<char>,
    pub html: Seq<char>,
    pub indent: int,
    pub line: int,
    pub selector: Option<SelectorV>,
}

/// A *token* is a representation of one fully parsed source line.
#[derive(Debug)]
pub struct Token {
    /// The type of the token.
    pub kind: TokenType,
    /// The raw source text of the token.
    pub raw: String,
    /// The HTML fragment of the token.
    pub html: String,
    /// The indent level of the token; `-1` exempts it from auto-closing.
    pub indent: i32,
    /// The line number the token is found on.
    pub line: i32,
    /// The selector of the token. Only applies to [`TokenType::Selector`].
    pub selector: Option<SelectorState>,
}

impl View for Token {
    type V = TokenV;

    open spec fn view(&self) -> TokenV {
        TokenV {
            kind: self.kind,
            raw: self.raw@,
            html: self.html@,
            indent: self.indent as int,
            line: self.line as int,
            selector: match self.selector {
                Option::Some(s) => Option::Some(s@),
                Option::None => Option::None,
            },
        }
    }
}

/// The token standing for a blank (or comment) line: a literal newline.
pub open spec fn blank_token(indent: int, line: int) -> TokenV {
    TokenV {
        kind: TokenType::Raw,
        raw: "\n"@,
        html: "\n"@,
        indent: indent,
        line: line,
        selector: Option::None,
    }
}

/// The scan of an element descriptor body: collects the selector text,
/// notes a `~` (exempt from auto-close), and an unescaped `=` outside an
/// attribute bracket switches to inline content, which is everything after
/// it.  Result: (selector text, inline content if any, `~` seen).
pub open spec fn elem_scan_from(rest: Seq<char>, i: int, raw: Seq<char>, ws: bool, inb: bool) -> (
    Seq<char>,
    Option<Seq<char>>,
    bool,
)
    decreases rest.len() - i,
{
    if i < 0 || i >= rest.len() {
        (raw, Option::None, ws)
    } else {
        let c = rest[i];
        if c == '=' && !inb {
            (raw, Option::Some(rest.skip(i + 1)), ws)
        } else if c == '~' {
            elem_scan_from(rest, i + 1, raw, true, inb)
        } else if c == '[' {
            elem_scan_from(rest, i + 1, raw.push(c), ws, true)
        } else if c == ']' {
            elem_scan_from(rest, i + 1, raw.push(c), ws, false)
        } else {
            elem_scan_from(rest, i + 1, raw.push(c), ws, inb)
        }
    }
}

/// The token of an element line `%...`: the descriptor is parsed as a
/// selector; inline content closes the element on the same line; `~` sets
/// the indent to the sentinel `-1`.
pub open spec fn element_token(value: Seq<char>, indent: int, line: int) -> TokenV {
    let sc = elem_scan_from(value.drop_first(), 0, Seq::<char>::empty(), false, false);
    let sel = sel_parse(sc.0);
    match sc.1 {
        Option::Some(data) => TokenV {
            kind: TokenType::Selector,
            raw: sc.0 + data,
            html: render_spec(sel) + data + "</"@ + sel.tag + ">"@,
            indent: if sc.2 {
                -1
            } else {
                indent
            },
            line: line,
            selector: Option::Some(sel),
        },
        Option::None => TokenV {
            kind: TokenType::Selector,
            raw: sc.0,
            html: render_spec(sel),
            indent: if sc.2 {
                -1
            } else {
                indent
            },
            line: line,
            selector: Option::Some(sel),
        },
    }
}

/// The token of a trimmed source line, dispatched on its first character.
pub open spec fn token_of(value: Seq<char>, indent: int, line: int) -> TokenV {
    if value.len() == 0 {
        blank_token(indent, line)
    } else if value[0] == '/' {
        if value.len() >= 2 && value[1] == '>' {
            TokenV {
                kind: TokenType::Raw,
                raw: value,
                html: value,
                indent: indent,
                line: line,
                selector: Option::None,
            }
        } else {
            blank_token(indent, line)
        }
    } else if value[0] == '-' {
        TokenV {
            kind: TokenType::RustString,
            raw: value.drop_first(),
            html: Seq::<char>::empty(),
            indent: indent,
            line: line,
            selector: Option::None,
        }
    } else if value[0] == '=' {
        TokenV {
            kind: TokenType::PushedRustString,
            raw: value.drop_first(),
            html: Seq::<char>::empty(),
            indent: indent,
            line: line,
            selector: Option::None,
        }
    } else if value[0] == '%' {
        element_token(value, indent, line)
    } else if value[0] == '@' {
        TokenV {
            kind: TokenType::Html,
            raw: value.drop_first(),
            html: value.drop_first(),
            indent: indent,
            line: line,
            selector: Option::None,
        }
    } else {
        TokenV {
            kind: TokenType::Raw,
            raw: value,
            html: value,
            indent: indent,
            line: line,
            selector: Option::None,
        }
    }
}

/// A line's indentation level, capped at the largest representable level.
pub open spec fn indent_of_line(line: Seq<char>) -> int {
    if count_indent(line) > i32::MAX {
        i32::MAX as int
    } else {
        count_indent(line)
    }
}

/// The token produced for line `k`: blank lines yield a newline token at
/// indent 0; any other line is trimmed and dispatched.
pub open spec fn line_token(lines: Seq<Seq<char>>, k: int) -> TokenV {
    let line = lines[k];
    if line.len() == 0 {
        blank_token(0, k)
    } else {
        token_of(trim_spec(line), indent_of_line(line), k)
    }
}

impl Token {
    /// Create a blank [`Token`] given its `indent` and `line` value.
    pub fn from_indent_ln(indent: i32, line: i32) -> (r: Self)
        ensures
            r@ == blank_token(indent as int, line as int),
    {
        Token {
            kind: TokenType::Raw,
            raw: String::from_str("\n"),
            html: String::from_str("\n"),
            indent,
            line,
            selector: Option::None,
        }
    }

    /// Create a [`Token`] from a given trimmed line.
    pub fn from_string(value: String, indent: i32, line: i32) -> (r: Option<Self>)
        ensures
            (r matches Option::Some(t) && t@ == token_of(value@, indent as int, line as int)),
    {
        let chars = to_chars(value.as_str());
        if chars.len() == 0 {
            return Option::Some(Self::from_indent_ln(indent, line));
        }
        let c0 = chars[0];
        if c0 == '/' {
            // comment; ignore — unless `/>`: raw html element closing
            if chars.len() >= 2 {
                let c1 = chars[1];
                if c1 == '>' {
                    return Option::Some(
                        Token {
                            kind: TokenType::Raw,
                            raw: value.clone(),
                            html: value,
                            indent,
                            line,
                            selector: Option::None,
                        },
                    );
                }
            }
            Option::Some(Self::from_indent_ln(indent, line))
        } else if c0 == '-' {
            let rest = sub_vec(&chars, 1, chars.len());
            proof {
                assert(rest@ =~= value@.drop_first());
            }
            Option::Some(
                Token {
                    kind: TokenType::RustString,
                    raw: chars_to_string(&rest),
                    html: String::new(),
                    indent,
                    line,
                    selector: Option::None,
                },
            )
        } else if c0 == '=' {
            let rest = sub_vec(&chars, 1, chars.len());
            proof {
                assert(rest@ =~= value@.drop_first());
            }
            Option::Some(
                Token {
                    kind: TokenType::PushedRustString,
                    raw: chars_to_string(&rest),
                    html: String::new(),
                    indent,
                    line,
                    selector: Option::None,
                },
            )
        } else if c0 == '%' {
            Option::Some(Self::element_from(&chars, value, indent, line))
        } else if c0 == '@' {
            let rest = sub_vec(&chars, 1, chars.len());
            proof {
                assert(rest@ =~= value@.drop_first());
            }
            let raw = chars_to_string(&rest);
            let html = raw.clone();
            Option::Some(
                Token { kind: TokenType::Html, raw, html, indent, line, selector: Option::None },
            )
        } else {
            Option::Some(
                Token {
                    kind: TokenType::Raw,
                    raw: value.clone(),
                    html: value,
                    indent,
                    line,
                    selector: Option::None,
                },
            )
        }
    }

    /// The element branch of `from_string`: scan the descriptor, parse the
    /// selector and render the fragment.
    fn element_from(chars: &Vec<char>, value: String, indent: i32, line: i32) -> (r: Self)
        requires
            chars@ == value@,
            chars@.len() > 0,
            chars@[0] == '%',
        ensures
            r@ == element_token(value@, indent as int, line as int),
    {
        let rest = sub_vec(chars, 1, chars.len());
        proof {
            assert(rest@ =~= value@.drop_first());
        }
        let n = rest.len();
        let mut rawv: Vec<char> = Vec::new();
        let mut ws: bool = false;
        let mut inb: bool = false;
        let mut datav_opt: Option<Vec<char>> = Option::None;
        let mut j: usize = 0;
        while j < n
            invariant_except_break
                j <= n,
                n == rest@.len(),
                datav_opt is None,
                elem_scan_from(rest@, 0, Seq::<char>::empty(), false, false) == elem_scan_from(
                    rest@,
                    j as int,
                    rawv@,
                    ws,
                    inb,
                ),
            ensures
                ({
                    let sc = elem_scan_from(rest@, 0, Seq::<char>::empty(), false, false);
                    sc.0 == rawv@ && sc.2 == ws && (match datav_opt {
                        Option::Some(d) => sc.1 == Option::Some(d@),
                        Option::None => sc.1 is None,
                    })
                }),
            decreases n - j,
        {
            let c = rest[j];
            if c == '=' && !inb {
                datav_opt = Option::Some(sub_vec(&rest, j + 1, n));
                break ;
            } else if c == '~' {
                ws = true;
            } else if c == '[' {
                rawv.push(c);
                inb = true;
            } else if c == ']' {
                rawv.push(c);
                inb = false;
            } else {
                rawv.push(c);
            }
            j = j + 1;
        }
        let raw_s = chars_to_string(&rawv);
        let sel = Selector::new(raw_s).parse();
        let sel_copy = sel.duplicate();
        match datav_opt {
            Option::Some(datav) => {
                let data_s = chars_to_string(&datav);
                let mut html = sel_copy.render();
                html.append(data_s.as_str());
                html.append("</");
                html.append(sel.tag.as_str());
                html.append(">");
                let mut raw_field = chars_to_string(&rawv);
                raw_field.append(data_s.as_str());
                Token {
                    kind: TokenType::Selector,
                    raw: raw_field,
                    html,
                    indent: if ws {
                        -1
                    } else {
                        indent
                    },
                    line,
                    selector: Option::Some(sel),
                }
            },
            Option::None => {
                let html = sel_copy.render();
                Token {
                    kind: TokenType::Selector,
                    raw: chars_to_string(&rawv),
                    html,
                    indent: if ws {
                        -1
                    } else {
                        indent
                    },
                    line,
                    selector: Option::Some(sel),
                }
            },
        }
    }
}

/// Spec-level shape of the parser: the split lines and the cursor.
#[verifier::ext_equal]
pub struct ParserV {
    pub lines: Seq<Seq<char>>,
    pub cursor: int,
}

/// The current state of the given [`Parser`].
pub struct ParserState {
    /// The current line the parser is on; parsing is line by line, so only
    /// the line index is tracked.
    pub line_number: i32,
}

impl Default for ParserState {
    /// The state before any line was read.
    fn default() -> (r: Self)
        ensures
            r.line_number == -1,
    {
        ParserState { line_number: -1 }
    }
}

/// General line-by-line parser for template source text.
pub struct Parser(Vec<String>, ParserState);

impl View for Parser {
    type V = ParserV;

    closed spec fn view(&self) -> ParserV {
        ParserV { lines: self.0.deep_view(), cursor: self.1.line_number as int }
    }
}

impl Parser {
    /// The cursor never stands before the first line.
    pub open spec fn wf(&self) -> bool {
        -1 <= self@.cursor
    }

    /// Create a new [`Parser`] over the lines of `input`.
    pub fn new(input: String) -> (r: Self)
        ensures
            r@.lines == split_lines(input@),
            r@.cursor == -1,
            r.wf(),
    {
        let chars = to_chars(input.as_str());
        let lines = split_lines_exec(&chars);
        Parser(lines, ParserState::default())
    }

    /// Begin parsing the `input`.
    pub fn parse(self) -> (r: TokenStream)
        ensures
            r@ == self@,
    {
        TokenStream(self)
    }

    /// Parse the next line of the input: `None` past the last line.
    pub fn next(&mut self) -> (r: Option<Token>)
        requires
            old(self).wf(),
        ensures
            final(self).wf(),
            final(self)@.lines == old(self)@.lines,
            ({
                let k = old(self)@.cursor + 1;
                if old(self)@.cursor == i32::MAX {
                    final(self)@ == old(self)@ && r is None
                } else {
                    final(self)@.cursor == k && if k < old(self)@.lines.len() {
                        (r matches Option::Some(t) && t@ == line_token(old(self)@.lines, k))
                    } else {
                        r is None
                    }
                }
            }),
    {
        if self.1.line_number == i32::MAX {
            return Option::None;
        }
        let idx_i32 = self.1.line_number + 1;
        self.1.line_number = idx_i32;
        let idx = idx_i32 as usize;
        if idx >= self.0.len() {
            return Option::None;
        }
        let line: &String = &self.0[idx];
        let line_chars = to_chars(line.as_str());
        proof {
            assert(line_chars@ == self@.lines[idx as int]);
        }
        if line_chars.len() == 0 {
            return Option::Some(Token::from_indent_ln(0, idx_i32));
        }
        let ind_usize = count_indent_exec(&line_chars);
        let ind: i32 = if ind_usize > (i32::MAX as usize) {
            i32::MAX
        } else {
            ind_usize as i32
        };
        let trimmed = trim_chars(&line_chars);
        let trimmed_s = chars_to_string(&trimmed);
        Token::from_string(trimmed_s, ind, idx_i32)
    }
}

/// Iterable version of [`Parser`]. Created through [`Parser::parse`].
pub struct TokenStream(Parser);

impl View for TokenStream {
    type V = ParserV;

    closed spec fn view(&self) -> ParserV {
        self.0@
    }
}

impl TokenStream {
    /// See [`Parser::wf`].
    pub open spec fn wf(&self) -> bool {
        -1 <= self@.cursor
    }

    /// The next token of the stream: `None` past the last line.
    pub fn next(&mut self) -> (r: Option<Token>)
        requires
            old(self).wf(),
        ensures
            final(self).wf(),
            final(self)@.lines == old(self)@.lines,
            ({
                let k = old(self)@.cursor + 1;
                if old(self)@.cursor == i32::MAX {
                    final(self)@ == old(self)@ && r is None
                } else {
                    final(self)@.cursor == k && if k < old(self)@.lines.len() {
                        (r matches Option::Some(t) && t@ == line_token(old(self)@.lines, k))
                    } else {
                        r is None
                    }
                }
            }),
    {
        self.0.next()
    }
}

} // verus!
