//! The composing code generator: besides the plain generator's duties it
//! keeps full indent and tag stacks, supports raw passthrough blocks and
//! slot markers, and implements single-level template inheritance by
//! splicing a compiled base template around the current output.
use vstd::prelude::*;

verus! {

use vstd::string::StringExecFns;
use crate::{Parser, TokenStream, Token, TokenType, TokenV, ParserV, line_token};
use crate::emit::{
    close_stmt,
    host_stmt,
    expr_stmt,
    frag_stmt,
    newline_stmt,
    slot_stmt,
    slot_placeholder,
    body_preamble,
    body_postamble,
    close_stmt_exec,
    host_stmt_exec,
    expr_stmt_exec,
    frag_stmt_exec,
    newline_stmt_exec,
    slot_stmt_exec,
    slot_placeholder_exec,
};
use crate::text::{
    to_chars,
    chars_to_string,
    eq_lit,
    eq_chars,
    has_prefix,
    contains_lit,
    escape_braces,
    escape_quotes,
    replace_first,
    sub_vec,
    concat_strings,
    contains_sub,
    is_prefix_of,
    escape_braces_spec,
    escape_quotes_spec,
    replace_first_spec,
    split_lines,
    concat_seqs,
};

/// Whitespace-sensitive tags: never auto-closed, and their content is
/// emitted as literal text.
pub open spec fn ws_full(t: Seq<char>) -> bool {
    t == "script"@ || t == "style"@ || t == "pre"@ || t == "html"@ || t == "body"@ || t == "head"@
}

fn is_ws_full(t: &Vec<char>) -> (r: bool)
    ensures
        r == ws_full(t@),
{
    eq_lit(t, "script") || eq_lit(t, "style") || eq_lit(t, "pre") || eq_lit(t, "html") || eq_lit(
        t,
        "body",
    ) || eq_lit(t, "head")
}

/// A stack pop that leaves an empty stack unchanged.
pub open spec fn pop_seq(s: Seq<Seq<char>>) -> Seq<Seq<char>> {
    if s.len() > 0 {
        s.drop_last()
    } else {
        s
    }
}

/// A stack pop that leaves an empty stack unchanged.
pub open spec fn pop_ints(s: Seq<int>) -> Seq<int> {
    if s.len() > 0 {
        s.drop_last()
    } else {
        s
    }
}

/// The integer views of a stack of machine integers.
pub open spec fn ints_of(s: Seq<i32>) -> Seq<int> {
    s.map_values(|x: i32| x as int)
}

/// The text views of a named-template list.
pub open spec fn tpl_views(ts: Seq<(String, String)>) -> Seq<(Seq<char>, Seq<char>)> {
    ts.map_values(|t: (String, String)| (t.0@, t.1@))
}

/// The text views of a sequence of strings.
pub open spec fn str_views(s: Seq<String>) -> Seq<Seq<char>> {
    s.map_values(|x: String| x@)
}

/// The text views of a sequence of character vectors.
pub open spec fn tag_views(s: Seq<Vec<char>>) -> Seq<Seq<char>> {
    s.map_values(|v: Vec<char>| v@)
}

/// The source of the first template named `name`, if any.
pub open spec fn lookup_tpl(ts: Seq<(Seq<char>, Seq<char>)>, name: Seq<char>) -> Option<Seq<char>>
    decreases ts.len(),
{
    if ts.len() == 0 {
        Option::None
    } else if ts[0].0 == name {
        Option::Some(ts[0].1)
    } else {
        lookup_tpl(ts.drop_first(), name)
    }
}

/// Index of the first statement equal to `p`, or `ss.len()` if absent.
pub open spec fn find_stmt(ss: Seq<Seq<char>>, p: Seq<char>) -> int
    decreases ss.len(),
{
    if ss.len() == 0 {
        0
    } else if ss[0] == p {
        0
    } else {
        1 + find_stmt(ss.drop_first(), p)
    }
}

pub proof fn lemma_find_stmt_le(ss: Seq<Seq<char>>, p: Seq<char>)
    ensures
        0 <= find_stmt(ss, p) <= ss.len(),
    decreases ss.len(),
{
    if ss.len() > 0 && ss[0] != p {
        lemma_find_stmt_le(ss.drop_first(), p);
    }
}

/// The generator's running state: the emitted statements, the tag and
/// indent stacks, and the pending-tail queue of deferred statements.
#[verifier::ext_equal]
pub struct GenStV {
    pub out: Seq<Seq<char>>,
    pub tags: Seq<Seq<char>>,
    pub indents: Seq<int>,
    pub tails: Seq<Seq<char>>,
}

/// The state before any token was consumed.
pub open spec fn init_gen() -> GenStV {
    GenStV {
        out: Seq::<Seq<char>>::empty(),
        tags: Seq::<Seq<char>>::empty(),
        indents: Seq::<int>::empty(),
        tails: Seq::<Seq<char>>::empty(),
    }
}

/// Spec-level compilation errors.
pub enum ErrV {
    /// A slot marker carries no attribute naming the slot.
    MissingSlotName,
    /// A slot-block directive carries no class naming the target slot.
    MissingSlotTarget,
    /// The inclusion depth limit was reached.
    DepthExceeded,
    /// No template of this name was supplied.
    UnknownTemplate(Seq<char>),
    /// The included template's output holds no placeholder of this name.
    UnresolvedSlot(Seq<char>),
}

/// A fatal condition met while compiling a template.
#[derive(Debug, Clone, PartialEq, Eq)]
pub enum CompileError {
    /// A slot marker carries no attribute naming the slot.
    MissingSlotName,
    /// A slot-block directive carries no class naming the target slot.
    MissingSlotTarget,
    /// The inclusion depth limit was reached.
    DepthExceeded,
    /// No template of this name was supplied.
    UnknownTemplate(String),
    /// The included template's output holds no placeholder of this name.
    UnresolvedSlot(String),
}

impl View for CompileError {
    type V = ErrV;

    open spec fn view(&self) -> ErrV {
        match self {
            CompileError::MissingSlotName => ErrV::MissingSlotName,
            CompileError::MissingSlotTarget => ErrV::MissingSlotTarget,
            CompileError::DepthExceeded => ErrV::DepthExceeded,
            CompileError::UnknownTemplate(s) => ErrV::UnknownTemplate(s@),
            CompileError::UnresolvedSlot(s) => ErrV::UnresolvedSlot(s@),
        }
    }
}

/// The text a fragment token emits, given the innermost relevant tag
/// `cur`: inside a raw block the original source text (braces neutralized)
/// stands in for the rendered fragment; under a whitespace-sensitive tag
/// the fragment's braces are neutralized; a close-prefixed token has its
/// leading close marker translated to a slash; quotes are escaped last.
pub open spec fn emitted_text(cur: Seq<char>, raw: Seq<char>, html: Seq<char>) -> Seq<char> {
    if is_prefix_of("r:"@, cur) {
        escape_quotes_spec(escape_braces_spec(raw))
    } else {
        let b1 = if ws_full(cur) {
            escape_braces_spec(html)
        } else {
            html
        };
        let b2 = if is_prefix_of("-"@, raw) {
            replace_first_spec(b1, '-', '/')
        } else {
            b1
        };
        escape_quotes_spec(b2)
    }
}

/// The result of consuming the tokens of lines `k..` starting from state
/// `st`: the final state, or the first fatal condition.  Each token may
/// first auto-close a dedented element and track the new indent level;
/// host code, host expressions and blank lines emit one statement each,
/// and everything else carries a fragment, handled by `gen_sel`.
pub open spec fn gen(
    ts: Seq<(Seq<char>, Seq<char>)>,
    lines: Seq<Seq<char>>,
    k: int,
    st: GenStV,
    fuel: nat,
) -> Result<GenStV, ErrV>
    decreases fuel, lines.len() - k, 2int,
{
    if k < 0 || k >= lines.len() || k > i32::MAX {
        Result::Ok(st)
    } else {
        let t = line_token(lines, k);
        let last_tag = if st.tags.len() > 0 {
            st.tags.last()
        } else {
            Seq::<char>::empty()
        };
        let last_ind = if st.indents.len() > 0 {
            st.indents.last()
        } else {
            0
        };
        let auto = t.indent < last_ind && last_tag.len() > 0 && !ws_full(last_tag)
            && !is_prefix_of("r:"@, last_tag) && !is_prefix_of("s:"@, last_tag);
        let st1 = if auto {
            GenStV {
                out: st.out.push(close_stmt(last_tag)),
                tags: pop_seq(st.tags),
                indents: pop_ints(st.indents),
                tails: st.tails,
            }
        } else {
            st
        };
        let st2 = if t.indent != last_ind {
            GenStV { indents: st1.indents.push(t.indent), ..st1 }
        } else {
            st1
        };
        if t.kind is RustString {
            gen(ts, lines, k + 1, GenStV { out: st2.out.push(host_stmt(t.raw, t.line)), ..st2 }, fuel)
        } else if t.kind is PushedRustString {
            gen(ts, lines, k + 1, GenStV { out: st2.out.push(expr_stmt(t.raw, t.line)), ..st2 }, fuel)
        } else if t.raw == "\n"@ {
            gen(ts, lines, k + 1, GenStV { out: st2.out.push(newline_stmt()), ..st2 }, fuel)
        } else {
            gen_sel(ts, lines, k, st2, fuel, t, last_tag)
        }
    }
}

/// The handling of one fragment-carrying token `t`: slot markers leave a
/// placeholder, raw blocks open and close silently, slot-block directives
/// compile and splice the named base template, explicit closes pop, and
/// everything else emits its fragment through `gen_emit`.  `last_tag` is
/// the tag that stood on top of the stack when the token arrived.
pub open spec fn gen_sel(
    ts: Seq<(Seq<char>, Seq<char>)>,
    lines: Seq<Seq<char>>,
    k: int,
    st2: GenStV,
    fuel: nat,
    t: TokenV,
    last_tag: Seq<char>,
) -> Result<GenStV, ErrV>
    decreases fuel, lines.len() - k, 1int,
{
    if k < 0 || k >= lines.len() {
        Result::Ok(st2)
    } else {
        match t.selector {
            Option::Some(sel) => {
                if !is_prefix_of("-"@, sel.tag) {
                    if sel.tag == "slot"@ {
                        // slot markers render as a literal placeholder
                        match sel.attributes {
                            Option::Some(ats) => {
                                if ats.len() > 0 {
                                    gen(
                                        ts,
                                        lines,
                                        k + 1,
                                        GenStV { out: st2.out.push(slot_stmt(ats[0])), ..st2 },
                                        fuel,
                                    )
                                } else {
                                    Result::Err(ErrV::MissingSlotName)
                                }
                            },
                            Option::None => Result::Err(ErrV::MissingSlotName),
                        }
                    } else if is_prefix_of("r:"@, sel.tag) {
                        // a raw block opens silently
                        gen(ts, lines, k + 1, GenStV { tags: st2.tags.push(sel.tag), ..st2 }, fuel)
                    } else if is_prefix_of("s:"@, sel.tag) {
                        // template inheritance: compile the base and splice
                        match sel.classes {
                            Option::Some(cls) => {
                                if cls.len() > 0 {
                                    if fuel == 0 {
                                        Result::Err(ErrV::DepthExceeded)
                                    } else {
                                        let file = sel.tag.skip(2);
                                        match lookup_tpl(ts, file) {
                                            Option::Some(src) => {
                                                match compile_lines(
                                                    ts,
                                                    split_lines(src),
                                                    (fuel - 1) as nat,
                                                ) {
                                                    Result::Ok(base) => {
                                                        let j = find_stmt(
                                                            base,
                                                            slot_placeholder(cls[0]),
                                                        );
                                                        if j < base.len() {
                                                            gen(
                                                                ts,
                                                                lines,
                                                                k + 1,
                                                                GenStV {
                                                                    out: base.take(j) + st2.out,
                                                                    tags: st2.tags.push(sel.tag),
                                                                    indents: st2.indents,
                                                                    tails: st2.tails + base.skip(
                                                                        j + 1,
                                                                    ),
                                                                },
                                                                fuel,
                                                            )
                                                        } else {
                                                            Result::Err(
                                                                ErrV::UnresolvedSlot(cls[0]),
                                                            )
                                                        }
                                                    },
                                                    Result::Err(e) => Result::Err(e),
                                                }
                                            },
                                            Option::None => Result::Err(ErrV::UnknownTemplate(file)),
                                        }
                                    }
                                } else {
                                    Result::Err(ErrV::MissingSlotTarget)
                                }
                            },
                            Option::None => Result::Err(ErrV::MissingSlotTarget),
                        }
                    } else {
                        // ordinary opening element
                        gen_emit(ts, lines, k, st2, fuel, t, st2.tags.push(sel.tag), sel.tag)
                    }
                } else {
                    // explicit close: pop; a raw-block close emits nothing
                    if is_prefix_of("-r:"@, sel.tag) {
                        gen(ts, lines, k + 1, GenStV { tags: pop_seq(st2.tags), ..st2 }, fuel)
                    } else {
                        gen_emit(ts, lines, k, st2, fuel, t, pop_seq(st2.tags), last_tag)
                    }
                }
            },
            Option::None => gen_emit(ts, lines, k, st2, fuel, t, st2.tags, last_tag),
        }
    }
}

/// The emission tail shared by fragment-carrying tokens: a self-closing
/// fragment pops its tag, then the fragment statement is appended.
pub open spec fn gen_emit(
    ts: Seq<(Seq<char>, Seq<char>)>,
    lines: Seq<Seq<char>>,
    k: int,
    st2: GenStV,
    fuel: nat,
    t: TokenV,
    tags2: Seq<Seq<char>>,
    cur: Seq<char>,
) -> Result<GenStV, ErrV>
    decreases fuel, lines.len() - k, 0int,
{
    if k < 0 || k >= lines.len() {
        Result::Ok(st2)
    } else {
        let tags3 = if contains_sub(t.html, "</"@) && !is_prefix_of("r:"@, cur) {
            pop_seq(tags2)
        } else {
            tags2
        };
        gen(
            ts,
            lines,
            k + 1,
            GenStV {
                out: st2.out.push(frag_stmt(emitted_text(cur, t.raw, t.html), t.line)),
                tags: tags3,
                indents: st2.indents,
                tails: st2.tails,
            },
            fuel,
        )
    }
}

/// The finalized statements of a whole template: generate from the first
/// line, then append the pending tails in enqueue order.
pub open spec fn compile_lines(
    ts: Seq<(Seq<char>, Seq<char>)>,
    lines: Seq<Seq<char>>,
    fuel: nat,
) -> Result<Seq<Seq<char>>, ErrV>
    decreases fuel, lines.len(), 3int,
{
    match gen(ts, lines, 0, init_gen(), fuel) {
        Result::Ok(st) => Result::Ok(st.out + st.tails),
        Result::Err(e) => Result::Err(e),
    }
}

/// A copy of the top of the tag stack, or the empty text.
fn top_tag(tags: &Vec<Vec<char>>) -> (r: Vec<char>)
    ensures
        r@ == (if tag_views(tags@).len() > 0 {
            tag_views(tags@).last()
        } else {
            Seq::<char>::empty()
        }),
{
    if tags.len() > 0 {
        let t = &tags[tags.len() - 1];
        let r = sub_vec(t, 0, t.len());
        proof {
            assert(r@ =~= tag_views(tags@).last());
        }
        r
    } else {
        let empty: Vec<char> = Vec::new();
        empty
    }
}

/// The source of the first template named `name`, if any.
fn lookup_exec(templates: &Vec<(String, String)>, name: &Vec<char>) -> (r: Option<String>)
    ensures
        (match r {
            Option::Some(s) => lookup_tpl(tpl_views(templates@), name@) == Option::Some(s@),
            Option::None => lookup_tpl(tpl_views(templates@), name@) is None,
        }),
{
    let n = templates.len();
    let ghost ts = tpl_views(templates@);
    let mut i: usize = 0;
    proof {
        assert(ts.skip(0) =~= ts);
    }
    while i < n
        invariant
            i <= n,
            n == templates@.len(),
            ts == tpl_views(templates@),
            ts.len() == n,
            lookup_tpl(ts, name@) == lookup_tpl(ts.skip(i as int), name@),
        decreases n - i,
    {
        let key = to_chars(templates[i].0.as_str());
        proof {
            assert(ts.skip(i as int)[0] == ts[i as int]);
            assert(ts.skip(i as int).drop_first() =~= ts.skip(i as int + 1));
        }
        if eq_chars(&key, name) {
            return Option::Some(templates[i].1.clone());
        }
        i = i + 1;
    }
    proof {
        assert(ts.skip(n as int) =~= Seq::<(Seq<char>, Seq<char>)>::empty());
    }
    Option::None
}

/// Index of the first statement equal to `p`, or the length if absent.
fn find_stmt_exec(ss: &Vec<String>, p: &String) -> (r: usize)
    ensures
        r == find_stmt(str_views(ss@), p@),
        r <= str_views(ss@).len(),
{
    let n = ss.len();
    let ghost sv = str_views(ss@);
    let mut i: usize = 0;
    proof {
        assert(sv.skip(0) =~= sv);
    }
    while i < n
        invariant
            i <= n,
            n == ss@.len(),
            sv == str_views(ss@),
            sv.len() == n,
            find_stmt(sv, p@) == i + find_stmt(sv.skip(i as int), p@),
        decreases n - i,
    {
        proof {
            assert(sv.skip(i as int)[0] == sv[i as int]);
            assert(sv.skip(i as int).drop_first() =~= sv.skip(i as int + 1));
        }
        if ss[i].eq(p) {
            proof {
                assert(find_stmt(sv.skip(i as int), p@) == 0);
            }
            return i;
        }
        i = i + 1;
    }
    proof {
        assert(sv.skip(n as int) =~= Seq::<Seq<char>>::empty());
    }
    n
}

/// The current exec state as a spec value.
pub open spec fn st_of(
    out: Seq<String>,
    tags: Seq<Vec<char>>,
    indents: Seq<i32>,
    tails: Seq<String>,
) -> GenStV {
    GenStV {
        out: str_views(out),
        tags: tag_views(tags),
        indents: ints_of(indents),
        tails: str_views(tails),
    }
}

/// Append the fragment statement of one token, popping the tag stack when
/// the fragment closed its element itself.
fn emit_frag_exec(
    out: &mut Vec<String>,
    tags: &mut Vec<Vec<char>>,
    cur: &Vec<char>,
    raw: &Vec<char>,
    html: &Vec<char>,
    line: i32,
)
    requires
        0 <= line,
    ensures
        str_views(final(out)@) == str_views(old(out)@).push(
            frag_stmt(emitted_text(cur@, raw@, html@), line as int),
        ),
        tag_views(final(tags)@) == (if contains_sub(html@, "</"@) && !is_prefix_of("r:"@, cur@) {
            pop_seq(tag_views(old(tags)@))
        } else {
            tag_views(old(tags)@)
        }),
{
    let rb = has_prefix(cur, "r:");
    if contains_lit(html, "</") && !rb {
        // the token closed its tag itself
        let _ = tags.pop();
        proof {
            assert(tag_views(tags@) =~= pop_seq(tag_views(old(tags)@)));
        }
    }
    let b2: Vec<char> = if rb {
        escape_braces(raw)
    } else {
        let b1: Vec<char> = if is_ws_full(cur) {
            escape_braces(html)
        } else {
            sub_vec(html, 0, html.len())
        };
        proof {
            assert(html@.subrange(0, html@.len() as int) =~= html@);
        }
        if has_prefix(raw, "-") {
            replace_first(&b1, '-', '/')
        } else {
            b1
        }
    };
    let esc = escape_quotes(&b2);
    let st = frag_stmt_exec(&esc, line);
    out.push(st);
    proof {
        assert(str_views(out@) =~= str_views(old(out)@).push(
            frag_stmt(emitted_text(cur@, raw@, html@), line as int),
        ));
    }
}

/// Consume one fragment-carrying token (anything that is not host code and
/// not a blank line), mutating the state so that the remaining-lines
/// semantics is preserved.
#[verifier::rlimit(100)]
fn gen_step_frag(
    out: &mut Vec<String>,
    tags: &mut Vec<Vec<char>>,
    indents: &Vec<i32>,
    tails: &mut Vec<String>,
    token: Token,
    last_tag: &Vec<char>,
    templates: &Vec<(String, String)>,
    fuel: u64,
    Ghost(lines): Ghost<Seq<Seq<char>>>,
    Ghost(k): Ghost<int>,
) -> (r: Result<(), CompileError>)
    requires
        0 <= k < lines.len(),
        k <= i32::MAX,
        token@ == line_token(lines, k),
        !(line_token(lines, k).kind is RustString),
        !(line_token(lines, k).kind is PushedRustString),
        line_token(lines, k).raw != "\n"@,
    ensures
        (match r {
            Result::Ok(_) => gen_sel(
                tpl_views(templates@),
                lines,
                k,
                st_of(old(out)@, old(tags)@, indents@, old(tails)@),
                fuel as nat,
                line_token(lines, k),
                last_tag@,
            ) == gen(
                tpl_views(templates@),
                lines,
                k + 1,
                st_of(final(out)@, final(tags)@, indents@, final(tails)@),
                fuel as nat,
            ),
            Result::Err(e) => gen_sel(
                tpl_views(templates@),
                lines,
                k,
                st_of(old(out)@, old(tags)@, indents@, old(tails)@),
                fuel as nat,
                line_token(lines, k),
                last_tag@,
            ) == Result::<GenStV, ErrV>::Err(e@),
        }),
    decreases fuel, 1int,
{
    let ghost ts = tpl_views(templates@);
    let ghost st2 = st_of(out@, tags@, indents@, tails@);
    let ghost t = line_token(lines, k);
    let rawv = to_chars(token.raw.as_str());
    let htmlv = to_chars(token.html.as_str());
    match &token.selector {
        Option::Some(sel) => {
            let tagv = to_chars(sel.tag.as_str());
            if !has_prefix(&tagv, "-") {
                if eq_lit(&tagv, "slot") {
                    // slots render as a literal placeholder, to be replaced
                    // when another template targets them
                    match &sel.attributes {
                        Option::Some(ats) => {
                            if ats.len() > 0 {
                                let attrv = to_chars(ats[0].as_str());
                                proof {
                                    assert(attrv@ == (t.selector->Some_0.attributes->Some_0)[0]);
                                }
                                let s = slot_stmt_exec(&attrv);
                                out.push(s);
                                proof {
                                    assert(str_views(out@) =~= st2.out.push(slot_stmt(attrv@)));
                                    assert(st_of(out@, tags@, indents@, tails@) =~= GenStV {
                                        out: st2.out.push(slot_stmt(attrv@)),
                                        ..st2
                                    });
                                    assert(gen_sel(ts, lines, k, st2, fuel as nat, t, last_tag@)
                                        == gen(
                                        ts,
                                        lines,
                                        k + 1,
                                        st_of(out@, tags@, indents@, tails@),
                                        fuel as nat,
                                    ));
                                }
                                Result::Ok(())
                            } else {
                                Result::Err(CompileError::MissingSlotName)
                            }
                        },
                        Option::None => Result::Err(CompileError::MissingSlotName),
                    }
                } else if has_prefix(&tagv, "r:") {
                    // a raw block opens silently
                    tags.push(tagv);
                    proof {
                        assert(tag_views(tags@) =~= st2.tags.push(t.selector->Some_0.tag));
                        assert(st_of(out@, tags@, indents@, tails@) =~= GenStV {
                            tags: st2.tags.push(t.selector->Some_0.tag),
                            ..st2
                        });
                        assert(gen_sel(ts, lines, k, st2, fuel as nat, t, last_tag@) == gen(
                            ts,
                            lines,
                            k + 1,
                            st_of(out@, tags@, indents@, tails@),
                            fuel as nat,
                        ));
                    }
                    Result::Ok(())
                } else if has_prefix(&tagv, "s:") {
                    gen_step_include(
                        out,
                        tags,
                        indents,
                        tails,
                        sel,
                        &tagv,
                        templates,
                        fuel,
                        Ghost(lines),
                        Ghost(k),
                        Ghost(t),
                        Ghost(last_tag@),
                    )
                } else {
                    // ordinary opening element
                    let cur = sub_vec(&tagv, 0, tagv.len());
                    proof {
                        assert(cur@ =~= t.selector->Some_0.tag);
                    }
                    tags.push(tagv);
                    proof {
                        assert(tag_views(tags@) =~= st2.tags.push(t.selector->Some_0.tag));
                    }
                    emit_frag_exec(out, tags, &cur, &rawv, &htmlv, token.line);
                    proof {
                        assert(st_of(out@, tags@, indents@, tails@) =~= GenStV {
                            out: st2.out.push(frag_stmt(emitted_text(cur@, t.raw, t.html), t.line)),
                            tags: (if contains_sub(t.html, "</"@) && !is_prefix_of("r:"@, cur@) {
                                pop_seq(st2.tags.push(t.selector->Some_0.tag))
                            } else {
                                st2.tags.push(t.selector->Some_0.tag)
                            }),
                            indents: st2.indents,
                            tails: st2.tails,
                        });
                        assert(gen_sel(ts, lines, k, st2, fuel as nat, t, last_tag@) == gen_emit(
                            ts,
                            lines,
                            k,
                            st2,
                            fuel as nat,
                            t,
                            st2.tags.push(t.selector->Some_0.tag),
                            t.selector->Some_0.tag,
                        ));
                        assert(gen_emit(
                            ts,
                            lines,
                            k,
                            st2,
                            fuel as nat,
                            t,
                            st2.tags.push(t.selector->Some_0.tag),
                            t.selector->Some_0.tag,
                        ) == gen(ts, lines, k + 1, st_of(out@, tags@, indents@, tails@), fuel as nat));
                    }
                    Result::Ok(())
                }
            } else {
                // explicit close
                let _ = tags.pop();
                proof {
                    assert(tag_views(tags@) =~= pop_seq(st2.tags));
                }
                if has_prefix(&tagv, "-r:") {
                    proof {
                        assert(st_of(out@, tags@, indents@, tails@) =~= GenStV {
                            tags: pop_seq(st2.tags),
                            ..st2
                        });
                        assert(gen_sel(ts, lines, k, st2, fuel as nat, t, last_tag@) == gen(
                            ts,
                            lines,
                            k + 1,
                            st_of(out@, tags@, indents@, tails@),
                            fuel as nat,
                        ));
                    }
                    Result::Ok(())
                } else {
                    emit_frag_exec(out, tags, last_tag, &rawv, &htmlv, token.line);
                    proof {
                        assert(st_of(out@, tags@, indents@, tails@) =~= GenStV {
                            out: st2.out.push(
                                frag_stmt(emitted_text(last_tag@, t.raw, t.html), t.line),
                            ),
                            tags: (if contains_sub(t.html, "</"@) && !is_prefix_of(
                                "r:"@,
                                last_tag@,
                            ) {
                                pop_seq(pop_seq(st2.tags))
                            } else {
                                pop_seq(st2.tags)
                            }),
                            indents: st2.indents,
                            tails: st2.tails,
                        });
                        assert(gen_sel(ts, lines, k, st2, fuel as nat, t, last_tag@) == gen_emit(
                            ts,
                            lines,
                            k,
                            st2,
                            fuel as nat,
                            t,
                            pop_seq(st2.tags),
                            last_tag@,
                        ));
                        assert(gen_emit(ts, lines, k, st2, fuel as nat, t, pop_seq(st2.tags), last_tag@)
                            == gen(ts, lines, k + 1, st_of(out@, tags@, indents@, tails@), fuel as nat));
                    }
                    Result::Ok(())
                }
            }
        },
        Option::None => {
            emit_frag_exec(out, tags, last_tag, &rawv, &htmlv, token.line);
            proof {
                assert(st_of(out@, tags@, indents@, tails@) =~= GenStV {
                    out: st2.out.push(frag_stmt(emitted_text(last_tag@, t.raw, t.html), t.line)),
                    tags: (if contains_sub(t.html, "</"@) && !is_prefix_of("r:"@, last_tag@) {
                        pop_seq(st2.tags)
                    } else {
                        st2.tags
                    }),
                    indents: st2.indents,
                    tails: st2.tails,
                });
                assert(gen_sel(ts, lines, k, st2, fuel as nat, t, last_tag@) == gen_emit(
                    ts,
                    lines,
                    k,
                    st2,
                    fuel as nat,
                    t,
                    st2.tags,
                    last_tag@,
                ));
                assert(gen_emit(ts, lines, k, st2, fuel as nat, t, st2.tags, last_tag@) == gen(
                    ts,
                    lines,
                    k + 1,
                    st_of(out@, tags@, indents@, tails@),
                    fuel as nat,
                ));
            }
            Result::Ok(())
        },
    }
}

/// Consume one slot-block directive (a tag with the inclusion prefix):
/// compile the named base template and splice it around the output.
#[verifier::rlimit(100)]
fn gen_step_include(
    out: &mut Vec<String>,
    tags: &mut Vec<Vec<char>>,
    indents: &Vec<i32>,
    tails: &mut Vec<String>,
    sel: &crate::selector::SelectorState,
    tagv: &Vec<char>,
    templates: &Vec<(String, String)>,
    fuel: u64,
    Ghost(lines): Ghost<Seq<Seq<char>>>,
    Ghost(k): Ghost<int>,
    Ghost(t): Ghost<TokenV>,
    Ghost(lt): Ghost<Seq<char>>,
) -> (r: Result<(), CompileError>)
    requires
        0 <= k < lines.len(),
        k <= i32::MAX,
        t == line_token(lines, k),
        t.selector == Option::Some(sel@),
        tagv@ == sel@.tag,
        !is_prefix_of("-"@, sel@.tag),
        sel@.tag != "slot"@,
        !is_prefix_of("r:"@, sel@.tag),
        is_prefix_of("s:"@, sel@.tag),
    ensures
        (match r {
            Result::Ok(_) => gen_sel(
                tpl_views(templates@),
                lines,
                k,
                st_of(old(out)@, old(tags)@, indents@, old(tails)@),
                fuel as nat,
                t,
                lt,
            ) == gen(
                tpl_views(templates@),
                lines,
                k + 1,
                st_of(final(out)@, final(tags)@, indents@, final(tails)@),
                fuel as nat,
            ),
            Result::Err(e) => gen_sel(
                tpl_views(templates@),
                lines,
                k,
                st_of(old(out)@, old(tags)@, indents@, old(tails)@),
                fuel as nat,
                t,
                lt,
            ) == Result::<GenStV, ErrV>::Err(e@),
        }),
    decreases fuel, 0int,
{
    let ghost ts = tpl_views(templates@);
    let ghost st2 = st_of(out@, tags@, indents@, tails@);
    match &sel.classes {
        Option::Some(cls) => {
            if cls.len() > 0 {
                if fuel == 0 {
                    return Result::Err(CompileError::DepthExceeded);
                }
                proof {
                    reveal_strlit("s:");
                }
                let file_v = sub_vec(tagv, 2, tagv.len());
                let target_v = to_chars(cls[0].as_str());
                proof {
                    assert(target_v@ == (t.selector->Some_0.classes->Some_0)[0]);
                    assert(file_v@ =~= t.selector->Some_0.tag.skip(2));
                }
                match lookup_exec(templates, &file_v) {
                    Option::Some(src) => {
                        let base_parser = Parser::new(src);
                        let base_stream = base_parser.parse();
                        match compile_stream(base_stream, templates, fuel - 1) {
                            Result::Ok(base) => {
                                let ph = slot_placeholder_exec(&target_v);
                                let j = find_stmt_exec(&base, &ph);
                                if j < base.len() {
                                    splice_base(out, tails, &base, j);
                                    let tag_copy = sub_vec(tagv, 0, tagv.len());
                                    proof {
                                        assert(tag_copy@ =~= t.selector->Some_0.tag);
                                    }
                                    tags.push(tag_copy);
                                    proof {
                                        let basev = str_views(base@);
                                        assert(tag_views(tags@) =~= st2.tags.push(
                                            t.selector->Some_0.tag,
                                        ));
                                        assert(st_of(out@, tags@, indents@, tails@) =~= GenStV {
                                            out: basev.take(j as int) + st2.out,
                                            tags: st2.tags.push(t.selector->Some_0.tag),
                                            indents: st2.indents,
                                            tails: st2.tails + basev.skip(j + 1),
                                        });
                                        assert(gen_sel(ts, lines, k, st2, fuel as nat, t, lt)
                                            == gen(
                                            ts,
                                            lines,
                                            k + 1,
                                            st_of(out@, tags@, indents@, tails@),
                                            fuel as nat,
                                        ));
                                    }
                                    Result::Ok(())
                                } else {
                                    Result::Err(
                                        CompileError::UnresolvedSlot(chars_to_string(&target_v)),
                                    )
                                }
                            },
                            Result::Err(e) => Result::Err(e),
                        }
                    },
                    Option::None => Result::Err(
                        CompileError::UnknownTemplate(chars_to_string(&file_v)),
                    ),
                }
            } else {
                Result::Err(CompileError::MissingSlotTarget)
            }
        },
        Option::None => Result::Err(CompileError::MissingSlotTarget),
    }
}

/// Consume one token, mutating the state so that the remaining-lines
/// semantics is preserved; a fatal condition is the whole generation's
/// result.
#[verifier::rlimit(100)]
fn gen_step(
    out: &mut Vec<String>,
    tags: &mut Vec<Vec<char>>,
    indents: &mut Vec<i32>,
    tails: &mut Vec<String>,
    token: Token,
    templates: &Vec<(String, String)>,
    fuel: u64,
    Ghost(lines): Ghost<Seq<Seq<char>>>,
    Ghost(k): Ghost<int>,
) -> (r: Result<(), CompileError>)
    requires
        0 <= k < lines.len(),
        k <= i32::MAX,
        token@ == line_token(lines, k),
    ensures
        (match r {
            Result::Ok(_) => gen(
                tpl_views(templates@),
                lines,
                k,
                st_of(old(out)@, old(tags)@, old(indents)@, old(tails)@),
                fuel as nat,
            ) == gen(
                tpl_views(templates@),
                lines,
                k + 1,
                st_of(final(out)@, final(tags)@, final(indents)@, final(tails)@),
                fuel as nat,
            ),
            Result::Err(e) => gen(
                tpl_views(templates@),
                lines,
                k,
                st_of(old(out)@, old(tags)@, old(indents)@, old(tails)@),
                fuel as nat,
            ) == Result::<GenStV, ErrV>::Err(e@),
        }),
    decreases fuel, 2int,
{
    let ghost ts = tpl_views(templates@);
    let ghost st = st_of(out@, tags@, indents@, tails@);
    let ghost t = line_token(lines, k);
    let last_tag = top_tag(tags);
    let last_ind: i32 = if indents.len() > 0 {
        indents[indents.len() - 1]
    } else {
        0
    };
    proof {
        assert(st.indents.len() == indents@.len());
        if indents@.len() > 0 {
            assert(st.indents.last() == indents@.last() as int);
        }
    }
    // automatically close the previous element on dedent
    if token.indent < last_ind && last_tag.len() > 0 && !is_ws_full(&last_tag) && !has_prefix(
        &last_tag,
        "r:",
    ) && !has_prefix(&last_tag, "s:") {
        let cs = close_stmt_exec(&last_tag);
        out.push(cs);
        let _ = tags.pop();
        let _ = indents.pop();
        proof {
            assert(str_views(out@) =~= st.out.push(close_stmt(last_tag@)));
            assert(tag_views(tags@) =~= pop_seq(st.tags));
            assert(ints_of(indents@) =~= pop_ints(st.indents));
        }
    }
    let ghost st1 = st_of(out@, tags@, indents@, tails@);
    // track the new indent level
    if token.indent != last_ind {
        indents.push(token.indent);
        proof {
            assert(ints_of(indents@) =~= st1.indents.push(t.indent));
        }
    }
    let ghost st2 = st_of(out@, tags@, indents@, tails@);
    match token.kind {
        TokenType::RustString => {
            let rawv = to_chars(token.raw.as_str());
            let s = host_stmt_exec(&rawv, token.line);
            out.push(s);
            proof {
                assert(str_views(out@) =~= st2.out.push(host_stmt(t.raw, t.line)));
                assert(st_of(out@, tags@, indents@, tails@) =~= GenStV {
                    out: st2.out.push(host_stmt(t.raw, t.line)),
                    ..st2
                });
                assert(gen(ts, lines, k, st, fuel as nat) == gen(
                    ts,
                    lines,
                    k + 1,
                    st_of(out@, tags@, indents@, tails@),
                    fuel as nat,
                ));
            }
            Result::Ok(())
        },
        TokenType::PushedRustString => {
            let rawv = to_chars(token.raw.as_str());
            let s = expr_stmt_exec(&rawv, token.line);
            out.push(s);
            proof {
                assert(str_views(out@) =~= st2.out.push(expr_stmt(t.raw, t.line)));
                assert(st_of(out@, tags@, indents@, tails@) =~= GenStV {
                    out: st2.out.push(expr_stmt(t.raw, t.line)),
                    ..st2
                });
                assert(gen(ts, lines, k, st, fuel as nat) == gen(
                    ts,
                    lines,
                    k + 1,
                    st_of(out@, tags@, indents@, tails@),
                    fuel as nat,
                ));
            }
            Result::Ok(())
        },
        _ => {
            let rawv = to_chars(token.raw.as_str());
            if eq_lit(&rawv, "\n") {
                let s = newline_stmt_exec();
                out.push(s);
                proof {
                    assert(str_views(out@) =~= st2.out.push(newline_stmt()));
                    assert(st_of(out@, tags@, indents@, tails@) =~= GenStV {
                        out: st2.out.push(newline_stmt()),
                        ..st2
                    });
                    assert(gen(ts, lines, k, st, fuel as nat) == gen(
                        ts,
                        lines,
                        k + 1,
                        st_of(out@, tags@, indents@, tails@),
                        fuel as nat,
                    ));
                }
                return Result::Ok(());
            }
            let r = gen_step_frag(
                out,
                tags,
                indents,
                tails,
                token,
                &last_tag,
                templates,
                fuel,
                Ghost(lines),
                Ghost(k),
            );
            proof {
                assert(gen(ts, lines, k, st, fuel as nat) == gen_sel(
                    ts,
                    lines,
                    k,
                    st2,
                    fuel as nat,
                    t,
                    last_tag@,
                ));
            }
            r
        },
    }
}

/// Splice a compiled base template around the current output: its part
/// before the placeholder statement at `j` is prepended to the output, and
/// its part after is queued as a pending tail.
fn splice_base(out: &mut Vec<String>, tails: &mut Vec<String>, base: &Vec<String>, j: usize)
    requires
        j < base@.len(),
    ensures
        str_views(final(out)@) == str_views(base@).take(j as int) + str_views(old(out)@),
        str_views(final(tails)@) == str_views(old(tails)@) + str_views(base@).skip(j as int + 1),
{
    let mut new_out: Vec<String> = Vec::new();
    let mut i: usize = 0;
    while i < j
        invariant
            i <= j,
            j < base@.len(),
            new_out@.len() == i,
            forall|q: int| 0 <= q < i ==> new_out@[q]@ == str_views(base@)[q],
        decreases j - i,
    {
        new_out.push(base[i].clone());
        i = i + 1;
    }
    let n = out.len();
    let mut i2: usize = 0;
    while i2 < n
        invariant
            i2 <= n,
            n == out@.len(),
            j < base@.len(),
            new_out@.len() == j + i2,
            forall|q: int| 0 <= q < j ==> new_out@[q]@ == str_views(base@)[q],
            forall|q: int| 0 <= q < i2 ==> new_out@[j + q]@ == out@[q]@,
        decreases n - i2,
    {
        new_out.push(out[i2].clone());
        i2 = i2 + 1;
    }
    let m = base.len();
    let mut i3: usize = j + 1;
    while i3 < m
        invariant
            j + 1 <= i3 <= m,
            m == base@.len(),
            tails@.len() == old(tails)@.len() + i3 - j - 1,
            forall|q: int| 0 <= q < old(tails)@.len() ==> tails@[q]@ == str_views(old(tails)@)[q],
            forall|q: int|
                old(tails)@.len() <= q < tails@.len() ==> #[trigger] tails@[q]@ == str_views(base@)[
                    j + 1 + q - old(tails)@.len()
                ],
        decreases m - i3,
    {
        tails.push(base[i3].clone());
        i3 = i3 + 1;
    }
    *out = new_out;
    proof {
        assert(str_views(out@) =~= str_views(base@).take(j as int) + str_views(old(out)@));
        assert(str_views(tails@) =~= str_views(old(tails)@) + str_views(base@).skip(j as int + 1));
    }
}

/// Compile a whole token stream to its finalized statements.
fn compile_stream(stream: TokenStream, templates: &Vec<(String, String)>, fuel: u64) -> (r: Result<
    Vec<String>,
    CompileError,
>)
    requires
        stream.wf(),
    ensures
        (match r {
            Result::Ok(v) => (match gen(
                tpl_views(templates@),
                stream@.lines,
                stream@.cursor + 1,
                init_gen(),
                fuel as nat,
            ) {
                Result::Ok(st) => str_views(v@) == st.out + st.tails,
                Result::Err(_) => false,
            }),
            Result::Err(e) => gen(
                tpl_views(templates@),
                stream@.lines,
                stream@.cursor + 1,
                init_gen(),
                fuel as nat,
            ) == Result::<GenStV, ErrV>::Err(e@),
        }),
    decreases fuel, 3int,
{
    let ghost ts = tpl_views(templates@);
    let ghost lines = stream@.lines;
    let ghost k0 = stream@.cursor + 1;
    let ghost total = gen(ts, lines, k0, init_gen(), fuel as nat);
    let mut stream = stream;
    let mut out: Vec<String> = Vec::new();
    let mut tags: Vec<Vec<char>> = Vec::new();
    let mut indents: Vec<i32> = Vec::new();
    let mut tails: Vec<String> = Vec::new();
    let mut err: Option<CompileError> = Option::None;
    proof {
        assert(st_of(out@, tags@, indents@, tails@) =~= init_gen());
    }
    loop
        invariant_except_break
            stream.wf(),
            stream@.lines == lines,
            gen(ts, lines, stream@.cursor + 1, st_of(out@, tags@, indents@, tails@), fuel as nat)
                == total,
            ts == tpl_views(templates@),
            err is None,
        ensures
            (match err {
                Option::None => (match total {
                    Result::Ok(st) => str_views(out@) == st.out && str_views(tails@) == st.tails,
                    Result::Err(_) => false,
                }),
                Option::Some(e) => total == Result::<GenStV, ErrV>::Err(e@),
            }),
        decreases lines.len() - stream@.cursor,
    {
        let ghost pre = st_of(out@, tags@, indents@, tails@);
        let ghost k = stream@.cursor + 1;
        let tok_opt = stream.next();
        if tok_opt.is_none() {
            proof {
                assert(gen(ts, lines, k, pre, fuel as nat) == Result::<GenStV, ErrV>::Ok(pre));
            }
            break ;
        }
        let token = tok_opt.unwrap();
        match gen_step(
            &mut out,
            &mut tags,
            &mut indents,
            &mut tails,
            token,
            templates,
            fuel,
            Ghost(lines),
            Ghost(k),
        ) {
            Result::Ok(_) => {},
            Result::Err(e) => {
                err = Option::Some(e);
                break ;
            },
        }
    }
    match err {
        Option::Some(e) => Result::Err(e),
        Option::None => {
            let mut res = out;
            let mut tl = tails;
            res.append(&mut tl);
            proof {
                match total {
                    Result::Ok(st) => {
                        assert(str_views(res@) =~= st.out + st.tails);
                    },
                    Result::Err(_) => {},
                }
            }
            Result::Ok(res)
        },
    }
}

/// Generate the body of a rendering function from a [`TokenStream`],
/// resolving included templates against a supplied name-to-source list.
pub struct Generator(TokenStream);

impl View for Generator {
    type V = ParserV;

    closed spec fn view(&self) -> ParserV {
        self.0@
    }
}

impl Generator {
    /// See [`crate::Parser::wf`].
    pub open spec fn wf(&self) -> bool {
        -1 <= self@.cursor
    }

    /// Create a new [`Generator`].
    pub fn new(input: TokenStream) -> (r: Self)
        ensures
            r@ == input@,
            input.wf() ==> r.wf(),
    {
        Generator(input)
    }

    /// Compile the remaining tokens to a template-body text: the emitted
    /// statements between the output buffer's declaration and its final
    /// expression.  `templates` resolves slot-block names to source text;
    /// `fuel` bounds the inclusion depth.
    pub fn consume(self, templates: &Vec<(String, String)>, fuel: u64) -> (r: Result<
        String,
        CompileError,
    >)
        requires
            self.wf(),
        ensures
            (match r {
                Result::Ok(s) => (match gen(
                    tpl_views(templates@),
                    self@.lines,
                    self@.cursor + 1,
                    init_gen(),
                    fuel as nat,
                ) {
                    Result::Ok(st) => s@ == body_preamble() + concat_seqs(st.out + st.tails)
                        + body_postamble(),
                    Result::Err(_) => false,
                }),
                Result::Err(e) => gen(
                    tpl_views(templates@),
                    self@.lines,
                    self@.cursor + 1,
                    init_gen(),
                    fuel as nat,
                ) == Result::<GenStV, ErrV>::Err(e@),
            }),
    {
        let Generator(stream) = self;
        match compile_stream(stream, templates, fuel) {
            Result::Ok(stmts) => {
                let mut s = String::from_str("let mut crml_rendered = String::new();\n");
                proof {
                    assert(stmts.deep_view() =~= str_views(stmts@));
                }
                s.append(concat_strings(&stmts).as_str());
                s.append("crml_rendered\n");
                proof {
                    assert(s@ =~= body_preamble() + concat_seqs(str_views(stmts@))
                        + body_postamble());
                }
                Result::Ok(s)
            },
            Result::Err(e) => Result::Err(e),
        }
    }
}

} // verus!
