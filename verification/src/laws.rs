//! Laws of the compiler, stated and proved over the spec-level semantics
//! that the executable functions are verified against.
use vstd::prelude::*;

verus! {

use crate::{TokenV, TokenType, line_token};
use crate::emit::{
    close_stmt,
    frag_stmt,
    host_stmt,
    expr_stmt,
    newline_stmt,
    body_preamble,
    body_postamble,
    slot_stmt,
    slot_placeholder,
};
use crate::compose::{
    gen,
    gen_sel,
    gen_emit,
    compile_lines,
    init_gen,
    GenStV,
    ErrV,
    pop_seq,
    pop_ints,
    ws_full,
    emitted_text,
    find_stmt,
    lookup_tpl,
};
use crate::text::{
    is_prefix_of,
    contains_sub,
    escape_quotes_spec,
    escape_braces_spec,
    concat_seqs,
    split_lines,
};
use crate::selector::{
    SelectorV,
    ParserMode,
    empty_selector,
    try_save_spec,
    sel_step,
    sel_scan,
    sel_parse,
    render_spec,
    render_classes,
    render_attrs,
};

/// The compiled text of a whole template body, as `consume` promises it.
pub open spec fn consume_spec(
    ts: Seq<(Seq<char>, Seq<char>)>,
    lines: Seq<Seq<char>>,
    k: int,
    fuel: nat,
) -> Result<Seq<char>, ErrV> {
    match gen(ts, lines, k, init_gen(), fuel) {
        Result::Ok(st) => Result::Ok(
            body_preamble() + concat_seqs(st.out + st.tails) + body_postamble(),
        ),
        Result::Err(e) => Result::Err(e),
    }
}

/// Compiling the same source twice produces byte-identical output: the
/// compiled text is a function of the source lines, the template list and
/// the fuel alone, so any two results that meet the compiler's contract on
/// equal inputs are equal.
pub proof fn lemma_compile_deterministic(
    ts: Seq<(Seq<char>, Seq<char>)>,
    lines: Seq<Seq<char>>,
    k: int,
    fuel: nat,
    r1: Result<Seq<char>, ErrV>,
    r2: Result<Seq<char>, ErrV>,
)
    requires
        r1 == consume_spec(ts, lines, k, fuel),
        r2 == consume_spec(ts, lines, k, fuel),
    ensures
        r1 == r2,
{
}

/// Whether the token of line `k` is an ordinary opening element: a
/// selector token with no close prefix, no raw or inclusion prefix, and
/// not the slot marker.
pub open spec fn is_plain_open(t: TokenV) -> bool {
    &&& t.kind is Selector
    &&& t.raw != "\n"@
    &&& (t.selector matches Option::Some(sel) && {
        &&& !is_prefix_of("-"@, sel.tag)
        &&& sel.tag != "slot"@
        &&& !is_prefix_of("r:"@, sel.tag)
        &&& !is_prefix_of("s:"@, sel.tag)
    })
}

/// When a token's indentation strictly decreases past the innermost open
/// element, and that element is neither whitespace-sensitive nor a raw or
/// slot block, the generator emits exactly one closing-tag statement for
/// the one popped frame, and it stands immediately before the next opening
/// fragment in the output.
pub proof fn lemma_auto_close_once(
    ts: Seq<(Seq<char>, Seq<char>)>,
    lines: Seq<Seq<char>>,
    k: int,
    st: GenStV,
    fuel: nat,
)
    requires
        0 <= k < lines.len(),
        k <= i32::MAX,
        is_plain_open(line_token(lines, k)),
        !contains_sub(line_token(lines, k).html, "</"@),
        st.tags.len() > 0,
        st.indents.len() > 0,
        st.tags.last().len() > 0,
        !ws_full(st.tags.last()),
        !is_prefix_of("r:"@, st.tags.last()),
        !is_prefix_of("s:"@, st.tags.last()),
        line_token(lines, k).indent < st.indents.last(),
    ensures
        ({
            let t = line_token(lines, k);
            let sel = t.selector->Some_0;
            gen(ts, lines, k, st, fuel) == gen(
                ts,
                lines,
                k + 1,
                GenStV {
                    out: st.out.push(close_stmt(st.tags.last())).push(
                        frag_stmt(emitted_text(sel.tag, t.raw, t.html), t.line),
                    ),
                    tags: pop_seq(st.tags).push(sel.tag),
                    indents: pop_ints(st.indents).push(t.indent),
                    tails: st.tails,
                },
                fuel,
            )
        }),
{
    let t = line_token(lines, k);
    let sel = t.selector->Some_0;
    let st1 = GenStV {
        out: st.out.push(close_stmt(st.tags.last())),
        tags: pop_seq(st.tags),
        indents: pop_ints(st.indents),
        tails: st.tails,
    };
    let st2 = GenStV { indents: st1.indents.push(t.indent), ..st1 };
    assert(gen(ts, lines, k, st, fuel) == gen_sel(ts, lines, k, st2, fuel, t, st.tags.last()));
    assert(gen_sel(ts, lines, k, st2, fuel, t, st.tags.last()) == gen_emit(
        ts,
        lines,
        k,
        st2,
        fuel,
        t,
        st2.tags.push(sel.tag),
        sel.tag,
    ));
    assert(gen_emit(ts, lines, k, st2, fuel, t, st2.tags.push(sel.tag), sel.tag) == gen(
        ts,
        lines,
        k + 1,
        GenStV {
            out: st2.out.push(frag_stmt(emitted_text(sel.tag, t.raw, t.html), t.line)),
            tags: st2.tags.push(sel.tag),
            indents: st2.indents,
            tails: st2.tails,
        },
        fuel,
    ));
}

/// A text scans as hole-free when every brace opens an adjacent doubled
/// pair: a formatted append over such a text emits each pair as one
/// literal brace and finds no interpolation hole.
pub open spec fn holes_neutral(s: Seq<char>) -> bool
    decreases s.len(),
{
    if s.len() == 0 {
        true
    } else if s[0] == '{' || s[0] == '}' {
        s.len() >= 2 && s[1] == s[0] && holes_neutral(s.skip(2))
    } else {
        holes_neutral(s.drop_first())
    }
}

proof fn lemma_holes_neutral_unit_brace(b: char, t: Seq<char>)
    requires
        b == '{' || b == '}',
        holes_neutral(t),
    ensures
        holes_neutral(seq![b, b] + t),
{
    let s = seq![b, b] + t;
    assert(s[0] == b && s[1] == b);
    assert(s.skip(2) =~= t);
}

proof fn lemma_holes_neutral_unit_plain(c: char, t: Seq<char>)
    requires
        c != '{' && c != '}',
        holes_neutral(t),
    ensures
        holes_neutral(seq![c] + t),
{
    let s = seq![c] + t;
    assert(s[0] == c);
    assert(s.drop_first() =~= t);
}

/// Doubling every brace neutralizes all interpolation holes.
pub proof fn lemma_escape_braces_neutral(s: Seq<char>)
    ensures
        holes_neutral(escape_braces_spec(s)),
    decreases s.len(),
{
    if s.len() == 0 {
    } else {
        lemma_escape_braces_neutral(s.drop_first());
        let t = escape_braces_spec(s.drop_first());
        if s[0] == '{' || s[0] == '}' {
            lemma_holes_neutral_unit_brace(s[0], t);
            assert(escape_braces_spec(s) == (if s[0] == '{' {
                seq!['{', '{']
            } else {
                seq!['}', '}']
            }) + t);
            assert(seq![s[0], s[0]] =~= (if s[0] == '{' {
                seq!['{', '{']
            } else {
                seq!['}', '}']
            }));
        } else {
            lemma_holes_neutral_unit_plain(s[0], t);
            assert(escape_braces_spec(s) == seq![s[0]] + t);
        }
    }
}

/// Escaping quotes inserts no brace and keeps a hole-free text hole-free.
pub proof fn lemma_escape_quotes_keeps_neutral(s: Seq<char>)
    requires
        holes_neutral(s),
    ensures
        holes_neutral(escape_quotes_spec(s)),
    decreases s.len(),
{
    if s.len() == 0 {
    } else if s[0] == '{' || s[0] == '}' {
        assert(s.len() >= 2 && s[1] == s[0] && holes_neutral(s.skip(2)));
        lemma_escape_quotes_keeps_neutral(s.skip(2));
        let t = escape_quotes_spec(s.skip(2));
        assert(escape_quotes_spec(s) == seq![s[0]] + escape_quotes_spec(s.drop_first()));
        assert(s.drop_first()[0] == s[0]);
        assert(s.drop_first().drop_first() =~= s.skip(2));
        assert(escape_quotes_spec(s.drop_first()) == seq![s[0]] + t);
        lemma_holes_neutral_unit_brace(s[0], t);
        assert(seq![s[0]] + (seq![s[0]] + t) =~= seq![s[0], s[0]] + t);
    } else {
        assert(holes_neutral(s.drop_first()));
        lemma_escape_quotes_keeps_neutral(s.drop_first());
        let t = escape_quotes_spec(s.drop_first());
        if s[0] == '"' {
            assert(escape_quotes_spec(s) == seq!['\\', '"'] + t);
            lemma_holes_neutral_unit_plain('"', t);
            lemma_holes_neutral_unit_plain('\\', seq!['"'] + t);
            assert(seq!['\\'] + (seq!['"'] + t) =~= seq!['\\', '"'] + t);
        } else {
            assert(escape_quotes_spec(s) == seq![s[0]] + t);
            lemma_holes_neutral_unit_plain(s[0], t);
        }
    }
}

/// Content under a whitespace-sensitive tag or inside a raw block is
/// emitted with every interpolation hole neutralized: the rendered page
/// shows its braces literally.  Content anywhere else keeps its braces as
/// written, so its interpolation syntax is preserved.
pub proof fn lemma_sensitive_regions_literal(cur: Seq<char>, raw: Seq<char>, html: Seq<char>)
    ensures
        ws_full(cur) || is_prefix_of("r:"@, cur) ==> holes_neutral(
            emitted_text(cur, raw, html),
        ),
        !ws_full(cur) && !is_prefix_of("r:"@, cur) && !is_prefix_of("-"@, raw) ==> emitted_text(
            cur,
            raw,
            html,
        ) == escape_quotes_spec(html),
{
    if is_prefix_of("r:"@, cur) {
        lemma_escape_braces_neutral(raw);
        lemma_escape_quotes_keeps_neutral(escape_braces_spec(raw));
    } else if ws_full(cur) {
        lemma_escape_braces_neutral(html);
        if is_prefix_of("-"@, raw) {
            lemma_replace_first_keeps_neutral(escape_braces_spec(html));
            lemma_escape_quotes_keeps_neutral(
                crate::text::replace_first_spec(escape_braces_spec(html), '-', '/'),
            );
        } else {
            lemma_escape_quotes_keeps_neutral(escape_braces_spec(html));
        }
    }
}

/// Replacing a dash by a slash touches no brace.
proof fn lemma_replace_first_keeps_neutral(s: Seq<char>)
    requires
        holes_neutral(s),
    ensures
        holes_neutral(crate::text::replace_first_spec(s, '-', '/')),
{
    let j = crate::text::find_char(s, '-');
    crate::text::lemma_find_char_le(s, '-');
    crate::text::lemma_find_char_at(s, '-');
    if j < s.len() {
        lemma_holes_neutral_update(s, j, '/');
    }
}

proof fn lemma_holes_neutral_update(s: Seq<char>, j: int, c: char)
    requires
        holes_neutral(s),
        0 <= j < s.len(),
        s[j] != '{' && s[j] != '}',
        c != '{' && c != '}',
    ensures
        holes_neutral(s.update(j, c)),
    decreases s.len(),
{
    if s.len() == 0 {
    } else if s[0] == '{' || s[0] == '}' {
        assert(j >= 2);
        lemma_holes_neutral_update(s.skip(2), j - 2, c);
        let u = s.update(j, c);
        assert(u[0] == s[0] && u[1] == s[1]);
        assert(u.skip(2) =~= s.skip(2).update(j - 2, c));
    } else {
        let u = s.update(j, c);
        if j == 0 {
            assert(u[0] == c);
            assert(u.drop_first() =~= s.drop_first());
        } else {
            lemma_holes_neutral_update(s.drop_first(), j - 1, c);
            assert(u[0] == s[0]);
            assert(u.drop_first() =~= s.drop_first().update(j - 1, c));
        }
    }
}

/// One group of a selector descriptor: a class, an id or an attribute.
pub enum GroupV {
    Class(Seq<char>),
    Id(Seq<char>),
    Attr(Seq<char>),
}

/// Text free of the four selector sigils.
pub open spec fn plain_text(s: Seq<char>) -> bool {
    forall|i: int| 0 <= i < s.len() ==> s[i] != '.' && s[i] != '#' && s[i] != '[' && s[i] != ']'
}

pub open spec fn group_content(g: GroupV) -> Seq<char> {
    match g {
        GroupV::Class(c) => c,
        GroupV::Id(x) => x,
        GroupV::Attr(a) => a,
    }
}

/// The source text of one group.
pub open spec fn group_str(g: GroupV) -> Seq<char> {
    match g {
        GroupV::Class(c) => seq!['.'] + c,
        GroupV::Id(x) => seq!['#'] + x,
        GroupV::Attr(a) => seq!['['] + a + seq![']'],
    }
}

pub open spec fn groups_str(gs: Seq<GroupV>) -> Seq<char>
    decreases gs.len(),
{
    if gs.len() == 0 {
        Seq::<char>::empty()
    } else {
        groups_str(gs.drop_last()) + group_str(gs.last())
    }
}

/// A selector string: a tag followed by any ordering of groups.
pub open spec fn sel_input(tag: Seq<char>, gs: Seq<GroupV>) -> Seq<char> {
    tag + groups_str(gs)
}

/// The class names of the groups, in original order.
pub open spec fn classes_of(gs: Seq<GroupV>) -> Seq<Seq<char>>
    decreases gs.len(),
{
    if gs.len() == 0 {
        Seq::<Seq<char>>::empty()
    } else {
        classes_of(gs.drop_last()) + (match gs.last() {
            GroupV::Class(c) => seq![c],
            _ => Seq::<Seq<char>>::empty(),
        })
    }
}

/// The attributes of the groups, in original order.
pub open spec fn attrs_of(gs: Seq<GroupV>) -> Seq<Seq<char>>
    decreases gs.len(),
{
    if gs.len() == 0 {
        Seq::<Seq<char>>::empty()
    } else {
        attrs_of(gs.drop_last()) + (match gs.last() {
            GroupV::Attr(a) => seq![a],
            _ => Seq::<Seq<char>>::empty(),
        })
    }
}

pub open spec fn num_ids(gs: Seq<GroupV>) -> int
    decreases gs.len(),
{
    if gs.len() == 0 {
        0
    } else {
        num_ids(gs.drop_last()) + (match gs.last() {
            GroupV::Id(_) => 1int,
            _ => 0int,
        })
    }
}

/// The first id among the groups, if any.
pub open spec fn id_of(gs: Seq<GroupV>) -> Option<Seq<char>>
    decreases gs.len(),
{
    if gs.len() == 0 {
        Option::None
    } else {
        match id_of(gs.drop_last()) {
            Option::Some(x) => Option::Some(x),
            Option::None => match gs.last() {
                GroupV::Id(x) => Option::Some(x),
                _ => Option::None,
            },
        }
    }
}

/// An empty list of saved names is an absent field.
pub open spec fn opt_list(s: Seq<Seq<char>>) -> Option<Seq<Seq<char>>> {
    if s.len() == 0 {
        Option::None
    } else {
        Option::Some(s)
    }
}

/// The selector that a tag and a group list describe.
pub open spec fn parsed_groups(tag: Seq<char>, gs: Seq<GroupV>) -> SelectorV {
    SelectorV {
        tag: tag,
        classes: opt_list(classes_of(gs)),
        id: id_of(gs),
        attributes: opt_list(attrs_of(gs)),
    }
}

/// The scan state after consuming a tag and a list of complete groups: a
/// class or id group still sits in the buffer under its mode, while an
/// attribute group was flushed by its closing bracket.
pub open spec fn scan_expected(tag: Seq<char>, gs: Seq<GroupV>) -> (SelectorV, ParserMode, Seq<
    char,
>) {
    if gs.len() == 0 {
        (empty_selector(), ParserMode::Tag, tag)
    } else {
        match gs.last() {
            GroupV::Class(c) => (parsed_groups(tag, gs.drop_last()), ParserMode::Class, c),
            GroupV::Id(x) => (parsed_groups(tag, gs.drop_last()), ParserMode::Id, x),
            GroupV::Attr(_) => (parsed_groups(tag, gs), ParserMode::Tag, Seq::<char>::empty()),
        }
    }
}

proof fn lemma_num_ids_nonneg(gs: Seq<GroupV>)
    ensures
        num_ids(gs) >= 0,
    decreases gs.len(),
{
    if gs.len() > 0 {
        lemma_num_ids_nonneg(gs.drop_last());
    }
}

proof fn lemma_num_ids_zero(gs: Seq<GroupV>)
    requires
        num_ids(gs) == 0,
    ensures
        id_of(gs) is None,
    decreases gs.len(),
{
    if gs.len() > 0 {
        lemma_num_ids_nonneg(gs.drop_last());
        lemma_num_ids_zero(gs.drop_last());
    }
}

/// Scanning sigil-free text only grows the buffer.
proof fn lemma_scan_plain(p: Seq<char>, s: Seq<char>)
    requires
        plain_text(s),
    ensures
        sel_scan(p + s).0 == sel_scan(p).0,
        sel_scan(p + s).1 == sel_scan(p).1,
        sel_scan(p + s).2 == sel_scan(p).2 + s,
    decreases s.len(),
{
    if s.len() == 0 {
        assert(p + s =~= p);
        assert(sel_scan(p).2 + s =~= sel_scan(p).2);
    } else {
        assert(plain_text(s.drop_last()));
        lemma_scan_plain(p, s.drop_last());
        assert((p + s).drop_last() =~= p + s.drop_last());
        assert((p + s).last() == s.last());
        assert(s.last() != '.' && s.last() != '#' && s.last() != '[' && s.last() != ']');
        assert((sel_scan(p).2 + s.drop_last()).push(s.last()) =~= sel_scan(p).2 + s);
    }
}

/// Flushing the expected scan state saves the pending group and empties
/// the buffer, yielding exactly the selector the groups describe.
proof fn lemma_flush_expected(tag: Seq<char>, gs: Seq<GroupV>)
    requires
        num_ids(gs) <= 1,
    ensures
        try_save_spec(scan_expected(tag, gs).0, scan_expected(tag, gs).1, scan_expected(tag, gs).2)
            == (parsed_groups(tag, gs), Seq::<char>::empty()),
{
    if gs.len() == 0 {
        assert(try_save_spec(empty_selector(), ParserMode::Tag, tag) == (
            parsed_groups(tag, gs),
            Seq::<char>::empty(),
        ));
    } else {
        let prev = gs.drop_last();
        match gs.last() {
            GroupV::Class(c) => {
                assert(classes_of(gs) == classes_of(prev) + seq![c]);
                assert(id_of(gs) == id_of(prev));
                assert(attrs_of(gs) =~= attrs_of(prev));
                if classes_of(prev).len() == 0 {
                    assert(seq![c] =~= classes_of(prev) + seq![c]);
                    assert(try_save_spec(parsed_groups(tag, prev), ParserMode::Class, c).0
                        =~= parsed_groups(tag, gs));
                } else {
                    assert(classes_of(prev).push(c) =~= classes_of(prev) + seq![c]);
                    assert(try_save_spec(parsed_groups(tag, prev), ParserMode::Class, c).0
                        =~= parsed_groups(tag, gs));
                }
            },
            GroupV::Id(x) => {
                lemma_num_ids_nonneg(prev);
                assert(num_ids(prev) == 0);
                lemma_num_ids_zero(prev);
                assert(id_of(gs) == Option::Some(x));
                assert(classes_of(gs) =~= classes_of(prev));
                assert(attrs_of(gs) =~= attrs_of(prev));
                assert(try_save_spec(parsed_groups(tag, prev), ParserMode::Id, x).0
                    =~= parsed_groups(tag, gs));
            },
            GroupV::Attr(_) => {
                if tag.len() == 0 {
                    assert(try_save_spec(parsed_groups(tag, gs), ParserMode::Tag, Seq::empty()).0
                        =~= parsed_groups(tag, gs));
                } else {
                    assert(try_save_spec(parsed_groups(tag, gs), ParserMode::Tag, Seq::empty()).0
                        =~= parsed_groups(tag, gs));
                }
            },
        }
    }
}

/// The scan of a whole selector string lands in the expected state.
proof fn lemma_scan_groups(tag: Seq<char>, gs: Seq<GroupV>)
    requires
        plain_text(tag),
        forall|i: int| 0 <= i < gs.len() ==> plain_text(group_content(#[trigger] gs[i])),
        num_ids(gs) <= 1,
    ensures
        sel_scan(sel_input(tag, gs)) == scan_expected(tag, gs),
    decreases gs.len(),
{
    if gs.len() == 0 {
        assert(groups_str(gs) =~= Seq::<char>::empty());
        assert(sel_input(tag, gs) =~= Seq::<char>::empty() + tag);
        lemma_scan_plain(Seq::<char>::empty(), tag);
        assert(sel_scan(Seq::<char>::empty()).2 + tag =~= tag);
        assert(sel_scan(sel_input(tag, gs)) == scan_expected(tag, gs));
    } else {
        let prev = gs.drop_last();
        assert(forall|i: int|
            0 <= i < prev.len() ==> plain_text(group_content(#[trigger] prev[i]))) by {
            assert(forall|i: int| 0 <= i < prev.len() ==> prev[i] == gs[i]);
        }
        assert(match gs.last() {
            GroupV::Id(_) => num_ids(gs) == num_ids(prev) + 1,
            _ => num_ids(gs) == num_ids(prev),
        });
        lemma_num_ids_nonneg(prev);
        lemma_scan_groups(tag, prev);
        lemma_flush_expected(tag, prev);
        let x = sel_input(tag, prev);
        assert(plain_text(group_content(gs.last()))) by {
            assert(gs[gs.len() - 1] == gs.last());
        }
        match gs.last() {
            GroupV::Class(c) => {
                assert(sel_input(tag, gs) =~= (x.push('.')) + c);
                assert((x.push('.')).drop_last() =~= x);
                assert(sel_scan(x.push('.')).0 == parsed_groups(tag, prev));
                assert(sel_scan(x.push('.')).1 == ParserMode::Class);
                assert(sel_scan(x.push('.')).2 == Seq::<char>::empty());
                lemma_scan_plain(x.push('.'), c);
                assert(Seq::<char>::empty() + c =~= c);
            },
            GroupV::Id(i) => {
                assert(sel_input(tag, gs) =~= (x.push('#')) + i);
                assert((x.push('#')).drop_last() =~= x);
                assert(sel_scan(x.push('#')).0 == parsed_groups(tag, prev));
                assert(sel_scan(x.push('#')).1 == ParserMode::Id);
                assert(sel_scan(x.push('#')).2 == Seq::<char>::empty());
                lemma_scan_plain(x.push('#'), i);
                assert(Seq::<char>::empty() + i =~= i);
            },
            GroupV::Attr(a) => {
                assert(sel_input(tag, gs) =~= (((x.push('[')) + a)).push(']'));
                assert((x.push('[')).drop_last() =~= x);
                assert(sel_scan(x.push('[')).0 == parsed_groups(tag, prev));
                assert(sel_scan(x.push('[')).1 == ParserMode::Attribute);
                assert(sel_scan(x.push('[')).2 == Seq::<char>::empty());
                lemma_scan_plain(x.push('['), a);
                assert(Seq::<char>::empty() + a =~= a);
                let y = (x.push('[')) + a;
                assert((y.push(']')).drop_last() =~= y);
                assert(sel_scan(y.push(']')) == sel_step(
                    parsed_groups(tag, prev),
                    ParserMode::Attribute,
                    a,
                    ']',
                ));
                assert(classes_of(gs) =~= classes_of(prev));
                assert(id_of(gs) == id_of(prev));
                assert(attrs_of(gs) == attrs_of(prev) + seq![a]);
                if attrs_of(prev).len() == 0 {
                    assert(seq![a] =~= attrs_of(prev) + seq![a]);
                    assert(try_save_spec(parsed_groups(tag, prev), ParserMode::Attribute, a).0
                        =~= parsed_groups(tag, gs));
                } else {
                    assert(attrs_of(prev).push(a) =~= attrs_of(prev) + seq![a]);
                    assert(try_save_spec(parsed_groups(tag, prev), ParserMode::Attribute, a).0
                        =~= parsed_groups(tag, gs));
                }
            },
        }
    }
}

/// For every selector string composed of a tag and any ordering of class,
/// id and attribute groups (with at most one id), parsing yields exactly
/// the tag, those classes in original order, that id, and those attributes
/// in original order; rendering then produces the opening tag with the
/// classes space-joined in order, the id if present, and the attributes in
/// order.
pub proof fn lemma_selector_roundtrip(tag: Seq<char>, gs: Seq<GroupV>)
    requires
        plain_text(tag),
        forall|i: int| 0 <= i < gs.len() ==> plain_text(group_content(#[trigger] gs[i])),
        num_ids(gs) <= 1,
    ensures
        ({
            let sel = sel_parse(sel_input(tag, gs));
            &&& sel.tag == tag
            &&& sel.classes == opt_list(classes_of(gs))
            &&& sel.id == id_of(gs)
            &&& sel.attributes == opt_list(attrs_of(gs))
            &&& render_spec(sel) == "<"@ + tag + (if classes_of(gs).len() == 0 {
                Seq::<char>::empty()
            } else {
                " class=\""@ + render_classes(classes_of(gs)) + "\""@
            }) + (match id_of(gs) {
                Option::Some(x) => " id=\""@ + x + "\""@,
                Option::None => Seq::<char>::empty(),
            }) + (if attrs_of(gs).len() == 0 {
                Seq::<char>::empty()
            } else {
                render_attrs(attrs_of(gs))
            }) + ">"@
        }),
{
    lemma_scan_groups(tag, gs);
    lemma_flush_expected(tag, gs);
    assert(sel_parse(sel_input(tag, gs)) == parsed_groups(tag, gs));
}

/// Once an id is set, a further id group cannot overwrite it: only the
/// first id is kept.
pub proof fn lemma_id_first_wins(s: Seq<char>, y: Seq<char>)
    requires
        plain_text(y),
        sel_parse(s).id is Some,
    ensures
        sel_parse(s + seq!['#'] + y).id == sel_parse(s).id,
{
    let p = sel_scan(s);
    assert((s + seq!['#']) =~= s.push('#'));
    assert((s.push('#')).drop_last() =~= s);
    assert(sel_scan(s.push('#')).0 == sel_parse(s));
    assert(sel_scan(s.push('#')).1 == ParserMode::Id);
    lemma_scan_plain(s.push('#'), y);
    assert(s + seq!['#'] + y =~= (s.push('#')) + y);
    assert(sel_scan(s + seq!['#'] + y).0 == sel_parse(s));
    assert(sel_scan(s + seq!['#'] + y).1 == ParserMode::Id);
}

/// Escaping quotes distributes over concatenation.
pub proof fn lemma_escape_quotes_concat(a: Seq<char>, b: Seq<char>)
    ensures
        escape_quotes_spec(a + b) == escape_quotes_spec(a) + escape_quotes_spec(b),
    decreases a.len(),
{
    if a.len() == 0 {
        assert(a + b =~= b);
        assert(escape_quotes_spec(a) + escape_quotes_spec(b) =~= escape_quotes_spec(b));
    } else {
        lemma_escape_quotes_concat(a.drop_first(), b);
        assert((a + b).drop_first() =~= a.drop_first() + b);
        assert((a + b)[0] == a[0]);
        let u = if a[0] == '"' {
            seq!['\\', '"']
        } else {
            seq![a[0]]
        };
        assert(escape_quotes_spec(a + b) == u + (escape_quotes_spec(a.drop_first())
            + escape_quotes_spec(b)));
        assert(u + (escape_quotes_spec(a.drop_first()) + escape_quotes_spec(b)) =~= (u
            + escape_quotes_spec(a.drop_first())) + escape_quotes_spec(b));
    }
}

/// Escaping quotes leaves quote-free text unchanged.
pub proof fn lemma_escape_quotes_id(s: Seq<char>)
    requires
        forall|i: int| 0 <= i < s.len() ==> s[i] != '"',
    ensures
        escape_quotes_spec(s) == s,
    decreases s.len(),
{
    if s.len() > 0 {
        lemma_escape_quotes_id(s.drop_first());
        assert(escape_quotes_spec(s) =~= s);
    }
}

/// A slot marker declared with the attribute `name="n"` leaves in the
/// compiled output exactly the placeholder statement that a slot-block
/// directive targeting `n` searches for.
pub proof fn lemma_slot_marker_matches(n: Seq<char>)
    requires
        forall|i: int| 0 <= i < n.len() ==> n[i] != '"',
    ensures
        slot_stmt("name=\""@ + n + "\""@) == slot_placeholder(n),
{
    reveal_strlit("name=\"");
    reveal_strlit("name=\\\"");
    reveal_strlit("\"");
    reveal_strlit("\\\"");
    reveal_strlit("crml_rendered.push_str(\"<slot ");
    reveal_strlit("crml_rendered.push_str(\"<slot name=\\\"");
    reveal_strlit("/>\");\n");
    reveal_strlit("\\\"/>\");\n");
    let a = "name=\""@ + n + "\""@;
    lemma_escape_quotes_concat("name=\""@ + n, "\""@);
    lemma_escape_quotes_concat("name=\""@, n);
    lemma_escape_quotes_id(n);
    assert(escape_quotes_spec("\""@) =~= "\\\""@) by {
        reveal_strlit("\"");
        reveal_strlit("\\\"");
        assert("\""@.len() == 1);
        assert("\""@[0] == '"');
        assert("\""@.drop_first() =~= Seq::<char>::empty());
        assert(escape_quotes_spec(Seq::<char>::empty()) == Seq::<char>::empty());
        assert(escape_quotes_spec("\""@) == seq!['\\', '"'] + Seq::<char>::empty());
        assert("\\\""@.len() == 2 && "\\\""@[0] == '\\' && "\\\""@[1] == '"');
    }
    assert(escape_quotes_spec("name=\""@) =~= "name=\\\""@) by {
        reveal_with_fuel(escape_quotes_spec, 9);
        assert("name=\""@.len() == 6);
        assert("name=\""@[5] == '"');
        assert("name=\""@.drop_first().drop_first().drop_first().drop_first().drop_first()
            =~= seq!['"']);
        assert(escape_quotes_spec(seq!['"']) =~= seq!['\\', '"']) by {
            assert(seq!['"'].drop_first() =~= Seq::<char>::empty());
        }
    }
    assert(escape_quotes_spec(a) =~= "name=\\\""@ + n + "\\\""@);
    assert("crml_rendered.push_str(\"<slot "@ + ("name=\\\""@ + n + "\\\""@) + "/>\");\n"@
        =~= "crml_rendered.push_str(\"<slot name=\\\""@ + n + "\\\"/>\");\n"@);
    assert(slot_stmt(a) =~= slot_placeholder(n));
}

/// Template inheritance round trip: when the last line of a template is a
/// slot-block directive targeting slot `name` of base template `file`, and
/// the compiled base holds exactly one placeholder statement for `name`,
/// the finalized output is the base's prefix, then everything generated so
/// far, then the base's suffix — and the placeholder statement is absent
/// from it.
pub proof fn lemma_slot_roundtrip(
    ts: Seq<(Seq<char>, Seq<char>)>,
    lines: Seq<Seq<char>>,
    k: int,
    st: GenStV,
    fuel: nat,
    file: Seq<char>,
    name: Seq<char>,
    src: Seq<char>,
    base: Seq<Seq<char>>,
)
    requires
        0 <= k < lines.len(),
        k <= i32::MAX,
        k == lines.len() - 1,
        ({
            let t = line_token(lines, k);
            &&& t.kind is Selector
            &&& t.raw != "\n"@
            &&& (t.selector matches Option::Some(sel) && sel.tag == "s:"@ + file
                && (sel.classes matches Option::Some(cls) && cls.len() > 0 && cls[0] == name))
        }),
        line_token(lines, k).indent >= (if st.indents.len() > 0 {
            st.indents.last()
        } else {
            0
        }),
        fuel > 0,
        st.tails.len() == 0,
        lookup_tpl(ts, file) == Option::Some(src),
        compile_lines(ts, split_lines(src), (fuel - 1) as nat) == Result::<
            Seq<Seq<char>>,
            ErrV,
        >::Ok(base),
        find_stmt(base, slot_placeholder(name)) < base.len(),
        forall|i: int|
            0 <= i < base.len() && i != find_stmt(base, slot_placeholder(name)) ==> base[i]
                != slot_placeholder(name),
        forall|i: int| 0 <= i < st.out.len() ==> st.out[i] != slot_placeholder(name),
    ensures
        ({
            let j = find_stmt(base, slot_placeholder(name));
            let r = gen(ts, lines, k, st, fuel);
            r matches Result::Ok(stf) && {
                &&& stf.out + stf.tails == base.take(j) + st.out + base.skip(j + 1)
                &&& forall|i: int|
                    0 <= i < (stf.out + stf.tails).len() ==> (stf.out + stf.tails)[i]
                        != slot_placeholder(name)
            }
        }),
{
    reveal_strlit("s:");
    reveal_strlit("slot");
    reveal_strlit("r:");
    reveal_strlit("-");
    let t = line_token(lines, k);
    let sel = t.selector->Some_0;
    let j = find_stmt(base, slot_placeholder(name));
    crate::compose::lemma_find_stmt_le(base, slot_placeholder(name));
    assert(sel.tag.len() == 2 + file.len());
    assert(sel.tag[0] == 's' && sel.tag[1] == ':');
    assert(is_prefix_of("s:"@, sel.tag)) by {
        assert(sel.tag.subrange(0, 2) =~= "s:"@);
    }
    assert(!is_prefix_of("-"@, sel.tag)) by {
        if is_prefix_of("-"@, sel.tag) {
            assert(sel.tag.subrange(0, 1) == "-"@);
            assert(sel.tag.subrange(0, 1)[0] == sel.tag[0]);
        }
    }
    assert(sel.tag != "slot"@) by {
        if sel.tag == "slot"@ {
            assert(sel.tag[1] == 'l');
        }
    }
    assert(!is_prefix_of("r:"@, sel.tag)) by {
        if is_prefix_of("r:"@, sel.tag) {
            assert(sel.tag.subrange(0, 2) == "r:"@);
            assert(sel.tag.subrange(0, 2)[0] == sel.tag[0]);
        }
    }
    assert(sel.tag.skip(2) =~= file);
    let last_tag = if st.tags.len() > 0 {
        st.tags.last()
    } else {
        Seq::<char>::empty()
    };
    let last_ind = if st.indents.len() > 0 {
        st.indents.last()
    } else {
        0
    };
    assert(!(t.indent < last_ind));
    let st2 = if t.indent != last_ind {
        GenStV { indents: st.indents.push(t.indent), ..st }
    } else {
        st
    };
    assert(gen(ts, lines, k, st, fuel) == gen_sel(ts, lines, k, st2, fuel, t, last_tag));
    let spliced = GenStV {
        out: base.take(j) + st2.out,
        tags: st2.tags.push(sel.tag),
        indents: st2.indents,
        tails: st2.tails + base.skip(j + 1),
    };
    assert(gen_sel(ts, lines, k, st2, fuel, t, last_tag) == gen(ts, lines, k + 1, spliced, fuel));
    assert(gen(ts, lines, k + 1, spliced, fuel) == Result::<GenStV, ErrV>::Ok(spliced));
    assert(st2.out == st.out && st2.tails == st.tails);
    assert(spliced.out + spliced.tails =~= base.take(j) + st.out + base.skip(j + 1));
    let fin = spliced.out + spliced.tails;
    assert forall|i: int| 0 <= i < fin.len() implies fin[i] != slot_placeholder(name) by {
        if i < j {
            assert(fin[i] == base[i]);
        } else if i < j + st.out.len() {
            assert(fin[i] == st.out[i - j]);
        } else {
            assert(fin[i] == base[j + 1 + (i - j - st.out.len())]);
        }
    }
}

/// Whether line `j` carries a slot-block (template-inclusion) directive.
pub open spec fn is_slot_block_line(lines: Seq<Seq<char>>, j: int) -> bool {
    let t = line_token(lines, j);
    &&& !(t.kind is RustString)
    &&& !(t.kind is PushedRustString)
    &&& t.raw != "\n"@
    &&& (t.selector matches Option::Some(sel) && {
        &&& !is_prefix_of("-"@, sel.tag)
        &&& sel.tag != "slot"@
        &&& !is_prefix_of("r:"@, sel.tag)
        &&& is_prefix_of("s:"@, sel.tag)
    })
}

proof fn lemma_frame_step(
    pa: Seq<Seq<char>>,
    pb: Seq<Seq<char>>,
    add: Seq<Seq<char>>,
    ra: Seq<Seq<char>>,
    rb: Seq<Seq<char>>,
)
    requires
        ra.len() >= pa.len() + add.len(),
        ra.subrange(0, pa.len() + add.len() as int) == pa + add,
        rb == (pb + add) + ra.skip(pa.len() + add.len() as int),
    ensures
        ra.len() >= pa.len(),
        ra.subrange(0, pa.len() as int) == pa,
        rb == pb + ra.skip(pa.len() as int),
{
    let n = pa.len() + add.len() as int;
    let pre = ra.subrange(0, n);
    assert(forall|j: int| 0 <= j < n ==> #[trigger] ra[j] == pre[j]);
    assert(ra.subrange(0, pa.len() as int) =~= pa);
    assert(ra.skip(pa.len() as int) =~= add + ra.skip(n));
    assert((pb + add) + ra.skip(n) =~= pb + (add + ra.skip(n)));
}

/// The frame relation between two runs that started from states with equal
/// stacks: both end with equal stacks, neither touches the pending tails,
/// and both append the same statements to their respective outputs — or
/// both fail with the same error.
pub open spec fn frame_rel(
    sa: GenStV,
    sb: GenStV,
    ra: Result<GenStV, ErrV>,
    rb: Result<GenStV, ErrV>,
) -> bool {
    match (ra, rb) {
        (Result::Ok(ra), Result::Ok(rb)) => {
            &&& ra.tags == rb.tags
            &&& ra.indents == rb.indents
            &&& ra.tails == sa.tails
            &&& rb.tails == sb.tails
            &&& ra.out.len() >= sa.out.len()
            &&& ra.out.subrange(0, sa.out.len() as int) == sa.out
            &&& rb.out == sb.out + ra.out.skip(sa.out.len() as int)
        },
        (Result::Err(ea), Result::Err(eb)) => ea == eb,
        _ => false,
    }
}

/// Map the frame relation of the post-step states back to the pre-step
/// states, given that the step appended exactly `add` to both outputs.
proof fn frame_combine(
    sa: GenStV,
    sb: GenStV,
    sa3: GenStV,
    sb3: GenStV,
    ts: Seq<(Seq<char>, Seq<char>)>,
    lines: Seq<Seq<char>>,
    k: int,
    fuel: nat,
    add: Seq<Seq<char>>,
)
    requires
        sa3.out == sa.out + add,
        sb3.out == sb.out + add,
        sa3.tails == sa.tails,
        sb3.tails == sb.tails,
        gen(ts, lines, k, sa, fuel) == gen(ts, lines, k + 1, sa3, fuel),
        gen(ts, lines, k, sb, fuel) == gen(ts, lines, k + 1, sb3, fuel),
        frame_rel(sa3, sb3, gen(ts, lines, k + 1, sa3, fuel), gen(ts, lines, k + 1, sb3, fuel)),
    ensures
        frame_rel(sa, sb, gen(ts, lines, k, sa, fuel), gen(ts, lines, k, sb, fuel)),
{
    match (gen(ts, lines, k + 1, sa3, fuel), gen(ts, lines, k + 1, sb3, fuel)) {
        (Result::Ok(ra), Result::Ok(rb)) => {
            lemma_frame_step(sa.out, sb.out, add, ra.out, rb.out);
        },
        _ => {},
    }
}

/// The state after the auto-close check and the indent tracking of one
/// token, as `gen` computes it.
pub open spec fn pre_state(st: GenStV, t: TokenV) -> GenStV {
    let last_tag = if st.tags.len() > 0 {
        st.tags.last()
    } else {
        Seq::<char>::empty()
    };
    let last_ind = if st.indents.len() > 0 {
        st.indents.last()
    } else {
        0
    };
    let auto = t.indent < last_ind && last_tag.len() > 0 && !ws_full(last_tag) && !is_prefix_of(
        "r:"@,
        last_tag,
    ) && !is_prefix_of("s:"@, last_tag);
    let st1 = if auto {
        GenStV {
            out: st.out.push(close_stmt(last_tag)),
            tags: pop_seq(st.tags),
            indents: pop_ints(st.indents),
            tails: st.tails,
        }
    } else {
        st
    };
    if t.indent != last_ind {
        GenStV { indents: st1.indents.push(t.indent), ..st1 }
    } else {
        st1
    }
}

/// What the auto-close step appends to the output.
pub open spec fn auto_adds(st: GenStV, t: TokenV) -> Seq<Seq<char>> {
    let last_tag = if st.tags.len() > 0 {
        st.tags.last()
    } else {
        Seq::<char>::empty()
    };
    let last_ind = if st.indents.len() > 0 {
        st.indents.last()
    } else {
        0
    };
    if t.indent < last_ind && last_tag.len() > 0 && !ws_full(last_tag) && !is_prefix_of(
        "r:"@,
        last_tag,
    ) && !is_prefix_of("s:"@, last_tag) {
        seq![close_stmt(last_tag)]
    } else {
        Seq::<Seq<char>>::empty()
    }
}

proof fn lemma_pre_state_pair(sa: GenStV, sb: GenStV, t: TokenV)
    requires
        sa.tags == sb.tags,
        sa.indents == sb.indents,
    ensures
        pre_state(sa, t).tags == pre_state(sb, t).tags,
        pre_state(sa, t).indents == pre_state(sb, t).indents,
        pre_state(sa, t).tails == sa.tails,
        pre_state(sb, t).tails == sb.tails,
        pre_state(sa, t).out == sa.out + auto_adds(sa, t),
        pre_state(sb, t).out == sb.out + auto_adds(sb, t),
        auto_adds(sa, t) == auto_adds(sb, t),
{
    assert(pre_state(sa, t).out =~= sa.out + auto_adds(sa, t));
    assert(pre_state(sb, t).out =~= sb.out + auto_adds(sb, t));
}

/// One step of the frame argument for a token whose handling appends the
/// statements `add2` (beyond any auto-close) and rewrites the tag stack to
/// `tags3`, leaving indents and tails as the pre-state has them.
proof fn frame_branch(
    ts: Seq<(Seq<char>, Seq<char>)>,
    lines: Seq<Seq<char>>,
    k: int,
    sa: GenStV,
    sb: GenStV,
    fuel: nat,
    add2: Seq<Seq<char>>,
    tags3: Seq<Seq<char>>,
)
    requires
        0 <= k < lines.len(),
        k <= i32::MAX,
        sa.tags == sb.tags,
        sa.indents == sb.indents,
        forall|j: int| k + 1 <= j < lines.len() ==> !is_slot_block_line(lines, j),
        gen(ts, lines, k, sa, fuel) == gen(
            ts,
            lines,
            k + 1,
            GenStV {
                out: pre_state(sa, line_token(lines, k)).out + add2,
                tags: tags3,
                indents: pre_state(sa, line_token(lines, k)).indents,
                tails: sa.tails,
            },
            fuel,
        ),
        gen(ts, lines, k, sb, fuel) == gen(
            ts,
            lines,
            k + 1,
            GenStV {
                out: pre_state(sb, line_token(lines, k)).out + add2,
                tags: tags3,
                indents: pre_state(sb, line_token(lines, k)).indents,
                tails: sb.tails,
            },
            fuel,
        ),
    ensures
        frame_rel(sa, sb, gen(ts, lines, k, sa, fuel), gen(ts, lines, k, sb, fuel)),
    decreases lines.len() - k, 0int,
{
    let t = line_token(lines, k);
    lemma_pre_state_pair(sa, sb, t);
    let add = auto_adds(sa, t) + add2;
    let sa3 = GenStV {
        out: pre_state(sa, t).out + add2,
        tags: tags3,
        indents: pre_state(sa, t).indents,
        tails: sa.tails,
    };
    let sb3 = GenStV {
        out: pre_state(sb, t).out + add2,
        tags: tags3,
        indents: pre_state(sb, t).indents,
        tails: sb.tails,
    };
    assert(sa3.out =~= sa.out + add);
    assert(sb3.out =~= sb.out + add);
    lemma_gen_frame(ts, lines, k + 1, sa3, sb3, fuel);
    frame_combine(sa, sb, sa3, sb3, ts, lines, k, fuel, add);
}

/// Away from inclusion directives, generation only appends to the output
/// and never touches the pending tails; what it appends is independent of
/// the output accumulated so far.  So everything generated after an
/// inclusion point lands after the spliced base prefix and before the
/// deferred base suffix.
#[verifier::rlimit(100)]
pub proof fn lemma_gen_frame(
    ts: Seq<(Seq<char>, Seq<char>)>,
    lines: Seq<Seq<char>>,
    k: int,
    sa: GenStV,
    sb: GenStV,
    fuel: nat,
)
    requires
        sa.tags == sb.tags,
        sa.indents == sb.indents,
        forall|j: int| k <= j < lines.len() ==> !is_slot_block_line(lines, j),
    ensures
        frame_rel(sa, sb, gen(ts, lines, k, sa, fuel), gen(ts, lines, k, sb, fuel)),
    decreases lines.len() - k, 2int,
{
    if k < 0 || k >= lines.len() || k > i32::MAX {
        assert(sa.out.subrange(0, sa.out.len() as int) =~= sa.out);
        assert(sb.out + sa.out.skip(sa.out.len() as int) =~= sb.out);
    } else {
        let t = line_token(lines, k);
        let sa2 = pre_state(sa, t);
        let sb2 = pre_state(sb, t);
        lemma_pre_state_pair(sa, sb, t);
        if t.kind is RustString {
            let stmt = host_stmt(t.raw, t.line);
            assert(gen(ts, lines, k, sa, fuel) == gen(
                ts,
                lines,
                k + 1,
                GenStV { out: sa2.out.push(stmt), ..sa2 },
                fuel,
            ));
            assert(gen(ts, lines, k, sb, fuel) == gen(
                ts,
                lines,
                k + 1,
                GenStV { out: sb2.out.push(stmt), ..sb2 },
                fuel,
            ));
            assert(sa2.out.push(stmt) =~= sa2.out + seq![stmt]);
            assert(sb2.out.push(stmt) =~= sb2.out + seq![stmt]);
            frame_branch(ts, lines, k, sa, sb, fuel, seq![stmt], sa2.tags);
        } else if t.kind is PushedRustString {
            let stmt = expr_stmt(t.raw, t.line);
            assert(gen(ts, lines, k, sa, fuel) == gen(
                ts,
                lines,
                k + 1,
                GenStV { out: sa2.out.push(stmt), ..sa2 },
                fuel,
            ));
            assert(gen(ts, lines, k, sb, fuel) == gen(
                ts,
                lines,
                k + 1,
                GenStV { out: sb2.out.push(stmt), ..sb2 },
                fuel,
            ));
            assert(sa2.out.push(stmt) =~= sa2.out + seq![stmt]);
            assert(sb2.out.push(stmt) =~= sb2.out + seq![stmt]);
            frame_branch(ts, lines, k, sa, sb, fuel, seq![stmt], sa2.tags);
        } else if t.raw == "\n"@ {
            let stmt = newline_stmt();
            assert(gen(ts, lines, k, sa, fuel) == gen(
                ts,
                lines,
                k + 1,
                GenStV { out: sa2.out.push(stmt), ..sa2 },
                fuel,
            ));
            assert(gen(ts, lines, k, sb, fuel) == gen(
                ts,
                lines,
                k + 1,
                GenStV { out: sb2.out.push(stmt), ..sb2 },
                fuel,
            ));
            assert(sa2.out.push(stmt) =~= sa2.out + seq![stmt]);
            assert(sb2.out.push(stmt) =~= sb2.out + seq![stmt]);
            frame_branch(ts, lines, k, sa, sb, fuel, seq![stmt], sa2.tags);
        } else {
            frame_sel(ts, lines, k, sa, sb, fuel);
        }
    }
}

/// The frame argument for fragment-carrying tokens.
#[verifier::rlimit(100)]
proof fn frame_sel(
    ts: Seq<(Seq<char>, Seq<char>)>,
    lines: Seq<Seq<char>>,
    k: int,
    sa: GenStV,
    sb: GenStV,
    fuel: nat,
)
    requires
        0 <= k < lines.len(),
        k <= i32::MAX,
        sa.tags == sb.tags,
        sa.indents == sb.indents,
        forall|j: int| k <= j < lines.len() ==> !is_slot_block_line(lines, j),
        !(line_token(lines, k).kind is RustString),
        !(line_token(lines, k).kind is PushedRustString),
        line_token(lines, k).raw != "\n"@,
    ensures
        frame_rel(sa, sb, gen(ts, lines, k, sa, fuel), gen(ts, lines, k, sb, fuel)),
    decreases lines.len() - k, 1int,
{
    let t = line_token(lines, k);
    let sa2 = pre_state(sa, t);
    let sb2 = pre_state(sb, t);
    lemma_pre_state_pair(sa, sb, t);
    let last_tag = if sa.tags.len() > 0 {
        sa.tags.last()
    } else {
        Seq::<char>::empty()
    };
    assert(gen(ts, lines, k, sa, fuel) == gen_sel(ts, lines, k, sa2, fuel, t, last_tag));
    assert(gen(ts, lines, k, sb, fuel) == gen_sel(ts, lines, k, sb2, fuel, t, last_tag));
    match t.selector {
        Option::Some(sel) => {
            if !is_prefix_of("-"@, sel.tag) {
                if sel.tag == "slot"@ {
                    match sel.attributes {
                        Option::Some(ats) => {
                            if ats.len() > 0 {
                                let stmt = slot_stmt(ats[0]);
                                assert(gen_sel(ts, lines, k, sa2, fuel, t, last_tag) == gen(
                                    ts,
                                    lines,
                                    k + 1,
                                    GenStV { out: sa2.out.push(stmt), ..sa2 },
                                    fuel,
                                ));
                                assert(gen_sel(ts, lines, k, sb2, fuel, t, last_tag) == gen(
                                    ts,
                                    lines,
                                    k + 1,
                                    GenStV { out: sb2.out.push(stmt), ..sb2 },
                                    fuel,
                                ));
                                assert(sa2.out.push(stmt) =~= sa2.out + seq![stmt]);
                                assert(sb2.out.push(stmt) =~= sb2.out + seq![stmt]);
                                frame_branch(ts, lines, k, sa, sb, fuel, seq![stmt], sa2.tags);
                            }
                        },
                        Option::None => {},
                    }
                } else if is_prefix_of("r:"@, sel.tag) {
                    assert(gen_sel(ts, lines, k, sa2, fuel, t, last_tag) == gen(
                        ts,
                        lines,
                        k + 1,
                        GenStV { tags: sa2.tags.push(sel.tag), ..sa2 },
                        fuel,
                    ));
                    assert(gen_sel(ts, lines, k, sb2, fuel, t, last_tag) == gen(
                        ts,
                        lines,
                        k + 1,
                        GenStV { tags: sb2.tags.push(sel.tag), ..sb2 },
                        fuel,
                    ));
                    assert(sa2.out =~= sa2.out + Seq::<Seq<char>>::empty());
                    assert(sb2.out =~= sb2.out + Seq::<Seq<char>>::empty());
                    frame_branch(
                        ts,
                        lines,
                        k,
                        sa,
                        sb,
                        fuel,
                        Seq::<Seq<char>>::empty(),
                        sa2.tags.push(sel.tag),
                    );
                } else if is_prefix_of("s:"@, sel.tag) {
                    assert(is_slot_block_line(lines, k));
                    assert(false);
                } else {
                    let stmt = frag_stmt(emitted_text(sel.tag, t.raw, t.html), t.line);
                    let tags3 = if contains_sub(t.html, "</"@) && !is_prefix_of("r:"@, sel.tag) {
                        pop_seq(sa2.tags.push(sel.tag))
                    } else {
                        sa2.tags.push(sel.tag)
                    };
                    assert(gen_sel(ts, lines, k, sa2, fuel, t, last_tag) == gen(
                        ts,
                        lines,
                        k + 1,
                        GenStV {
                            out: sa2.out.push(stmt),
                            tags: tags3,
                            indents: sa2.indents,
                            tails: sa2.tails,
                        },
                        fuel,
                    ));
                    assert(gen_sel(ts, lines, k, sb2, fuel, t, last_tag) == gen(
                        ts,
                        lines,
                        k + 1,
                        GenStV {
                            out: sb2.out.push(stmt),
                            tags: tags3,
                            indents: sb2.indents,
                            tails: sb2.tails,
                        },
                        fuel,
                    ));
                    assert(sa2.out.push(stmt) =~= sa2.out + seq![stmt]);
                    assert(sb2.out.push(stmt) =~= sb2.out + seq![stmt]);
                    frame_branch(ts, lines, k, sa, sb, fuel, seq![stmt], tags3);
                }
            } else {
                if is_prefix_of("-r:"@, sel.tag) {
                    assert(gen_sel(ts, lines, k, sa2, fuel, t, last_tag) == gen(
                        ts,
                        lines,
                        k + 1,
                        GenStV { tags: pop_seq(sa2.tags), ..sa2 },
                        fuel,
                    ));
                    assert(gen_sel(ts, lines, k, sb2, fuel, t, last_tag) == gen(
                        ts,
                        lines,
                        k + 1,
                        GenStV { tags: pop_seq(sb2.tags), ..sb2 },
                        fuel,
                    ));
                    assert(sa2.out =~= sa2.out + Seq::<Seq<char>>::empty());
                    assert(sb2.out =~= sb2.out + Seq::<Seq<char>>::empty());
                    frame_branch(
                        ts,
                        lines,
                        k,
                        sa,
                        sb,
                        fuel,
                        Seq::<Seq<char>>::empty(),
                        pop_seq(sa2.tags),
                    );
                } else {
                    let stmt = frag_stmt(emitted_text(last_tag, t.raw, t.html), t.line);
                    let tags3 = if contains_sub(t.html, "</"@) && !is_prefix_of("r:"@, last_tag) {
                        pop_seq(pop_seq(sa2.tags))
                    } else {
                        pop_seq(sa2.tags)
                    };
                    assert(gen_sel(ts, lines, k, sa2, fuel, t, last_tag) == gen(
                        ts,
                        lines,
                        k + 1,
                        GenStV {
                            out: sa2.out.push(stmt),
                            tags: tags3,
                            indents: sa2.indents,
                            tails: sa2.tails,
                        },
                        fuel,
                    ));
                    assert(gen_sel(ts, lines, k, sb2, fuel, t, last_tag) == gen(
                        ts,
                        lines,
                        k + 1,
                        GenStV {
                            out: sb2.out.push(stmt),
                            tags: tags3,
                            indents: sb2.indents,
                            tails: sb2.tails,
                        },
                        fuel,
                    ));
                    assert(sa2.out.push(stmt) =~= sa2.out + seq![stmt]);
                    assert(sb2.out.push(stmt) =~= sb2.out + seq![stmt]);
                    frame_branch(ts, lines, k, sa, sb, fuel, seq![stmt], tags3);
                }
            }
        },
        Option::None => {
            let stmt = frag_stmt(emitted_text(last_tag, t.raw, t.html), t.line);
            let tags3 = if contains_sub(t.html, "</"@) && !is_prefix_of("r:"@, last_tag) {
                pop_seq(sa2.tags)
            } else {
                sa2.tags
            };
            assert(gen_sel(ts, lines, k, sa2, fuel, t, last_tag) == gen(
                ts,
                lines,
                k + 1,
                GenStV { out: sa2.out.push(stmt), tags: tags3, indents: sa2.indents, tails: sa2.tails },
                fuel,
            ));
            assert(gen_sel(ts, lines, k, sb2, fuel, t, last_tag) == gen(
                ts,
                lines,
                k + 1,
                GenStV { out: sb2.out.push(stmt), tags: tags3, indents: sb2.indents, tails: sb2.tails },
                fuel,
            ));
            assert(sa2.out.push(stmt) =~= sa2.out + seq![stmt]);
            assert(sb2.out.push(stmt) =~= sb2.out + seq![stmt]);
            frame_branch(ts, lines, k, sa, sb, fuel, seq![stmt], tags3);
        },
    }
}

/// Template inheritance round trip, with content after the directive: the
/// finalized output is the base's prefix, then everything generated before
/// the directive, then everything the remaining lines generate, then the
/// base's suffix.  The remaining lines' contribution is exactly what they
/// would generate on their own (from an empty output), by `lemma_gen_frame`.
pub proof fn lemma_slot_roundtrip_general(
    ts: Seq<(Seq<char>, Seq<char>)>,
    lines: Seq<Seq<char>>,
    k: int,
    st: GenStV,
    fuel: nat,
    file: Seq<char>,
    name: Seq<char>,
    src: Seq<char>,
    base: Seq<Seq<char>>,
)
    requires
        0 <= k < lines.len(),
        k <= i32::MAX,
        ({
            let t = line_token(lines, k);
            &&& t.kind is Selector
            &&& t.raw != "\n"@
            &&& (t.selector matches Option::Some(sel) && sel.tag == "s:"@ + file
                && (sel.classes matches Option::Some(cls) && cls.len() > 0 && cls[0] == name))
        }),
        line_token(lines, k).indent >= (if st.indents.len() > 0 {
            st.indents.last()
        } else {
            0
        }),
        fuel > 0,
        st.tails.len() == 0,
        lookup_tpl(ts, file) == Option::Some(src),
        compile_lines(ts, split_lines(src), (fuel - 1) as nat) == Result::<
            Seq<Seq<char>>,
            ErrV,
        >::Ok(base),
        find_stmt(base, slot_placeholder(name)) < base.len(),
        forall|j: int| k + 1 <= j < lines.len() ==> !is_slot_block_line(lines, j),
    ensures
        ({
            let j = find_stmt(base, slot_placeholder(name));
            let t = line_token(lines, k);
            let sel = t.selector->Some_0;
            let st2 = pre_state(st, t);
            let rest0 = GenStV {
                out: Seq::<Seq<char>>::empty(),
                tags: st2.tags.push(sel.tag),
                indents: st2.indents,
                tails: Seq::<Seq<char>>::empty(),
            };
            match (gen(ts, lines, k, st, fuel), gen(ts, lines, k + 1, rest0, fuel)) {
                (Result::Ok(stf), Result::Ok(r0)) => stf.out + stf.tails == base.take(j) + st.out
                    + r0.out + base.skip(j + 1),
                (Result::Err(e1), Result::Err(e0)) => e1 == e0,
                _ => false,
            }
        }),
{
    reveal_strlit("s:");
    reveal_strlit("slot");
    reveal_strlit("r:");
    reveal_strlit("-");
    let t = line_token(lines, k);
    let sel = t.selector->Some_0;
    let j = find_stmt(base, slot_placeholder(name));
    crate::compose::lemma_find_stmt_le(base, slot_placeholder(name));
    assert(sel.tag.len() == 2 + file.len());
    assert(sel.tag[0] == 's' && sel.tag[1] == ':');
    assert(is_prefix_of("s:"@, sel.tag)) by {
        assert(sel.tag.subrange(0, 2) =~= "s:"@);
    }
    assert(!is_prefix_of("-"@, sel.tag)) by {
        if is_prefix_of("-"@, sel.tag) {
            assert(sel.tag.subrange(0, 1) == "-"@);
            assert(sel.tag.subrange(0, 1)[0] == sel.tag[0]);
        }
    }
    assert(sel.tag != "slot"@) by {
        if sel.tag == "slot"@ {
            assert(sel.tag[1] == 'l');
        }
    }
    assert(!is_prefix_of("r:"@, sel.tag)) by {
        if is_prefix_of("r:"@, sel.tag) {
            assert(sel.tag.subrange(0, 2) == "r:"@);
            assert(sel.tag.subrange(0, 2)[0] == sel.tag[0]);
        }
    }
    assert(sel.tag.skip(2) =~= file);
    let last_tag = if st.tags.len() > 0 {
        st.tags.last()
    } else {
        Seq::<char>::empty()
    };
    let st2 = pre_state(st, t);
    assert(st2.out =~= st.out);
    assert(st2.tails =~= st.tails);
    let spliced = GenStV {
        out: base.take(j) + st2.out,
        tags: st2.tags.push(sel.tag),
        indents: st2.indents,
        tails: st2.tails + base.skip(j + 1),
    };
    assert(gen(ts, lines, k, st, fuel) == gen_sel(ts, lines, k, st2, fuel, t, last_tag));
    assert(gen_sel(ts, lines, k, st2, fuel, t, last_tag) == gen(ts, lines, k + 1, spliced, fuel));
    let rest0 = GenStV {
        out: Seq::<Seq<char>>::empty(),
        tags: st2.tags.push(sel.tag),
        indents: st2.indents,
        tails: Seq::<Seq<char>>::empty(),
    };
    lemma_gen_frame(ts, lines, k + 1, spliced, rest0, fuel);
    match (gen(ts, lines, k + 1, spliced, fuel), gen(ts, lines, k + 1, rest0, fuel)) {
        (Result::Ok(ra), Result::Ok(rb)) => {
            assert(ra.out =~= spliced.out + ra.out.skip(spliced.out.len() as int)) by {
                assert(forall|q: int|
                    0 <= q < spliced.out.len() ==> #[trigger] ra.out[q] == ra.out.subrange(
                        0,
                        spliced.out.len() as int,
                    )[q]);
            }
            assert(rb.out =~= ra.out.skip(spliced.out.len() as int));
            assert(ra.tails =~= base.skip(j + 1));
            assert(ra.out + ra.tails =~= base.take(j) + st.out + rb.out + base.skip(j + 1));
        },
        _ => {},
    }
}

} // verus!
