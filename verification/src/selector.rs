//! A small parser for CSS-like element descriptors such as
//! `div.class1.class2#id[attr1][attr2=val]`, and its rendering to an
//! opening-tag fragment.
use vstd::prelude::*;

verus! {

use vstd::string::StringExecFns;
use crate::text::to_chars;

/// Spec-level shape of a parsed selector.
#[verifier::ext_equal]
pub struct SelectorV {
    pub tag: Seq<char>,
    pub classes: Option<Seq<Seq<char>>>,
    pub id: Option<Seq<char>>,
    pub attributes: Option<Seq<Seq<char>>>,
}

/// The extracted data of a parsed selector.
#[derive(Clone, Debug)]
pub struct SelectorState {
    pub tag: String,
    pub classes: Option<Vec<String>>,
    pub id: Option<String>,
    pub attributes: Option<Vec<String>>,
}

impl View for SelectorState {
    type V = SelectorV;

    open spec fn view(&self) -> SelectorV {
        SelectorV {
            tag: self.tag@,
            classes: match self.classes {
                Option::Some(v) => Option::Some(v.deep_view()),
                Option::None => Option::None,
            },
            id: match self.id {
                Option::Some(s) => Option::Some(s@),
                Option::None => Option::None,
            },
            attributes: match self.attributes {
                Option::Some(v) => Option::Some(v.deep_view()),
                Option::None => Option::None,
            },
        }
    }
}

/// The selector with no tag, classes, id or attributes yet.
pub open spec fn empty_selector() -> SelectorV {
    SelectorV {
        tag: Seq::<char>::empty(),
        classes: Option::None,
        id: Option::None,
        attributes: Option::None,
    }
}

/// The capture mode of the selector parser: which field the accumulated
/// buffer belongs to when it is flushed.
#[derive(Clone, Copy, PartialEq, Eq)]
pub enum ParserMode {
    Tag,
    Class,
    Id,
    Attribute,
}

/// What saving `buf` under `mode` does to a selector: the new selector and
/// the buffer handed back (emptied on success, kept when the field is
/// already occupied).
pub open spec fn try_save_spec(st: SelectorV, mode: ParserMode, buf: Seq<char>) -> (SelectorV, Seq<
    char,
>) {
    match mode {
        ParserMode::Tag => {
            if st.tag.len() == 0 {
                (SelectorV { tag: buf, ..st }, Seq::<char>::empty())
            } else {
                (st, buf)
            }
        },
        ParserMode::Class => {
            match st.classes {
                Option::None => (
                    SelectorV { classes: Option::Some(seq![buf]), ..st },
                    Seq::<char>::empty(),
                ),
                Option::Some(cs) => (
                    SelectorV { classes: Option::Some(cs.push(buf)), ..st },
                    Seq::<char>::empty(),
                ),
            }
        },
        ParserMode::Id => {
            match st.id {
                Option::None => (SelectorV { id: Option::Some(buf), ..st }, Seq::<char>::empty()),
                Option::Some(_) => (st, buf),
            }
        },
        ParserMode::Attribute => {
            match st.attributes {
                Option::None => (
                    SelectorV { attributes: Option::Some(seq![buf]), ..st },
                    Seq::<char>::empty(),
                ),
                Option::Some(ats) => (
                    SelectorV { attributes: Option::Some(ats.push(buf)), ..st },
                    Seq::<char>::empty(),
                ),
            }
        },
    }
}

impl SelectorState {
    /// Try to save the current buffer to the state (in the correct field).
    ///
    /// The tag and the id accept a value only once; classes and attributes
    /// grow a list.  When the field is occupied the buffer is handed back
    /// unchanged, otherwise an empty buffer is handed back.
    pub fn try_save(&mut self, mode: ParserMode, buffer: String) -> (r: String)
        ensures
            final(self)@ == try_save_spec(old(self)@, mode, buffer@).0,
            r@ == try_save_spec(old(self)@, mode, buffer@).1,
    {
        match mode {
            ParserMode::Tag => {
                if self.tag.as_str().is_empty() {
                    self.tag = buffer;
                    String::new()
                } else {
                    buffer
                }
            },
            ParserMode::Class => {
                if self.classes.is_none() {
                    let mut v: Vec<String> = Vec::new();
                    v.push(buffer);
                    proof {
                        assert(v.deep_view() =~= seq![buffer@]);
                    }
                    self.classes = Option::Some(v);
                } else {
                    if let Option::Some(classes) = &mut self.classes {
                        let ghost cs = classes.deep_view();
                        classes.push(buffer);
                        proof {
                            assert(classes.deep_view() =~= cs.push(buffer@));
                        }
                    }
                }
                String::new()
            },
            ParserMode::Id => {
                if self.id.is_none() {
                    self.id = Option::Some(buffer);
                    String::new()
                } else {
                    buffer
                }
            },
            ParserMode::Attribute => {
                if self.attributes.is_none() {
                    let mut v: Vec<String> = Vec::new();
                    v.push(buffer);
                    proof {
                        assert(v.deep_view() =~= seq![buffer@]);
                    }
                    self.attributes = Option::Some(v);
                } else {
                    if let Option::Some(attributes) = &mut self.attributes {
                        let ghost ats = attributes.deep_view();
                        attributes.push(buffer);
                        proof {
                            assert(attributes.deep_view() =~= ats.push(buffer@));
                        }
                    }
                }
                String::new()
            },
        }
    }

    /// A copy whose view equals this selector's view.
    pub fn duplicate(&self) -> (r: Self)
        ensures
            r@ == self@,
    {
        let r = SelectorState {
            tag: self.tag.clone(),
            classes: match &self.classes {
                Option::Some(v) => Option::Some(clone_string_vec(v)),
                Option::None => Option::None,
            },
            id: match &self.id {
                Option::Some(s) => Option::Some(s.clone()),
                Option::None => Option::None,
            },
            attributes: match &self.attributes {
                Option::Some(v) => Option::Some(clone_string_vec(v)),
                Option::None => Option::None,
            },
        };
        proof {
            assert(r@ =~= self@);
        }
        r
    }

    /// Render state to HTML: `<tag class="c1 c2 " id="id" attr1 attr2=val>`.
    pub fn render(self) -> (r: String)
        ensures
            r@ == render_spec(self@),
    {
        let mut out = String::from_str("<");
        out.append(self.tag.as_str());
        if let Option::Some(classes) = self.classes {
            out.append(" class=\"");
            let n = classes.len();
            let ghost cs = classes.deep_view();
            let ghost head = "<"@ + self.tag@ + " class=\""@;
            let mut i: usize = 0;
            proof {
                assert(cs.take(0) =~= Seq::<Seq<char>>::empty());
            }
            while i < n
                invariant
                    i <= n,
                    n == classes@.len(),
                    cs == classes.deep_view(),
                    out@ == head + render_classes(cs.take(i as int)),
                decreases n - i,
            {
                out.append(classes[i].as_str());
                out.append(" ");
                proof {
                    assert(cs.take(i + 1).drop_last() =~= cs.take(i as int));
                    assert(cs.take(i + 1).last() == cs[i as int]);
                }
                i = i + 1;
            }
            proof {
                assert(cs.take(n as int) =~= cs);
            }
            out.append("\"");
        }
        if let Option::Some(id) = self.id {
            out.append(" id=\"");
            out.append(id.as_str());
            out.append("\"");
        }
        if let Option::Some(attributes) = self.attributes {
            let n = attributes.len();
            let ghost ats = attributes.deep_view();
            let ghost head = out@;
            let mut i: usize = 0;
            proof {
                assert(ats.take(0) =~= Seq::<Seq<char>>::empty());
            }
            while i < n
                invariant
                    i <= n,
                    n == attributes@.len(),
                    ats == attributes.deep_view(),
                    out@ == head + render_attrs(ats.take(i as int)),
                decreases n - i,
            {
                out.append(" ");
                out.append(attributes[i].as_str());
                proof {
                    assert(ats.take(i + 1).drop_last() =~= ats.take(i as int));
                    assert(ats.take(i + 1).last() == ats[i as int]);
                }
                i = i + 1;
            }
            proof {
                assert(ats.take(n as int) =~= ats);
            }
        }
        out.append(">");
        proof {
            assert(out@ =~= render_spec(self@));
        }
        out
    }
}

fn clone_string_vec(v: &Vec<String>) -> (r: Vec<String>)
    ensures
        r.deep_view() == v.deep_view(),
{
    let mut out: Vec<String> = Vec::new();
    let n = v.len();
    let mut i: usize = 0;
    while i < n
        invariant
            i <= n,
            n == v@.len(),
            out@.len() == i,
            forall|j: int| 0 <= j < i ==> out@[j]@ == v@[j]@,
        decreases n - i,
    {
        out.push(v[i].clone());
        i = i + 1;
    }
    proof {
        assert(out.deep_view() =~= v.deep_view());
    }
    out
}

/// The classes joined with a trailing space after each.
pub open spec fn render_classes(cs: Seq<Seq<char>>) -> Seq<char>
    decreases cs.len(),
{
    if cs.len() == 0 {
        Seq::<char>::empty()
    } else {
        render_classes(cs.drop_last()) + cs.last() + " "@
    }
}

/// The attributes, each prefixed by a space, in order.
pub open spec fn render_attrs(ats: Seq<Seq<char>>) -> Seq<char>
    decreases ats.len(),
{
    if ats.len() == 0 {
        Seq::<char>::empty()
    } else {
        render_attrs(ats.drop_last()) + " "@ + ats.last()
    }
}

/// The opening-tag fragment of a selector.
pub open spec fn render_spec(s: SelectorV) -> Seq<char> {
    "<"@ + s.tag + (match s.classes {
        Option::Some(cs) => " class=\""@ + render_classes(cs) + "\""@,
        Option::None => Seq::<char>::empty(),
    }) + (match s.id {
        Option::Some(id) => " id=\""@ + id + "\""@,
        Option::None => Seq::<char>::empty(),
    }) + (match s.attributes {
        Option::Some(ats) => render_attrs(ats),
        Option::None => Seq::<char>::empty(),
    }) + ">"@
}

/// One scan step: `.`, `#` and `[` flush the buffer under the current mode
/// and switch mode; `]` flushes and reverts to the neutral mode; any other
/// character accumulates.
pub open spec fn sel_step(st: SelectorV, mode: ParserMode, buf: Seq<char>, c: char) -> (
    SelectorV,
    ParserMode,
    Seq<char>,
) {
    if c == '.' {
        let r = try_save_spec(st, mode, buf);
        (r.0, ParserMode::Class, r.1)
    } else if c == '#' {
        let r = try_save_spec(st, mode, buf);
        (r.0, ParserMode::Id, r.1)
    } else if c == '[' {
        let r = try_save_spec(st, mode, buf);
        (r.0, ParserMode::Attribute, r.1)
    } else if c == ']' {
        let r = try_save_spec(st, mode, buf);
        (r.0, ParserMode::Tag, r.1)
    } else {
        (st, mode, buf.push(c))
    }
}

/// The scan state after consuming `s`, starting from the empty selector in
/// the neutral mode.
pub open spec fn sel_scan(s: Seq<char>) -> (SelectorV, ParserMode, Seq<char>)
    decreases s.len(),
{
    if s.len() == 0 {
        (empty_selector(), ParserMode::Tag, Seq::<char>::empty())
    } else {
        let p = sel_scan(s.drop_last());
        sel_step(p.0, p.1, p.2, s.last())
    }
}

/// The selector described by `s`: scan every character, then flush the
/// remaining buffer one last time.
pub open spec fn sel_parse(s: Seq<char>) -> SelectorV {
    let p = sel_scan(s);
    try_save_spec(p.0, p.1, p.2).0
}

/// A simple parser for CSS selectors.
pub struct Selector(String);

impl View for Selector {
    type V = Seq<char>;

    closed spec fn view(&self) -> Seq<char> {
        self.0@
    }
}

impl Selector {
    /// Create a new [`Selector`].
    pub fn new(input: String) -> (r: Self)
        ensures
            r@ == input@,
    {
        Selector(input)
    }

    /// Begin parsing the selector.
    pub fn parse(self) -> (r: SelectorState)
        ensures
            r@ == sel_parse(self@),
    {
        let mut state = SelectorState {
            tag: String::new(),
            classes: Option::None,
            id: Option::None,
            attributes: Option::None,
        };
        let chars = to_chars(self.0.as_str());
        let mut mode: ParserMode = ParserMode::Tag;
        let mut buffer: String = String::new();
        let n = chars.len();
        let mut i: usize = 0;
        proof {
            assert(chars@.take(0) =~= Seq::<char>::empty());
            assert(state@ =~= empty_selector());
        }
        while i < n
            invariant
                i <= n,
                n == chars@.len(),
                chars@ == self@,
                sel_scan(chars@.take(i as int)).0 == state@,
                sel_scan(chars@.take(i as int)).1 == mode,
                sel_scan(chars@.take(i as int)).2 == buffer@,
            decreases n - i,
        {
            let c = chars[i];
            proof {
                assert(chars@.take(i + 1).drop_last() =~= chars@.take(i as int));
                assert(chars@.take(i + 1).last() == chars@[i as int]);
            }
            if c == '.' {
                buffer = state.try_save(mode, buffer);
                mode = ParserMode::Class;
            } else if c == '#' {
                buffer = state.try_save(mode, buffer);
                mode = ParserMode::Id;
            } else if c == '[' {
                buffer = state.try_save(mode, buffer);
                mode = ParserMode::Attribute;
            } else if c == ']' {
                buffer = state.try_save(mode, buffer);
                mode = ParserMode::Tag;
            } else {
                let mut b = buffer;
                crate::text::push_char(&mut b, c);
                buffer = b;
            }
            i = i + 1;
        }
        proof {
            assert(chars@.take(n as int) =~= chars@);
        }
        // one last save to catch whatever the final mode still holds
        let _ = state.try_save(mode, buffer);
        state
    }
}

} // verus!
