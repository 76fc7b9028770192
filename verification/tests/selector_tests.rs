use crml::selector::{ParserMode, Selector, SelectorState};

#[test]
fn parse_full_selector() {
    let sel = Selector::new("div.a.b#i[x=1][y]".to_string()).parse();
    assert_eq!(sel.tag, "div");
    assert_eq!(sel.classes, Some(vec!["a".to_string(), "b".to_string()]));
    assert_eq!(sel.id, Some("i".to_string()));
    assert_eq!(sel.attributes, Some(vec!["x=1".to_string(), "y".to_string()]));
}

#[test]
fn render_full_selector() {
    let sel = Selector::new("div.a.b#i[x=1][y]".to_string()).parse();
    assert_eq!(sel.render(), "<div class=\"a b \" id=\"i\" x=1 y>");
}

#[test]
fn render_tag_only() {
    let sel = Selector::new("div".to_string()).parse();
    assert_eq!(sel.classes, None);
    assert_eq!(sel.id, None);
    assert_eq!(sel.attributes, None);
    assert_eq!(sel.render(), "<div>");
}

#[test]
fn duplicate_id_keeps_first() {
    // the second id cannot overwrite the first; its text stays in the
    // buffer and is carried into the next group's flush
    let sel = Selector::new("a#x#y.c".to_string()).parse();
    assert_eq!(sel.id, Some("x".to_string()));
    assert_eq!(sel.classes, Some(vec!["yc".to_string()]));
}

#[test]
fn unterminated_attribute_keeps_scanning() {
    // a missing `]` raises no error: the next sigil still flushes the
    // buffer, into the attribute list it was accumulating for
    let sel = Selector::new("a[href=x.y#z".to_string()).parse();
    assert_eq!(sel.tag, "a");
    assert_eq!(sel.attributes, Some(vec!["href=x".to_string()]));
    assert_eq!(sel.classes, Some(vec!["y".to_string()]));
    assert_eq!(sel.id, Some("z".to_string()));
}

#[test]
fn try_save_tag_once() {
    let mut st = SelectorState { tag: String::new(), classes: None, id: None, attributes: None };
    let left = st.try_save(ParserMode::Tag, "div".to_string());
    assert_eq!(left, "");
    assert_eq!(st.tag, "div");
    let left2 = st.try_save(ParserMode::Tag, "span".to_string());
    assert_eq!(left2, "span");
    assert_eq!(st.tag, "div");
}

#[test]
fn try_save_classes_grow() {
    let mut st = SelectorState { tag: "p".to_string(), classes: None, id: None, attributes: None };
    assert_eq!(st.try_save(ParserMode::Class, "a".to_string()), "");
    assert_eq!(st.try_save(ParserMode::Class, "b".to_string()), "");
    assert_eq!(st.classes, Some(vec!["a".to_string(), "b".to_string()]));
}

#[test]
fn try_save_id_once() {
    let mut st = SelectorState { tag: "p".to_string(), classes: None, id: None, attributes: None };
    assert_eq!(st.try_save(ParserMode::Id, "one".to_string()), "");
    assert_eq!(st.try_save(ParserMode::Id, "two".to_string()), "two");
    assert_eq!(st.id, Some("one".to_string()));
}

#[test]
fn duplicate_state_matches() {
    let sel = Selector::new("div.a#i[k=v]".to_string()).parse();
    let copy = sel.duplicate();
    assert_eq!(copy.tag, sel.tag);
    assert_eq!(copy.classes, sel.classes);
    assert_eq!(copy.id, sel.id);
    assert_eq!(copy.attributes, sel.attributes);
}
