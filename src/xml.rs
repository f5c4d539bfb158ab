//! XML tags under the cursor and the items they name.
use vstd::prelude::*;
use vstd::string::*;
use crate::facts::FactMap;
use crate::js::{component_of, opt_item, text_to_component};
use crate::m2::{area_of_path, get_area, is_upper, uppercase, Item, M2Area, M2Item};
use crate::state::State;
use crate::table::StrMap;
use crate::text::{ends_with, has_suffix, same_text, trim_char, trim_matches};

verus! {

/// A copy of an item.
pub fn copy_item(x: &M2Item) -> (r: M2Item)
    ensures
        r@ == x@,
{
    match x {
        M2Item::Component(a) => M2Item::Component(a.clone()),
        M2Item::ModComponent(a, b, c) => M2Item::ModComponent(a.clone(), b.clone(), c.clone()),
        M2Item::ModHtml(a, b, c) => M2Item::ModHtml(a.clone(), b.clone(), c.clone()),
        M2Item::RelComponent(a, b) => M2Item::RelComponent(a.clone(), b.clone()),
        M2Item::Class(a) => M2Item::Class(a.clone()),
        M2Item::Method(a, b) => M2Item::Method(a.clone(), b.clone()),
        M2Item::Const(a, b) => M2Item::Const(a.clone(), b.clone()),
        M2Item::FrontPhtml(a, b) => M2Item::FrontPhtml(a.clone(), b.clone()),
        M2Item::AdminPhtml(a, b) => M2Item::AdminPhtml(a.clone(), b.clone()),
        M2Item::BasePhtml(a, b) => M2Item::BasePhtml(a.clone(), b.clone()),
    }
}

/// The part of a tag under the cursor.
pub enum XmlPart {
    Text,
    Attribute(String),
    Nothing,
}

/// A tag: its name, attributes, text, and the part under the cursor.
pub struct XmlTag {
    pub name: String,
    pub attributes: StrMap<String>,
    pub text: String,
    pub hover_on: XmlPart,
}

impl XmlTag {
    /// A tag with no name, attribute or text, nothing under the cursor.
    pub fn new() -> (r: Self)
        ensures
            r.name@.len() == 0,
            r.attributes.wf(),
            r.attributes.map() == Map::<Seq<char>, String>::empty(),
            r.text@.len() == 0,
            r.hover_on is Nothing,
    {
        XmlTag { name: String::new(), attributes: StrMap::new(), text: String::new(), hover_on: XmlPart::Nothing }
    }
}

/// The value of attribute `name`, if the tag has it.
pub open spec fn attr(tag: XmlTag, name: Seq<char>) -> Option<Seq<char>> {
    if tag.attributes.map().contains_key(name) {
        Some(tag.attributes.map()[name]@)
    } else {
        None
    }
}

/// A method reference made of the tag's `instance` (or else `class`) and
/// `method` attributes.
pub open spec fn method_of_tag(tag: XmlTag) -> Option<Item> {
    if attr(tag, "instance"@) is Some && attr(tag, "method"@) is Some {
        Some(Item::Method(attr(tag, "instance"@)->0, attr(tag, "method"@)->0))
    } else if attr(tag, "class"@) is Some && attr(tag, "method"@) is Some {
        Some(Item::Method(attr(tag, "class"@)->0, attr(tag, "method"@)->0))
    } else {
        None
    }
}

fn attr_of(tag: &XmlTag, name: &str) -> (r: Option<String>)
    requires
        tag.attributes.wf(),
    ensures
        match r {
            Some(v) => attr(*tag, name@) == Some(v@),
            None => attr(*tag, name@) is None,
        },
{
    match tag.attributes.get(name) {
        Some(v) => Some(v.clone()),
        None => None,
    }
}

/// The method that the tag's attributes name.
pub fn try_method_item_from_tag(tag: &XmlTag) -> (r: Option<M2Item>)
    requires
        tag.attributes.wf(),
    ensures
        opt_item(r) == method_of_tag(*tag),
{
    proof {
        reveal_strlit("instance");
        reveal_strlit("class");
        reveal_strlit("method");
    }
    let method = attr_of(tag, "method");
    match (attr_of(tag, "instance"), method) {
        (Some(i), Some(m)) => Some(M2Item::Method(i, m)),
        (None, Some(m)) => match attr_of(tag, "class") {
            Some(c) => Some(M2Item::Method(c, m)),
            None => None,
        },
        _ => None,
    }
}

/// The first place of `::` in `t`, or the length of `t`.
pub open spec fn find_pair(t: Seq<char>) -> int
    decreases t.len(),
{
    if t.len() < 2 {
        t.len() as int
    } else if t[0] == ':' && t[1] == ':' {
        0
    } else {
        1 + find_pair(t.drop_first())
    }
}

/// `t` split at its only `::` into two parts.
pub open spec fn two_parts(t: Seq<char>) -> Option<(Seq<char>, Seq<char>)> {
    let i = find_pair(t);
    if i < t.len() && find_pair(t.subrange(i + 2, t.len() as int)) == t.len() - (i + 2) {
        Some((t.subrange(0, i), t.subrange(i + 2, t.len() as int)))
    } else {
        None
    }
}

proof fn lemma_find_pair(t: Seq<char>)
    ensures
        0 <= find_pair(t) <= t.len(),
        find_pair(t) < t.len() ==> find_pair(t) + 2 <= t.len() && t[find_pair(t)] == ':' && t[find_pair(t) + 1] == ':',
        forall|j: int| 0 <= j < find_pair(t) && j + 1 < t.len() ==> !(#[trigger] t[j] == ':' && t[j + 1] == ':'),
    decreases t.len(),
{
    if t.len() >= 2 && !(t[0] == ':' && t[1] == ':') {
        lemma_find_pair(t.drop_first());
        assert forall|j: int| 0 <= j < find_pair(t) && j + 1 < t.len() implies !(#[trigger] t[j] == ':' && t[j + 1] == ':') by {
            if j > 0 {
                assert(t[j] == t.drop_first()[j - 1]);
                assert(t[j + 1] == t.drop_first()[j]);
            }
        }
    }
}

pub(crate) fn find_pair_in(t: &str) -> (r: usize)
    ensures
        r == find_pair(t@),
{
    proof {
        lemma_find_pair(t@);
    }
    let cs = crate::text::chars_of(t);
    let n = cs.len();
    if n < 2 {
        return n;
    }
    let mut i: usize = 0;
    while i + 1 < n
        invariant
            cs@ == t@,
            n == t@.len(),
            n >= 2,
            i + 1 <= n,
            forall|j: int| 0 <= j < i ==> !(#[trigger] t@[j] == ':' && t@[j + 1] == ':'),
            0 <= find_pair(t@) <= t@.len(),
            find_pair(t@) < t@.len() ==> find_pair(t@) + 2 <= t@.len() && t@[find_pair(t@)] == ':' && t@[find_pair(t@) + 1] == ':',
            forall|j: int| 0 <= j < find_pair(t@) && j + 1 < t@.len() ==> !(#[trigger] t@[j] == ':' && t@[j + 1] == ':'),
        decreases n - i,
    {
        if cs[i] == ':' && cs[i + 1] == ':' {
            return i;
        }
        i = i + 1;
    }
    n
}

fn split_pair(t: &str) -> (r: Option<(String, String)>)
    ensures
        match r {
            Some((a, b)) => two_parts(t@) == Some((a@, b@)),
            None => two_parts(t@) is None,
        },
{
    let n = t.unicode_len();
    let i = find_pair_in(t);
    proof {
        lemma_find_pair(t@);
    }
    if i < n {
        let rest = t.substring_char(i + 2, n);
        let j = find_pair_in(rest);
        if j == rest.unicode_len() {
            return Some((t.substring_char(0, i).to_owned(), rest.to_owned()));
        }
    }
    None
}

/// A class constant `Class::CONST`.
pub open spec fn const_item(t: Seq<char>) -> Option<Item> {
    match two_parts(t) {
        Some((c, k)) => Some(Item::Const(c, k)),
        None => None,
    }
}

/// A template `Module::path` of area `a`.
pub open spec fn phtml_item(t: Seq<char>, a: M2Area) -> Option<Item> {
    match two_parts(t) {
        Some((m, p)) => Some(
            match a {
                M2Area::Frontend => Item::FrontPhtml(m, p),
                M2Area::Adminhtml => Item::AdminPhtml(m, p),
                M2Area::Base => Item::BasePhtml(m, p),
            },
        ),
        None => None,
    }
}

/// What a text in an XML file names: a template (`Module::file.phtml`), a
/// class constant (`Class::CONST`), or a class (starting with a capital).
pub open spec fn any_item(t: Seq<char>, a: M2Area) -> Option<Item> {
    if ends_with(t, ".phtml"@) {
        phtml_item(t, a)
    } else if find_pair(t) < t.len() {
        const_item(t)
    } else if t.len() > 0 && uppercase(t[0]) {
        Some(Item::Class(t))
    } else {
        None
    }
}

/// The class constant that `text` names.
pub fn try_const_item_from_str(text: &str) -> (r: Option<M2Item>)
    ensures
        opt_item(r) == const_item(text@),
{
    match split_pair(text) {
        Some((c, k)) => Some(M2Item::Const(c, k)),
        None => None,
    }
}

/// The template of `area` that `text` names.
pub fn try_phtml_item_from_str(text: &str, area: &M2Area) -> (r: Option<M2Item>)
    ensures
        opt_item(r) == phtml_item(text@, *area),
{
    match split_pair(text) {
        Some((m, p)) => Some(
            match area {
                M2Area::Frontend => M2Item::FrontPhtml(m, p),
                M2Area::Adminhtml => M2Item::AdminPhtml(m, p),
                M2Area::Base => M2Item::BasePhtml(m, p),
            },
        ),
        None => None,
    }
}

/// The item that a text of an XML file names.
pub fn try_any_item_from_str(text: &str, area: &M2Area) -> (r: Option<M2Item>)
    ensures
        opt_item(r) == any_item(text@, *area),
{
    proof {
        reveal_strlit(".phtml");
    }
    if has_suffix(text, ".phtml") {
        try_phtml_item_from_str(text, area)
    } else if find_pair_in(text) < text.unicode_len() {
        try_const_item_from_str(text)
    } else if text.unicode_len() > 0 && is_upper(text.get_char(0)) {
        Some(M2Item::Class(text.to_owned()))
    } else {
        None
    }
}

/// What the part under the cursor of `tag`, in the XML file at `file`, names.
pub open spec fn tag_item(m: FactMap, tag: XmlTag, file: Seq<char>) -> Option<Item> {
    let area = area_of_path(file);
    match tag.hover_on {
        XmlPart::Attribute(n) => match attr(tag, n@) {
            None => None,
            Some(v) => if n@ == "method"@ || n@ == "instance"@ || n@ == "class"@ {
                match method_of_tag(tag) {
                    Some(x) => Some(x),
                    None => any_item(v, area),
                }
            } else if n@ == "template"@ {
                phtml_item(v, area)
            } else {
                any_item(v, area)
            },
        },
        XmlPart::Text => {
            let t = trim_char(tag.text@, '\\');
            let xsi = match attr(tag, "xsi:type"@) {
                Some(v) => v,
                None => Seq::empty(),
            };
            if xsi == "object"@ {
                Some(Item::Class(t))
            } else if xsi == "init_parameter"@ {
                const_item(t)
            } else if xsi == "string"@ {
                if attr(tag, "name"@) == Some("component"@) {
                    component_of(m, t, file)
                } else {
                    any_item(t, area)
                }
            } else {
                any_item(t, area)
            }
        },
        XmlPart::Nothing => None,
    }
}

/// What the part under the cursor of `tag`, in the XML file at `path`, names.
pub fn get_item_from_tag(state: &State, tag: &XmlTag, path: &str) -> (r: Option<M2Item>)
    requires
        state.wf(),
        tag.attributes.wf(),
    ensures
        opt_item(r) == tag_item(state.facts(), *tag, path@),
{
    proof {
        reveal_strlit("method");
        reveal_strlit("instance");
        reveal_strlit("class");
        reveal_strlit("template");
        reveal_strlit("xsi:type");
        reveal_strlit("object");
        reveal_strlit("init_parameter");
        reveal_strlit("string");
        reveal_strlit("name");
        reveal_strlit("component");
    }
    let area = get_area(path);
    match &tag.hover_on {
        XmlPart::Attribute(n) => {
            let v = match attr_of(tag, n.as_str()) {
                Some(v) => v,
                None => return None,
            };
            let n = n.as_str();
            if same_text(n, "method") || same_text(n, "instance") || same_text(n, "class") {
                match try_method_item_from_tag(tag) {
                    Some(x) => Some(x),
                    None => try_any_item_from_str(v.as_str(), &area),
                }
            } else if same_text(n, "template") {
                try_phtml_item_from_str(v.as_str(), &area)
            } else {
                try_any_item_from_str(v.as_str(), &area)
            }
        },
        XmlPart::Text => {
            let t = trim_matches(tag.text.as_str(), '\\');
            let xsi = match attr_of(tag, "xsi:type") {
                Some(v) => v,
                None => String::new(),
            };
            let x = xsi.as_str();
            if same_text(x, "object") {
                Some(M2Item::Class(t.to_owned()))
            } else if same_text(x, "init_parameter") {
                try_const_item_from_str(t)
            } else if same_text(x, "string") {
                let is_component = match attr_of(tag, "name") {
                    Some(v) => same_text(v.as_str(), "component"),
                    None => false,
                };
                if is_component {
                    text_to_component(state, t, path)
                } else {
                    try_any_item_from_str(t, &area)
                }
            } else {
                try_any_item_from_str(t, &area)
            }
        },
        XmlPart::Nothing => None,
    }
}

/// Which part of a tag a capture holds.
#[derive(Debug, Clone, Copy, PartialEq, Eq, Structural)]
pub enum TagPart {
    TagName,
    AttributeName,
    AttributeValue,
    Text,
    Other,
}

/// One capture of the tag query: the tag it belongs to, the part it holds,
/// its text (backslashes at either end dropped), whether its match covers the
/// cursor (by its first or last capture), and whether the capture itself does.
pub struct TagCapture {
    pub tag_id: usize,
    pub part: TagPart,
    pub text: String,
    pub in_span: bool,
    pub hovered: bool,
}

/// The part of a tag under the cursor, as a value.
pub enum Hover {
    Text,
    Attribute(Seq<char>),
    Nothing,
}

/// The value of the part under the cursor.
pub open spec fn hover_view(p: XmlPart) -> Hover {
    match p {
        XmlPart::Text => Hover::Text,
        XmlPart::Attribute(n) => Hover::Attribute(n@),
        XmlPart::Nothing => Hover::Nothing,
    }
}

/// The tag being read from the captures: the tag it is, its name, attributes,
/// text and hovered part, and the attribute name read last.
pub struct TagState {
    pub id: Option<usize>,
    pub name: Seq<char>,
    pub attrs: Map<Seq<char>, Seq<char>>,
    pub text: Seq<char>,
    pub hover: Hover,
    pub last_attr: Seq<char>,
}

/// The tag read from the captures, in order: captures whose match does not
/// cover the cursor are passed over; a capture of another tag starts the tag
/// afresh; a name sets the name; an attribute name is added with an empty
/// value; an attribute value sets the value of the attribute named last; a
/// text sets the text; a hovered value or text becomes the hovered part.
pub open spec fn tag_state(cs: Seq<TagCapture>) -> TagState
    decreases cs.len(),
{
    if cs.len() == 0 {
        TagState {
            id: None,
            name: Seq::empty(),
            attrs: Map::empty(),
            text: Seq::empty(),
            hover: Hover::Nothing,
            last_attr: Seq::empty(),
        }
    } else {
        let s = tag_state(cs.drop_last());
        let c = cs.last();
        if !c.in_span {
            s
        } else {
            let s1 = if s.id == Some(c.tag_id) {
                s
            } else {
                TagState {
                    id: Some(c.tag_id),
                    name: Seq::empty(),
                    attrs: Map::empty(),
                    text: Seq::empty(),
                    hover: Hover::Nothing,
                    last_attr: s.last_attr,
                }
            };
            match c.part {
                TagPart::TagName => TagState { name: c.text@, ..s1 },
                TagPart::AttributeName => TagState {
                    attrs: s1.attrs.insert(c.text@, Seq::empty()),
                    last_attr: c.text@,
                    ..s1
                },
                TagPart::AttributeValue => TagState {
                    attrs: s1.attrs.insert(s1.last_attr, c.text@),
                    hover: if c.hovered { Hover::Attribute(s1.last_attr) } else { s1.hover },
                    ..s1
                },
                TagPart::Text => TagState {
                    text: c.text@,
                    hover: if c.hovered { Hover::Text } else { s1.hover },
                    ..s1
                },
                TagPart::Other => s1,
            }
        }
    }
}

/// The values of a table of texts.
pub open spec fn text_map(m: Map<Seq<char>, String>) -> Map<Seq<char>, Seq<char>> {
    m.map_values(|v: String| v@)
}

/// The tag under the cursor, read from the captures of the tag query; none
/// when no tag name was read.
pub fn tag_from_captures(cs: &Vec<TagCapture>) -> (r: Option<XmlTag>)
    ensures
        r is Some == (tag_state(cs@).name.len() > 0),
        r is Some ==> ({
            let t = r->0;
            let s = tag_state(cs@);
            &&& t.name@ == s.name
            &&& t.attributes.wf()
            &&& text_map(t.attributes.map()) == s.attrs
            &&& t.text@ == s.text
            &&& hover_view(t.hover_on) == s.hover
        }),
{
    let mut id: Option<usize> = None;
    let mut tag = XmlTag::new();
    let mut last_attr = String::new();
    let mut i: usize = 0;
    assert(text_map(tag.attributes.map()) =~= Map::<Seq<char>, Seq<char>>::empty());
    while i < cs.len()
        invariant
            i <= cs@.len(),
            tag.attributes.wf(),
            id == tag_state(cs@.subrange(0, i as int)).id,
            tag.name@ == tag_state(cs@.subrange(0, i as int)).name,
            text_map(tag.attributes.map()) == tag_state(cs@.subrange(0, i as int)).attrs,
            tag.text@ == tag_state(cs@.subrange(0, i as int)).text,
            hover_view(tag.hover_on) == tag_state(cs@.subrange(0, i as int)).hover,
            last_attr@ == tag_state(cs@.subrange(0, i as int)).last_attr,
        decreases cs.len() - i,
    {
        let ghost sub = cs@.subrange(0, i + 1);
        assert(sub.drop_last() =~= cs@.subrange(0, i as int));
        assert(sub.last() == cs@[i as int]);
        let c = &cs[i];
        if c.in_span {
            if id != Some(c.tag_id) {
                id = Some(c.tag_id);
                tag = XmlTag::new();
                assert(text_map(tag.attributes.map()) =~= Map::<Seq<char>, Seq<char>>::empty());
            }
            match c.part {
                TagPart::TagName => {
                    tag.name = c.text.clone();
                },
                TagPart::AttributeName => {
                    let ghost before = text_map(tag.attributes.map());
                    last_attr = c.text.clone();
                    tag.attributes.insert(c.text.clone(), String::new());
                    assert(text_map(tag.attributes.map()) =~= before.insert(c.text@, Seq::<char>::empty()));
                },
                TagPart::AttributeValue => {
                    let ghost before = text_map(tag.attributes.map());
                    tag.attributes.insert(last_attr.clone(), c.text.clone());
                    assert(text_map(tag.attributes.map()) =~= before.insert(last_attr@, c.text@));
                    if c.hovered {
                        tag.hover_on = XmlPart::Attribute(last_attr.clone());
                    }
                },
                TagPart::Text => {
                    tag.text = c.text.clone();
                    if c.hovered {
                        tag.hover_on = XmlPart::Text;
                    }
                },
                TagPart::Other => {},
            }
        }
        i = i + 1;
    }
    assert(cs@.subrange(0, i as int) =~= cs@);
    if tag.name.as_str().unicode_len() == 0 {
        None
    } else {
        Some(tag)
    }
}

/// A node met while walking back from the cursor's node (to the previous
/// sibling, else to the parent): its id, kind, text (backslashes at either
/// end dropped), its parent's kind, its first child's id and its second
/// child's text, where it has them.
pub struct WalkNode {
    pub id: usize,
    pub kind: String,
    pub text: String,
    pub parent_kind: Option<String>,
    pub first_child_id: Option<usize>,
    pub second_child_text: Option<String>,
}

/// A step of a position path: a tag or an attribute.
pub enum PathPart {
    Tag(Seq<char>),
    Attr(Seq<char>),
}

/// What the backward walk has gathered: the nodes seen, whether an attribute
/// was met, the path parts in walk order, whether an end tag was passed,
/// whether the cursor stands in a tag's text, and whether the walk met a node
/// that lacks what it needs.
pub struct WalkState {
    pub ids: Seq<usize>,
    pub has_attr: bool,
    pub parts: Seq<PathPart>,
    pub pop_last: bool,
    pub on_text: bool,
    pub failed: bool,
}

/// The cursor's node stands in a tag's text: it is the closing `>` of a start
/// tag, or a text right after one (`prev_last` is the last child of the
/// previous sibling: kind and text).
pub open spec fn starts_on_text(kind: Seq<char>, text: Seq<char>, prev_last: Option<(Seq<char>, Seq<char>)>) -> bool {
    (kind == ">"@ && text == ">"@) || (kind == "text"@ && match prev_last {
        Some((k, t)) => k == ">"@ && t == ">"@,
        None => false,
    })
}

/// The walk read node by node: a node seen before is passed over; the first
/// attribute name becomes a step; a start or self-closing tag whose first
/// child was not seen becomes a step named by its second child; a tag name
/// becomes a step unless it closes a tag, in which case the last step is
/// dropped and the cursor is not in a text.
pub open spec fn walk_state(on_text: bool, ws: Seq<WalkNode>) -> WalkState
    decreases ws.len(),
{
    if ws.len() == 0 {
        WalkState { ids: Seq::empty(), has_attr: false, parts: Seq::empty(), pop_last: false, on_text, failed: false }
    } else {
        let s = walk_state(on_text, ws.drop_last());
        let n = ws.last();
        if s.failed || s.ids.contains(n.id) {
            s
        } else {
            let s0 = WalkState { ids: s.ids.push(n.id), ..s };
            if n.kind@ == "attribute_name"@ && !s0.has_attr {
                WalkState { has_attr: true, parts: s0.parts.push(PathPart::Attr(n.text@)), ..s0 }
            } else if n.kind@ == "self_closing_tag"@ || n.kind@ == "start_tag"@ {
                match n.first_child_id {
                    None => s0,
                    Some(fc) => if s0.ids.contains(fc) {
                        s0
                    } else {
                        match n.second_child_text {
                            None => WalkState { failed: true, ..s0 },
                            Some(t) => WalkState { parts: s0.parts.push(PathPart::Tag(t@)), ..s0 },
                        }
                    },
                }
            } else if n.kind@ == "tag_name"@ {
                match n.parent_kind {
                    None => WalkState { failed: true, ..s0 },
                    Some(pk) => if pk@ != "end_tag"@ {
                        WalkState { parts: s0.parts.push(PathPart::Tag(n.text@)), ..s0 }
                    } else {
                        WalkState { pop_last: true, on_text: false, ..s0 }
                    },
                }
            } else {
                s0
            }
        }
    }
}

/// The text of one step.
pub open spec fn part_text(p: PathPart) -> Seq<char> {
    match p {
        PathPart::Tag(n) => seq!['/'] + n,
        PathPart::Attr(n) => seq!['[', '@'] + n + seq![']'],
    }
}

/// The steps `hi - 1` down to `lo`, written one after another.
pub open spec fn render_back(parts: Seq<PathPart>, lo: int, hi: int) -> Seq<char>
    decreases hi - lo,
{
    if hi <= lo {
        Seq::empty()
    } else {
        render_back(parts, lo + 1, hi) + part_text(parts[lo])
    }
}

/// The position path of the cursor: the steps from the outermost tag in, the
/// step met first dropped when an end tag was passed, then `[$text]` when the
/// cursor stands in a tag's text; none when the walk failed.
pub open spec fn xml_path(on_text: bool, ws: Seq<WalkNode>) -> Option<Seq<char>> {
    let s = walk_state(on_text, ws);
    if s.failed {
        None
    } else {
        let lo = if s.pop_last && s.parts.len() > 0 { 1int } else { 0int };
        Some(render_back(s.parts, lo, s.parts.len() as int) + if s.on_text { "[$text]"@ } else { Seq::empty() })
    }
}

/// The view of an optional text.
pub open spec fn opt_text(r: Option<String>) -> Option<Seq<char>> {
    match r {
        Some(t) => Some(t@),
        None => None,
    }
}

/// Whether the cursor's node stands in a tag's text.
pub fn on_text_node(kind: &str, text: &str, prev_last: Option<(String, String)>) -> (r: bool)
    ensures
        r == starts_on_text(kind@, text@, match prev_last {
            Some((a, b)) => Some((a@, b@)),
            None => None,
        }),
{
    proof {
        reveal_strlit(">");
        reveal_strlit("text");
    }
    if same_text(kind, ">") && same_text(text, ">") {
        return true;
    }
    match prev_last {
        Some((a, b)) => same_text(kind, "text") && same_text(a.as_str(), ">") && same_text(b.as_str(), ">"),
        None => false,
    }
}

fn has_id(ids: &Vec<usize>, x: usize) -> (r: bool)
    ensures
        r == ids@.contains(x),
{
    let mut i: usize = 0;
    while i < ids.len()
        invariant
            i <= ids@.len(),
            forall|j: int| 0 <= j < i ==> ids@[j] != x,
        decreases ids.len() - i,
    {
        if ids[i] == x {
            return true;
        }
        i = i + 1;
    }
    false
}

/// The view of the steps gathered so far.
pub open spec fn parts_view(v: Seq<(bool, String)>) -> Seq<PathPart> {
    v.map_values(|p: (bool, String)| if p.0 { PathPart::Attr(p.1@) } else { PathPart::Tag(p.1@) })
}

fn push_part(v: &mut Vec<(bool, String)>, attr: bool, name: String)
    ensures
        parts_view(final(v)@) == parts_view(old(v)@).push(if attr { PathPart::Attr(name@) } else { PathPart::Tag(name@) }),
{
    let ghost nv = name@;
    v.push((attr, name));
    assert(parts_view(v@) =~= parts_view(old(v)@).push(if attr { PathPart::Attr(nv) } else { PathPart::Tag(nv) }));
}

/// The position path of the cursor, from the nodes met walking back from the
/// cursor's node.
pub fn xml_path_of(on_text: bool, walk: &Vec<WalkNode>) -> (r: Option<String>)
    ensures
        opt_text(r) == xml_path(on_text, walk@),
{
    let mut ids: Vec<usize> = Vec::new();
    let mut has_attr = false;
    let mut parts: Vec<(bool, String)> = Vec::new();
    let mut pop_last = false;
    let mut text_node = on_text;
    let mut i: usize = 0;
    assert(parts_view(parts@) =~= Seq::<PathPart>::empty());
    while i < walk.len()
        invariant
            i <= walk@.len(),
            ({
                let s = walk_state(on_text, walk@.subrange(0, i as int));
                &&& !s.failed
                &&& ids@ == s.ids
                &&& has_attr == s.has_attr
                &&& parts_view(parts@) == s.parts
                &&& pop_last == s.pop_last
                &&& text_node == s.on_text
            }),
        decreases walk.len() - i,
    {
        proof {
            reveal_strlit("attribute_name");
            reveal_strlit("self_closing_tag");
            reveal_strlit("start_tag");
            reveal_strlit("tag_name");
            reveal_strlit("end_tag");
        }
        let ghost sub = walk@.subrange(0, i + 1);
        assert(sub.drop_last() =~= walk@.subrange(0, i as int));
        assert(sub.last() == walk@[i as int]);
        let n = &walk[i];
        if !has_id(&ids, n.id) {
            ids.push(n.id);
            let k = n.kind.as_str();
            if same_text(k, "attribute_name") && !has_attr {
                has_attr = true;
                push_part(&mut parts, true, n.text.clone());
            } else if same_text(k, "self_closing_tag") || same_text(k, "start_tag") {
                match n.first_child_id {
                    None => {},
                    Some(fc) => {
                        if !has_id(&ids, fc) {
                            match &n.second_child_text {
                                None => {
                                    return fail_on(on_text, walk, i);
                                },
                                Some(t) => push_part(&mut parts, false, t.clone()),
                            }
                        }
                    },
                }
            } else if same_text(k, "tag_name") {
                match &n.parent_kind {
                    None => {
                        return fail_on(on_text, walk, i);
                    },
                    Some(pk) => {
                        if !same_text(pk.as_str(), "end_tag") {
                            push_part(&mut parts, false, n.text.clone());
                        } else {
                            pop_last = true;
                            text_node = false;
                        }
                    },
                }
            }
        }
        i = i + 1;
    }
    assert(walk@.subrange(0, i as int) =~= walk@);
    let lo: usize = if pop_last && parts.len() > 0 { 1 } else { 0 };
    let mut out = String::new();
    let mut j: usize = parts.len();
    while j > lo
        invariant
            lo <= j <= parts@.len(),
            out@ == render_back(parts_view(parts@), j as int, parts@.len() as int),
        decreases j,
    {
        proof {
            reveal_strlit("/");
            reveal_strlit("[@");
            reveal_strlit("]");
        }
        let (attr, name) = (parts[j - 1].0, &parts[j - 1].1);
        assert(parts_view(parts@)[j - 1] == (if attr { PathPart::Attr(name@) } else { PathPart::Tag(name@) }));
        if attr {
            out = out.concat("[@");
            out = out.concat(name.as_str());
            out = out.concat("]");
        } else {
            out = out.concat("/");
            out = out.concat(name.as_str());
        }
        assert(out@ =~= render_back(parts_view(parts@), j - 1, parts@.len() as int));
        j = j - 1;
    }
    if text_node {
        out = out.concat("[$text]");
    }
    Some(out)
}

/// Once the walk has failed at node `i`, it stays failed.
fn fail_on(on_text: bool, walk: &Vec<WalkNode>, i: usize) -> (r: Option<String>)
    requires
        i < walk@.len(),
        walk_state(on_text, walk@.subrange(0, i + 1)).failed,
    ensures
        r is None,
        xml_path(on_text, walk@) is None,
{
    proof {
        lemma_failed_stays(on_text, walk@, i + 1);
    }
    None
}

proof fn lemma_failed_stays(on_text: bool, ws: Seq<WalkNode>, k: int)
    requires
        0 <= k <= ws.len(),
        walk_state(on_text, ws.subrange(0, k)).failed,
    ensures
        walk_state(on_text, ws).failed,
    decreases ws.len() - k,
{
    if k < ws.len() {
        assert(ws.subrange(0, k + 1).drop_last() =~= ws.subrange(0, k));
        lemma_failed_stays(on_text, ws, k + 1);
    } else {
        assert(ws.subrange(0, k) =~= ws);
    }
}

} // verus!
