//! Which completion applies where, and the texts it offers.
use vstd::prelude::*;
use vstd::string::*;
use crate::facts::{fact_text, FactKey, FactMap};
use crate::m2::{
    area_dirs, components_of, fallback_area, is_part_of_class_name, is_part_of_module_name,
    join_all, only_alnum_or, path_components, str_views, M2Area,
};
use crate::state::State;
use crate::table::StrMap;
use crate::text::{
    concat, count_char, count_of, ends_with, find_char, first_index_of, has_prefix, has_suffix,
    lemma_first_index_of, replace_all, replace_char, same_text, sort_texts, starts_with,
    strictly_sorted, trim_char, trim_matches, trim_start, views,
};
use crate::xml::{attr, find_pair, find_pair_in, XmlTag};

verus! {

/// A zero-based place in a text: line and character.
#[derive(Debug, Clone, Copy, PartialEq, Eq, Structural)]
pub struct Position {
    pub line: u32,
    pub character: u32,
}

/// The span between two places.
#[derive(Debug, Clone, Copy, PartialEq, Eq, Structural)]
pub struct Range {
    pub start: Position,
    pub end: Position,
}

/// `pos` lies between `start` and `end`, both included.
pub open spec fn in_span(start: Position, end: Position, pos: Position) -> bool {
    &&& start.line <= pos.line <= end.line
    &&& (pos.line == start.line ==> start.character <= pos.character)
    &&& (pos.line == end.line ==> pos.character <= end.character)
}

/// Whether `pos` lies between `start` and `end`, both included.
pub fn node_at_position(start: Position, end: Position, pos: Position) -> (r: bool)
    ensures
        r == in_span(start, end, pos),
{
    if pos.line < start.line || pos.line > end.line {
        return false;
    }
    if pos.line == start.line && pos.character < start.character {
        return false;
    }
    if pos.line == end.line && pos.character > end.character {
        return false;
    }
    true
}

/// Where the line after the `k`-th line break of `t` starts; the start of the
/// last line when `t` has fewer breaks.
pub open spec fn line_start(t: Seq<char>, k: nat) -> int
    decreases k,
{
    if k == 0 {
        0
    } else {
        let p = line_start(t, (k - 1) as nat);
        let j = first_index_of(t.subrange(p, t.len() as int), '\n');
        if p + j < t.len() {
            p + j + 1
        } else {
            p
        }
    }
}

proof fn lemma_line_start(t: Seq<char>, k: nat)
    ensures
        0 <= line_start(t, k) <= t.len(),
    decreases k,
{
    if k > 0 {
        lemma_line_start(t, (k - 1) as nat);
        lemma_first_index_of(t.subrange(line_start(t, (k - 1) as nat), t.len() as int), '\n');
    }
}

/// The text of a node (backslashes at either end dropped) that comes before
/// the cursor: the node starts at `start`, the cursor is at `pos`; on the
/// cursor's line at most as many characters as the cursor's column counts
/// from the line's start (from the node's start on its first line).
pub open spec fn text_before_spec(raw: Seq<char>, start: Position, pos: Position) -> Seq<char> {
    let t = trim_char(raw, '\\');
    let r = (pos.line - start.line) as nat;
    let b = line_start(t, r);
    let e = b + first_index_of(t.subrange(b, t.len() as int), '\n');
    let c = if r == 0 { pos.character - start.character } else { pos.character as int };
    t.subrange(0, if b + c < e { b + c } else { e })
}

/// The text of a node that comes before the cursor.
pub fn get_node_text_before_pos(raw: &str, start: Position, pos: Position) -> (r: String)
    requires
        start.line <= pos.line,
        pos.line == start.line ==> start.character <= pos.character,
    ensures
        r@ == text_before_spec(raw@, start, pos),
{
    let t = trim_matches(raw, '\\');
    let n = t.unicode_len();
    let lines = pos.line - start.line;
    let mut b: usize = 0;
    let mut k: u32 = 0;
    proof {
        lemma_line_start(t@, 0);
    }
    while k < lines
        invariant
            n == t@.len(),
            k <= lines,
            b as int == line_start(t@, k as nat),
            b <= n,
        decreases lines - k,
    {
        let rest = t.substring_char(b, n);
        let j = find_char(rest, '\n');
        proof {
            lemma_first_index_of(rest@, '\n');
        }
        if b + j < n {
            b = b + j + 1;
        }
        k = k + 1;
    }
    let rest = t.substring_char(b, n);
    let j = find_char(rest, '\n');
    let e = b + j;
    let c: usize = if lines == 0 { (pos.character - start.character) as usize } else { pos.character as usize };
    let stop = if c < e - b { b + c } else { e };
    t.substring_char(0, stop).to_owned()
}

/// A node of an XML file that a completion may start from: its kind, its
/// text as written, and its span.
pub struct PathCapture {
    pub kind: String,
    pub raw: String,
    pub start: Position,
    pub end: Position,
}

/// The node is passed over: a `>` with nothing typed before the cursor (the
/// tag is not closed yet), or a quoted attribute value other than a lone
/// opening quote.
pub open spec fn capture_skipped(c: PathCapture, pos: Position) -> bool {
    let tb = text_before_spec(c.raw@, c.start, pos);
    (c.kind@ == ">"@ && tb.len() == 0) || (c.kind@ == "quoted_attribute_value"@ && tb != seq!['"'])
}

/// The node covers the cursor and is not passed over.
pub open spec fn capture_taken(c: PathCapture, pos: Position) -> bool {
    in_span(c.start, c.end, pos) && !capture_skipped(c, pos)
}

/// The node holds only punctuation before the cursor (an opening quote, a
/// closing `>`): nothing is typed yet and the completion starts after it.
pub open spec fn starts_after(c: PathCapture, pos: Position) -> bool {
    c.kind@ == "quoted_attribute_value"@ || (c.kind@ == ">"@ && text_before_spec(c.raw@, c.start, pos) == seq!['>'])
}

/// The text typed so far in the node.
pub open spec fn typed_text(c: PathCapture, pos: Position) -> Seq<char> {
    if starts_after(c, pos) {
        Seq::empty()
    } else {
        text_before_spec(c.raw@, c.start, pos)
    }
}

/// The column where the completion's span starts.
pub open spec fn start_column(c: PathCapture, pos: Position) -> int {
    c.start.character + if starts_after(c, pos) { 1int } else { 0int }
}

/// The first node that covers the cursor and is not passed over, with the
/// text typed so far and the column where the completion starts.
pub fn completion_at(caps: &Vec<PathCapture>, pos: Position) -> (r: Option<(usize, String, u32)>)
    requires
        forall|k: int| 0 <= k < caps@.len() ==> #[trigger] caps@[k].start.character < u32::MAX,
    ensures
        match r {
            Some((k, t, col)) => k < caps@.len() && capture_taken(caps@[k as int], pos) && (forall|j: int|
                0 <= j < k ==> !capture_taken(#[trigger] caps@[j], pos)) && t@ == typed_text(caps@[k as int], pos)
                && col == start_column(caps@[k as int], pos),
            None => forall|j: int| 0 <= j < caps@.len() ==> !capture_taken(#[trigger] caps@[j], pos),
        },
{
    proof {
        reveal_strlit(">");
        reveal_strlit("quoted_attribute_value");
        reveal_strlit("\"");
    }
    let gt: &str = ">";
    let quoted: &str = "quoted_attribute_value";
    let quote: &str = "\"";
    assert(quote@ =~= seq!['"']);
    assert(gt@ =~= seq!['>']);
    let mut i: usize = 0;
    while i < caps.len()
        invariant
            i <= caps@.len(),
            gt@ == ">"@,
            gt@ == seq!['>'],
            quoted@ == "quoted_attribute_value"@,
            quote@ == seq!['"'],
            forall|k: int| 0 <= k < caps@.len() ==> #[trigger] caps@[k].start.character < u32::MAX,
            forall|j: int| 0 <= j < i ==> !capture_taken(#[trigger] caps@[j], pos),
        decreases caps.len() - i,
    {
        let c = &caps[i];
        if node_at_position(c.start, c.end, pos) {
            let tb = get_node_text_before_pos(c.raw.as_str(), c.start, pos);
            let is_gt = same_text(c.kind.as_str(), gt);
            let is_quoted = same_text(c.kind.as_str(), quoted);
            let empty = tb.as_str().unicode_len() == 0;
            let lone_quote = same_text(tb.as_str(), quote);
            if !(is_gt && empty) && !(is_quoted && !lone_quote) {
                let after = is_quoted || (is_gt && same_text(tb.as_str(), gt));
                if after {
                    return Some((i, String::new(), c.start.character + 1));
                } else {
                    return Some((i, tb, c.start.character));
                }
            }
        }
        i = i + 1;
    }
    None
}

/// What a completion in a JS file completes.
#[derive(Debug, Clone, Copy, PartialEq, Eq, Structural)]
pub enum JsCompletionType {
    /// A dependency of a `define` call.
    Definition,
}

/// A completion request in a JS file: the id typed so far (without its
/// opening quote), the span it covers, and what it completes.
pub struct JsCompletion {
    pub text: String,
    pub range: Range,
    pub kind: JsCompletionType,
}

/// The completion for a `define` dependency, written `raw` from `start`, with
/// the cursor at `pos`: nothing when no text precedes the cursor; otherwise
/// the text before the cursor without its opening quote, covering the span
/// from just after the quote to the cursor.
pub open spec fn js_completion_spec(raw: Seq<char>, start: Position, pos: Position, r: Option<JsCompletion>) -> bool {
    let t = text_before_spec(raw, start, pos);
    if t.len() == 0 {
        r is None
    } else {
        r is Some && r->0.text@ == t.drop_first() && r->0.range == (Range {
            start: Position { line: start.line, character: (start.character + 1) as u32 },
            end: pos,
        }) && r->0.kind == JsCompletionType::Definition
    }
}

/// The completion for a `define` dependency under the cursor.
pub fn get_completion_item(raw: &str, start: Position, pos: Position) -> (r: Option<JsCompletion>)
    requires
        start.line <= pos.line,
        pos.line == start.line ==> start.character <= pos.character,
        start.character < u32::MAX,
    ensures
        js_completion_spec(raw@, start, pos, r),
{
    let text = get_node_text_before_pos(raw, start, pos);
    let n = text.as_str().unicode_len();
    if n == 0 {
        return None;
    }
    let rest = text.as_str().substring_char(1, n).to_owned();
    assert(rest@ =~= text@.drop_first());
    let range = Range { start: Position { line: start.line, character: start.character + 1 }, end: pos };
    Some(JsCompletion { text: rest, range, kind: JsCompletionType::Definition })
}

/// Where the cursor stands in an XML file: the path of tags and attribute
/// (`/config/type[@name]`), the text typed so far, the span it covers and the
/// enclosing tag.
pub struct XmlCompletion {
    pub path: String,
    pub text: String,
    pub range: Range,
    pub tag: Option<XmlTag>,
}

/// The value of attribute `a` of the enclosing tag.
pub open spec fn completion_attr(x: XmlCompletion, a: Seq<char>) -> Option<Seq<char>> {
    match x.tag {
        Some(t) => attr(t, a),
        None => None,
    }
}

impl XmlCompletion {
    /// Whether the position path ends with `text`.
    pub fn match_path(&self, text: &str) -> (r: bool)
        ensures
            r == ends_with(self.path@, text@),
    {
        has_suffix(self.path.as_str(), text)
    }

    /// Whether the enclosing tag has attribute `attr` with value `val`.
    pub fn attribute_eq(&self, attr: &str, val: &str) -> (r: bool)
        requires
            self.tag is Some ==> self.tag->0.attributes.wf(),
        ensures
            r == (completion_attr(*self, attr@) == Some(val@)),
    {
        match &self.tag {
            Some(t) => match t.attributes.get(attr) {
                Some(v) => same_text(v.as_str(), val),
                None => false,
            },
            None => false,
        }
    }

    /// Whether the enclosing tag has attribute `attr` with one of `vals`.
    pub fn attribute_in(&self, attr: &str, vals: &[&str]) -> (r: bool)
        requires
            self.tag is Some ==> self.tag->0.attributes.wf(),
        ensures
            r == (completion_attr(*self, attr@) is Some && str_views(vals@).contains(
                completion_attr(*self, attr@)->0,
            )),
    {
        match &self.tag {
            Some(t) => match t.attributes.get(attr) {
                Some(v) => {
                    let mut i: usize = 0;
                    while i < vals.len()
                        invariant
                            i <= vals@.len(),
                            completion_attr(*self, attr@) == Some(v@),
                            forall|j: int| 0 <= j < i ==> str_views(vals@)[j] != v@,
                        decreases vals.len() - i,
                    {
                        assert(str_views(vals@)[i as int] == vals@[i as int]@);
                        if same_text(v.as_str(), vals[i]) {
                            assert(str_views(vals@).contains(v@));
                            return true;
                        }
                        i = i + 1;
                    }
                    false
                },
                None => false,
            },
            None => false,
        }
    }
}

/// What a completion offers.
#[derive(Debug, Clone, Copy, PartialEq, Eq, Structural)]
pub enum CompletionKind {
    Templates,
    Components,
    Events,
    Classes,
    Nothing,
}

/// The file at `file` is named `name`.
pub open spec fn file_named(file: Seq<char>, name: Seq<char>) -> bool {
    path_components(file).len() > 0 && path_components(file).last() == name
}

/// The completion that applies at `x` in the XML file at `file`.
pub open spec fn xml_kind(x: XmlCompletion, file: Seq<char>) -> CompletionKind {
    let p = x.path@;
    let string_type = completion_attr(x, "xsi:type"@) == Some("string"@);
    let model_text = completion_attr(x, "_model"@) == Some(Seq::<char>::empty());
    if ends_with(p, "[@template]"@) {
        CompletionKind::Templates
    } else if string_type && completion_attr(x, "name"@) == Some("template"@) {
        CompletionKind::Templates
    } else if string_type && completion_attr(x, "name"@) == Some("component"@) {
        CompletionKind::Components
    } else if ends_with(p, "/config/event[@name]"@) && file_named(file, "events.xml"@) {
        CompletionKind::Events
    } else if (ends_with(p, "/config/preference[@for]"@) || ends_with(p, "/config/preference[@type]"@)
        || ends_with(p, "/virtualType[@type]"@)) && file_named(file, "di.xml"@) {
        CompletionKind::Classes
    } else if ends_with(p, "[@class]"@) || ends_with(p, "[@instance]"@) {
        CompletionKind::Classes
    } else if completion_attr(x, "xsi:type"@) is Some && seq!["object"@, "const"@, "init_parameter"@].contains(
        completion_attr(x, "xsi:type"@)->0,
    ) {
        CompletionKind::Classes
    } else if ends_with(p, "/type[@name]"@) {
        CompletionKind::Classes
    } else if (ends_with(p, "/source[$text]"@) || ends_with(p, "/backend[$text]"@) || ends_with(
        p,
        "/frontend[$text]"@,
    )) && model_text {
        CompletionKind::Classes
    } else {
        CompletionKind::Nothing
    }
}

fn is_file_named(file: &str, name: &str) -> (r: bool)
    ensures
        r == file_named(file@, name@),
{
    let comps = components_of(file);
    if comps.len() == 0 {
        return false;
    }
    assert(views(comps@).last() == comps@[comps@.len() - 1]@);
    same_text(comps[comps.len() - 1].as_str(), name)
}

/// The completion that applies at `x` in the XML file at `file`.
pub fn xml_completion_kind(x: &XmlCompletion, file: &str) -> (r: CompletionKind)
    requires
        x.tag is Some ==> x.tag->0.attributes.wf(),
    ensures
        r == xml_kind(*x, file@),
{
    proof {
        reveal_strlit("xsi:type");
        reveal_strlit("string");
        reveal_strlit("_model");
        reveal_strlit("");
        reveal_strlit("name");
        reveal_strlit("template");
        reveal_strlit("component");
        reveal_strlit("object");
        reveal_strlit("const");
        reveal_strlit("init_parameter");
        assert(""@ =~= Seq::<char>::empty());
    }
    let string_type = x.attribute_eq("xsi:type", "string");
    let model_text = x.attribute_eq("_model", "");
    if x.match_path("[@template]") {
        CompletionKind::Templates
    } else if string_type && x.attribute_eq("name", "template") {
        CompletionKind::Templates
    } else if string_type && x.attribute_eq("name", "component") {
        CompletionKind::Components
    } else if x.match_path("/config/event[@name]") && is_file_named(file, "events.xml") {
        CompletionKind::Events
    } else if (x.match_path("/config/preference[@for]") || x.match_path("/config/preference[@type]")
        || x.match_path("/virtualType[@type]")) && is_file_named(file, "di.xml") {
        CompletionKind::Classes
    } else if x.match_path("[@class]") || x.match_path("[@instance]") {
        CompletionKind::Classes
    } else if x.attribute_in("xsi:type", ["object", "const", "init_parameter"].as_slice()) {
        assert(str_views(["object", "const", "init_parameter"]@) =~= seq!["object"@, "const"@, "init_parameter"@]);
        CompletionKind::Classes
    } else if x.match_path("/type[@name]") {
        CompletionKind::Classes
    } else if (x.match_path("/source[$text]") || x.match_path("/backend[$text]") || x.match_path(
        "/frontend[$text]",
    )) && model_text {
        CompletionKind::Classes
    } else {
        proof {
            assert(str_views(["object", "const", "init_parameter"]@) =~= seq!["object"@, "const"@, "init_parameter"@]);
        }
        CompletionKind::Nothing
    }
}

/// How class names are completed from the text typed so far.
#[derive(Debug, Clone, Copy, PartialEq, Eq, Structural)]
pub enum ClassCompletion {
    /// The namespaces of the modules.
    Prefixes,
    /// The namespaces of the modules and the classes under the typed namespace.
    PrefixesAndClasses,
    Nothing,
}

/// How class names are completed from `text` (a leading `\` ignored).
pub open spec fn class_completion_of(text: Seq<char>) -> ClassCompletion {
    let t = trim_start(text, '\\');
    if t.len() == 0 || (only_alnum_or(t, '\\') && count_char(t, '\\') == 0) {
        ClassCompletion::Prefixes
    } else if count_char(t, '\\') >= 1 {
        ClassCompletion::PrefixesAndClasses
    } else {
        ClassCompletion::Nothing
    }
}

/// `s` without the copies of `c` at its start.
fn trim_leading(s: &str, c: char) -> (r: &str)
    ensures
        r@ == trim_start(s@, c),
{
    let cs = crate::text::chars_of(s);
    let n = cs.len();
    let mut i: usize = 0;
    assert(s@.subrange(0, n as int) =~= s@);
    while i < n && cs[i] == c
        invariant
            cs@ == s@,
            n == s@.len(),
            i <= n,
            trim_start(s@, c) == trim_start(s@.subrange(i as int, n as int), c),
        decreases n - i,
    {
        assert(s@.subrange(i as int, n as int).drop_first() =~= s@.subrange(i + 1, n as int));
        i = i + 1;
    }
    s.substring_char(i, n)
}

/// How class names are completed from `text`.
pub fn class_completion(text: &str) -> (r: ClassCompletion)
    ensures
        r == class_completion_of(text@),
{
    let t = trim_leading(text, '\\');
    let seps = count_of(t, '\\');
    if t.unicode_len() == 0 || (is_part_of_class_name(t) && seps == 0) {
        ClassCompletion::Prefixes
    } else if seps >= 1 {
        ClassCompletion::PrefixesAndClasses
    } else {
        ClassCompletion::Nothing
    }
}

/// The labels offered, in increasing order, each once.
pub fn sorted_labels(labels: Vec<String>) -> (r: Vec<String>)
    ensures
        strictly_sorted(views(r@)),
        forall|n: Seq<char>| views(r@).contains(n) <==> views(labels@).contains(n),
{
    let mut seen: StrMap<()> = StrMap::new();
    let mut i: usize = 0;
    while i < labels.len()
        invariant
            seen.wf(),
            i <= labels@.len(),
            forall|n: Seq<char>| seen.map().contains_key(n) <==> views(labels@).subrange(0, i as int).contains(n),
        decreases labels.len() - i,
    {
        let ghost before = seen.map();
        seen.insert(labels[i].clone(), ());
        assert forall|n: Seq<char>| seen.map().contains_key(n) <==> views(labels@).subrange(0, i + 1).contains(n) by {
            assert(views(labels@).subrange(0, i + 1) =~= views(labels@).subrange(0, i as int).push(labels@[i as int]@));
            if views(labels@).subrange(0, i as int).contains(n) {
                let k = choose|k: int| 0 <= k < i && views(labels@).subrange(0, i as int)[k] == n;
                assert(views(labels@).subrange(0, i + 1)[k] == n);
            }
            if n == labels@[i as int]@ {
                assert(views(labels@).subrange(0, i + 1)[i as int] == n);
            }
            let upto = views(labels@).subrange(0, i + 1);
            if upto.contains(n) {
                let k = choose|k: int| 0 <= k < upto.len() && upto[k] == n;
                if k < i {
                    assert(views(labels@).subrange(0, i as int)[k] == n);
                }
            }
        }
        i = i + 1;
    }
    assert(views(labels@).subrange(0, i as int) =~= views(labels@));
    let keys = crate::state::keys_of(&seen);
    let r = sort_texts(keys);
    assert forall|n: Seq<char>| views(r@).contains(n) <==> views(labels@).contains(n) by {
        assert(views(keys@).contains(n) <==> seen.map().contains_key(n));
    }
    r
}

/// Where template files are searched for a completion of `module::`.
pub open spec fn template_dirs(s: State, module: Seq<char>, root: Seq<char>, area: M2Area) -> Seq<Seq<char>> {
    area_dirs(area).map_values(|d: Seq<char>| join_all(root, seq!["view"@, d, "templates"@]))
        + (if area != M2Area::Adminhtml { s.front_theme_roots() } else { Seq::empty() }).map_values(
        |r: Seq<char>| join_all(r, seq![module, "templates"@]),
    ) + (if area != M2Area::Frontend { s.admin_theme_roots() } else { Seq::empty() }).map_values(
        |r: Seq<char>| join_all(r, seq![module, "templates"@]),
    )
}

/// The JS alias keys offered in `area`: those of the area, then those of its
/// fallback area.
pub open spec fn alias_key_set(s: State, area: M2Area, n: Seq<char>) -> bool {
    s.facts().contains_key(FactKey::JsMap(area, n)) || (fallback_area(area) is Some
        && s.facts().contains_key(FactKey::JsMap(fallback_area(area)->0, n)))
}

impl State {
    /// The JS alias keys of `area` and of its fallback area.
    pub fn alias_completions(&self, area: &M2Area) -> (r: Vec<String>)
        requires
            self.wf(),
        ensures
            forall|n: Seq<char>| views(r@).contains(n) <==> #[trigger] alias_key_set(*self, *area, n),
    {
        let mut r = self.get_component_maps_for_area(area);
        let ghost first = views(r@);
        match area.lower_area() {
            Some(lower) => {
                let more = self.get_component_maps_for_area(&lower);
                let ghost second = views(more@);
                let mut more = more;
                r.append(&mut more);
                assert(views(r@) =~= first + second);
                assert forall|n: Seq<char>| views(r@).contains(n) <==> #[trigger] alias_key_set(*self, *area, n) by {
                    if first.contains(n) {
                        let k = choose|k: int| 0 <= k < first.len() && first[k] == n;
                        assert(views(r@)[k] == n);
                    }
                    if second.contains(n) {
                        let k = choose|k: int| 0 <= k < second.len() && second[k] == n;
                        assert(views(r@)[first.len() + k] == n);
                    }
                    if views(r@).contains(n) {
                        let k = choose|k: int| 0 <= k < views(r@).len() && views(r@)[k] == n;
                        if k < first.len() {
                            assert(first[k] == n);
                        } else {
                            assert(second[k - first.len()] == n);
                        }
                    }
                }
            },
            None => {},
        }
        r
    }

    /// The directories searched for the templates of `module` in `area`: the
    /// module's template directories, then the themes' overrides.
    pub fn template_search_dirs(&self, module: &str, area: &M2Area) -> (r: Option<Vec<String>>)
        requires
            self.wf(),
        ensures
            r is Some == fact_text(self.facts(), FactKey::ModulePath(module@)) is Some,
            r is Some ==> views(r->0@) == template_dirs(
                *self,
                module@,
                fact_text(self.facts(), FactKey::ModulePath(module@))->0,
                *area,
            ),
    {
        proof {
            reveal_strlit("view");
            reveal_strlit("templates");
        }
        let root = match self.get_module_path(module) {
            Some(p) => p,
            None => return None,
        };
        let ghost rv = root@;
        let dirs = area.path_candidates();
        let mut r: Vec<String> = Vec::new();
        let mut i: usize = 0;
        while i < dirs.len()
            invariant
                i <= dirs@.len(),
                root@ == rv,
                views(dirs@) == area_dirs(*area),
                views(r@) == views(dirs@).subrange(0, i as int).map_values(
                    |d: Seq<char>| join_all(rv, seq!["view"@, d, "templates"@]),
                ),
            decreases dirs.len() - i,
        {
            let parts: [&str; 3] = ["view", dirs[i].as_str(), "templates"];
            assert(str_views(parts@) =~= seq!["view"@, dirs@[i as int]@, "templates"@]);
            let p = crate::m2::append(root.as_str(), parts.as_slice());
            let ghost before = views(r@);
            r.push(p);
            assert(views(r@) =~= before.push(p@));
            assert(views(dirs@).subrange(0, i + 1).map_values(
                |d: Seq<char>| join_all(rv, seq!["view"@, d, "templates"@]),
            ) =~= before.push(p@));
            i = i + 1;
        }
        assert(views(dirs@).subrange(0, i as int) =~= views(dirs@));
        let fronts = if *area != M2Area::Adminhtml { self.list_front_themes_paths() } else { Vec::new() };
        let admins = if *area != M2Area::Frontend { self.list_admin_themes_paths() } else { Vec::new() };
        push_under(&mut r, &fronts, module);
        push_under(&mut r, &admins, module);
        assert(views(r@) =~= template_dirs(*self, module@, rv, *area));
        Some(r)
    }
}

/// Appends `<root>/<module>/templates` for each root.
fn push_under(out: &mut Vec<String>, roots: &Vec<String>, module: &str)
    ensures
        views(final(out)@) == views(old(out)@) + views(roots@).map_values(
            |r: Seq<char>| join_all(r, seq![module@, "templates"@]),
        ),
{
    proof {
        reveal_strlit("templates");
    }
    let mut i: usize = 0;
    while i < roots.len()
        invariant
            i <= roots@.len(),
            views(out@) == views(old(out)@) + views(roots@).subrange(0, i as int).map_values(
                |r: Seq<char>| join_all(r, seq![module@, "templates"@]),
            ),
        decreases roots.len() - i,
    {
        let parts: [&str; 2] = [module, "templates"];
        assert(str_views(parts@) =~= seq![module@, "templates"@]);
        let p = crate::m2::append(roots[i].as_str(), parts.as_slice());
        let ghost before = views(out@);
        out.push(p);
        assert(views(out@) =~= before.push(p@));
        assert(views(roots@).subrange(0, i + 1).map_values(
            |r: Seq<char>| join_all(r, seq![module@, "templates"@]),
        ) =~= views(roots@).subrange(0, i as int).map_values(
            |r: Seq<char>| join_all(r, seq![module@, "templates"@]),
        ).push(p@));
        i = i + 1;
    }
    assert(views(roots@).subrange(0, i as int) =~= views(roots@));
}

/// `s` without the copies of `suf` at its end.
pub open spec fn strip_suffixes(s: Seq<char>, suf: Seq<char>) -> Seq<char>
    decreases s.len(),
{
    if suf.len() > 0 && ends_with(s, suf) {
        strip_suffixes(s.subrange(0, s.len() - suf.len()), suf)
    } else {
        s
    }
}

/// `s` without the copies of `suf` at its end.
pub fn strip_suffix_all<'a>(s: &'a str, suf: &str) -> (r: &'a str)
    ensures
        r@ == strip_suffixes(s@, suf@),
{
    let m = suf.unicode_len();
    let mut n = s.unicode_len();
    let mut stem = s.substring_char(0, n);
    assert(stem@ =~= s@);
    while m > 0 && has_suffix(stem, suf)
        invariant
            m == suf@.len(),
            n == stem@.len(),
            strip_suffixes(s@, suf@) == strip_suffixes(stem@, suf@),
        decreases n,
    {
        stem = stem.substring_char(0, n - m);
        n = n - m;
    }
    stem
}

/// The label of a template file: `module::relative/path`.
pub fn template_label(module: &str, rel: &str) -> (r: String)
    ensures
        r@ == module@ + seq![':', ':'] + rel@,
{
    proof {
        reveal_strlit("::");
    }
    let s = concat(module, "::");
    assert(s@ =~= module@ + seq![':', ':']);
    s.concat(rel)
}

/// The label of a script: its path without `.js`, after `module/` when it
/// belongs to a module.
pub fn script_label(module: Option<&str>, rel: &str) -> (r: String)
    ensures
        r@ == match module {
            Some(m) => m@ + seq!['/'] + strip_suffixes(rel@, ".js"@),
            None => strip_suffixes(rel@, ".js"@),
        },
{
    proof {
        reveal_strlit("/");
    }
    let stem = strip_suffix_all(rel, ".js");
    match module {
        Some(m) => {
            let s = concat(m, "/");
            assert(s@ =~= m@ + seq!['/']);
            s.concat(stem)
        },
        None => stem.to_owned(),
    }
}

/// The class that the file at `rel` (relative to the root of the module of
/// namespace `prefix`, `/`-separated) declares, offered for the typed text
/// `typed` when it continues all of `typed` but its last character; the
/// module's registration file declares none.
pub open spec fn class_candidate_of(prefix: Seq<char>, rel: Seq<char>, typed: Seq<char>) -> Option<Seq<char>> {
    let class = prefix + seq!['\\'] + strip_suffixes(replace_char(rel, '/', '\\'), ".php"@);
    let stem = if typed.len() > 0 { typed.drop_last() } else { typed };
    if ends_with(class, "\\registration"@) || !starts_with(class, stem) {
        None
    } else {
        Some(class)
    }
}

/// The class that a PHP file of a module declares, if it is offered for `typed`.
pub fn class_candidate(prefix: &str, rel: &str, typed: &str) -> (r: Option<String>)
    ensures
        match r {
            Some(c) => class_candidate_of(prefix@, rel@, typed@) == Some(c@),
            None => class_candidate_of(prefix@, rel@, typed@) is None,
        },
{
    proof {
        reveal_strlit("\\");
        reveal_strlit(".php");
        reveal_strlit("\\registration");
    }
    let sep: &str = "\\";
    assert(sep@ =~= seq!['\\']);
    let path = replace_all(rel, '/', sep);
    let stem = strip_suffix_all(path.as_str(), ".php");
    let class = concat(concat(prefix, sep).as_str(), stem);
    assert(class@ == prefix@ + seq!['\\'] + strip_suffixes(replace_char(rel@, '/', '\\'), ".php"@));
    let m = typed.unicode_len();
    let typed_stem = if m > 0 { typed.substring_char(0, m - 1) } else { typed };
    assert(m > 0 ==> typed_stem@ =~= typed@.drop_last());
    if has_suffix(class.as_str(), "\\registration") || !has_prefix(class.as_str(), typed_stem) {
        None
    } else {
        Some(class)
    }
}

/// For each `\` of the typed class name `t` (before place `i`), the text before
/// it and the root of the module registered under that namespace, when there
/// is one.
pub open spec fn search_roots(m: FactMap, t: Seq<char>, i: int) -> Seq<(Seq<char>, Seq<char>)>
    decreases i,
{
    if i <= 0 {
        Seq::empty()
    } else {
        let prev = search_roots(m, t, i - 1);
        let p = i - 1;
        if p < t.len() && t[p] == '\\' && fact_text(m, FactKey::ModulePath(t.subrange(0, p))) is Some {
            prev.push((t.subrange(0, p), fact_text(m, FactKey::ModulePath(t.subrange(0, p)))->0))
        } else {
            prev
        }
    }
}

/// The views of a list of pairs of texts.
pub open spec fn pair_views(v: Seq<(String, String)>) -> Seq<(Seq<char>, Seq<char>)> {
    v.map_values(|p: (String, String)| (p.0@, p.1@))
}

impl State {
    /// The namespaces typed so far in `text` that are registered modules,
    /// with their roots, shortest first.
    pub fn class_search_roots(&self, text: &str) -> (r: Vec<(String, String)>)
        requires
            self.wf(),
        ensures
            pair_views(r@) == search_roots(self.facts(), text@, text@.len() as int),
    {
        let cs = crate::text::chars_of(text);
        let mut r: Vec<(String, String)> = Vec::new();
        let mut i: usize = 0;
        while i < cs.len()
            invariant
                self.wf(),
                cs@ == text@,
                i <= cs@.len(),
                pair_views(r@) == search_roots(self.facts(), text@, i as int),
            decreases cs.len() - i,
        {
            if cs[i] == '\\' {
                let prefix = text.substring_char(0, i);
                match self.get_module_path(prefix) {
                    Some(root) => {
                        let ghost before = r@;
                        let ghost pv = (prefix@, root@);
                        r.push((prefix.to_owned(), root));
                        assert(pair_views(r@) =~= pair_views(before).push(pv));
                    },
                    None => {},
                }
            }
            i = i + 1;
        }
        r
    }
}

/// What a template completion offers.
pub enum TemplateCompletion {
    /// The module names.
    Modules(Vec<String>),
    /// The template files under `dirs`, written `module::relative/path`.
    Files { module: String, dirs: Vec<String> },
    Nothing,
}

/// A template completion for `text` offers the module names while `text` can
/// be part of one; after `Module::` it offers the module's templates.
pub open spec fn template_completion_spec(s: State, text: Seq<char>, area: M2Area, r: TemplateCompletion) -> bool {
    if text.len() == 0 || only_alnum_or(text, '_') {
        match r {
            TemplateCompletion::Modules(v) => strictly_sorted(views(v@)) && forall|n: Seq<char>|
                views(v@).contains(n) <==> #[trigger] s.facts().contains_key(FactKey::Module(n)),
            _ => false,
        }
    } else if find_pair(text) < text.len() {
        let module = text.subrange(0, find_pair(text));
        match fact_text(s.facts(), FactKey::ModulePath(module)) {
            Some(root) => match r {
                TemplateCompletion::Files { module: m, dirs } => m@ == module && views(dirs@) == template_dirs(s, module, root, area),
                _ => false,
            },
            None => r is Nothing,
        }
    } else {
        r is Nothing
    }
}

impl State {
    /// What a template completion offers for the typed `text` in `area`.
    pub fn template_completion(&self, text: &str, area: &M2Area) -> (r: TemplateCompletion)
        requires
            self.wf(),
        ensures
            template_completion_spec(*self, text@, *area, r),
    {
        if text.unicode_len() == 0 || is_part_of_module_name(text) {
            return TemplateCompletion::Modules(self.get_modules());
        }
        let i = find_pair_in(text);
        if i < text.unicode_len() {
            let module = text.substring_char(0, i);
            match self.template_search_dirs(module, area) {
                Some(dirs) => TemplateCompletion::Files { module: module.to_owned(), dirs },
                None => TemplateCompletion::Nothing,
            }
        } else {
            TemplateCompletion::Nothing
        }
    }
}

/// What a component completion offers: fixed labels, and the directories
/// whose scripts are offered (those of `module_dirs` prefixed with the module
/// name, those of `library_dirs` as they are).
pub struct ComponentCompletion {
    pub labels: Vec<String>,
    pub module: String,
    pub module_dirs: Vec<String>,
    pub library_dirs: Vec<String>,
}

/// The web directories of the module rooted at `root` for `area`.
pub open spec fn web_dirs(root: Seq<char>, area: M2Area) -> Seq<Seq<char>> {
    area_dirs(area).map_values(|d: Seq<char>| join_all(root, seq!["view"@, d, "web"@]))
}

/// The library script directories of the workspaces.
pub open spec fn library_dirs_of(s: State) -> Seq<Seq<char>> {
    s.workspace_seq().map_values(|w: Seq<char>| join_all(w, seq!["lib"@, "web"@]))
}

fn paths_under(roots: &Vec<String>, parts_tail: &[&str]) -> (r: Vec<String>)
    ensures
        views(r@) == views(roots@).map_values(|w: Seq<char>| join_all(w, str_views(parts_tail@))),
{
    let mut r: Vec<String> = Vec::new();
    let mut i: usize = 0;
    while i < roots.len()
        invariant
            i <= roots@.len(),
            views(r@) == views(roots@).subrange(0, i as int).map_values(|w: Seq<char>| join_all(w, str_views(parts_tail@))),
        decreases roots.len() - i,
    {
        let p = crate::m2::append(roots[i].as_str(), parts_tail);
        let ghost before = views(r@);
        r.push(p);
        assert(views(r@) =~= before.push(p@));
        assert(views(roots@).subrange(0, i + 1).map_values(|w: Seq<char>| join_all(w, str_views(parts_tail@)))
            =~= before.push(p@));
        i = i + 1;
    }
    assert(views(roots@).subrange(0, i as int) =~= views(roots@));
    r
}

impl State {
    /// What a component completion offers for the typed `text` in `area`:
    /// before a `/`, the module names and the alias keys; after `Module/`, the
    /// alias keys and the scripts of that module; in both cases the library
    /// scripts of the workspaces.
    pub fn component_completion(&self, text: &str, area: &M2Area) -> (r: ComponentCompletion)
        requires
            self.wf(),
        ensures
            ({
                let t = text@;
                let slash = first_index_of(t, '/') < t.len();
                let module = t.subrange(0, first_index_of(t, '/'));
                &&& r.module@ == module
                &&& forall|n: Seq<char>| views(r.labels@).contains(n) <==> (#[trigger] alias_key_set(*self, *area, n)
                    || (!slash && self.facts().contains_key(FactKey::Module(n))))
                &&& views(r.module_dirs@) == (if slash && fact_text(self.facts(), FactKey::ModulePath(module)) is Some {
                    web_dirs(fact_text(self.facts(), FactKey::ModulePath(module))->0, *area)
                } else {
                    Seq::empty()
                })
                &&& views(r.library_dirs@) == library_dirs_of(*self)
            }),
    {
        proof {
            reveal_strlit("lib");
            reveal_strlit("web");
            reveal_strlit("view");
        }
        let n = text.unicode_len();
        let i = find_char(text, '/');
        let module = text.substring_char(0, i);
        let aliases = self.alias_completions(area);
        let mut labels: Vec<String> = Vec::new();
        let ghost av = views(aliases@);
        if i == n {
            labels = self.get_modules();
        }
        let ghost mv = views(labels@);
        let mut aliases = aliases;
        labels.append(&mut aliases);
        assert(views(labels@) =~= mv + av);
        assert forall|x: Seq<char>| views(labels@).contains(x) <==> (#[trigger] alias_key_set(*self, *area, x)
            || (!(i < n) && self.facts().contains_key(FactKey::Module(x)))) by {
            if mv.contains(x) {
                let k = choose|k: int| 0 <= k < mv.len() && mv[k] == x;
                assert(views(labels@)[k] == x);
            }
            if av.contains(x) {
                let k = choose|k: int| 0 <= k < av.len() && av[k] == x;
                assert(views(labels@)[mv.len() + k] == x);
            }
            if views(labels@).contains(x) {
                let k = choose|k: int| 0 <= k < views(labels@).len() && views(labels@)[k] == x;
                if k < mv.len() {
                    assert(mv[k] == x);
                } else {
                    assert(av[k - mv.len()] == x);
                }
            }
        }
        let mut module_dirs: Vec<String> = Vec::new();
        if i < n {
            match self.get_module_path(module) {
                Some(root) => {
                    assert(fact_text(self.facts(), FactKey::ModulePath(module@)) == Some(root@));
                    let dirs = area.path_candidates();
                    let mut k: usize = 0;
                    while k < dirs.len()
                        invariant
                            k <= dirs@.len(),
                            views(dirs@) == area_dirs(*area),
                            views(module_dirs@) == views(dirs@).subrange(0, k as int).map_values(
                                |d: Seq<char>| join_all(root@, seq!["view"@, d, "web"@]),
                            ),
                        decreases dirs.len() - k,
                    {
                        let parts: [&str; 3] = ["view", dirs[k].as_str(), "web"];
                        assert(str_views(parts@) =~= seq!["view"@, dirs@[k as int]@, "web"@]);
                        let p = crate::m2::append(root.as_str(), parts.as_slice());
                        let ghost before = views(module_dirs@);
                        module_dirs.push(p);
                        assert(views(module_dirs@) =~= before.push(p@));
                        assert(views(dirs@).subrange(0, k + 1).map_values(
                            |d: Seq<char>| join_all(root@, seq!["view"@, d, "web"@]),
                        ) =~= before.push(p@));
                        k = k + 1;
                    }
                    assert(views(dirs@).subrange(0, k as int) =~= views(dirs@));
                    assert(views(module_dirs@) =~= web_dirs(root@, *area));
                },
                None => {
                    assert(views(module_dirs@) =~= Seq::<Seq<char>>::empty());
                },
            }
        } else {
            assert(views(module_dirs@) =~= Seq::<Seq<char>>::empty());
        }
        let roots = self.workspace_paths();
        let tail: [&str; 2] = ["lib", "web"];
        assert(str_views(tail@) =~= seq!["lib"@, "web"@]);
        let library_dirs = paths_under(&roots, tail.as_slice());
        assert(views(library_dirs@) =~= library_dirs_of(*self));
        ComponentCompletion { labels, module: module.to_owned(), module_dirs, library_dirs }
    }
}

} // verus!
