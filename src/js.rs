//! Resolution of AMD module ids: plugin prefix, path prefixes, aliases with
//! area fallback, and classification of the resolved id.
use vstd::prelude::*;
use vstd::string::*;
use crate::facts::{fact_text, FactKey, FactMap};
use crate::m2::{area_of_path, fallback_area, get_area, is_upper, uppercase, Item, M2Area, M2Item};
use crate::facts::{apply_facts, fact_keys, track_all};
use crate::state::{fact_list, State, Trackee};
use crate::text::{
    count_char, count_of, ends_with, find_char, first_index_of, has_prefix, has_suffix,
    last_index_of, rfind_char, same_text, starts_with, trim_char, trim_matches, views,
};

verus! {

/// How many alias hops a resolution follows at most; a longer chain (or a
/// cycle) stops at the text reached so far.
pub const MAX_ALIAS_DEPTH: usize = 32;

/// The id without a leading `text!` plugin prefix.
pub open spec fn strip_plugin(t: Seq<char>) -> Seq<char> {
    if starts_with(t, "text!"@) {
        t.subrange(5, t.len() as int)
    } else {
        t
    }
}

/// `k` is the id `t` itself or a leading run of its `/`-segments.
pub open spec fn path_prefix_of(k: Seq<char>, t: Seq<char>) -> bool {
    t == k || starts_with(t, k + seq!['/'])
}

/// `k` is the longest path prefix of area `a` that matches `t`.
pub open spec fn best_path_prefix(m: FactMap, a: M2Area, t: Seq<char>, k: Seq<char>) -> bool {
    &&& m.contains_key(FactKey::JsPath(a, k))
    &&& path_prefix_of(k, t)
    &&& forall|k2: Seq<char>|
        #[trigger] m.contains_key(FactKey::JsPath(a, k2)) && path_prefix_of(k2, t) ==> k2.len() <= k.len()
}

/// `t` with its longest matching path prefix of area `a` replaced by that
/// prefix's substitution; `t` itself when no prefix matches.
pub open spec fn apply_path_prefix(m: FactMap, a: M2Area, t: Seq<char>) -> Seq<char> {
    if exists|k: Seq<char>| best_path_prefix(m, a, t, k) {
        let k = choose|k: Seq<char>| best_path_prefix(m, a, t, k);
        m[FactKey::JsPath(a, k)][0] + t.subrange(k.len() as int, t.len() as int)
    } else {
        t
    }
}

/// Follows the alias chain of `t` from area `a`: an alias of the area leads
/// to its target (looked up in the same area); a miss moves to the fallback
/// area; a miss in `Base` ends the chain. At most `fuel` steps are taken.
pub open spec fn resolve_alias(m: FactMap, t: Seq<char>, a: M2Area, fuel: nat) -> Seq<char>
    decreases fuel,
{
    if fuel == 0 {
        t
    } else {
        match fact_text(m, FactKey::JsMap(a, t)) {
            Some(target) => resolve_alias(m, target, a, (fuel - 1) as nat),
            None => match fallback_area(a) {
                Some(b) => resolve_alias(m, t, b, (fuel - 1) as nat),
                None => t,
            },
        }
    }
}

/// The directory that holds the file at `p`.
pub open spec fn parent_dir(p: Seq<char>) -> Seq<char> {
    let j = last_index_of(p, '/');
    if j < 0 {
        Seq::empty()
    } else if j == 0 {
        seq!['/']
    } else {
        p.subrange(0, j)
    }
}

/// What a resolved id `t` names, seen from the file at `file`:
/// an HTML partial of a module, a path relative to the file's directory, a
/// component of a module (`Vendor_Module/...`), or a library component.
/// A module id whose module is not registered names nothing.
pub open spec fn classify_id(m: FactMap, t: Seq<char>, file: Seq<char>) -> Option<Item> {
    let i = first_index_of(t, '/');
    let first = t.subrange(0, i);
    let rest = t.subrange(i + 1, t.len() as int);
    if ends_with(t, ".html"@) {
        if i < t.len() {
            match fact_text(m, FactKey::ModulePath(first)) {
                Some(root) => Some(Item::ModHtml(first, rest, root)),
                None => None,
            }
        } else {
            None
        }
    } else if i > 0 && t[0] == '.' {
        Some(Item::RelComponent(t, parent_dir(file)))
    } else if i < t.len() && count_char(first, '_') == 1 && i > 0 && uppercase(t[0]) {
        match fact_text(m, FactKey::ModulePath(first)) {
            Some(root) => Some(Item::ModComponent(first, rest, root)),
            None => None,
        }
    } else {
        Some(Item::Component(t))
    }
}

/// The id `t` written in the file at `file`, fully resolved: plugin prefix
/// stripped, path prefix applied, alias chain followed in the file's area,
/// then classified.
pub open spec fn component_of(m: FactMap, t: Seq<char>, file: Seq<char>) -> Option<Item> {
    let a = area_of_path(file);
    let t1 = apply_path_prefix(m, a, strip_plugin(t));
    classify_id(m, resolve_alias(m, t1, a, MAX_ALIAS_DEPTH as nat), file)
}

/// The view of an optional item.
pub open spec fn opt_item(r: Option<M2Item>) -> Option<Item> {
    match r {
        Some(x) => Some(x@),
        None => None,
    }
}

/// Two matching prefixes of the same id and the same length are the same.
proof fn lemma_best_unique(m: FactMap, a: M2Area, t: Seq<char>, k1: Seq<char>, k2: Seq<char>)
    requires
        best_path_prefix(m, a, t, k1),
        best_path_prefix(m, a, t, k2),
    ensures
        k1 == k2,
{
    assert(k1.len() == k2.len());
    assert(k1 =~= t.subrange(0, k1.len() as int)) by {
        if t != k1 {
            assert((k1 + seq!['/']).subrange(0, k1.len() as int) =~= k1);
            assert(t.subrange(0, k1.len() as int) =~= (k1 + seq!['/']).subrange(0, k1.len() as int));
        }
    }
    assert(k2 =~= t.subrange(0, k2.len() as int)) by {
        if t != k2 {
            assert((k2 + seq!['/']).subrange(0, k2.len() as int) =~= k2);
            assert(t.subrange(0, k2.len() as int) =~= (k2 + seq!['/']).subrange(0, k2.len() as int));
        }
    }
}

/// The id without a leading `text!`.
pub fn strip_text_plugin(text: &str) -> (r: &str)
    ensures
        r@ == strip_plugin(text@),
{
    proof {
        reveal_strlit("text!");
    }
    if has_prefix(text, "text!") {
        text.substring_char(5, text.unicode_len())
    } else {
        text
    }
}

fn is_path_prefix(k: &str, text: &str) -> (r: bool)
    ensures
        r == path_prefix_of(k@, text@),
{
    proof {
        reveal_strlit("/");
    }
    if same_text(text, k) {
        return true;
    }
    let ks = crate::text::concat(k, "/");
    assert(ks@ == k@ + seq!['/']);
    has_prefix(text, ks.as_str())
}

/// Applies the longest path prefix of `area` that matches `text`.
pub fn resolve_paths(state: &State, text: &str, area: &M2Area) -> (r: String)
    requires
        state.wf(),
    ensures
        r@ == apply_path_prefix(state.facts(), *area, text@),
{
    let ghost m = state.facts();
    let keys = state.get_component_paths_for_area(area);
    let mut best: Option<usize> = None;
    let mut best_len: usize = 0;
    let mut i: usize = 0;
    while i < keys.len()
        invariant
            m == state.facts(),
            state.wf(),
            i <= keys@.len(),
            forall|n: Seq<char>| views(keys@).contains(n) <==> #[trigger] m.contains_key(FactKey::JsPath(*area, n)),
            best.is_some() ==> best.unwrap() < keys@.len() && keys@[best.unwrap() as int]@.len() == best_len
                && path_prefix_of(keys@[best.unwrap() as int]@, text@),
            forall|j: int| 0 <= j < i && path_prefix_of(#[trigger] keys@[j]@, text@) ==> best.is_some() && keys@[j]@.len() <= best_len,
        decreases keys.len() - i,
    {
        if is_path_prefix(keys[i].as_str(), text) {
            let l = keys[i].as_str().unicode_len();
            if best.is_none() || l > best_len {
                best = Some(i);
                best_len = l;
            }
        }
        i = i + 1;
    }
    match best {
        Some(b) => {
            let k = keys[b].as_str();
            assert(views(keys@)[b as int] == k@);
            assert(best_path_prefix(m, *area, text@, k@)) by {
                assert forall|k2: Seq<char>|
                    #[trigger] m.contains_key(FactKey::JsPath(*area, k2)) && path_prefix_of(k2, text@) implies k2.len() <= k@.len() by {
                    assert(views(keys@).contains(k2));
                    let j = choose|j: int| 0 <= j < views(keys@).len() && views(keys@)[j] == k2;
                    assert(keys@[j]@ == k2);
                }
            }
            proof {
                let c = choose|c: Seq<char>| best_path_prefix(m, *area, text@, c);
                lemma_best_unique(m, *area, text@, c, k@);
            }
            let target = state.get_component_path(k, area);
            match target {
                Some(v) => {
                    let tail = text.substring_char(best_len, text.unicode_len());
                    crate::text::concat(v.as_str(), tail)
                },
                None => text.to_owned(),
            }
        },
        None => {
            assert(!exists|k: Seq<char>| best_path_prefix(m, *area, text@, k)) by {
                if exists|k: Seq<char>| best_path_prefix(m, *area, text@, k) {
                    let k = choose|k: Seq<char>| best_path_prefix(m, *area, text@, k);
                    assert(views(keys@).contains(k));
                    let j = choose|j: int| 0 <= j < views(keys@).len() && views(keys@)[j] == k;
                    assert(keys@[j]@ == k);
                }
            }
            text.to_owned()
        },
    }
}

/// Follows the alias chain of `text` from `area`, falling back to `Base`.
pub fn resolve_maps(state: &State, text: &str, area: &M2Area) -> (r: String)
    requires
        state.wf(),
    ensures
        r@ == resolve_alias(state.facts(), text@, *area, MAX_ALIAS_DEPTH as nat),
{
    let ghost m = state.facts();
    let mut cur = text.to_owned();
    let mut a = *area;
    let mut fuel: usize = MAX_ALIAS_DEPTH;
    let mut done = false;
    while fuel > 0 && !done
        invariant
            m == state.facts(),
            state.wf(),
            fuel <= MAX_ALIAS_DEPTH,
            done ==> resolve_alias(m, text@, *area, MAX_ALIAS_DEPTH as nat) == cur@,
            !done ==> resolve_alias(m, text@, *area, MAX_ALIAS_DEPTH as nat) == resolve_alias(m, cur@, a, fuel as nat),
        decreases fuel,
    {
        match state.get_component_map(cur.as_str(), &a) {
            Some(target) => {
                cur = target.clone();
            },
            None => match a.lower_area() {
                Some(b) => {
                    a = b;
                },
                None => {
                    done = true;
                },
            },
        }
        fuel = fuel - 1;
    }
    cur
}

/// The directory of the file at `path`.
pub fn parent_of(path: &str) -> (r: String)
    ensures
        r@ == parent_dir(path@),
{
    proof {
        reveal_strlit("/");
    }
    match rfind_char(path, '/') {
        None => String::new(),
        Some(j) => {
            if j == 0 {
                "/".to_owned()
            } else {
                path.substring_char(0, j).to_owned()
            }
        },
    }
}

/// What the resolved id `text` names, seen from the file at `path`.
pub fn resolved_text_to_component(state: &State, text: &str, path: &str) -> (r: Option<M2Item>)
    requires
        state.wf(),
    ensures
        opt_item(r) == classify_id(state.facts(), text@, path@),
{
    proof {
        reveal_strlit(".html");
    }
    let n = text.unicode_len();
    let i = find_char(text, '/');
    let first = text.substring_char(0, i);
    if has_suffix(text, ".html") {
        if i < n {
            match state.get_module_path(first) {
                Some(root) => {
                    let rest = text.substring_char(i + 1, n);
                    Some(M2Item::ModHtml(first.to_owned(), rest.to_owned(), root))
                },
                None => None,
            }
        } else {
            None
        }
    } else if i > 0 && text.get_char(0) == '.' {
        Some(M2Item::RelComponent(text.to_owned(), parent_of(path)))
    } else if i < n && count_of(first, '_') == 1 && i > 0 && is_upper(text.get_char(0)) {
        match state.get_module_path(first) {
            Some(root) => {
                let rest = text.substring_char(i + 1, n);
                Some(M2Item::ModComponent(first.to_owned(), rest.to_owned(), root))
            },
            None => None,
        }
    } else {
        Some(M2Item::Component(text.to_owned()))
    }
}

/// The id `text` written in the file at `path`, fully resolved and classified.
pub fn text_to_component(state: &State, text: &str, path: &str) -> (r: Option<M2Item>)
    requires
        state.wf(),
    ensures
        opt_item(r) == component_of(state.facts(), text@, path@),
{
    let area = get_area(path);
    let t0 = strip_text_plugin(text);
    let t1 = resolve_paths(state, t0, &area);
    let t2 = resolve_maps(state, t1.as_str(), &area);
    resolved_text_to_component(state, t2.as_str(), path)
}

/// An alias registered under `Base` and not under `Frontend` or `Adminhtml`
/// is found from those areas: resolving it there follows the `Base` entry.
pub proof fn lemma_base_alias_visible(m: FactMap, t: Seq<char>, target: Seq<char>, a: M2Area, fuel: nat)
    requires
        a != M2Area::Base,
        !m.contains_key(FactKey::JsMap(a, t)),
        fact_text(m, FactKey::JsMap(M2Area::Base, t)) == Some(target),
        fuel >= 2,
    ensures
        resolve_alias(m, t, a, fuel) == resolve_alias(m, target, M2Area::Base, (fuel - 2) as nat),
{
    assert(resolve_alias(m, t, a, fuel) == resolve_alias(m, t, M2Area::Base, (fuel - 1) as nat));
    assert(resolve_alias(m, t, M2Area::Base, (fuel - 1) as nat) == resolve_alias(
        m,
        target,
        M2Area::Base,
        (fuel - 2) as nat,
    ));
}

/// An alias registered only under `Frontend` is invisible from `Adminhtml`
/// and from `Base`: there the id resolves to itself.
pub proof fn lemma_front_alias_invisible(m: FactMap, t: Seq<char>, fuel: nat)
    requires
        !m.contains_key(FactKey::JsMap(M2Area::Adminhtml, t)),
        !m.contains_key(FactKey::JsMap(M2Area::Base, t)),
    ensures
        resolve_alias(m, t, M2Area::Adminhtml, fuel) == t,
        resolve_alias(m, t, M2Area::Base, fuel) == t,
{
    if fuel > 0 {
        assert(resolve_alias(m, t, M2Area::Adminhtml, fuel) == resolve_alias(m, t, M2Area::Base, (fuel - 1) as nat));
        if fuel > 1 {
            assert(resolve_alias(m, t, M2Area::Base, (fuel - 1) as nat) == t);
        }
    }
}

/// An id starting with `.` (and not naming an HTML partial) is relative to
/// the directory of the file it is written in, whatever modules the index
/// holds.
pub proof fn lemma_relative_id(m: FactMap, t: Seq<char>, file: Seq<char>)
    requires
        t.len() > 0,
        t[0] == '.',
        !ends_with(t, ".html"@),
    ensures
        classify_id(m, t, file) == Some(Item::RelComponent(t, parent_dir(file))),
{
    crate::text::lemma_first_index_of(t, '/');
    assert(first_index_of(t, '/') > 0);
}

/// The `text!` plugin prefix is removed before any path or alias
/// substitution: the id with it resolves exactly as the id without it.
pub proof fn lemma_plugin_prefix_stripped(m: FactMap, t: Seq<char>, file: Seq<char>)
    requires
        !starts_with(t, "text!"@),
    ensures
        component_of(m, "text!"@ + t, file) == component_of(m, t, file),
{
    reveal_strlit("text!");
    let s = "text!"@ + t;
    assert(s.subrange(0, 5) =~= "text!"@);
    assert(s.subrange(5, s.len() as int) =~= t);
}

/// An id ending in `.html` names an HTML partial of the module of its first
/// segment, when that module is registered, and nothing otherwise; never a
/// library component.
pub proof fn lemma_html_names_module_partial(m: FactMap, t: Seq<char>, file: Seq<char>)
    requires
        ends_with(t, ".html"@),
    ensures
        classify_id(m, t, file) is None || classify_id(m, t, file)->0 is ModHtml,
        first_index_of(t, '/') < t.len() && fact_text(
            m,
            FactKey::ModulePath(t.subrange(0, first_index_of(t, '/'))),
        ) is Some ==> classify_id(m, t, file) == Some(
            Item::ModHtml(
                t.subrange(0, first_index_of(t, '/')),
                t.subrange(first_index_of(t, '/') + 1, t.len() as int),
                fact_text(m, FactKey::ModulePath(t.subrange(0, first_index_of(t, '/'))))->0,
            ),
        ),
{
}

/// One entry of a require-config, as written: the section (`map`, `paths`,
/// `mixins`), the key and the value.
pub struct ConfigCapture {
    pub kind: String,
    pub key: String,
    pub val: String,
}

/// The text of a config token: backslashes at either end dropped, then the
/// quotes of a quoted string.
pub open spec fn clean_config_text(raw: Seq<char>) -> Seq<char> {
    let t = trim_char(raw, '\\');
    if t.len() > 0 && (t[0] == '"' || t[0] == '\'') {
        trim_char(t, t[0])
    } else {
        t
    }
}

/// The facts that one config entry inserts for `area`.
pub open spec fn entry_facts(area: M2Area, kind: Seq<char>, key: Seq<char>, val: Seq<char>) -> Seq<(FactKey, Seq<char>)> {
    if kind == "map"@ {
        seq![(FactKey::JsMap(area, key), val)]
    } else if kind == "paths"@ {
        seq![(FactKey::JsPath(area, key), val)]
    } else if kind == "mixins"@ {
        seq![(FactKey::JsMixin(area, key), val)]
    } else {
        Seq::empty()
    }
}

/// The view of a config entry.
pub open spec fn capture_view(c: ConfigCapture) -> (Seq<char>, Seq<char>, Seq<char>) {
    (c.kind@, c.key@, c.val@)
}

/// The facts that the entries of the require-config at `file` insert, in
/// the area of the file.
pub open spec fn config_facts(file: Seq<char>, entries: Seq<(Seq<char>, Seq<char>, Seq<char>)>) -> Seq<(FactKey, Seq<char>)>
    decreases entries.len(),
{
    if entries.len() == 0 {
        Seq::empty()
    } else {
        let e = entries.last();
        config_facts(file, entries.drop_last()) + entry_facts(
            area_of_path(file),
            clean_config_text(e.0),
            clean_config_text(e.1),
            clean_config_text(e.2),
        )
    }
}

/// The text of a config token as written.
pub fn clean_text(raw: &str) -> (r: &str)
    ensures
        r@ == clean_config_text(raw@),
{
    let t = trim_matches(raw, '\\');
    if t.unicode_len() > 0 {
        let q = t.get_char(0);
        if q == '"' || q == '\'' {
            return trim_matches(t, q);
        }
    }
    t
}

/// The facts that the entries of the require-config at `path` insert.
pub fn config_facts_of(path: &str, entries: &Vec<ConfigCapture>) -> (r: Vec<(Trackee, String)>)
    ensures
        fact_list(r@) == config_facts(path@, entries@.map_values(|c: ConfigCapture| capture_view(c))),
{
    proof {
        reveal_strlit("map");
        reveal_strlit("paths");
        reveal_strlit("mixins");
    }
    let ghost es = entries@.map_values(|c: ConfigCapture| capture_view(c));
    let area = get_area(path);
    let mut r: Vec<(Trackee, String)> = Vec::new();
    let mut i: usize = 0;
    while i < entries.len()
        invariant
            i <= entries@.len(),
            es == entries@.map_values(|c: ConfigCapture| capture_view(c)),
            area == area_of_path(path@),
            fact_list(r@) == config_facts(path@, es.subrange(0, i as int)),
        decreases entries.len() - i,
    {
        assert(es.subrange(0, i + 1).drop_last() =~= es.subrange(0, i as int));
        assert(es.subrange(0, i + 1).last() == capture_view(entries@[i as int]));
        let e = &entries[i];
        let kind = clean_text(e.kind.as_str());
        let key = clean_text(e.key.as_str()).to_owned();
        let val = clean_text(e.val.as_str()).to_owned();
        let ghost before = r@;
        let ghost kv = key@;
        let ghost vv = val@;
        if same_text(kind, "map") {
            r.push((Trackee::JsMap(area, key), val));
            assert(fact_list(r@) =~= fact_list(before) + seq![(FactKey::JsMap(area, kv), vv)]);
        } else if same_text(kind, "paths") {
            r.push((Trackee::JsPath(area, key), val));
            assert(fact_list(r@) =~= fact_list(before) + seq![(FactKey::JsPath(area, kv), vv)]);
        } else if same_text(kind, "mixins") {
            r.push((Trackee::JsMixin(area, key), val));
            assert(fact_list(r@) =~= fact_list(before) + seq![(FactKey::JsMixin(area, kv), vv)]);
        } else {
            assert(fact_list(r@) =~= fact_list(before) + Seq::<(FactKey, Seq<char>)>::empty());
        }
        i = i + 1;
    }
    assert(es.subrange(0, i as int) =~= es);
    r
}

/// Indexes the entries of a require-config, when `file_path` is one.
pub fn maybe_index_file(state: &mut State, entries: &Vec<ConfigCapture>, file_path: &str)
    requires
        old(state).wf(),
    ensures
        final(state).wf(),
        ends_with(file_path@, "requirejs-config.js"@) ==> final(state).facts() == apply_facts(
            old(state).facts(),
            config_facts(file_path@, entries@.map_values(|c: ConfigCapture| capture_view(c))),
        ) && final(state).provenance() == track_all(
            old(state).provenance(),
            file_path@,
            fact_keys(config_facts(file_path@, entries@.map_values(|c: ConfigCapture| capture_view(c)))),
        ) && final(state).source() == Some(file_path@),
        !ends_with(file_path@, "requirejs-config.js"@) ==> *final(state) == *old(state),
        final(state).buffer_map() == old(state).buffer_map(),
        final(state).workspace_seq() == old(state).workspace_seq(),
{
    if has_suffix(file_path, "requirejs-config.js") {
        state.set_source_file(file_path);
        let facts = config_facts_of(file_path, entries);
        state.apply(&facts);
    }
}

/// The items that the ids `ts` name, seen from the file at `file`; ids that
/// name nothing are left out.
pub open spec fn components_of(m: FactMap, ts: Seq<Seq<char>>, file: Seq<char>) -> Seq<Item>
    decreases ts.len(),
{
    if ts.len() == 0 {
        Seq::empty()
    } else {
        let prev = components_of(m, ts.drop_last(), file);
        match component_of(m, ts.last(), file) {
            Some(x) => prev.push(x),
            None => prev,
        }
    }
}

/// The targets of the mixin `name` of `area`, none when it has no entry.
pub open spec fn mixin_targets(m: FactMap, name: Seq<char>, area: M2Area) -> Seq<Seq<char>> {
    if m.contains_key(FactKey::JsMixin(area, name)) {
        m[FactKey::JsMixin(area, name)]
    } else {
        Seq::empty()
    }
}

/// The views of a list of items.
pub open spec fn item_views(v: Seq<M2Item>) -> Seq<Item> {
    v.map_values(|x: M2Item| x@)
}

impl State {
    /// The components that the mixin `name` of `area` layers on its target,
    /// each resolved as written in a file outside any area directory.
    pub fn get_component_mixins_for_area(&self, name: &str, area: &M2Area) -> (r: Vec<M2Item>)
        requires
            self.wf(),
        ensures
            item_views(r@) == components_of(self.facts(), mixin_targets(self.facts(), name@, *area), Seq::empty()),
    {
        proof {
            reveal_strlit("");
            assert(""@ =~= Seq::<char>::empty());
        }
        let targets = self.get_component_mixin_targets(name, area);
        let ghost ts = views(targets@);
        assert(ts =~= mixin_targets(self.facts(), name@, *area));
        let nowhere: &str = "";
        let mut r: Vec<M2Item> = Vec::new();
        let mut i: usize = 0;
        while i < targets.len()
            invariant
                self.wf(),
                nowhere@ == Seq::<char>::empty(),
                i <= targets@.len(),
                ts == views(targets@),
                item_views(r@) == components_of(self.facts(), ts.subrange(0, i as int), Seq::empty()),
            decreases targets.len() - i,
        {
            assert(ts.subrange(0, i + 1).drop_last() =~= ts.subrange(0, i as int));
            assert(ts.subrange(0, i + 1).last() == targets@[i as int]@);
            let ghost before = r@;
            match text_to_component(self, targets[i].as_str(), nowhere) {
                Some(x) => {
                    r.push(x);
                    assert(item_views(r@) =~= item_views(before).push(x@));
                },
                None => {},
            }
            i = i + 1;
        }
        assert(ts.subrange(0, i as int) =~= ts);
        r
    }
}

} // verus!
