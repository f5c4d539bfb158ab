//! The provenance-tracked index: every fact, the file that contributed it,
//! the live editor buffers and the registered workspaces.
use vstd::prelude::*;
use crate::facts::{
    apply_facts, fact_keys, insert_fact, push_track, reindex, retract, track_all, tracked_keys,
    FactKey, FactMap, Provenance,
};
use crate::m2::{join_all, with_ext, M2Area};
use crate::table::{AreaTables, StrMap};
use crate::text::{
    chars_of, ends_with, replace_all, replace_char, same_text, sort_texts, split, split_text,
    strictly_sorted, views,
};

verus! {

/// A fact recorded against the file that contributed it.
pub enum Trackee {
    Module(String),
    ModulePath(String),
    FrontTheme(String),
    AdminTheme(String),
    JsMap(M2Area, String),
    JsPath(M2Area, String),
    JsMixin(M2Area, String),
}

impl Trackee {
    /// The key of the fact.
    pub open spec fn key(&self) -> FactKey {
        match self {
            Trackee::Module(n) => FactKey::Module(n@),
            Trackee::ModulePath(n) => FactKey::ModulePath(n@),
            Trackee::FrontTheme(n) => FactKey::FrontTheme(n@),
            Trackee::AdminTheme(n) => FactKey::AdminTheme(n@),
            Trackee::JsMap(a, n) => FactKey::JsMap(*a, n@),
            Trackee::JsPath(a, n) => FactKey::JsPath(*a, n@),
            Trackee::JsMixin(a, n) => FactKey::JsMixin(*a, n@),
        }
    }

    /// A copy with the same key.
    pub fn duplicate(&self) -> (r: Trackee)
        ensures
            r.key() == self.key(),
    {
        match self {
            Trackee::Module(n) => Trackee::Module(n.clone()),
            Trackee::ModulePath(n) => Trackee::ModulePath(n.clone()),
            Trackee::FrontTheme(n) => Trackee::FrontTheme(n.clone()),
            Trackee::AdminTheme(n) => Trackee::AdminTheme(n.clone()),
            Trackee::JsMap(a, n) => Trackee::JsMap(*a, n.clone()),
            Trackee::JsPath(a, n) => Trackee::JsPath(*a, n.clone()),
            Trackee::JsMixin(a, n) => Trackee::JsMixin(*a, n.clone()),
        }
    }
}

/// The facts of a list of tracked facts and their texts.
pub open spec fn fact_list(v: Seq<(Trackee, String)>) -> Seq<(FactKey, Seq<char>)> {
    v.map_values(|e: (Trackee, String)| (e.0.key(), e.1@))
}

/// The keys of a list of tracked facts.
pub open spec fn trackee_keys(v: Seq<Trackee>) -> Seq<FactKey> {
    v.map_values(|t: Trackee| t.key())
}

/// For each source file, the facts it contributed, in order.
pub struct TrackingList(StrMap<Vec<Trackee>>);

impl TrackingList {
    /// The provenance record.
    pub closed spec fn view(&self) -> Provenance {
        self.0.map().map_values(|v: Vec<Trackee>| trackee_keys(v@))
    }

    pub closed spec fn wf(&self) -> bool {
        self.0.wf()
    }

    pub fn new() -> (r: Self)
        ensures
            r.wf(),
            r.view() == Provenance::empty(),
    {
        let r = TrackingList(StrMap::new());
        assert(r.view() =~= Provenance::empty());
        r
    }

    /// Records that `source_path` contributed `trackee`.
    pub fn track(&mut self, source_path: &str, trackee: Trackee)
        requires
            old(self).wf(),
        ensures
            final(self).wf(),
            final(self).view() == push_track(old(self).view(), source_path@, trackee.key()),
    {
        let ghost k = trackee.key();
        let ghost p = source_path@;
        let ghost prev = if old(self).view().contains_key(p) { old(self).view()[p] } else { Seq::empty() };
        let mut list = match self.0.take(source_path) {
            Some(v) => v,
            None => Vec::new(),
        };
        let ghost before = list@;
        assert(trackee_keys(before) =~= prev);
        list.push(trackee);
        assert(trackee_keys(list@) =~= trackee_keys(before).push(k));
        self.0.insert(source_path.to_owned(), list);
        assert(self.view() =~= push_track(old(self).view(), source_path@, k));
    }

    /// Records `trackee` against `source_path`, if there is one.
    pub fn maybe_track(&mut self, source_path: Option<&String>, trackee: Trackee)
        requires
            old(self).wf(),
        ensures
            final(self).wf(),
            source_path.is_some() ==> final(self).view() == push_track(
                old(self).view(),
                source_path.unwrap()@,
                trackee.key(),
            ),
            source_path.is_none() ==> final(self).view() == old(self).view(),
    {
        if let Some(p) = source_path {
            self.track(p.as_str(), trackee);
        }
    }

    /// Forgets what `source_path` contributed and hands it back.
    pub fn untrack(&mut self, source_path: &str) -> (r: Option<Vec<Trackee>>)
        requires
            old(self).wf(),
        ensures
            final(self).wf(),
            final(self).view() == old(self).view().remove(source_path@),
            r.is_some() == old(self).view().contains_key(source_path@),
            r.is_some() ==> trackee_keys(r.unwrap()@) == old(self).view()[source_path@],
    {
        let r = self.0.take(source_path);
        assert(self.view() =~= old(self).view().remove(source_path@));
        r
    }
}

/// The index shared by all handlers.
pub struct State {
    source_file: Option<String>,
    track_entities: TrackingList,
    buffers: StrMap<String>,
    modules: StrMap<()>,
    module_paths: StrMap<String>,
    front_themes: StrMap<String>,
    admin_themes: StrMap<String>,
    js_maps: AreaTables<String>,
    js_paths: AreaTables<String>,
    js_mixins: AreaTables<Vec<String>>,
    workspaces: Vec<String>,
}

impl State {
    pub closed spec fn fact_present(&self, k: FactKey) -> bool {
        match k {
            FactKey::Module(n) => self.modules.map().contains_key(n),
            FactKey::ModulePath(n) => self.module_paths.map().contains_key(n),
            FactKey::FrontTheme(n) => self.front_themes.map().contains_key(n),
            FactKey::AdminTheme(n) => self.admin_themes.map().contains_key(n),
            FactKey::JsMap(a, n) => self.js_maps.table(a).map().contains_key(n),
            FactKey::JsPath(a, n) => self.js_paths.table(a).map().contains_key(n),
            FactKey::JsMixin(a, n) => self.js_mixins.table(a).map().contains_key(n),
        }
    }

    pub closed spec fn fact_value(&self, k: FactKey) -> Seq<Seq<char>> {
        match k {
            FactKey::Module(n) => Seq::empty(),
            FactKey::ModulePath(n) => seq![self.module_paths.map()[n]@],
            FactKey::FrontTheme(n) => seq![self.front_themes.map()[n]@],
            FactKey::AdminTheme(n) => seq![self.admin_themes.map()[n]@],
            FactKey::JsMap(a, n) => seq![self.js_maps.table(a).map()[n]@],
            FactKey::JsPath(a, n) => seq![self.js_paths.table(a).map()[n]@],
            FactKey::JsMixin(a, n) => views(self.js_mixins.table(a).map()[n]@),
        }
    }

    /// Every fact of the index.
    pub closed spec fn facts(&self) -> FactMap {
        Map::new(|k: FactKey| self.fact_present(k), |k: FactKey| self.fact_value(k))
    }

    /// Which file contributed which facts.
    pub closed spec fn provenance(&self) -> Provenance {
        self.track_entities.view()
    }

    /// The file that facts inserted now are recorded against.
    pub closed spec fn source(&self) -> Option<Seq<char>> {
        match self.source_file {
            Some(s) => Some(s@),
            None => None,
        }
    }

    /// The live editor buffers.
    pub closed spec fn buffer_map(&self) -> Map<Seq<char>, Seq<char>> {
        self.buffers.map().map_values(|s: String| s@)
    }

    /// The registered workspace roots, in order of registration.
    pub closed spec fn workspace_seq(&self) -> Seq<Seq<char>> {
        views(self.workspaces@)
    }

    /// The module names, in order of first registration.
    pub closed spec fn module_seq(&self) -> Seq<Seq<char>> {
        self.modules.key_seq()
    }

    /// The roots of the frontend themes, in order of first registration.
    pub closed spec fn front_theme_roots(&self) -> Seq<Seq<char>> {
        views(self.front_themes.value_seq())
    }

    /// The roots of the admin themes, in order of first registration.
    pub closed spec fn admin_theme_roots(&self) -> Seq<Seq<char>> {
        views(self.admin_themes.value_seq())
    }

    pub closed spec fn wf(&self) -> bool {
        &&& self.track_entities.wf()
        &&& self.buffers.wf()
        &&& self.modules.wf()
        &&& self.module_paths.wf()
        &&& self.front_themes.wf()
        &&& self.admin_themes.wf()
        &&& self.js_maps.wf()
        &&& self.js_paths.wf()
        &&& self.js_mixins.wf()
    }

    /// The facts of the modules: a module name is present once.
    pub proof fn lemma_module_seq(&self)
        requires
            self.wf(),
        ensures
            forall|i: int, j: int|
                0 <= i < self.module_seq().len() && 0 <= j < self.module_seq().len() && i != j
                    ==> #[trigger] self.module_seq()[i] != #[trigger] self.module_seq()[j],
            forall|n: Seq<char>|
                self.module_seq().contains(n) <==> #[trigger] self.facts().contains_key(
                    FactKey::Module(n),
                ),
    {
        assert forall|n: Seq<char>|
            self.module_seq().contains(n) <==> #[trigger] self.facts().contains_key(FactKey::Module(n)) by {
            if self.module_seq().contains(n) {
                let i = choose|i: int| 0 <= i < self.module_seq().len() && self.module_seq()[i] == n;
                self.modules.lemma_entry(i);
            }
            if self.facts().contains_key(FactKey::Module(n)) {
                let i = choose|i: int| 0 <= i < self.modules.pairs().len() && #[trigger] self.modules.pairs()[i].0 == n;
                assert(self.module_seq()[i] == n);
            }
        }
        assert forall|i: int, j: int|
            0 <= i < self.module_seq().len() && 0 <= j < self.module_seq().len() && i != j
                implies #[trigger] self.module_seq()[i] != #[trigger] self.module_seq()[j] by {
            assert(self.module_seq()[i] == self.modules.pairs()[i].0);
            assert(self.module_seq()[j] == self.modules.pairs()[j].0);
        }
    }

    pub fn new() -> (r: Self)
        ensures
            r.wf(),
            r.facts() == FactMap::empty(),
            r.provenance() == Provenance::empty(),
            r.source().is_none(),
            r.buffer_map() == Map::<Seq<char>, Seq<char>>::empty(),
            r.workspace_seq() == Seq::<Seq<char>>::empty(),
    {
        let r = State {
            source_file: None,
            track_entities: TrackingList::new(),
            buffers: StrMap::new(),
            modules: StrMap::new(),
            module_paths: StrMap::new(),
            front_themes: StrMap::new(),
            admin_themes: StrMap::new(),
            js_maps: AreaTables::new(),
            js_paths: AreaTables::new(),
            js_mixins: AreaTables::new(),
            workspaces: Vec::new(),
        };
        assert(r.facts() =~= FactMap::empty());
        assert(r.buffer_map() =~= Map::<Seq<char>, Seq<char>>::empty());
        assert(r.workspace_seq() =~= Seq::<Seq<char>>::empty());
        r
    }

    /// Facts inserted from now on are recorded against `path`.
    pub fn set_source_file(&mut self, path: &str)
        requires
            old(self).wf(),
        ensures
            final(self).wf(),
            final(self).source() == Some(path@),
            final(self).facts() == old(self).facts(),
            final(self).provenance() == old(self).provenance(),
            final(self).buffer_map() == old(self).buffer_map(),
            final(self).workspace_seq() == old(self).workspace_seq(),
    {
        self.source_file = Some(path.to_owned());
        assert(self.facts() =~= old(self).facts());
    }

    /// Inserts one fact and records it against the current source file.
    fn record(&mut self, t: Trackee, val: String)
        requires
            old(self).wf(),
        ensures
            final(self).wf(),
            final(self).facts() == insert_fact(old(self).facts(), t.key(), val@),
            final(self).provenance() == (match old(self).source() {
                Some(p) => push_track(old(self).provenance(), p, t.key()),
                None => old(self).provenance(),
            }),
            final(self).source() == old(self).source(),
            final(self).buffer_map() == old(self).buffer_map(),
            final(self).workspace_seq() == old(self).workspace_seq(),
    {
        let ghost k = t.key();
        let tracked_copy = t.duplicate();
        match t {
            Trackee::Module(n) => {
                self.modules.insert(n, ());
            },
            Trackee::ModulePath(n) => {
                self.module_paths.insert(n, val);
            },
            Trackee::FrontTheme(n) => {
                self.front_themes.insert(n, val);
            },
            Trackee::AdminTheme(n) => {
                self.admin_themes.insert(n, val);
            },
            Trackee::JsMap(a, n) => {
                self.js_maps.insert(a, n, val);
            },
            Trackee::JsPath(a, n) => {
                self.js_paths.insert(a, n, val);
            },
            Trackee::JsMixin(a, n) => {
                let mut list = match self.js_mixins.take(a, n.as_str()) {
                    Some(v) => v,
                    None => Vec::new(),
                };
                let ghost before = list@;
                let ghost fk = FactKey::JsMixin(a, n@);
                assert(views(before) =~= (if old(self).facts().contains_key(fk) { old(self).facts()[fk] } else { Seq::empty() }));
                list.push(val);
                assert(views(list@) =~= views(before).push(val@));
                self.js_mixins.insert(a, n, list);
                assert(self.facts() =~= insert_fact(old(self).facts(), k, val@));
            },
        }
        assert(self.facts() =~= insert_fact(old(self).facts(), k, val@));
        self.track_entities.maybe_track(self.source_file.as_ref(), tracked_copy);
    }

    /// Registers a module name.
    pub fn add_module(&mut self, module: &str)
        requires
            old(self).wf(),
        ensures
            final(self).wf(),
            final(self).facts() == insert_fact(old(self).facts(), FactKey::Module(module@), Seq::empty()),
            final(self).provenance() == (match old(self).source() {
                Some(p) => push_track(old(self).provenance(), p, FactKey::Module(module@)),
                None => old(self).provenance(),
            }),
            final(self).source() == old(self).source(),
            final(self).buffer_map() == old(self).buffer_map(),
            final(self).workspace_seq() == old(self).workspace_seq(),
    {
        self.record(Trackee::Module(module.to_owned()), String::new());
    }

    /// Maps a module name (or namespace) to the module's root.
    pub fn add_module_path(&mut self, module: &str, path: &str)
        requires
            old(self).wf(),
        ensures
            final(self).wf(),
            final(self).facts() == old(self).facts().insert(FactKey::ModulePath(module@), seq![path@]),
            final(self).provenance() == (match old(self).source() {
                Some(p) => push_track(old(self).provenance(), p, FactKey::ModulePath(module@)),
                None => old(self).provenance(),
            }),
            final(self).source() == old(self).source(),
            final(self).buffer_map() == old(self).buffer_map(),
            final(self).workspace_seq() == old(self).workspace_seq(),
    {
        self.record(Trackee::ModulePath(module.to_owned()), path.to_owned());
    }

    /// Registers an admin theme and its root.
    pub fn add_admin_theme_path(&mut self, name: &str, path: &str)
        requires
            old(self).wf(),
        ensures
            final(self).wf(),
            final(self).facts() == old(self).facts().insert(FactKey::AdminTheme(name@), seq![path@]),
            final(self).provenance() == (match old(self).source() {
                Some(p) => push_track(old(self).provenance(), p, FactKey::AdminTheme(name@)),
                None => old(self).provenance(),
            }),
            final(self).source() == old(self).source(),
            final(self).buffer_map() == old(self).buffer_map(),
            final(self).workspace_seq() == old(self).workspace_seq(),
    {
        self.record(Trackee::AdminTheme(name.to_owned()), path.to_owned());
    }

    /// Registers a frontend theme and its root.
    pub fn add_front_theme_path(&mut self, name: &str, path: &str)
        requires
            old(self).wf(),
        ensures
            final(self).wf(),
            final(self).facts() == old(self).facts().insert(FactKey::FrontTheme(name@), seq![path@]),
            final(self).provenance() == (match old(self).source() {
                Some(p) => push_track(old(self).provenance(), p, FactKey::FrontTheme(name@)),
                None => old(self).provenance(),
            }),
            final(self).source() == old(self).source(),
            final(self).buffer_map() == old(self).buffer_map(),
            final(self).workspace_seq() == old(self).workspace_seq(),
    {
        self.record(Trackee::FrontTheme(name.to_owned()), path.to_owned());
    }

    /// Maps the JS alias `name` of `area` to `val`.
    pub fn add_component_map(&mut self, name: &str, val: &str, area: &M2Area)
        requires
            old(self).wf(),
        ensures
            final(self).wf(),
            final(self).facts() == old(self).facts().insert(FactKey::JsMap(*area, name@), seq![val@]),
            final(self).provenance() == (match old(self).source() {
                Some(p) => push_track(old(self).provenance(), p, FactKey::JsMap(*area, name@)),
                None => old(self).provenance(),
            }),
            final(self).source() == old(self).source(),
            final(self).buffer_map() == old(self).buffer_map(),
            final(self).workspace_seq() == old(self).workspace_seq(),
    {
        self.record(Trackee::JsMap(*area, name.to_owned()), val.to_owned());
    }

    /// Maps the JS path prefix `name` of `area` to `val`.
    pub fn add_component_path(&mut self, name: &str, val: &str, area: &M2Area)
        requires
            old(self).wf(),
        ensures
            final(self).wf(),
            final(self).facts() == old(self).facts().insert(FactKey::JsPath(*area, name@), seq![val@]),
            final(self).provenance() == (match old(self).source() {
                Some(p) => push_track(old(self).provenance(), p, FactKey::JsPath(*area, name@)),
                None => old(self).provenance(),
            }),
            final(self).source() == old(self).source(),
            final(self).buffer_map() == old(self).buffer_map(),
            final(self).workspace_seq() == old(self).workspace_seq(),
    {
        self.record(Trackee::JsPath(*area, name.to_owned()), val.to_owned());
    }

    /// Adds `val` to the targets of the JS mixin `name` of `area`.
    pub fn add_component_mixin(&mut self, name: &str, val: &str, area: &M2Area)
        requires
            old(self).wf(),
        ensures
            final(self).wf(),
            final(self).facts() == insert_fact(old(self).facts(), FactKey::JsMixin(*area, name@), val@),
            final(self).provenance() == (match old(self).source() {
                Some(p) => push_track(old(self).provenance(), p, FactKey::JsMixin(*area, name@)),
                None => old(self).provenance(),
            }),
            final(self).source() == old(self).source(),
            final(self).buffer_map() == old(self).buffer_map(),
            final(self).workspace_seq() == old(self).workspace_seq(),
    {
        self.record(Trackee::JsMixin(*area, name.to_owned()), val.to_owned());
    }

    /// Inserts the facts `es` in turn, each recorded against the current
    /// source file.
    pub fn apply(&mut self, es: &Vec<(Trackee, String)>)
        requires
            old(self).wf(),
            old(self).source().is_some(),
        ensures
            final(self).wf(),
            final(self).facts() == apply_facts(old(self).facts(), fact_list(es@)),
            final(self).provenance() == track_all(
                old(self).provenance(),
                old(self).source().unwrap(),
                fact_keys(fact_list(es@)),
            ),
            final(self).source() == old(self).source(),
            final(self).buffer_map() == old(self).buffer_map(),
            final(self).workspace_seq() == old(self).workspace_seq(),
    {
        let ghost p = old(self).source().unwrap();
        let ghost fl = fact_list(es@);
        let mut i: usize = 0;
        while i < es.len()
            invariant
                self.wf(),
                i <= es@.len(),
                fl == fact_list(es@),
                self.source() == Some(p),
                self.facts() == apply_facts(old(self).facts(), fl.subrange(0, i as int)),
                self.provenance() == track_all(old(self).provenance(), p, fact_keys(fl.subrange(0, i as int))),
                self.buffer_map() == old(self).buffer_map(),
                self.workspace_seq() == old(self).workspace_seq(),
            decreases es.len() - i,
        {
            assert(fl.subrange(0, i + 1).drop_last() =~= fl.subrange(0, i as int));
            assert(fact_keys(fl.subrange(0, i + 1)).drop_last() =~= fact_keys(fl.subrange(0, i as int)));
            let t = es[i].0.duplicate();
            let v = es[i].1.clone();
            self.record(t, v);
            i = i + 1;
        }
        assert(fl.subrange(0, i as int) =~= fl);
    }

    /// Removes one fact.
    fn forget(&mut self, t: &Trackee)
        requires
            old(self).wf(),
        ensures
            final(self).wf(),
            final(self).facts() == old(self).facts().remove(t.key()),
            final(self).provenance() == old(self).provenance(),
            final(self).source() == old(self).source(),
            final(self).buffer_map() == old(self).buffer_map(),
            final(self).workspace_seq() == old(self).workspace_seq(),
    {
        match t {
            Trackee::Module(n) => {
                self.modules.take(n.as_str());
            },
            Trackee::ModulePath(n) => {
                self.module_paths.take(n.as_str());
            },
            Trackee::FrontTheme(n) => {
                self.front_themes.take(n.as_str());
            },
            Trackee::AdminTheme(n) => {
                self.admin_themes.take(n.as_str());
            },
            Trackee::JsMap(a, n) => {
                self.js_maps.take(*a, n.as_str());
            },
            Trackee::JsPath(a, n) => {
                self.js_paths.take(*a, n.as_str());
            },
            Trackee::JsMixin(a, n) => {
                self.js_mixins.take(*a, n.as_str());
            },
        }
        assert(self.facts() =~= old(self).facts().remove(t.key()));
    }

    /// Retracts every fact recorded against `path`; a path with no record is
    /// left as it is.
    pub fn clear_from_source(&mut self, path: &str)
        requires
            old(self).wf(),
        ensures
            final(self).wf(),
            (final(self).facts(), final(self).provenance()) == retract(
                old(self).facts(),
                old(self).provenance(),
                path@,
            ),
            final(self).source() == old(self).source(),
            final(self).buffer_map() == old(self).buffer_map(),
            final(self).workspace_seq() == old(self).workspace_seq(),
    {
        let ghost m0 = old(self).facts();
        match self.track_entities.untrack(path) {
            Some(list) => {
                let ghost ks = trackee_keys(list@);
                let mut i: usize = 0;
                while i < list.len()
                    invariant
                        self.wf(),
                        i <= list@.len(),
                        ks == trackee_keys(list@),
                        self.facts() == m0.remove_keys(ks.subrange(0, i as int).to_set()),
                        self.provenance() == old(self).provenance().remove(path@),
                        self.source() == old(self).source(),
                        self.buffer_map() == old(self).buffer_map(),
                        self.workspace_seq() == old(self).workspace_seq(),
                    decreases list.len() - i,
                {
                    let ghost prev = self.facts();
                    self.forget(&list[i]);
                    assert(ks.subrange(0, i + 1).to_set() =~= ks.subrange(0, i as int).to_set().insert(ks[i as int])) by {
                        assert(ks.subrange(0, i + 1) =~= ks.subrange(0, i as int).push(ks[i as int]));
                        ks.subrange(0, i as int).lemma_push_to_set_commute(ks[i as int]);
                    }
                    assert(self.facts() =~= m0.remove_keys(ks.subrange(0, i + 1).to_set()));
                    i = i + 1;
                }
                assert(ks.subrange(0, i as int) =~= ks);
            },
            None => {
                assert(tracked_keys(old(self).provenance(), path@) =~= Set::<FactKey>::empty());
                assert(m0.remove_keys(Set::<FactKey>::empty()) =~= m0);
            },
        }
    }
}


/// `root` is the root of a registered frontend theme.
pub open spec fn is_front_theme_root(m: FactMap, root: Seq<char>) -> bool {
    exists|n: Seq<char>| #[trigger] m.contains_key(FactKey::FrontTheme(n)) && m[FactKey::FrontTheme(n)] == seq![root]
}

/// `root` is the root of a registered admin theme.
pub open spec fn is_admin_theme_root(m: FactMap, root: Seq<char>) -> bool {
    exists|n: Seq<char>| #[trigger] m.contains_key(FactKey::AdminTheme(n)) && m[FactKey::AdminTheme(n)] == seq![root]
}

/// The registered roots after an attempt to register `root`: a root that is
/// already there is not added again.
pub open spec fn register_root(ws: Seq<Seq<char>>, root: Seq<char>) -> Seq<Seq<char>> {
    if ws.contains(root) {
        ws
    } else {
        ws.push(root)
    }
}

/// Registering a workspace root twice starts its bulk indexing only once:
/// the second attempt finds the root registered and changes nothing.
pub proof fn lemma_register_root_idempotent(ws: Seq<Seq<char>>, root: Seq<char>)
    ensures
        register_root(ws, root).contains(root),
        register_root(register_root(ws, root), root) == register_root(ws, root),
{
    if !ws.contains(root) {
        assert(ws.push(root)[ws.len() as int] == root);
    }
}

/// The last separator position `c <= i` of a class name `s` whose prefix
/// `s[..c]` is a registered module namespace; `-1` stands for the empty prefix,
/// tried after every separator.
pub open spec fn class_cut(m: FactMap, s: Seq<char>, i: int) -> Option<int>
    decreases i + 1,
{
    if i < 0 {
        if m.contains_key(FactKey::ModulePath(Seq::empty())) {
            Some(-1)
        } else {
            None
        }
    } else if i < s.len() && s[i] == '\\' && m.contains_key(FactKey::ModulePath(s.subrange(0, i))) {
        Some(i)
    } else {
        class_cut(m, s, i - 1)
    }
}

/// The module prefix that a cut leaves.
pub open spec fn cut_prefix(s: Seq<char>, c: int) -> Seq<char> {
    if c < 0 {
        Seq::empty()
    } else {
        s.subrange(0, c)
    }
}

/// A class name split into the root of its module (longest registered
/// namespace prefix) and the remaining name segments.
pub open spec fn class_split(m: FactMap, s: Seq<char>) -> Option<(Seq<char>, Seq<Seq<char>>)> {
    match class_cut(m, s, s.len() - 1) {
        Some(c) => Some(
            (
                m[FactKey::ModulePath(cut_prefix(s, c))][0],
                split(s.subrange(c + 1, s.len() as int), '\\'),
            ),
        ),
        None => None,
    }
}

/// The file that holds a class: its remaining segments as directories under
/// the module root, with `.php` appended.
pub open spec fn class_file(m: FactMap, s: Seq<char>) -> Option<Seq<char>> {
    match class_split(m, s) {
        Some((root, segs)) => Some(with_ext(join_all(root, segs), "php"@)),
        None => None,
    }
}

/// When the prefixes before two separators `i < j` of a class name are both
/// registered module namespaces, the longer one is chosen.
pub proof fn lemma_longest_prefix_wins(m: FactMap, s: Seq<char>, i: int, j: int)
    requires
        0 <= i < j < s.len(),
        s[i] == '\\',
        s[j] == '\\',
        m.contains_key(FactKey::ModulePath(s.subrange(0, i))),
        m.contains_key(FactKey::ModulePath(s.subrange(0, j))),
    ensures
        class_cut(m, s, s.len() - 1) is Some,
        class_cut(m, s, s.len() - 1)->0 >= j,
        class_split(m, s) is Some,
        class_split(m, s) == Some(
            (
                m[FactKey::ModulePath(s.subrange(0, class_cut(m, s, s.len() - 1)->0))][0],
                split(s.subrange(class_cut(m, s, s.len() - 1)->0 + 1, s.len() as int), '\\'),
            ),
        ),
{
    lemma_cut_at_least(m, s, j, s.len() - 1);
}

/// The namespace prefix before the separator at `j` of class name `s` is a
/// registered module.
pub open spec fn registered_cut(m: FactMap, s: Seq<char>, j: int) -> bool {
    0 <= j < s.len() && s[j] == '\\' && m.contains_key(FactKey::ModulePath(s.subrange(0, j)))
}

/// Class resolution picks the longest registered namespace prefix: the cut it
/// makes has a registered prefix and no later separator has one; with no cut,
/// neither the empty prefix nor any separator's prefix is registered.
pub proof fn lemma_class_cut_is_longest(m: FactMap, s: Seq<char>, x: int)
    requires
        x < s.len(),
    ensures
        match class_cut(m, s, x) {
            Some(c) => (c == -1 ==> m.contains_key(FactKey::ModulePath(Seq::empty()))) && (c >= 0 ==> c <= x
                && registered_cut(m, s, c)) && (forall|j: int| c < j <= x ==> !#[trigger] registered_cut(m, s, j)),
            None => !m.contains_key(FactKey::ModulePath(Seq::empty())) && (forall|j: int|
                0 <= j <= x ==> !#[trigger] registered_cut(m, s, j)),
        },
    decreases x + 1,
{
    if x >= 0 {
        lemma_class_cut_is_longest(m, s, x - 1);
    }
}

proof fn lemma_cut_at_least(m: FactMap, s: Seq<char>, j: int, x: int)
    requires
        0 <= j <= x < s.len(),
        s[j] == '\\',
        m.contains_key(FactKey::ModulePath(s.subrange(0, j))),
    ensures
        class_cut(m, s, x) is Some,
        class_cut(m, s, x)->0 >= j,
    decreases x,
{
    if x > j {
        lemma_cut_at_least(m, s, j, x - 1);
    }
}

impl State {
    /// The text of the buffer opened at `path`.
    pub fn get_file(&self, path: &str) -> (r: Option<&String>)
        requires
            self.wf(),
        ensures
            r.is_some() == self.buffer_map().contains_key(path@),
            r.is_some() ==> r.unwrap()@ == self.buffer_map()[path@],
    {
        self.buffers.get(path)
    }

    /// Drops the buffer of `path`; the facts of the file stay.
    pub fn del_file(&mut self, path: &str)
        requires
            old(self).wf(),
        ensures
            final(self).wf(),
            final(self).buffer_map() == old(self).buffer_map().remove(path@),
            final(self).facts() == old(self).facts(),
            final(self).provenance() == old(self).provenance(),
            final(self).source() == old(self).source(),
            final(self).workspace_seq() == old(self).workspace_seq(),
    {
        self.buffers.take(path);
        assert(self.buffer_map() =~= old(self).buffer_map().remove(path@));
        assert(self.facts() =~= old(self).facts());
    }

    /// The root of the module registered under `module` (a name or a namespace).
    pub fn get_module_path(&self, module: &str) -> (r: Option<String>)
        requires
            self.wf(),
        ensures
            r.is_some() == self.facts().contains_key(FactKey::ModulePath(module@)),
            r.is_some() ==> self.facts()[FactKey::ModulePath(module@)] == seq![r.unwrap()@],
    {
        match self.module_paths.get(module) {
            Some(p) => Some(p.clone()),
            None => None,
        }
    }

    /// The target of the JS alias `name` in `area` itself (no fallback).
    pub fn get_component_map(&self, name: &str, area: &M2Area) -> (r: Option<&String>)
        requires
            self.wf(),
        ensures
            r.is_some() == self.facts().contains_key(FactKey::JsMap(*area, name@)),
            r.is_some() ==> self.facts()[FactKey::JsMap(*area, name@)] == seq![r.unwrap()@],
    {
        self.js_maps.at(*area).get(name)
    }

    /// The substitution of the JS path prefix `name` in `area`.
    pub fn get_component_path(&self, name: &str, area: &M2Area) -> (r: Option<&String>)
        requires
            self.wf(),
        ensures
            r.is_some() == self.facts().contains_key(FactKey::JsPath(*area, name@)),
            r.is_some() ==> self.facts()[FactKey::JsPath(*area, name@)] == seq![r.unwrap()@],
    {
        self.js_paths.at(*area).get(name)
    }

    /// The raw targets of the JS mixin `name` in `area`, in order of insertion.
    pub fn get_component_mixin_targets(&self, name: &str, area: &M2Area) -> (r: Vec<String>)
        requires
            self.wf(),
        ensures
            self.facts().contains_key(FactKey::JsMixin(*area, name@)) ==> views(r@) == self.facts()[FactKey::JsMixin(*area, name@)],
            !self.facts().contains_key(FactKey::JsMixin(*area, name@)) ==> r@.len() == 0,
    {
        match self.js_mixins.at(*area).get(name) {
            Some(v) => {
                let mut r: Vec<String> = Vec::new();
                let mut i: usize = 0;
                while i < v.len()
                    invariant
                        i <= v@.len(),
                        views(r@) == views(v@).subrange(0, i as int),
                    decreases v.len() - i,
                {
                    let ghost before = r@;
                    r.push(v[i].clone());
                    assert(views(r@) =~= views(before).push(v@[i as int]@));
                    assert(views(r@) =~= views(v@).subrange(0, i + 1));
                    i = i + 1;
                }
                assert(views(v@).subrange(0, i as int) =~= views(v@));
                r
            },
            None => Vec::new(),
        }
    }

    /// The keys of the JS aliases of `area` itself, each once.
    pub fn get_component_maps_for_area(&self, area: &M2Area) -> (r: Vec<String>)
        requires
            self.wf(),
        ensures
            forall|n: Seq<char>| views(r@).contains(n) <==> #[trigger] self.facts().contains_key(FactKey::JsMap(*area, n)),
            forall|i: int, j: int| 0 <= i < j < r@.len() ==> #[trigger] r@[i]@ != #[trigger] r@[j]@,
    {
        let t = self.js_maps.at(*area);
        let r = keys_of(t);
        r
    }

    /// The JS path prefixes of `area` itself, each once.
    pub fn get_component_paths_for_area(&self, area: &M2Area) -> (r: Vec<String>)
        requires
            self.wf(),
        ensures
            forall|n: Seq<char>| views(r@).contains(n) <==> #[trigger] self.facts().contains_key(FactKey::JsPath(*area, n)),
            forall|i: int, j: int| 0 <= i < j < r@.len() ==> #[trigger] r@[i]@ != #[trigger] r@[j]@,
    {
        let t = self.js_paths.at(*area);
        keys_of(t)
    }

    /// The roots of the frontend themes, in order of registration.
    pub fn list_front_themes_paths(&self) -> (r: Vec<String>)
        requires
            self.wf(),
        ensures
            views(r@) == self.front_theme_roots(),
            forall|n: Seq<char>| #[trigger] self.facts().contains_key(FactKey::FrontTheme(n))
                ==> views(r@).contains(self.facts()[FactKey::FrontTheme(n)][0]),
            forall|i: int| 0 <= i < r@.len() ==> is_front_theme_root(self.facts(), #[trigger] r@[i]@),
    {
        proof { self.lemma_theme_roots(); }
        let r = values_of(&self.front_themes);
        assert forall|i: int| 0 <= i < r@.len() implies is_front_theme_root(self.facts(), #[trigger] r@[i]@) by {
            assert(views(r@)[i] == r@[i]@);
            assert(self.front_theme_roots()[i] == r@[i]@);
        }
        r
    }

    /// The roots of the admin themes, in order of registration.
    pub fn list_admin_themes_paths(&self) -> (r: Vec<String>)
        requires
            self.wf(),
        ensures
            views(r@) == self.admin_theme_roots(),
            forall|n: Seq<char>| #[trigger] self.facts().contains_key(FactKey::AdminTheme(n))
                ==> views(r@).contains(self.facts()[FactKey::AdminTheme(n)][0]),
            forall|i: int| 0 <= i < r@.len() ==> is_admin_theme_root(self.facts(), #[trigger] r@[i]@),
    {
        proof { self.lemma_theme_roots(); }
        let r = values_of(&self.admin_themes);
        assert forall|i: int| 0 <= i < r@.len() implies is_admin_theme_root(self.facts(), #[trigger] r@[i]@) by {
            assert(views(r@)[i] == r@[i]@);
            assert(self.admin_theme_roots()[i] == r@[i]@);
        }
        r
    }

    proof fn lemma_theme_roots(&self)
        requires
            self.wf(),
        ensures
            forall|n: Seq<char>| #[trigger] self.facts().contains_key(FactKey::FrontTheme(n))
                ==> self.front_theme_roots().contains(self.facts()[FactKey::FrontTheme(n)][0]),
            forall|n: Seq<char>| #[trigger] self.facts().contains_key(FactKey::AdminTheme(n))
                ==> self.admin_theme_roots().contains(self.facts()[FactKey::AdminTheme(n)][0]),
            forall|i: int| 0 <= i < self.front_theme_roots().len() ==> is_front_theme_root(self.facts(), #[trigger] self.front_theme_roots()[i]),
            forall|i: int| 0 <= i < self.admin_theme_roots().len() ==> is_admin_theme_root(self.facts(), #[trigger] self.admin_theme_roots()[i]),
    {
        assert forall|i: int| 0 <= i < self.front_theme_roots().len() implies is_front_theme_root(self.facts(), #[trigger] self.front_theme_roots()[i]) by {
            self.front_themes.lemma_entry(i);
            let n = self.front_themes.pairs()[i].0;
            assert(self.facts().contains_key(FactKey::FrontTheme(n)));
            assert(self.front_theme_roots()[i] == self.front_themes.pairs()[i].1@);
            assert(self.facts()[FactKey::FrontTheme(n)] == seq![self.front_themes.map()[n]@]);
        }
        assert forall|i: int| 0 <= i < self.admin_theme_roots().len() implies is_admin_theme_root(self.facts(), #[trigger] self.admin_theme_roots()[i]) by {
            self.admin_themes.lemma_entry(i);
            let n = self.admin_themes.pairs()[i].0;
            assert(self.facts().contains_key(FactKey::AdminTheme(n)));
            assert(self.admin_theme_roots()[i] == self.admin_themes.pairs()[i].1@);
            assert(self.facts()[FactKey::AdminTheme(n)] == seq![self.admin_themes.map()[n]@]);
        }
        assert forall|n: Seq<char>| #[trigger] self.facts().contains_key(FactKey::FrontTheme(n))
            implies self.front_theme_roots().contains(self.facts()[FactKey::FrontTheme(n)][0]) by {
            let i = choose|i: int| 0 <= i < self.front_themes.pairs().len() && #[trigger] self.front_themes.pairs()[i].0 == n;
            self.front_themes.lemma_entry(i);
            assert(self.front_theme_roots()[i] == self.facts()[FactKey::FrontTheme(n)][0]);
        }
        assert forall|n: Seq<char>| #[trigger] self.facts().contains_key(FactKey::AdminTheme(n))
            implies self.admin_theme_roots().contains(self.facts()[FactKey::AdminTheme(n)][0]) by {
            let i = choose|i: int| 0 <= i < self.admin_themes.pairs().len() && #[trigger] self.admin_themes.pairs()[i].0 == n;
            self.admin_themes.lemma_entry(i);
            assert(self.admin_theme_roots()[i] == self.facts()[FactKey::AdminTheme(n)][0]);
        }
    }

    /// The registered workspace roots, in order of registration.
    pub fn workspace_paths(&self) -> (r: Vec<String>)
        ensures
            views(r@) == self.workspace_seq(),
    {
        let mut r: Vec<String> = Vec::new();
        let mut i: usize = 0;
        while i < self.workspaces.len()
            invariant
                i <= self.workspaces@.len(),
                views(r@) == self.workspace_seq().subrange(0, i as int),
            decreases self.workspaces.len() - i,
        {
            let ghost before = r@;
            r.push(self.workspaces[i].clone());
            assert(views(r@) =~= views(before).push(self.workspaces@[i as int]@));
            assert(views(r@) =~= self.workspace_seq().subrange(0, i + 1));
            i = i + 1;
        }
        assert(self.workspace_seq().subrange(0, i as int) =~= self.workspace_seq());
        r
    }

    /// Adds a workspace root.
    pub fn add_workspace_path(&mut self, path: &str)
        requires
            old(self).wf(),
        ensures
            final(self).wf(),
            final(self).workspace_seq() == old(self).workspace_seq().push(path@),
            final(self).facts() == old(self).facts(),
            final(self).provenance() == old(self).provenance(),
            final(self).source() == old(self).source(),
            final(self).buffer_map() == old(self).buffer_map(),
    {
        let ghost before = self.workspaces@;
        let p = path.to_owned();
        self.workspaces.push(p);
        assert(views(self.workspaces@) =~= views(before).push(path@));
        assert(self.facts() =~= old(self).facts());
    }

    /// Whether `path` is a registered workspace root.
    pub fn has_workspace_path(&self, path: &str) -> (r: bool)
        ensures
            r == self.workspace_seq().contains(path@),
    {
        let mut i: usize = 0;
        while i < self.workspaces.len()
            invariant
                i <= self.workspaces@.len(),
                forall|j: int| 0 <= j < i ==> self.workspace_seq()[j] != path@,
            decreases self.workspaces.len() - i,
        {
            assert(self.workspace_seq()[i as int] == self.workspaces@[i as int]@);
            if same_text(self.workspaces[i].as_str(), path) {
                return true;
            }
            i = i + 1;
        }
        false
    }

    /// Registers a workspace root unless it is registered already; whether it
    /// was new, so that its bulk indexing is to be started.
    pub fn register_workspace(&mut self, root: &str) -> (r: bool)
        requires
            old(self).wf(),
        ensures
            final(self).wf(),
            r == !old(self).workspace_seq().contains(root@),
            final(self).workspace_seq() == register_root(old(self).workspace_seq(), root@),
            final(self).workspace_seq().contains(root@),
            final(self).facts() == old(self).facts(),
            final(self).provenance() == old(self).provenance(),
            final(self).source() == old(self).source(),
            final(self).buffer_map() == old(self).buffer_map(),
    {
        proof {
            lemma_register_root_idempotent(old(self).workspace_seq(), root@);
        }
        if self.has_workspace_path(root) {
            false
        } else {
            self.add_workspace_path(root);
            true
        }
    }

    /// A class name split into the root of the module with the longest
    /// registered namespace prefix and the remaining name segments.
    pub fn split_class_to_path_and_suffix(&self, class: &str) -> (r: Option<(String, Vec<String>)>)
        requires
            self.wf(),
        ensures
            r.is_some() == class_split(self.facts(), class@).is_some(),
            r.is_some() ==> r.unwrap().0@ == class_split(self.facts(), class@).unwrap().0
                && views(r.unwrap().1@) == class_split(self.facts(), class@).unwrap().1,
    {
        let ghost m = self.facts();
        let ghost s = class@;
        let cs = chars_of(class);
        let n = cs.len();
        let mut i: usize = n;
        while i > 0
            invariant
                cs@ == s,
                class@ == s,
                n == s.len(),
                i <= n,
                m == self.facts(),
                self.wf(),
                class_cut(m, s, s.len() - 1) == class_cut(m, s, i - 1),
            decreases i,
        {
            i = i - 1;
            if cs[i] == '\\' {
                let prefix = class.substring_char(0, i);
                match self.get_module_path(prefix) {
                    Some(root) => {
                        assert(class_cut(m, s, i as int) == Some(i as int));
                        let rest = class.substring_char(i + 1, n);
                        let suffix = split_text(rest, '\\');
                        assert(m[FactKey::ModulePath(cut_prefix(s, i as int))][0] == root@);
                        assert(rest@ == s.subrange(i + 1, s.len() as int));
                        return Some((root, suffix));
                    },
                    None => {},
                }
            }
        }
        proof {
            reveal_strlit("");
            assert(""@ =~= Seq::<char>::empty());
        }
        assert(class_cut(m, s, s.len() - 1) == class_cut(m, s, -1));
        match self.get_module_path("") {
            Some(root) => {
                assert(class_cut(m, s, -1) == Some(-1int));
                assert(s.subrange(0, s.len() as int) =~= s);
                Some((root, split_text(class, '\\')))
            },
            None => None,
        }
    }

    /// The file that should hold `class`.
    pub fn class_file_path(&self, class: &str) -> (r: Option<String>)
        requires
            self.wf(),
        ensures
            r.is_some() == class_file(self.facts(), class@).is_some(),
            r.is_some() ==> r.unwrap()@ == class_file(self.facts(), class@).unwrap(),
    {
        match self.split_class_to_path_and_suffix(class) {
            Some((root, segs)) => {
                let mut p = root;
                let mut i: usize = 0;
                while i < segs.len()
                    invariant
                        i <= segs@.len(),
                        p@ == join_all(root@, views(segs@).subrange(0, i as int)),
                    decreases segs.len() - i,
                {
                    assert(views(segs@).subrange(0, i + 1).drop_last() =~= views(segs@).subrange(0, i as int));
                    p = crate::m2::join(p.as_str(), segs[i].as_str());
                    i = i + 1;
                }
                assert(views(segs@).subrange(0, i as int) =~= views(segs@));
                proof {
                    reveal_strlit("php");
                }
                Some(crate::m2::append_ext(p.as_str(), "php"))
            },
            None => None,
        }
    }
}

/// The keys of a table, in order.
pub(crate) fn keys_of<V>(t: &StrMap<V>) -> (r: Vec<String>)
    requires
        t.wf(),
    ensures
        forall|n: Seq<char>| views(r@).contains(n) <==> #[trigger] t.map().contains_key(n),
        forall|i: int, j: int| 0 <= i < j < r@.len() ==> #[trigger] r@[i]@ != #[trigger] r@[j]@,
        views(r@) == t.key_seq(),
{
    let mut r: Vec<String> = Vec::new();
    let mut i: usize = 0;
    while i < t.len()
        invariant
            i <= t.pairs().len(),
            views(r@) == t.key_seq().subrange(0, i as int),
        decreases t.pairs().len() - i,
    {
        let ghost before = r@;
        let k = t.key_at(i).clone();
        r.push(k);
        assert(views(r@) =~= views(before).push(k@));
        assert(views(r@) =~= t.key_seq().subrange(0, i + 1));
        i = i + 1;
    }
    assert(t.key_seq().subrange(0, i as int) =~= t.key_seq());
    assert forall|n: Seq<char>| views(r@).contains(n) <==> #[trigger] t.map().contains_key(n) by {
        if views(r@).contains(n) {
            let k = choose|k: int| 0 <= k < views(r@).len() && views(r@)[k] == n;
            assert(t.pairs()[k].0 == n);
        }
        if t.map().contains_key(n) {
            let k = choose|k: int| 0 <= k < t.pairs().len() && #[trigger] t.pairs()[k].0 == n;
            assert(views(r@)[k] == n);
        }
    }
    assert forall|i: int, j: int| 0 <= i < j < r@.len() implies #[trigger] r@[i]@ != #[trigger] r@[j]@ by {
        assert(views(r@)[i] == r@[i]@);
        assert(views(r@)[j] == r@[j]@);
        assert(r@[i]@ == t.pairs()[i].0);
        assert(r@[j]@ == t.pairs()[j].0);
    }
    r
}

/// The values of a table of texts, in order.
fn values_of(t: &StrMap<String>) -> (r: Vec<String>)
    ensures
        views(r@) == views(t.value_seq()),
{
    let mut r: Vec<String> = Vec::new();
    let mut i: usize = 0;
    while i < t.len()
        invariant
            i <= t.pairs().len(),
            views(r@) == views(t.value_seq()).subrange(0, i as int),
        decreases t.pairs().len() - i,
    {
        let ghost before = r@;
        let v = t.value_at(i).clone();
        r.push(v);
        assert(views(r@) =~= views(before).push(v@));
        assert(views(r@) =~= views(t.value_seq()).subrange(0, i + 1));
        i = i + 1;
    }
    assert(views(t.value_seq()).subrange(0, i as int) =~= views(t.value_seq()));
    r
}

/// The facts that the current content of the file at `file` contributes:
/// its require-config entries, or its registration calls, as extracted from
/// the text.
pub open spec fn file_facts(
    file: Seq<char>,
    names: Seq<Seq<char>>,
    entries: Seq<(Seq<char>, Seq<char>, Seq<char>)>,
) -> Seq<(FactKey, Seq<char>)> {
    if ends_with(file, "requirejs-config.js"@) {
        crate::js::config_facts(file, entries)
    } else if ends_with(file, "registration.php"@) {
        crate::php::registration_facts(file, names)
    } else {
        Seq::empty()
    }
}

/// What the structural queries found in one file's text: the arguments of
/// its registration calls and the entries of its require-config, as written.
pub struct SourceCaptures {
    pub registrations: Vec<String>,
    pub config: Vec<crate::js::ConfigCapture>,
}

/// The facts that the captures of the file at `file` contribute.
pub open spec fn captured_facts(file: Seq<char>, c: SourceCaptures) -> Seq<(FactKey, Seq<char>)> {
    file_facts(
        file,
        views(c.registrations@),
        c.config@.map_values(|x: crate::js::ConfigCapture| crate::js::capture_view(x)),
    )
}

/// Changing a document leaves no trace of its earlier content: setting the
/// file at `path` with the captures `first` (from `s0` to `s1`) and then with
/// `second` (from `s1` to `s2`) gives the facts and provenance of setting it
/// with `second` on `s0` directly (`fresh`), provided no fact that `first`
/// inserts was held, after retracting `path`, by another file.
pub proof fn lemma_change_forgets_earlier_content(
    s0: State,
    s1: State,
    s2: State,
    fresh: State,
    path: Seq<char>,
    first: SourceCaptures,
    second: SourceCaptures,
)
    requires
        (s1.facts(), s1.provenance()) == reindex(s0.facts(), s0.provenance(), path, captured_facts(path, first)),
        (s2.facts(), s2.provenance()) == reindex(s1.facts(), s1.provenance(), path, captured_facts(path, second)),
        (fresh.facts(), fresh.provenance()) == reindex(s0.facts(), s0.provenance(), path, captured_facts(path, second)),
        forall|i: int|
            0 <= i < captured_facts(path, first).len() ==> !retract(s0.facts(), s0.provenance(), path).0.contains_key(
                #[trigger] captured_facts(path, first)[i].0,
            ),
    ensures
        s2.facts() == fresh.facts(),
        s2.provenance() == fresh.provenance(),
{
    crate::facts::lemma_reindex_forgets_earlier_content(
        s0.facts(),
        s0.provenance(),
        path,
        captured_facts(path, first),
        captured_facts(path, second),
    );
}

proof fn lemma_kinds_exclusive(file: Seq<char>)
    ensures
        !(ends_with(file, "requirejs-config.js"@) && ends_with(file, "registration.php"@)),
{
    reveal_strlit("requirejs-config.js");
    reveal_strlit("registration.php");
    if ends_with(file, "requirejs-config.js"@) && ends_with(file, "registration.php"@) {
        assert(file.subrange(file.len() - 19, file.len() as int)[18] == file.last());
        assert(file.subrange(file.len() - 16, file.len() as int)[15] == file.last());
    }
}

impl State {
    /// Retracts what the file at `path` contributed and indexes its current
    /// content instead.
    pub fn index_source(&mut self, path: &str, captures: &SourceCaptures)
        requires
            old(self).wf(),
        ensures
            final(self).wf(),
            (final(self).facts(), final(self).provenance()) == reindex(
                old(self).facts(),
                old(self).provenance(),
                path@,
                captured_facts(path@, *captures),
            ),
            final(self).buffer_map() == old(self).buffer_map(),
            final(self).workspace_seq() == old(self).workspace_seq(),
    {
        proof {
            lemma_kinds_exclusive(path@);
        }
        self.clear_from_source(path);
        crate::js::maybe_index_file(self, &captures.config, path);
        crate::php::maybe_index_file(self, &captures.registrations, path);
    }

    /// Opens or changes the document at `path`: its facts are retracted, its
    /// new content indexed, and the content kept as its buffer.
    pub fn set_file(&mut self, path: &str, content: String, captures: &SourceCaptures)
        requires
            old(self).wf(),
        ensures
            final(self).wf(),
            (final(self).facts(), final(self).provenance()) == reindex(
                old(self).facts(),
                old(self).provenance(),
                path@,
                captured_facts(path@, *captures),
            ),
            final(self).buffer_map() == old(self).buffer_map().insert(path@, content@),
            final(self).workspace_seq() == old(self).workspace_seq(),
    {
        self.index_source(path, captures);
        let ghost m = self.facts();
        self.buffers.insert(path.to_owned(), content);
        assert(self.facts() =~= m);
        assert(self.buffer_map() =~= old(self).buffer_map().insert(path@, content@));
    }
}

impl State {
    /// The registered module names, in increasing order, each once.
    pub fn get_modules(&self) -> (r: Vec<String>)
        requires
            self.wf(),
        ensures
            strictly_sorted(views(r@)),
            forall|n: Seq<char>| views(r@).contains(n) <==> #[trigger] self.facts().contains_key(FactKey::Module(n)),
    {
        proof {
            self.lemma_module_seq();
        }
        let names = keys_of(&self.modules);
        sort_texts(names)
    }

    /// The namespaces of the registered modules (`Vendor_Module` written
    /// `Vendor\Module`), in the order of the module names.
    pub fn get_module_class_prefixes(&self) -> (r: Vec<String>)
        requires
            self.wf(),
        ensures
            exists|mods: Seq<Seq<char>>|
                strictly_sorted(mods) && (forall|n: Seq<char>| mods.contains(n) <==> #[trigger] self.facts().contains_key(FactKey::Module(n)))
                    && views(r@) == mods.map_values(|m: Seq<char>| replace_char(m, '_', '\\')),
    {
        proof {
            reveal_strlit("\\");
        }
        let mods = self.get_modules();
        let sep: &str = "\\";
        assert(sep@ =~= seq!['\\']);
        let mut r: Vec<String> = Vec::new();
        let mut i: usize = 0;
        while i < mods.len()
            invariant
                sep@ == seq!['\\'],
                i <= mods@.len(),
                views(r@) == views(mods@).subrange(0, i as int).map_values(|m: Seq<char>| replace_char(m, '_', '\\')),
            decreases mods.len() - i,
        {
            let ghost before = views(r@);
            let x = replace_all(mods[i].as_str(), '_', sep);
            r.push(x);
            assert(views(r@) =~= before.push(x@));
            assert(views(mods@).subrange(0, i + 1).map_values(|m: Seq<char>| replace_char(m, '_', '\\')) =~= before.push(x@));
            i = i + 1;
        }
        assert(views(mods@).subrange(0, i as int) =~= views(mods@));
        r
    }
}

} // verus!
