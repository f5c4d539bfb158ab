//! The mathematical model of the index: facts keyed by kind, area and name,
//! and the record of which source file contributed which fact.
use vstd::prelude::*;
use crate::m2::M2Area;

verus! {

/// The key of one fact of the index.
pub enum FactKey {
    /// A module registration name.
    Module(Seq<char>),
    /// A module name or namespace, mapped to the module's root.
    ModulePath(Seq<char>),
    /// A frontend theme, mapped to its root.
    FrontTheme(Seq<char>),
    /// An admin theme, mapped to its root.
    AdminTheme(Seq<char>),
    /// A JS alias of an area, mapped to its target.
    JsMap(M2Area, Seq<char>),
    /// A JS path prefix of an area, mapped to its substitution.
    JsPath(M2Area, Seq<char>),
    /// A JS mixin of an area, mapped to the list of its targets.
    JsMixin(M2Area, Seq<char>),
}

/// All facts: each present key with its texts (none for a module, one for a
/// path, theme, alias or path prefix, the list of targets for a mixin).
pub type FactMap = Map<FactKey, Seq<Seq<char>>>;

/// Source file path to the keys of the facts it contributed, in order.
pub type Provenance = Map<Seq<char>, Seq<FactKey>>;

/// The text held under `k`, for a key that holds one.
pub open spec fn fact_text(m: FactMap, k: FactKey) -> Option<Seq<char>> {
    if m.contains_key(k) && m[k].len() > 0 {
        Some(m[k][0])
    } else {
        None
    }
}

/// The fact map after inserting `val` under `k`: a module holds no text, a
/// mixin appends `val` to its targets, any other key is overwritten.
pub open spec fn insert_fact(m: FactMap, k: FactKey, val: Seq<char>) -> FactMap {
    match k {
        FactKey::Module(_) => m.insert(k, Seq::empty()),
        FactKey::JsMixin(_, _) => m.insert(
            k,
            (if m.contains_key(k) {
                m[k]
            } else {
                Seq::empty()
            }).push(val),
        ),
        _ => m.insert(k, seq![val]),
    }
}

/// The fact map after inserting each fact of `es` in turn.
pub open spec fn apply_facts(m: FactMap, es: Seq<(FactKey, Seq<char>)>) -> FactMap
    decreases es.len(),
{
    if es.len() == 0 {
        m
    } else {
        let prev = apply_facts(m, es.drop_last());
        insert_fact(prev, es.last().0, es.last().1)
    }
}

/// The keys of a list of facts.
pub open spec fn fact_keys(es: Seq<(FactKey, Seq<char>)>) -> Seq<FactKey> {
    es.map_values(|e: (FactKey, Seq<char>)| e.0)
}

/// The provenance after recording that `path` contributed `k`.
pub open spec fn push_track(t: Provenance, path: Seq<char>, k: FactKey) -> Provenance {
    t.insert(
        path,
        (if t.contains_key(path) {
            t[path]
        } else {
            Seq::empty()
        }).push(k),
    )
}

/// The provenance after recording each key of `ks` against `path`.
pub open spec fn track_all(t: Provenance, path: Seq<char>, ks: Seq<FactKey>) -> Provenance
    decreases ks.len(),
{
    if ks.len() == 0 {
        t
    } else {
        push_track(track_all(t, path, ks.drop_last()), path, ks.last())
    }
}

/// The keys recorded against `path`.
pub open spec fn tracked_keys(t: Provenance, path: Seq<char>) -> Set<FactKey> {
    if t.contains_key(path) {
        t[path].to_set()
    } else {
        Set::empty()
    }
}

/// Retracting `path`: every fact recorded against it goes, and its record too.
pub open spec fn retract(m: FactMap, t: Provenance, path: Seq<char>) -> (FactMap, Provenance) {
    (m.remove_keys(tracked_keys(t, path)), t.remove(path))
}

/// Retracting `path`, then inserting the facts `es` extracted from its
/// current content, recorded against it.
pub open spec fn reindex(m: FactMap, t: Provenance, path: Seq<char>, es: Seq<(FactKey, Seq<char>)>) -> (
    FactMap,
    Provenance,
) {
    let (m1, t1) = retract(m, t, path);
    (apply_facts(m1, es), track_all(t1, path, fact_keys(es)))
}

/// Inserting facts changes no key outside them and adds exactly their keys.
proof fn lemma_apply_frame(m: FactMap, es: Seq<(FactKey, Seq<char>)>)
    ensures
        forall|k: FactKey|
            !fact_keys(es).contains(k) ==> (#[trigger] apply_facts(m, es).contains_key(k)
                == m.contains_key(k)) && (m.contains_key(k) ==> apply_facts(m, es)[k] == m[k]),
        forall|k: FactKey| #[trigger] fact_keys(es).contains(k) ==> apply_facts(m, es).contains_key(k),
    decreases es.len(),
{
    if es.len() > 0 {
        lemma_apply_frame(m, es.drop_last());
        let ks = fact_keys(es);
        assert(fact_keys(es.drop_last()) =~= ks.drop_last());
        assert forall|k: FactKey| !ks.contains(k) implies !#[trigger] fact_keys(es.drop_last()).contains(k) && k != es.last().0 by {
            if fact_keys(es.drop_last()).contains(k) {
                let i = choose|i: int| 0 <= i < ks.drop_last().len() && ks.drop_last()[i] == k;
                assert(ks[i] == k);
            }
            assert(ks[ks.len() - 1] == es.last().0);
        }
        let prev = apply_facts(m, es.drop_last());
        assert forall|k: FactKey| !ks.contains(k) implies (#[trigger] apply_facts(m, es).contains_key(k)
                == m.contains_key(k)) && (m.contains_key(k) ==> apply_facts(m, es)[k] == m[k]) by {
            assert(!fact_keys(es.drop_last()).contains(k) && k != es.last().0);
            assert(prev.contains_key(k) == m.contains_key(k));
        }
        assert forall|k: FactKey| #[trigger] ks.contains(k) implies apply_facts(m, es).contains_key(k) by {
            let i = choose|i: int| 0 <= i < ks.len() && ks[i] == k;
            if i < ks.len() - 1 {
                assert(ks.drop_last()[i] == k);
                assert(fact_keys(es.drop_last()).contains(k));
            }
        }
    }
}

/// Retracting a file's facts right after inserting them restores the facts
/// that were there before, provided none of the inserted keys was present.
pub proof fn lemma_apply_then_remove(m: FactMap, es: Seq<(FactKey, Seq<char>)>)
    requires
        forall|i: int| 0 <= i < es.len() ==> !m.contains_key(#[trigger] es[i].0),
    ensures
        apply_facts(m, es).remove_keys(fact_keys(es).to_set()) == m,
{
    lemma_apply_frame(m, es);
    let r = apply_facts(m, es).remove_keys(fact_keys(es).to_set());
    assert forall|k: FactKey| #[trigger] m.contains_key(k) implies !fact_keys(es).contains(k) by {
        if fact_keys(es).contains(k) {
            let i = choose|i: int| 0 <= i < fact_keys(es).len() && fact_keys(es)[i] == k;
            assert(es[i].0 == k);
        }
    }
    assert(r =~= m);
}

/// Recording keys against a path that had no record leaves exactly those keys.
proof fn lemma_track_all_fresh(t: Provenance, path: Seq<char>, ks: Seq<FactKey>)
    requires
        !t.contains_key(path),
    ensures
        ks.len() > 0 ==> track_all(t, path, ks) == t.insert(path, ks),
        ks.len() == 0 ==> track_all(t, path, ks) == t,
    decreases ks.len(),
{
    if ks.len() > 0 {
        lemma_track_all_fresh(t, path, ks.drop_last());
        if ks.len() == 1 {
            assert(ks.drop_last().len() == 0);
            assert(Seq::<FactKey>::empty().push(ks.last()) =~= ks);
        } else {
            assert(ks.drop_last().push(ks.last()) =~= ks);
        }
        assert(track_all(t, path, ks) =~= t.insert(path, ks));
    }
}

/// Changing a file's content leaves no trace of its earlier content: reindexing
/// `path` with the facts `second` after it was indexed with `first` gives the
/// same facts and provenance as reindexing it with `second` directly, provided
/// the keys of `first` were not held by any other file.
pub proof fn lemma_reindex_forgets_earlier_content(
    m: FactMap,
    t: Provenance,
    path: Seq<char>,
    first: Seq<(FactKey, Seq<char>)>,
    second: Seq<(FactKey, Seq<char>)>,
)
    requires
        forall|i: int|
            0 <= i < first.len() ==> !retract(m, t, path).0.contains_key(#[trigger] first[i].0),
    ensures
        ({
            let (m1, t1) = reindex(m, t, path, first);
            reindex(m1, t1, path, second)
        }) == reindex(m, t, path, second),
{
    let (m0, t0) = retract(m, t, path);
    let (m1, t1) = reindex(m, t, path, first);
    assert(!t0.contains_key(path));
    lemma_track_all_fresh(t0, path, fact_keys(first));
    lemma_apply_then_remove(m0, first);
    let (m2, t2) = retract(m1, t1, path);
    if first.len() > 0 {
        assert(tracked_keys(t1, path) == fact_keys(first).to_set());
        assert(t2 =~= t0);
    } else {
        assert(first =~= Seq::<(FactKey, Seq<char>)>::empty());
        assert(fact_keys(first).to_set() =~= Set::<FactKey>::empty());
        assert(tracked_keys(t1, path) =~= Set::<FactKey>::empty());
        assert(t2 =~= t0);
    }
    assert(m2 == m0);
}

/// What inserting facts does at a key depends only on what was held there.
proof fn lemma_apply_local(x: FactMap, y: FactMap, es: Seq<(FactKey, Seq<char>)>, k: FactKey)
    requires
        x.contains_key(k) == y.contains_key(k),
        x.contains_key(k) ==> x[k] == y[k],
    ensures
        apply_facts(x, es).contains_key(k) == apply_facts(y, es).contains_key(k),
        apply_facts(x, es).contains_key(k) ==> apply_facts(x, es)[k] == apply_facts(y, es)[k],
    decreases es.len(),
{
    if es.len() > 0 {
        lemma_apply_local(x, y, es.drop_last(), k);
    }
}

/// Inserts from different files do not depend on their interleaving: when no
/// key is inserted by both, inserting `a` then `b` gives the facts of
/// inserting `b` then `a`.
pub proof fn lemma_apply_facts_commute(m: FactMap, a: Seq<(FactKey, Seq<char>)>, b: Seq<(FactKey, Seq<char>)>)
    requires
        forall|i: int, j: int| 0 <= i < a.len() && 0 <= j < b.len() ==> #[trigger] a[i].0 != #[trigger] b[j].0,
    ensures
        apply_facts(apply_facts(m, a), b) == apply_facts(apply_facts(m, b), a),
{
    let ab = apply_facts(apply_facts(m, a), b);
    let ba = apply_facts(apply_facts(m, b), a);
    lemma_apply_frame(m, a);
    lemma_apply_frame(m, b);
    lemma_apply_frame(apply_facts(m, a), b);
    lemma_apply_frame(apply_facts(m, b), a);
    assert forall|k: FactKey| #[trigger] ab.contains_key(k) == ba.contains_key(k) && (ab.contains_key(k) ==> ab[k] == ba[k]) by {
        let ka = fact_keys(a);
        let kb = fact_keys(b);
        if ka.contains(k) {
            assert(!kb.contains(k)) by {
                if kb.contains(k) {
                    let i = choose|i: int| 0 <= i < ka.len() && ka[i] == k;
                    let j = choose|j: int| 0 <= j < kb.len() && kb[j] == k;
                    assert(a[i].0 == b[j].0);
                }
            }
            assert(apply_facts(m, b).contains_key(k) == m.contains_key(k));
            assert(ab.contains_key(k) == apply_facts(m, a).contains_key(k));
            lemma_apply_local(apply_facts(m, b), m, a, k);
        } else if kb.contains(k) {
            assert(apply_facts(m, a).contains_key(k) == m.contains_key(k));
            assert(ba.contains_key(k) == apply_facts(m, b).contains_key(k));
            lemma_apply_local(apply_facts(m, a), m, b, k);
        } else {
            assert(apply_facts(m, a).contains_key(k) == m.contains_key(k));
            assert(apply_facts(m, b).contains_key(k) == m.contains_key(k));
            assert(ab.contains_key(k) == apply_facts(m, a).contains_key(k));
            assert(ba.contains_key(k) == apply_facts(m, b).contains_key(k));
        }
    }
    assert(ab =~= ba);
}

} // verus!
