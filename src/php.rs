//! What a module registration (`registration.php`) contributes to the index.
use vstd::prelude::*;
use vstd::string::*;
use convert_case::{Case, Casing};
use crate::facts::FactKey;
use crate::js::parent_of;
use crate::js::parent_dir;
use crate::facts::{apply_facts, fact_keys, track_all};
use crate::completion::Range;
use crate::state::{fact_list, State, Trackee};
use crate::table::StrMap;
use crate::text::{
    concat, count_char, count_of, ends_with, find_char, first_index_of, has_prefix, has_suffix,
    lemma_count_pos, replace_all, replace_char, same_text, starts_with, trim_char, trim_matches,
    views,
};

verus! {

/// What `convert_case` makes of a text in Pascal case.
pub uninterp spec fn pascal_case(s: Seq<char>) -> Seq<char>;

/// Relies on `convert_case::Casing::to_case` with `Case::Pascal`: the result
/// depends on the text alone.
#[verifier::external_body]
fn to_pascal(s: &str) -> (r: String)
    ensures
        r@ == pascal_case(s@),
{
    s.to_case(Case::Pascal)
}

/// What a registration name registers.
pub enum M2Module {
    /// A module, under its namespace (`Vendor\Module`).
    Module(String),
    /// A library, under its namespace.
    Library(String),
    FrontTheme(String),
    AdminTheme(String),
}

/// The mathematical value of what a registration name registers.
pub enum Registered {
    Module(Seq<char>),
    Library(Seq<char>),
    FrontTheme(Seq<char>),
    AdminTheme(Seq<char>),
}

impl View for M2Module {
    type V = Registered;

    open spec fn view(&self) -> Registered {
        match self {
            M2Module::Module(s) => Registered::Module(s@),
            M2Module::Library(s) => Registered::Library(s@),
            M2Module::FrontTheme(s) => Registered::FrontTheme(s@),
            M2Module::AdminTheme(s) => Registered::AdminTheme(s@),
        }
    }
}

/// `a\b`.
pub open spec fn ns2(a: Seq<char>, b: Seq<char>) -> Seq<char> {
    a + seq!['\\'] + b
}

/// What the registration name `p` registers: `area/Vendor/theme` is a theme
/// of the area, `vendor/package` a library (namespace in Pascal case, a `-`
/// in the package splitting it in two), a name with underscores
/// (`Vendor_Module`, `Vendor_Module_Part`) a module, reachable also under the
/// namespace that the underscores spell (`Vendor\\Module\\Part`); anything else
/// nothing.
pub open spec fn registered_as(p: Seq<char>) -> Option<Registered> {
    if count_char(p, '/') == 2 {
        if starts_with(p, "frontend"@) {
            Some(Registered::FrontTheme(p))
        } else {
            Some(Registered::AdminTheme(p))
        }
    } else if count_char(p, '/') == 1 {
        let i = first_index_of(p, '/');
        let vendor = pascal_case(p.subrange(0, i));
        let package = p.subrange(i + 1, p.len() as int);
        if count_char(package, '-') > 0 {
            let j = first_index_of(package, '-');
            Some(
                Registered::Library(
                    ns2(ns2(vendor, pascal_case(package.subrange(0, j))), pascal_case(package.subrange(j + 1, package.len() as int))),
                ),
            )
        } else {
            Some(Registered::Library(ns2(vendor, pascal_case(package))))
        }
    } else if count_char(p, '_') >= 1 {
        Some(Registered::Module(replace_char(p, '_', '\\')))
    } else {
        None
    }
}

fn ns_join(a: &str, b: &str) -> (r: String)
    ensures
        r@ == ns2(a@, b@),
{
    proof {
        reveal_strlit("\\");
    }
    let s = concat(a, "\\");
    assert(s@ == a@ + seq!['\\']);
    s.concat(b)
}

/// What the registration name `param` registers.
pub fn register_param_to_module(param: &str) -> (r: Option<M2Module>)
    ensures
        match r {
            Some(x) => registered_as(param@) == Some(x@),
            None => registered_as(param@).is_none(),
        },
{
    proof {
        reveal_strlit("frontend");
        lemma_count_pos(param@, '/');
        lemma_count_pos(param@, '_');
    }
    let n = param.unicode_len();
    let slashes = count_of(param, '/');
    if slashes == 2 {
        if has_prefix(param, "frontend") {
            Some(M2Module::FrontTheme(param.to_owned()))
        } else {
            Some(M2Module::AdminTheme(param.to_owned()))
        }
    } else if slashes == 1 {
        let i = find_char(param, '/');
        let vendor = to_pascal(param.substring_char(0, i));
        let package = param.substring_char(i + 1, n);
        proof {
            lemma_count_pos(package@, '-');
        }
        if count_of(package, '-') > 0 {
            let j = find_char(package, '-');
            let m = package.unicode_len();
            let a = to_pascal(package.substring_char(0, j));
            let b = to_pascal(package.substring_char(j + 1, m));
            let l = ns_join(ns_join(vendor.as_str(), a.as_str()).as_str(), b.as_str());
            Some(M2Module::Library(l))
        } else {
            let b = to_pascal(package);
            Some(M2Module::Library(ns_join(vendor.as_str(), b.as_str())))
        }
    } else if count_of(param, '_') >= 1 {
        let sep: &str = "\\";
        proof {
            reveal_strlit("\\");
        }
        assert(sep@ =~= seq!['\\']);
        Some(M2Module::Module(replace_all(param, '_', sep)))
    } else {
        None
    }
}

/// The registration name as written between quotes.
pub open spec fn clean_name(raw: Seq<char>) -> Seq<char> {
    trim_char(trim_char(trim_char(raw, '\\'), '"'), '\'')
}

/// The facts that the registration of `name` in the file at `file` inserts:
/// the name mapped to the file's directory, then what it registers.
pub open spec fn name_facts(file: Seq<char>, name: Seq<char>) -> Seq<(FactKey, Seq<char>)> {
    let dir = parent_dir(file);
    let first = seq![(FactKey::ModulePath(name), dir)];
    match registered_as(name) {
        Some(Registered::Module(m)) => first + seq![
            (FactKey::Module(name), Seq::empty()),
            (FactKey::ModulePath(m), dir),
        ],
        Some(Registered::Library(l)) => first + seq![
            (FactKey::Module(replace_char(l, '\\', '_')), Seq::empty()),
            (FactKey::ModulePath(l), dir),
        ],
        Some(Registered::FrontTheme(t)) => first + seq![(FactKey::FrontTheme(t), dir)],
        Some(Registered::AdminTheme(t)) => first + seq![(FactKey::AdminTheme(t), dir)],
        None => first,
    }
}

/// The facts that the registration calls of a file insert, name by name; the
/// names are given as written in the file.
pub open spec fn registration_facts(file: Seq<char>, names: Seq<Seq<char>>) -> Seq<(FactKey, Seq<char>)>
    decreases names.len(),
{
    if names.len() == 0 {
        Seq::empty()
    } else {
        registration_facts(file, names.drop_last()) + name_facts(file, clean_name(names.last()))
    }
}

fn push_fact(v: &mut Vec<(Trackee, String)>, t: Trackee, val: String)
    ensures
        fact_list(final(v)@) == fact_list(old(v)@).push((t.key(), val@)),
{
    let ghost k = t.key();
    let ghost vv = val@;
    v.push((t, val));
    assert(fact_list(v@) =~= fact_list(old(v)@).push((k, vv)));
}

/// The facts that registering `raw_name` (as written) in the file at `path` inserts.
pub fn facts_of_name(path: &str, raw_name: &str, out: &mut Vec<(Trackee, String)>)
    ensures
        fact_list(final(out)@) == fact_list(old(out)@) + name_facts(path@, clean_name(raw_name@)),
{
    proof {
        reveal_strlit("_");
    }
    let name = trim_matches(trim_matches(trim_matches(raw_name, '\\'), '"'), '\'');
    let dir = parent_of(path);
    let ghost start = fact_list(out@);
    push_fact(out, Trackee::ModulePath(name.to_owned()), dir.clone());
    match register_param_to_module(name) {
        Some(M2Module::Module(m)) => {
            push_fact(out, Trackee::Module(name.to_owned()), String::new());
            push_fact(out, Trackee::ModulePath(m), dir);
        },
        Some(M2Module::Library(l)) => {
            let plain = replace_all(l.as_str(), '\\', "_");
            push_fact(out, Trackee::Module(plain), String::new());
            push_fact(out, Trackee::ModulePath(l), dir);
        },
        Some(M2Module::FrontTheme(t)) => {
            push_fact(out, Trackee::FrontTheme(t), dir);
        },
        Some(M2Module::AdminTheme(t)) => {
            push_fact(out, Trackee::AdminTheme(t), dir);
        },
        None => {},
    }
    assert(fact_list(out@) =~= start + name_facts(path@, clean_name(raw_name@)));
}

/// The facts that the registration calls of the file at `path` insert; `names`
/// are the registration arguments as written.
pub fn registration_facts_of(path: &str, names: &Vec<String>) -> (r: Vec<(Trackee, String)>)
    ensures
        fact_list(r@) == registration_facts(path@, views(names@)),
{
    let mut r: Vec<(Trackee, String)> = Vec::new();
    let mut i: usize = 0;
    while i < names.len()
        invariant
            i <= names@.len(),
            fact_list(r@) == registration_facts(path@, views(names@).subrange(0, i as int)),
        decreases names.len() - i,
    {
        assert(views(names@).subrange(0, i + 1).drop_last() =~= views(names@).subrange(0, i as int));
        assert(views(names@).subrange(0, i + 1).last() == names@[i as int]@);
        facts_of_name(path, names[i].as_str(), &mut r);
        i = i + 1;
    }
    assert(views(names@).subrange(0, i as int) =~= views(names@));
    r
}

/// Indexes the registration calls of a module, when `file_path` is a
/// `registration.php`; `names` are their arguments as written.
pub fn maybe_index_file(state: &mut State, names: &Vec<String>, file_path: &str)
    requires
        old(state).wf(),
    ensures
        final(state).wf(),
        ends_with(file_path@, "registration.php"@) ==> final(state).facts() == apply_facts(
            old(state).facts(),
            registration_facts(file_path@, views(names@)),
        ) && final(state).provenance() == track_all(
            old(state).provenance(),
            file_path@,
            fact_keys(registration_facts(file_path@, views(names@))),
        ) && final(state).source() == Some(file_path@),
        !ends_with(file_path@, "registration.php"@) ==> *final(state) == *old(state),
        final(state).buffer_map() == old(state).buffer_map(),
        final(state).workspace_seq() == old(state).workspace_seq(),
{
    if has_suffix(file_path, "registration.php") {
        state.set_source_file(file_path);
        let facts = registration_facts_of(file_path, names);
        state.apply(&facts);
    }
}

/// One match of the class query over a PHP file: which pattern matched
/// (0 namespace, 1 class, 2 interface, 3 public method name, 4 constant),
/// the captured text as written, and its span.
pub struct PhpMatch {
    pub pattern: usize,
    pub text: String,
    pub range: Range,
}

/// What a PHP file declares: the class's fully qualified name and span, and
/// the spans of its public methods and constants by name.
pub struct PhpClassFacts {
    pub fqn: String,
    pub range: Range,
    pub methods: StrMap<Range>,
    pub constants: StrMap<Range>,
}

/// The text and span of the last match of pattern `p` or `q`.
pub open spec fn last_match(ms: Seq<PhpMatch>, p: usize, q: usize) -> Option<(Seq<char>, Range)>
    decreases ms.len(),
{
    if ms.len() == 0 {
        None
    } else if ms.last().pattern == p || ms.last().pattern == q {
        Some((ms.last().text@, ms.last().range))
    } else {
        last_match(ms.drop_last(), p, q)
    }
}

/// The name a member match stands for (a method's without backslashes at
/// either end).
pub open spec fn member_name(m: PhpMatch) -> Seq<char> {
    if m.pattern == 3 {
        trim_char(m.text@, '\\')
    } else {
        m.text@
    }
}

/// The non-empty names matched by pattern `p`, each with the span of its last
/// match.
pub open spec fn members(ms: Seq<PhpMatch>, p: usize) -> Map<Seq<char>, Range>
    decreases ms.len(),
{
    if ms.len() == 0 {
        Map::empty()
    } else {
        let prev = members(ms.drop_last(), p);
        if ms.last().pattern == p && member_name(ms.last()).len() > 0 {
            prev.insert(member_name(ms.last()), ms.last().range)
        } else {
            prev
        }
    }
}

/// The class a file declares: its namespace and its class (or interface),
/// the last of each; none without both, or when both are empty.
pub open spec fn declared_class(ms: Seq<PhpMatch>) -> Option<(Seq<char>, Range)> {
    match (last_match(ms, 0, 0), last_match(ms, 1, 2)) {
        (Some((ns, _)), Some((cls, r))) => {
            let fqn = ns + seq!['\\'] + cls;
            if fqn == seq!['\\'] {
                None
            } else {
                Some((fqn, r))
            }
        },
        _ => None,
    }
}

/// What the class query found in a PHP file declares.
pub fn php_class_of(ms: &Vec<PhpMatch>) -> (r: Option<PhpClassFacts>)
    ensures
        match r {
            Some(c) => declared_class(ms@) == Some((c.fqn@, c.range)) && c.methods.wf() && c.constants.wf()
                && c.methods.map() == members(ms@, 3) && c.constants.map() == members(ms@, 4),
            None => declared_class(ms@) is None,
        },
{
    let mut ns: Option<usize> = None;
    let mut cls: Option<usize> = None;
    let mut methods: StrMap<Range> = StrMap::new();
    let mut constants: StrMap<Range> = StrMap::new();
    let mut i: usize = 0;
    while i < ms.len()
        invariant
            i <= ms@.len(),
            methods.wf(),
            constants.wf(),
            methods.map() == members(ms@.subrange(0, i as int), 3),
            constants.map() == members(ms@.subrange(0, i as int), 4),
            match ns {
                Some(k) => k < i && last_match(ms@.subrange(0, i as int), 0, 0) == Some((ms@[k as int].text@, ms@[k as int].range)),
                None => last_match(ms@.subrange(0, i as int), 0, 0) is None,
            },
            match cls {
                Some(k) => k < i && last_match(ms@.subrange(0, i as int), 1, 2) == Some((ms@[k as int].text@, ms@[k as int].range)),
                None => last_match(ms@.subrange(0, i as int), 1, 2) is None,
            },
        decreases ms.len() - i,
    {
        let ghost sub = ms@.subrange(0, i + 1);
        assert(sub.drop_last() =~= ms@.subrange(0, i as int));
        assert(sub.last() == ms@[i as int]);
        let m = &ms[i];
        if m.pattern == 0 {
            ns = Some(i);
        }
        if m.pattern == 1 || m.pattern == 2 {
            cls = Some(i);
        }
        if m.pattern == 3 {
            let name = trim_matches(m.text.as_str(), '\\');
            if name.unicode_len() > 0 {
                methods.insert(name.to_owned(), m.range);
            }
        }
        if m.pattern == 4 {
            if m.text.as_str().unicode_len() > 0 {
                constants.insert(m.text.clone(), m.range);
            }
        }
        i = i + 1;
    }
    assert(ms@.subrange(0, i as int) =~= ms@);
    match (ns, cls) {
        (Some(a), Some(b)) => {
            proof {
                reveal_strlit("\\");
            }
            let fqn = concat(concat(ms[a].text.as_str(), "\\").as_str(), ms[b].text.as_str());
            assert(fqn@ == ms@[a as int].text@ + seq!['\\'] + ms@[b as int].text@);
            if same_text(fqn.as_str(), "\\") {
                assert("\\"@ =~= seq!['\\']);
                None
            } else {
                assert("\\"@ =~= seq!['\\']);
                Some(PhpClassFacts { fqn, range: ms[b].range, methods, constants })
            }
        },
        _ => None,
    }
}

} // verus!
