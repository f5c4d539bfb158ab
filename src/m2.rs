//! Areas, resolved items and the path rules of the platform's layout.
use vstd::prelude::*;
use vstd::string::*;
use crate::text::{chars_of, concat, same_text, split, split_text, views};

verus! {

/// A rendering context. `Base` is the fallback of both others.
#[derive(Debug, Clone, Copy, PartialEq, Eq, Structural)]
pub enum M2Area {
    Frontend,
    Adminhtml,
    Base,
}

/// What an identifier under the cursor was resolved to.
#[derive(Debug, Clone, PartialEq, Eq)]
pub enum M2Item {
    /// A library component, found under the library search roots.
    Component(String),
    /// A component of a module: module name, path inside the module's web
    /// directories, module root.
    ModComponent(String, String, String),
    /// An HTML partial of a module: module name, path inside the module's web
    /// directories, module root.
    ModHtml(String, String, String),
    /// A component relative to a directory: id and directory.
    RelComponent(String, String),
    Class(String),
    Method(String, String),
    Const(String, String),
    FrontPhtml(String, String),
    AdminPhtml(String, String),
    BasePhtml(String, String),
}

/// The mathematical value of a resolved item.
pub enum Item {
    Component(Seq<char>),
    ModComponent(Seq<char>, Seq<char>, Seq<char>),
    ModHtml(Seq<char>, Seq<char>, Seq<char>),
    RelComponent(Seq<char>, Seq<char>),
    Class(Seq<char>),
    Method(Seq<char>, Seq<char>),
    Const(Seq<char>, Seq<char>),
    FrontPhtml(Seq<char>, Seq<char>),
    AdminPhtml(Seq<char>, Seq<char>),
    BasePhtml(Seq<char>, Seq<char>),
}

impl View for M2Item {
    type V = Item;

    open spec fn view(&self) -> Item {
        match self {
            M2Item::Component(a) => Item::Component(a@),
            M2Item::ModComponent(a, b, c) => Item::ModComponent(a@, b@, c@),
            M2Item::ModHtml(a, b, c) => Item::ModHtml(a@, b@, c@),
            M2Item::RelComponent(a, b) => Item::RelComponent(a@, b@),
            M2Item::Class(a) => Item::Class(a@),
            M2Item::Method(a, b) => Item::Method(a@, b@),
            M2Item::Const(a, b) => Item::Const(a@, b@),
            M2Item::FrontPhtml(a, b) => Item::FrontPhtml(a@, b@),
            M2Item::AdminPhtml(a, b) => Item::AdminPhtml(a@, b@),
            M2Item::BasePhtml(a, b) => Item::BasePhtml(a@, b@),
        }
    }
}

/// The area tried after `a` when a lookup in `a` fails.
pub open spec fn fallback_area(a: M2Area) -> Option<M2Area> {
    match a {
        M2Area::Frontend => Some(M2Area::Base),
        M2Area::Adminhtml => Some(M2Area::Base),
        M2Area::Base => None,
    }
}

/// The view directories searched for an area, in order of preference.
pub open spec fn area_dirs(a: M2Area) -> Seq<Seq<char>> {
    match a {
        M2Area::Frontend => seq!["frontend"@, "base"@],
        M2Area::Adminhtml => seq!["adminhtml"@, "base"@],
        M2Area::Base => seq!["frontend"@, "adminhtml"@, "base"@],
    }
}

impl M2Area {
    /// The view directory names to search for this area, preferred first.
    pub fn path_candidates(&self) -> (r: Vec<String>)
        ensures
            views(r@) == area_dirs(*self),
    {
        proof {
            reveal_strlit("frontend");
            reveal_strlit("adminhtml");
            reveal_strlit("base");
        }
        let r = match self {
            M2Area::Frontend => vec!["frontend".to_owned(), "base".to_owned()],
            M2Area::Adminhtml => vec!["adminhtml".to_owned(), "base".to_owned()],
            M2Area::Base => vec!["frontend".to_owned(), "adminhtml".to_owned(), "base".to_owned()],
        };
        assert(views(r@) =~= area_dirs(*self));
        r
    }

    /// The area consulted when a lookup in this one fails.
    pub fn lower_area(&self) -> (r: Option<M2Area>)
        ensures
            r == fallback_area(*self),
    {
        match self {
            M2Area::Frontend | M2Area::Adminhtml => Some(M2Area::Base),
            M2Area::Base => None,
        }
    }
}

/// The pieces of a sequence of texts that are not empty, in order.
pub open spec fn drop_empty(ss: Seq<Seq<char>>) -> Seq<Seq<char>>
    decreases ss.len(),
{
    if ss.len() == 0 {
        ss
    } else if ss.last().len() == 0 {
        drop_empty(ss.drop_last())
    } else {
        drop_empty(ss.drop_last()).push(ss.last())
    }
}

/// The components of a `/`-separated path.
pub open spec fn path_components(p: Seq<char>) -> Seq<Seq<char>> {
    drop_empty(split(p, '/'))
}

/// `parts` stand one after another in `comps`, from the first place where
/// `parts[0]` occurs.
pub open spec fn components_match(comps: Seq<Seq<char>>, parts: Seq<Seq<char>>) -> bool {
    parts.len() > 0 && exists|i: int|
        #![trigger comps[i]]
        0 <= i < comps.len() && comps[i] == parts[0] && (forall|j: int|
            0 <= j < i ==> comps[j] != parts[0]) && i + parts.len() <= comps.len()
            && comps.subrange(i, i + parts.len()) == parts
}

/// The views of a slice of texts.
pub open spec fn str_views(parts: Seq<&str>) -> Seq<Seq<char>> {
    parts.map_values(|p: &str| p@)
}

/// The components of a path.
pub fn components_of(path: &str) -> (r: Vec<String>)
    ensures
        views(r@) == path_components(path@),
{
    let pieces = split_text(path, '/');
    let mut r: Vec<String> = Vec::new();
    let mut i: usize = 0;
    while i < pieces.len()
        invariant
            i <= pieces.len(),
            views(pieces@) == split(path@, '/'),
            views(r@) == drop_empty(views(pieces@).subrange(0, i as int)),
        decreases pieces.len() - i,
    {
        let ghost before = r@;
        assert(views(pieces@).subrange(0, i + 1).drop_last() =~= views(pieces@).subrange(0, i as int));
        assert(views(pieces@)[i as int] == pieces@[i as int]@);
        if pieces[i].as_str().unicode_len() > 0 {
            let p = pieces[i].clone();
            r.push(p);
            assert(views(r@) =~= views(before).push(p@));
        }
        i = i + 1;
    }
    assert(views(pieces@).subrange(0, i as int) =~= views(pieces@));
    r
}

/// Whether `parts` occur in the path one after another, from the first
/// component equal to `parts[0]` on.
pub fn has_components(path: &str, parts: &[&str]) -> (r: bool)
    ensures
        r == components_match(path_components(path@), str_views(parts@)),
{
    let comps = components_of(path);
    let ghost cv = views(comps@);
    let ghost pv = str_views(parts@);
    if parts.len() == 0 {
        return false;
    }
    let mut i: usize = 0;
    let mut found = false;
    while i < comps.len() && !found
        invariant
            cv == views(comps@),
            pv == str_views(parts@),
            parts@.len() > 0,
            i <= comps.len(),
            found ==> i < comps.len() && cv[i as int] == pv[0],
            forall|j: int| 0 <= j < i ==> cv[j] != pv[0],
        decreases comps.len() - i + (if found { 0int } else { 1int }),
    {
        assert(cv[i as int] == comps@[i as int]@);
        assert(pv[0] == parts@[0]@);
        if same_text(comps[i].as_str(), parts[0]) {
            found = true;
        } else {
            i = i + 1;
        }
    }
    if i == comps.len() {
        return false;
    }
    if parts.len() > comps.len() - i {
        assert(!components_match(cv, pv)) by {
            if components_match(cv, pv) {
                let k = choose|k: int|
                    #![trigger cv[k]]
                    0 <= k < cv.len() && cv[k] == pv[0] && (forall|j: int| 0 <= j < k ==> cv[j] != pv[0])
                        && k + pv.len() <= cv.len() && cv.subrange(k, k + pv.len()) == pv;
                assert(k == i);
            }
        }
        return false;
    }
    let mut j: usize = 0;
    while j < parts.len()
        invariant
            cv == views(comps@),
            pv == str_views(parts@),
            cv == path_components(path@),
            i < comps.len(),
            i + parts.len() <= comps.len(),
            cv[i as int] == pv[0],
            forall|k: int| 0 <= k < i ==> cv[k] != pv[0],
            j <= parts.len(),
            forall|k: int| 0 <= k < j ==> cv[i + k] == pv[k],
        decreases parts.len() - j,
    {
        assert(cv[i + j] == comps@[i + j]@);
        assert(pv[j as int] == parts@[j as int]@);
        if !same_text(comps[i + j].as_str(), parts[j]) {
            assert(!components_match(cv, pv)) by {
                if components_match(cv, pv) {
                    let k = choose|k: int|
                        #![trigger cv[k]]
                        0 <= k < cv.len() && cv[k] == pv[0] && (forall|j: int| 0 <= j < k ==> cv[j] != pv[0])
                            && k + pv.len() <= cv.len() && cv.subrange(k, k + pv.len()) == pv;
                    assert(k == i);
                    assert(cv.subrange(k, k + pv.len())[j as int] == cv[i + j]);
                }
            }
            return false;
        }
        j = j + 1;
    }
    assert(cv.subrange(i as int, i + pv.len()) =~= pv);
    true
}

} // verus!

verus! {

/// The area a file belongs to, read from its place under `view/<area>` or
/// `design/<area>`; `Base` where neither says.
pub open spec fn area_of_path(p: Seq<char>) -> M2Area {
    let c = path_components(p);
    if components_match(c, seq!["view"@, "base"@]) || components_match(c, seq!["design"@, "base"@]) {
        M2Area::Base
    } else if components_match(c, seq!["view"@, "frontend"@]) || components_match(
        c,
        seq!["design"@, "frontend"@],
    ) {
        M2Area::Frontend
    } else if components_match(c, seq!["view"@, "adminhtml"@]) || components_match(
        c,
        seq!["design"@, "adminhtml"@],
    ) {
        M2Area::Adminhtml
    } else {
        M2Area::Base
    }
}

fn has_pair(path: &str, a: &str, b: &str) -> (r: bool)
    ensures
        r == components_match(path_components(path@), seq![a@, b@]),
{
    let parts: [&str; 2] = [a, b];
    let r = has_components(path, parts.as_slice());
    assert(str_views(parts@) =~= seq![a@, b@]);
    r
}

/// The area of the file at `path`.
pub fn get_area(path: &str) -> (r: M2Area)
    ensures
        r == area_of_path(path@),
{
    proof {
        reveal_strlit("view");
        reveal_strlit("design");
        reveal_strlit("base");
        reveal_strlit("frontend");
        reveal_strlit("adminhtml");
    }
    if has_pair(path, "view", "base") || has_pair(path, "design", "base") {
        M2Area::Base
    } else if has_pair(path, "view", "frontend") || has_pair(path, "design", "frontend") {
        M2Area::Frontend
    } else if has_pair(path, "view", "adminhtml") || has_pair(path, "design", "adminhtml") {
        M2Area::Adminhtml
    } else {
        M2Area::Base
    }
}

/// Whether the file lies in the platform's test tree (`dev/tests`).
pub fn is_test(path: &str) -> (r: bool)
    ensures
        r == components_match(path_components(path@), seq!["dev"@, "tests"@]),
{
    proof {
        reveal_strlit("dev");
        reveal_strlit("tests");
    }
    has_pair(path, "dev", "tests")
}

/// `p` followed by `.` and the extension `ext`.
pub open spec fn with_ext(p: Seq<char>, ext: Seq<char>) -> Seq<char> {
    p + seq!['.'] + ext
}

/// `b` placed under the directory `a`.
pub open spec fn join_path(a: Seq<char>, b: Seq<char>) -> Seq<char> {
    if a.len() == 0 || a.last() == '/' {
        a + b
    } else {
        a + seq!['/'] + b
    }
}

/// `parts` placed one under another below `base`.
pub open spec fn join_all(base: Seq<char>, parts: Seq<Seq<char>>) -> Seq<char>
    decreases parts.len(),
{
    if parts.len() == 0 {
        base
    } else {
        join_path(join_all(base, parts.drop_last()), parts.last())
    }
}

/// The path with one more extension added.
pub fn append_ext(path: &str, ext: &str) -> (r: String)
    ensures
        r@ == with_ext(path@, ext@),
{
    proof {
        reveal_strlit(".");
    }
    let s = concat(path, ".");
    s.concat(ext)
}

/// `b` placed under the directory `a`.
pub fn join(a: &str, b: &str) -> (r: String)
    ensures
        r@ == join_path(a@, b@),
{
    proof {
        reveal_strlit("/");
    }
    let n = a.unicode_len();
    if n == 0 || a.get_char(n - 1) == '/' {
        concat(a, b)
    } else {
        let s = concat(a, "/");
        s.concat(b)
    }
}

/// `parts` placed one under another below `base`.
pub fn append(base: &str, parts: &[&str]) -> (r: String)
    ensures
        r@ == join_all(base@, str_views(parts@)),
{
    let mut r = base.to_owned();
    let mut i: usize = 0;
    while i < parts.len()
        invariant
            i <= parts@.len(),
            r@ == join_all(base@, str_views(parts@).subrange(0, i as int)),
        decreases parts.len() - i,
    {
        assert(str_views(parts@).subrange(0, i + 1).drop_last() =~= str_views(parts@).subrange(0, i as int));
        r = join(r.as_str(), parts[i]);
        i = i + 1;
    }
    assert(str_views(parts@).subrange(0, i as int) =~= str_views(parts@));
    r
}

/// What `char::is_alphanumeric` says of `c`.
pub uninterp spec fn alphanumeric(c: char) -> bool;

/// What `char::is_uppercase` says of `c`.
pub uninterp spec fn uppercase(c: char) -> bool;

/// Relies on `char::is_alphanumeric`: whether `c` is alphabetic or numeric.
#[verifier::external_body]
fn is_alnum(c: char) -> (r: bool)
    ensures
        r == alphanumeric(c),
{
    c.is_alphanumeric()
}

/// Relies on `char::is_uppercase`: whether `c` has the Uppercase property.
#[verifier::external_body]
pub(crate) fn is_upper(c: char) -> (r: bool)
    ensures
        r == uppercase(c),
{
    c.is_uppercase()
}

/// Every character of `s` is alphanumeric or `extra`.
pub open spec fn only_alnum_or(s: Seq<char>, extra: char) -> bool {
    forall|i: int| 0 <= i < s.len() ==> alphanumeric(#[trigger] s[i]) || s[i] == extra
}

fn all_alnum_or(text: &str, extra: char) -> (r: bool)
    ensures
        r == only_alnum_or(text@, extra),
{
    let cs = chars_of(text);
    let mut i: usize = 0;
    while i < cs.len()
        invariant
            cs@ == text@,
            i <= cs.len(),
            forall|j: int| 0 <= j < i ==> alphanumeric(#[trigger] text@[j]) || text@[j] == extra,
        decreases cs.len() - i,
    {
        if !is_alnum(cs[i]) && cs[i] != extra {
            return false;
        }
        i = i + 1;
    }
    true
}

/// Whether `text` can be part of a module name (`Vendor_Module`).
pub fn is_part_of_module_name(text: &str) -> (r: bool)
    ensures
        r == only_alnum_or(text@, '_'),
{
    all_alnum_or(text, '_')
}

/// Whether `text` can be part of a class name (`Vendor\Module\Class`).
pub fn is_part_of_class_name(text: &str) -> (r: bool)
    ensures
        r == only_alnum_or(text@, '\\'),
{
    all_alnum_or(text, '\\')
}

} // verus!
