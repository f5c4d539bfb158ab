//! Where the definition of a resolved item may be: the candidate files, in
//! order of preference. Which of them exist is for the caller to check.
use vstd::prelude::*;
use vstd::string::*;
use crate::facts::{fact_text, FactKey, FactMap};
use crate::js::{components_of, item_views, mixin_targets};
use crate::m2::{
    append, append_ext, area_dirs, area_of_path, get_area, join, join_all, join_path, str_views,
    with_ext, Item, M2Area, M2Item,
};
use crate::state::{class_file, State};
use crate::text::{concat, views};

verus! {

/// The template `template` in the module rooted at `root`, in each view directory of `dirs`.
pub open spec fn module_templates(root: Seq<char>, template: Seq<char>, dirs: Seq<Seq<char>>) -> Seq<Seq<char>> {
    dirs.map_values(|d: Seq<char>| join_all(root, seq!["view"@, d, "templates"@, template]))
}

/// The override of `module`'s template `template` in each theme rooted in `roots`.
pub open spec fn theme_templates(roots: Seq<Seq<char>>, module: Seq<char>, template: Seq<char>) -> Seq<Seq<char>> {
    roots.map_values(|r: Seq<char>| join_all(r, seq![module, "templates"@, template]))
}

/// The places of the template `module::template` for `area`: the module's
/// own view directories in order of preference, then the themes of the
/// matching kind (frontend themes, then admin themes).
pub open spec fn template_candidates(s: State, module: Seq<char>, template: Seq<char>, area: M2Area) -> Seq<Seq<char>> {
    (match fact_text(s.facts(), FactKey::ModulePath(module)) {
        Some(root) => module_templates(root, template, area_dirs(area)),
        None => Seq::empty(),
    }) + (if area != M2Area::Adminhtml {
        theme_templates(s.front_theme_roots(), module, template)
    } else {
        Seq::empty()
    }) + (if area != M2Area::Frontend {
        theme_templates(s.admin_theme_roots(), module, template)
    } else {
        Seq::empty()
    })
}

/// The script `file` of the module rooted at `root`, in each web directory of `dirs`.
pub open spec fn web_scripts(root: Seq<char>, file: Seq<char>, dirs: Seq<Seq<char>>) -> Seq<Seq<char>> {
    dirs.map_values(|d: Seq<char>| with_ext(join_all(root, seq!["view"@, d, "web"@, file]), "js"@))
}

/// The scripts of the module components among `items`, in order.
pub open spec fn component_scripts(items: Seq<Item>, dirs: Seq<Seq<char>>) -> Seq<Seq<char>>
    decreases items.len(),
{
    if items.len() == 0 {
        Seq::empty()
    } else {
        component_scripts(items.drop_last(), dirs) + match items.last() {
            Item::ModComponent(_, f, r) => web_scripts(r, f, dirs),
            _ => Seq::empty(),
        }
    }
}

/// Where the definition of `item`, found in the file at `current`, may be.
pub open spec fn definition_paths(s: State, item: Item, current: Seq<char>) -> Seq<Seq<char>> {
    let area = area_of_path(current);
    let m = s.facts();
    match item {
        Item::ModComponent(module, file, root) => component_scripts(
            seq![item] + components_of(m, mixin_targets(m, module + seq!['/'] + file, area), Seq::empty()),
            area_dirs(area),
        ),
        Item::ModHtml(_, file, root) => area_dirs(area).map_values(
            |d: Seq<char>| join_all(root, seq!["view"@, d, "web"@, file]),
        ),
        Item::RelComponent(comp, dir) => seq![with_ext(join_path(dir, comp), "js"@)],
        Item::Component(comp) => s.workspace_seq().map_values(
            |w: Seq<char>| with_ext(join_all(w, seq!["lib"@, "web"@, comp]), "js"@),
        ),
        Item::FrontPhtml(module, t) => template_candidates(s, module, t, M2Area::Frontend),
        Item::AdminPhtml(module, t) => template_candidates(s, module, t, M2Area::Adminhtml),
        Item::BasePhtml(module, t) => template_candidates(s, module, t, M2Area::Base),
        Item::Class(c) => class_paths(m, c),
        Item::Method(c, _) => class_paths(m, c),
        Item::Const(c, _) => class_paths(m, c),
    }
}

/// The file of a class, if its module is known.
pub open spec fn class_paths(m: FactMap, c: Seq<char>) -> Seq<Seq<char>> {
    match class_file(m, c) {
        Some(p) => seq![p],
        None => Seq::empty(),
    }
}

fn push_path(out: &mut Vec<String>, p: String)
    ensures
        views(final(out)@) == views(old(out)@).push(p@),
{
    let ghost v = p@;
    out.push(p);
    assert(views(out@) =~= views(old(out)@).push(v));
}

fn push_module_templates(out: &mut Vec<String>, root: &str, template: &str, dirs: &Vec<String>)
    ensures
        views(final(out)@) == views(old(out)@) + module_templates(root@, template@, views(dirs@)),
{
    proof {
        reveal_strlit("view");
        reveal_strlit("templates");
    }
    let mut i: usize = 0;
    while i < dirs.len()
        invariant
            i <= dirs@.len(),
            views(out@) == views(old(out)@) + module_templates(root@, template@, views(dirs@).subrange(0, i as int)),
        decreases dirs.len() - i,
    {
        let parts: [&str; 4] = ["view", dirs[i].as_str(), "templates", template];
        assert(str_views(parts@) =~= seq!["view"@, dirs@[i as int]@, "templates"@, template@]);
        let p = append(root, parts.as_slice());
        push_path(out, p);
        assert(module_templates(root@, template@, views(dirs@).subrange(0, i + 1)) =~= module_templates(
            root@,
            template@,
            views(dirs@).subrange(0, i as int),
        ).push(p@));
        i = i + 1;
    }
    assert(views(dirs@).subrange(0, i as int) =~= views(dirs@));
}

fn push_theme_templates(out: &mut Vec<String>, roots: &Vec<String>, module: &str, template: &str)
    ensures
        views(final(out)@) == views(old(out)@) + theme_templates(views(roots@), module@, template@),
{
    proof {
        reveal_strlit("templates");
    }
    let mut i: usize = 0;
    while i < roots.len()
        invariant
            i <= roots@.len(),
            views(out@) == views(old(out)@) + theme_templates(views(roots@).subrange(0, i as int), module@, template@),
        decreases roots.len() - i,
    {
        let parts: [&str; 3] = [module, "templates", template];
        assert(str_views(parts@) =~= seq![module@, "templates"@, template@]);
        let p = append(roots[i].as_str(), parts.as_slice());
        push_path(out, p);
        assert(theme_templates(views(roots@).subrange(0, i + 1), module@, template@) =~= theme_templates(
            views(roots@).subrange(0, i as int),
            module@,
            template@,
        ).push(p@));
        i = i + 1;
    }
    assert(views(roots@).subrange(0, i as int) =~= views(roots@));
}

/// The places of the template `module::template` for `area`, in order of
/// preference: the module's own view directories, then theme overrides.
pub fn find_templates(state: &State, module: &str, template: &str, area: &M2Area) -> (r: Vec<String>)
    requires
        state.wf(),
    ensures
        views(r@) == template_candidates(*state, module@, template@, *area),
{
    let mut r: Vec<String> = Vec::new();
    match state.get_module_path(module) {
        Some(root) => {
            let dirs = area.path_candidates();
            push_module_templates(&mut r, root.as_str(), template, &dirs);
        },
        None => {},
    }
    if *area != M2Area::Adminhtml {
        let fronts = state.list_front_themes_paths();
        push_theme_templates(&mut r, &fronts, module, template);
    }
    if *area != M2Area::Frontend {
        let admins = state.list_admin_themes_paths();
        push_theme_templates(&mut r, &admins, module, template);
    }
    assert(views(r@) =~= template_candidates(*state, module@, template@, *area));
    r
}

fn push_web_scripts(out: &mut Vec<String>, root: &str, file: &str, dirs: &Vec<String>)
    ensures
        views(final(out)@) == views(old(out)@) + web_scripts(root@, file@, views(dirs@)),
{
    proof {
        reveal_strlit("view");
        reveal_strlit("web");
        reveal_strlit("js");
    }
    let mut i: usize = 0;
    while i < dirs.len()
        invariant
            i <= dirs@.len(),
            views(out@) == views(old(out)@) + web_scripts(root@, file@, views(dirs@).subrange(0, i as int)),
        decreases dirs.len() - i,
    {
        let parts: [&str; 4] = ["view", dirs[i].as_str(), "web", file];
        assert(str_views(parts@) =~= seq!["view"@, dirs@[i as int]@, "web"@, file@]);
        let p = append_ext(append(root, parts.as_slice()).as_str(), "js");
        push_path(out, p);
        assert(web_scripts(root@, file@, views(dirs@).subrange(0, i + 1)) =~= web_scripts(
            root@,
            file@,
            views(dirs@).subrange(0, i as int),
        ).push(p@));
        i = i + 1;
    }
    assert(views(dirs@).subrange(0, i as int) =~= views(dirs@));
}

fn push_component_scripts(out: &mut Vec<String>, items: &Vec<M2Item>, dirs: &Vec<String>)
    ensures
        views(final(out)@) == views(old(out)@) + component_scripts(item_views(items@), views(dirs@)),
{
    let mut i: usize = 0;
    while i < items.len()
        invariant
            i <= items@.len(),
            views(out@) == views(old(out)@) + component_scripts(item_views(items@).subrange(0, i as int), views(dirs@)),
        decreases items.len() - i,
    {
        assert(item_views(items@).subrange(0, i + 1).drop_last() =~= item_views(items@).subrange(0, i as int));
        assert(item_views(items@).subrange(0, i + 1).last() == items@[i as int]@);
        match &items[i] {
            M2Item::ModComponent(_, f, root) => {
                push_web_scripts(out, root.as_str(), f.as_str(), dirs);
            },
            _ => {},
        }
        assert(views(out@) =~= views(old(out)@) + component_scripts(item_views(items@).subrange(0, i + 1), views(dirs@)));
        i = i + 1;
    }
    assert(item_views(items@).subrange(0, i as int) =~= item_views(items@));
}

/// Where the definition of `item`, found in the file at `current`, may be,
/// in order of preference.
pub fn definition_candidates(state: &State, item: &M2Item, current: &str) -> (r: Vec<String>)
    requires
        state.wf(),
    ensures
        views(r@) == definition_paths(*state, item@, current@),
{
    proof {
        reveal_strlit("view");
        reveal_strlit("web");
        reveal_strlit("js");
        reveal_strlit("lib");
        reveal_strlit("/");
    }
    let area = get_area(current);
    let mut r: Vec<String> = Vec::new();
    match item {
        M2Item::ModComponent(module, file, root) => {
            let dirs = area.path_candidates();
            let name = concat(concat(module.as_str(), "/").as_str(), file.as_str());
            assert(name@ == module@ + seq!['/'] + file@);
            let mut items: Vec<M2Item> = Vec::new();
            items.push(M2Item::ModComponent(module.clone(), file.clone(), root.clone()));
            let mixins = state.get_component_mixins_for_area(name.as_str(), &area);
            let ghost first = item_views(items@);
            let mut i: usize = 0;
            while i < mixins.len()
                invariant
                    i <= mixins@.len(),
                    first == seq![item@],
                    item_views(items@) == first + item_views(mixins@).subrange(0, i as int),
                decreases mixins.len() - i,
            {
                let ghost before = items@;
                let x = crate::xml::copy_item(&mixins[i]);
                items.push(x);
                assert(item_views(items@) =~= item_views(before).push(x@));
                assert(item_views(mixins@).subrange(0, i + 1) =~= item_views(mixins@).subrange(0, i as int).push(mixins@[i as int]@));
                i = i + 1;
            }
            assert(item_views(mixins@).subrange(0, i as int) =~= item_views(mixins@));
            push_component_scripts(&mut r, &items, &dirs);
        },
        M2Item::ModHtml(_, file, root) => {
            let dirs = area.path_candidates();
            let mut i: usize = 0;
            while i < dirs.len()
                invariant
                    i <= dirs@.len(),
                    views(dirs@) == area_dirs(area),
                    views(r@) == views(dirs@).subrange(0, i as int).map_values(
                        |d: Seq<char>| join_all(root@, seq!["view"@, d, "web"@, file@]),
                    ),
                decreases dirs.len() - i,
            {
                let parts: [&str; 4] = ["view", dirs[i].as_str(), "web", file.as_str()];
                assert(str_views(parts@) =~= seq!["view"@, dirs@[i as int]@, "web"@, file@]);
                let p = append(root.as_str(), parts.as_slice());
                push_path(&mut r, p);
                assert(views(r@) =~= views(dirs@).subrange(0, i + 1).map_values(
                    |d: Seq<char>| join_all(root@, seq!["view"@, d, "web"@, file@]),
                ));
                i = i + 1;
            }
            assert(views(dirs@).subrange(0, i as int) =~= views(dirs@));
        },
        M2Item::RelComponent(comp, dir) => {
            let p = append_ext(join(dir.as_str(), comp.as_str()).as_str(), "js");
            push_path(&mut r, p);
            assert(views(r@) =~= seq![p@]);
        },
        M2Item::Component(comp) => {
            let roots = state.workspace_paths();
            let mut i: usize = 0;
            while i < roots.len()
                invariant
                    i <= roots@.len(),
                    views(r@) == views(roots@).subrange(0, i as int).map_values(
                        |w: Seq<char>| with_ext(join_all(w, seq!["lib"@, "web"@, comp@]), "js"@),
                    ),
                decreases roots.len() - i,
            {
                let parts: [&str; 3] = ["lib", "web", comp.as_str()];
                assert(str_views(parts@) =~= seq!["lib"@, "web"@, comp@]);
                let p = append_ext(append(roots[i].as_str(), parts.as_slice()).as_str(), "js");
                push_path(&mut r, p);
                assert(views(r@) =~= views(roots@).subrange(0, i + 1).map_values(
                    |w: Seq<char>| with_ext(join_all(w, seq!["lib"@, "web"@, comp@]), "js"@),
                ));
                i = i + 1;
            }
            assert(views(roots@).subrange(0, i as int) =~= views(roots@));
        },
        M2Item::FrontPhtml(module, t) => {
            r = find_templates(state, module.as_str(), t.as_str(), &M2Area::Frontend);
        },
        M2Item::AdminPhtml(module, t) => {
            r = find_templates(state, module.as_str(), t.as_str(), &M2Area::Adminhtml);
        },
        M2Item::BasePhtml(module, t) => {
            r = find_templates(state, module.as_str(), t.as_str(), &M2Area::Base);
        },
        M2Item::Class(c) | M2Item::Method(c, _) | M2Item::Const(c, _) => {
            match state.class_file_path(c.as_str()) {
                Some(p) => {
                    push_path(&mut r, p);
                    assert(views(r@) =~= class_paths(state.facts(), c@));
                },
                None => {},
            }
        },
    }
    r
}

} // verus!
