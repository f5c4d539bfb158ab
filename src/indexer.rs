//! The places under a workspace root where the bulk scans look for files.
use vstd::prelude::*;
use vstd::string::*;
use crate::m2::{append, join_all, str_views};
use crate::text::views;

verus! {

/// Where module and theme registrations lie under `root`: the root itself
/// (a single module), vendor packages, local modules, local themes, and the
/// setup module of the base package.
pub open spec fn registration_patterns(root: Seq<char>) -> Seq<Seq<char>> {
    seq![
        join_all(root, seq!["registration.php"@]),
        join_all(root, seq!["vendor"@, "*"@, "*"@, "registration.php"@]),
        join_all(root, seq!["app"@, "code"@, "*"@, "*"@, "registration.php"@]),
        join_all(root, seq!["app"@, "design"@, "*"@, "*"@, "*"@, "registration.php"@]),
        join_all(
            root,
            seq!["vendor"@, "magento"@, "magento2-base"@, "setup"@, "src"@, "Magento"@, "Setup"@, "registration.php"@],
        ),
    ]
}

/// Where require-configs lie under `root`: a single module's view
/// directories, vendor packages, the theme package, local modules and local
/// themes.
pub open spec fn config_patterns(root: Seq<char>) -> Seq<Seq<char>> {
    seq![
        join_all(root, seq!["view"@, "*"@, "requirejs-config.js"@]),
        join_all(root, seq!["vendor"@, "*"@, "*"@, "view"@, "*"@, "requirejs-config.js"@]),
        join_all(root, seq!["vendor"@, "*"@, "*"@, "Magento_Theme"@, "requirejs-config.js"@]),
        join_all(root, seq!["app"@, "code"@, "*"@, "*"@, "view"@, "*"@, "requirejs-config.js"@]),
        join_all(root, seq!["app"@, "design"@, "**"@, "requirejs-config.js"@]),
    ]
}

/// The glob patterns of the registration scan of `root`.
pub fn registration_globs(root: &str) -> (r: Vec<String>)
    ensures
        views(r@) == registration_patterns(root@),
{
    proof {
        reveal_strlit("registration.php");
        reveal_strlit("vendor");
        reveal_strlit("*");
        reveal_strlit("app");
        reveal_strlit("code");
        reveal_strlit("design");
        reveal_strlit("magento");
        reveal_strlit("magento2-base");
        reveal_strlit("setup");
        reveal_strlit("src");
        reveal_strlit("Magento");
        reveal_strlit("Setup");
    }
    let a: [&str; 1] = ["registration.php"];
    let b: [&str; 4] = ["vendor", "*", "*", "registration.php"];
    let c: [&str; 5] = ["app", "code", "*", "*", "registration.php"];
    let d: [&str; 6] = ["app", "design", "*", "*", "*", "registration.php"];
    let e: [&str; 8] = ["vendor", "magento", "magento2-base", "setup", "src", "Magento", "Setup", "registration.php"];
    assert(str_views(a@) =~= seq!["registration.php"@]);
    assert(str_views(b@) =~= seq!["vendor"@, "*"@, "*"@, "registration.php"@]);
    assert(str_views(c@) =~= seq!["app"@, "code"@, "*"@, "*"@, "registration.php"@]);
    assert(str_views(d@) =~= seq!["app"@, "design"@, "*"@, "*"@, "*"@, "registration.php"@]);
    assert(str_views(e@) =~= seq!["vendor"@, "magento"@, "magento2-base"@, "setup"@, "src"@, "Magento"@, "Setup"@, "registration.php"@]);
    let r = vec![
        append(root, a.as_slice()),
        append(root, b.as_slice()),
        append(root, c.as_slice()),
        append(root, d.as_slice()),
        append(root, e.as_slice()),
    ];
    assert(views(r@) =~= registration_patterns(root@));
    r
}

/// The glob patterns of the require-config scan of `root`.
pub fn config_globs(root: &str) -> (r: Vec<String>)
    ensures
        views(r@) == config_patterns(root@),
{
    proof {
        reveal_strlit("requirejs-config.js");
        reveal_strlit("vendor");
        reveal_strlit("*");
        reveal_strlit("**");
        reveal_strlit("app");
        reveal_strlit("code");
        reveal_strlit("design");
        reveal_strlit("view");
        reveal_strlit("Magento_Theme");
    }
    let a: [&str; 3] = ["view", "*", "requirejs-config.js"];
    let b: [&str; 6] = ["vendor", "*", "*", "view", "*", "requirejs-config.js"];
    let c: [&str; 5] = ["vendor", "*", "*", "Magento_Theme", "requirejs-config.js"];
    let d: [&str; 7] = ["app", "code", "*", "*", "view", "*", "requirejs-config.js"];
    let e: [&str; 4] = ["app", "design", "**", "requirejs-config.js"];
    assert(str_views(a@) =~= seq!["view"@, "*"@, "requirejs-config.js"@]);
    assert(str_views(b@) =~= seq!["vendor"@, "*"@, "*"@, "view"@, "*"@, "requirejs-config.js"@]);
    assert(str_views(c@) =~= seq!["vendor"@, "*"@, "*"@, "Magento_Theme"@, "requirejs-config.js"@]);
    assert(str_views(d@) =~= seq!["app"@, "code"@, "*"@, "*"@, "view"@, "*"@, "requirejs-config.js"@]);
    assert(str_views(e@) =~= seq!["app"@, "design"@, "**"@, "requirejs-config.js"@]);
    let r = vec![
        append(root, a.as_slice()),
        append(root, b.as_slice()),
        append(root, c.as_slice()),
        append(root, d.as_slice()),
        append(root, e.as_slice()),
    ];
    assert(views(r@) =~= config_patterns(root@));
    r
}

} // verus!
