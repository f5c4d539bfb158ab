use magento2_ls::js::ConfigCapture;
use magento2_ls::m2::M2Area;
use magento2_ls::php::{register_param_to_module, M2Module};
use magento2_ls::state::{SourceCaptures, State, TrackingList, Trackee};

fn registrations(names: &[&str]) -> SourceCaptures {
    SourceCaptures {
        registrations: names.iter().map(|n| format!("'{}'", n)).collect(),
        config: vec![],
    }
}

fn config(entries: &[(&str, &str, &str)]) -> SourceCaptures {
    SourceCaptures {
        registrations: vec![],
        config: entries
            .iter()
            .map(|(k, key, val)| ConfigCapture {
                kind: k.to_string(),
                key: key.to_string(),
                val: val.to_string(),
            })
            .collect(),
    }
}

#[test]
fn register_workspace_only_once() {
    let mut state = State::new();
    assert!(state.register_workspace("/srv/shop"));
    assert!(!state.register_workspace("/srv/shop"));
    assert_eq!(state.workspace_paths(), vec!["/srv/shop".to_string()]);
    assert!(state.has_workspace_path("/srv/shop"));
    assert!(!state.has_workspace_path("/srv/other"));
}

#[test]
fn change_leaves_no_trace_of_old_content() {
    let file = "/srv/app/code/Acme/Old/registration.php";
    let mut changed = State::new();
    changed.set_file(file, "a".to_string(), &registrations(&["Acme_Old"]));
    assert_eq!(changed.get_modules(), vec!["Acme_Old".to_string()]);
    changed.set_file(file, "b".to_string(), &registrations(&["Acme_New"]));

    let mut fresh = State::new();
    fresh.set_file(file, "b".to_string(), &registrations(&["Acme_New"]));

    assert_eq!(changed.get_modules(), fresh.get_modules());
    assert_eq!(changed.get_modules(), vec!["Acme_New".to_string()]);
    assert_eq!(changed.get_module_path("Acme_Old"), None);
    assert_eq!(changed.get_module_path("Acme\\Old"), None);
    assert_eq!(
        changed.get_module_path("Acme\\New"),
        Some("/srv/app/code/Acme/Old".to_string())
    );
    assert_eq!(changed.get_module_path("Acme_New"), fresh.get_module_path("Acme_New"));
    assert_eq!(changed.get_file(file), Some(&"b".to_string()));
}

#[test]
fn close_keeps_facts() {
    let file = "/srv/app/code/Acme/Mod/registration.php";
    let mut state = State::new();
    state.set_file(file, "x".to_string(), &registrations(&["Acme_Mod"]));
    state.del_file(file);
    assert_eq!(state.get_file(file), None);
    assert_eq!(state.get_modules(), vec!["Acme_Mod".to_string()]);
}

#[test]
fn retract_of_untracked_path_is_a_no_op() {
    let mut state = State::new();
    state.add_module_path("Acme_Mod", "/m");
    state.clear_from_source("/never/seen.php");
    assert_eq!(state.get_module_path("Acme_Mod"), Some("/m".to_string()));
}

#[test]
fn retract_removes_only_the_files_facts() {
    let mut state = State::new();
    state.set_file("/a/registration.php", "".to_string(), &registrations(&["Acme_One"]));
    state.set_file("/b/registration.php", "".to_string(), &registrations(&["Acme_Two"]));
    state.clear_from_source("/a/registration.php");
    assert_eq!(state.get_modules(), vec!["Acme_Two".to_string()]);
    assert_eq!(state.get_module_path("Acme\\Two"), Some("/b".to_string()));
    assert_eq!(state.get_module_path("Acme\\One"), None);
}

#[test]
fn modules_come_sorted_and_once() {
    let mut state = State::new();
    state.add_module("Zeta_Mod");
    state.add_module("Alpha_Mod");
    state.add_module("Zeta_Mod");
    assert_eq!(
        state.get_modules(),
        vec!["Alpha_Mod".to_string(), "Zeta_Mod".to_string()]
    );
    assert_eq!(
        state.get_module_class_prefixes(),
        vec!["Alpha\\Mod".to_string(), "Zeta\\Mod".to_string()]
    );
}

#[test]
fn registration_kinds() {
    assert!(matches!(register_param_to_module("frontend/Vendor/theme"), Some(M2Module::FrontTheme(t)) if t == "frontend/Vendor/theme"));
    assert!(matches!(register_param_to_module("adminhtml/Vendor/theme"), Some(M2Module::AdminTheme(t)) if t == "adminhtml/Vendor/theme"));
    assert!(matches!(register_param_to_module("Magento_Catalog"), Some(M2Module::Module(m)) if m == "Magento\\Catalog"));
    assert!(matches!(register_param_to_module("magento/framework"), Some(M2Module::Library(l)) if l == "Magento\\Framework"));
    assert!(matches!(register_param_to_module("magento/module-catalog"), Some(M2Module::Library(l)) if l == "Magento\\Module\\Catalog"));
    assert!(matches!(register_param_to_module("Magento_Catalog_Extra"), Some(M2Module::Module(m)) if m == "Magento\\Catalog\\Extra"));
    assert!(register_param_to_module("plain").is_none());
}

#[test]
fn registration_of_theme_and_library() {
    let mut state = State::new();
    state.set_file(
        "/srv/app/design/frontend/Acme/look/registration.php",
        "".to_string(),
        &registrations(&["frontend/Acme/look"]),
    );
    state.set_file(
        "/srv/vendor/acme/lib-tools/registration.php",
        "".to_string(),
        &registrations(&["acme/lib-tools"]),
    );
    assert_eq!(
        state.list_front_themes_paths(),
        vec!["/srv/app/design/frontend/Acme/look".to_string()]
    );
    assert!(state.list_admin_themes_paths().is_empty());
    assert_eq!(state.get_modules(), vec!["Acme_Lib_Tools".to_string()]);
    assert_eq!(
        state.get_module_path("Acme\\Lib\\Tools"),
        Some("/srv/vendor/acme/lib-tools".to_string())
    );
}

#[test]
fn test_update_index_from_config() {
    let mut state = State::new();
    state.set_file(
        "requirejs-config.js",
        String::new(),
        &config(&[
            ("map", "'some/js/component'", "'Some_Model/js/component'"),
            ("map", "otherComp", "'Some_Other/js/comp'"),
            ("\"paths\"", "'other/core/extension'", "'Other_Module/js/core_ext'"),
            ("\"paths\"", "prototype", "'Something_Else/js/prototype.min'"),
            ("mixins", "\"Mage_Module/js/smth\"", "\"My_Module/js/mixin/smth\""),
            ("mixins", "Adobe_Module", "\"My_Module/js/mixin/adobe\""),
        ]),
    );

    let mut result = State::new();
    result.set_source_file("requirejs-config.js");
    result.add_component_path("other/core/extension", "Other_Module/js/core_ext", &M2Area::Base);
    result.add_component_path("prototype", "Something_Else/js/prototype.min", &M2Area::Base);
    result.add_component_map("some/js/component", "Some_Model/js/component", &M2Area::Base);
    result.add_component_map("otherComp", "Some_Other/js/comp", &M2Area::Base);
    result.add_component_mixin("Mage_Module/js/smth", "My_Module/js/mixin/smth", &M2Area::Base);
    result.add_component_mixin("Adobe_Module", "My_Module/js/mixin/adobe", &M2Area::Base);

    assert_eq!(state.get_modules(), result.get_modules());
    for module in ["prototype", "otherComp", "other/core/extension", "some/js/component"] {
        assert_eq!(
            state.get_component_map(module, &M2Area::Base),
            result.get_component_map(module, &M2Area::Base)
        );
        assert_eq!(
            state.get_component_path(module, &M2Area::Base),
            result.get_component_path(module, &M2Area::Base)
        );
    }
    for mixin in ["Mage_Module/js/smth", "Adobe_Module"] {
        assert_eq!(
            state.get_component_mixins_for_area(mixin, &M2Area::Base),
            result.get_component_mixins_for_area(mixin, &M2Area::Base)
        );
        assert_eq!(state.get_component_mixin_targets(mixin, &M2Area::Base).len(), 1);
    }
    assert_eq!(
        state.get_component_map("otherComp", &M2Area::Base),
        Some(&"Some_Other/js/comp".to_string())
    );
    assert_eq!(
        state.get_component_path("prototype", &M2Area::Base),
        Some(&"Something_Else/js/prototype.min".to_string())
    );
}

#[test]
fn config_in_area_directory_goes_to_that_area() {
    let mut state = State::new();
    state.set_file(
        "/m/view/frontend/requirejs-config.js",
        String::new(),
        &config(&[("map", "a", "'b'"), ("other", "c", "'d'")]),
    );
    assert_eq!(state.get_component_map("a", &M2Area::Frontend), Some(&"b".to_string()));
    assert_eq!(state.get_component_map("a", &M2Area::Base), None);
    assert_eq!(state.get_component_maps_for_area(&M2Area::Frontend), vec!["a".to_string()]);
    assert!(state.get_component_maps_for_area(&M2Area::Adminhtml).is_empty());
}

#[test]
fn tracking_list_records_and_forgets() {
    let mut list = TrackingList::new();
    list.track("/a.php", Trackee::Module("A_B".to_string()));
    list.maybe_track(None, Trackee::Module("C_D".to_string()));
    let source = "/a.php".to_string();
    list.maybe_track(Some(&source), Trackee::ModulePath("A_B".to_string()));
    assert_eq!(list.untrack("/a.php").map(|v| v.len()), Some(2));
    assert!(list.untrack("/a.php").is_none());
}

#[test]
fn longest_prefix_through_registrations() {
    let mut state = State::new();
    state.set_file("/code/Acme/Base/registration.php", String::new(), &registrations(&["Acme_Base"]));
    state.set_file("/code/Acme/BaseSub/registration.php", String::new(), &registrations(&["Acme_Base_Sub"]));
    assert_eq!(
        state.class_file_path("Acme\\Base\\Sub\\Model\\Foo"),
        Some("/code/Acme/BaseSub/Model/Foo.php".to_string())
    );
    assert_eq!(
        state.class_file_path("Acme\\Base\\Model\\Foo"),
        Some("/code/Acme/Base/Model/Foo.php".to_string())
    );
}
