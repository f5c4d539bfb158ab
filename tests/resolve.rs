use magento2_ls::js::{resolve_maps, resolve_paths, strip_text_plugin, text_to_component};
use magento2_ls::locate::{definition_candidates, find_templates};
use magento2_ls::m2::{get_area, is_test, M2Area, M2Item};
use magento2_ls::state::State;
use magento2_ls::table::StrMap;
use magento2_ls::xml::{
    get_item_from_tag, try_any_item_from_str, try_const_item_from_str, try_method_item_from_tag,
    try_phtml_item_from_str, XmlPart, XmlTag,
};

fn test_state() -> State {
    let mut state = State::new();
    state.add_module_path("Some_Module", "/a/b/c/Some_Module");
    state
}

#[test]
fn get_item_from_pos_mod_component() {
    let state = test_state();
    assert_eq!(
        text_to_component(&state, "Some_Module/some/view", "/a/b/c"),
        Some(M2Item::ModComponent(
            "Some_Module".into(),
            "some/view".into(),
            "/a/b/c/Some_Module".into()
        ))
    );
}

#[test]
fn get_item_from_pos_component() {
    let state = test_state();
    assert_eq!(
        text_to_component(&state, "jquery", "/a/b/c"),
        Some(M2Item::Component("jquery".into()))
    );
}

#[test]
fn get_item_from_pos_component_with_slashes() {
    let state = test_state();
    assert_eq!(
        text_to_component(&state, "jquery-ui-modules/widget", "/a/b/c"),
        Some(M2Item::Component("jquery-ui-modules/widget".into()))
    );
}

#[test]
fn base_alias_is_found_from_other_areas() {
    let mut state = State::new();
    state.add_component_map("tooltip", "Acme_Ui/js/tooltip", &M2Area::Base);
    assert_eq!(resolve_maps(&state, "tooltip", &M2Area::Frontend), "Acme_Ui/js/tooltip");
    assert_eq!(resolve_maps(&state, "tooltip", &M2Area::Adminhtml), "Acme_Ui/js/tooltip");
    assert_eq!(resolve_maps(&state, "tooltip", &M2Area::Base), "Acme_Ui/js/tooltip");
}

#[test]
fn frontend_alias_is_invisible_elsewhere() {
    let mut state = State::new();
    state.add_component_map("slider", "Acme_Ui/js/slider", &M2Area::Frontend);
    assert_eq!(resolve_maps(&state, "slider", &M2Area::Frontend), "Acme_Ui/js/slider");
    assert_eq!(resolve_maps(&state, "slider", &M2Area::Adminhtml), "slider");
    assert_eq!(resolve_maps(&state, "slider", &M2Area::Base), "slider");
}

#[test]
fn alias_chains_are_followed_and_cycles_stop() {
    let mut state = State::new();
    state.add_component_map("a", "b", &M2Area::Base);
    state.add_component_map("b", "c", &M2Area::Base);
    assert_eq!(resolve_maps(&state, "a", &M2Area::Frontend), "c");
    state.add_component_map("c", "a", &M2Area::Base);
    let end = resolve_maps(&state, "a", &M2Area::Base);
    assert!(end == "a" || end == "b" || end == "c");
}

#[test]
fn longest_path_prefix_wins() {
    let mut state = State::new();
    state.add_component_path("lib", "/x", &M2Area::Base);
    state.add_component_path("lib/deep", "/y", &M2Area::Base);
    assert_eq!(resolve_paths(&state, "lib/deep/file", &M2Area::Base), "/y/file");
    assert_eq!(resolve_paths(&state, "lib/other", &M2Area::Base), "/x/other");
    assert_eq!(resolve_paths(&state, "library", &M2Area::Base), "library");
    assert_eq!(resolve_paths(&state, "lib", &M2Area::Base), "/x");
}

#[test]
fn longest_module_prefix_wins_for_classes() {
    let mut state = State::new();
    state.add_module_path("Acme\\Base", "/code/Acme/Base");
    state.add_module_path("Acme\\Base\\Sub", "/code/Acme/BaseSub");
    let (root, suffix) = state
        .split_class_to_path_and_suffix("Acme\\Base\\Sub\\Model\\Foo")
        .unwrap();
    assert_eq!(root, "/code/Acme/BaseSub");
    assert_eq!(suffix, vec!["Model".to_string(), "Foo".to_string()]);
    assert_eq!(
        state.class_file_path("Acme\\Base\\Sub\\Model\\Foo"),
        Some("/code/Acme/BaseSub/Model/Foo.php".to_string())
    );
    assert_eq!(
        state.class_file_path("Acme\\Base\\Other"),
        Some("/code/Acme/Base/Other.php".to_string())
    );
    assert_eq!(state.class_file_path("Other\\Thing"), None);
}

#[test]
fn template_candidates_in_preference_order() {
    let mut state = State::new();
    state.add_module_path("Acme_Module", "/m");
    state.add_front_theme_path("frontend/Acme/look", "/t");
    state.add_admin_theme_path("adminhtml/Acme/back", "/u");
    assert_eq!(
        find_templates(&state, "Acme_Module", "page.phtml", &M2Area::Frontend),
        vec![
            "/m/view/frontend/templates/page.phtml".to_string(),
            "/m/view/base/templates/page.phtml".to_string(),
            "/t/Acme_Module/templates/page.phtml".to_string(),
        ]
    );
    assert_eq!(
        find_templates(&state, "Acme_Module", "page.phtml", &M2Area::Adminhtml),
        vec![
            "/m/view/adminhtml/templates/page.phtml".to_string(),
            "/m/view/base/templates/page.phtml".to_string(),
            "/u/Acme_Module/templates/page.phtml".to_string(),
        ]
    );
    assert_eq!(
        find_templates(&state, "Acme_Module", "page.phtml", &M2Area::Base).len(),
        5
    );
    assert_eq!(
        find_templates(&state, "Unknown_Module", "page.phtml", &M2Area::Frontend),
        vec!["/t/Unknown_Module/templates/page.phtml".to_string()]
    );
}

#[test]
fn relative_id_resolves_from_file_directory() {
    let mut state = State::new();
    state.add_module_path("Acme_Module", "/m");
    let item = text_to_component(&state, "./sibling", "/m/view/frontend/web/js/main.js");
    assert_eq!(
        item,
        Some(M2Item::RelComponent(
            "./sibling".into(),
            "/m/view/frontend/web/js".into()
        ))
    );
    assert_eq!(
        definition_candidates(&state, &item.unwrap(), "/m/view/frontend/web/js/main.js"),
        vec!["/m/view/frontend/web/js/./sibling.js".to_string()]
    );
}

#[test]
fn plugin_prefix_is_stripped_first() {
    let mut state = State::new();
    state.add_module_path("Acme_Module", "/m");
    assert_eq!(strip_text_plugin("text!Acme_Module/templates/tpl.html"), "Acme_Module/templates/tpl.html");
    assert_eq!(
        text_to_component(&state, "text!Acme_Module/templates/tpl.html", "/m/view/frontend/web/js/a.js"),
        Some(M2Item::ModHtml(
            "Acme_Module".into(),
            "templates/tpl.html".into(),
            "/m".into()
        ))
    );
    assert_eq!(text_to_component(&state, "text!Other_Module/x.html", "/f.js"), None);
}

#[test]
fn module_component_candidates_include_mixins() {
    let mut state = State::new();
    state.add_module_path("Acme_Module", "/m");
    state.add_module_path("Acme_Mixin", "/x");
    state.add_component_mixin("Acme_Module/js/widget", "Acme_Mixin/js/ext", &M2Area::Base);
    let item = M2Item::ModComponent("Acme_Module".into(), "js/widget".into(), "/m".into());
    assert_eq!(
        definition_candidates(&state, &item, "/n/view/frontend/templates/a.phtml"),
        vec![
            "/m/view/frontend/web/js/widget.js".to_string(),
            "/m/view/base/web/js/widget.js".to_string(),
        ]
    );
    assert_eq!(
        definition_candidates(&state, &item, "/n/view/base/web/a.js"),
        vec![
            "/m/view/frontend/web/js/widget.js".to_string(),
            "/m/view/adminhtml/web/js/widget.js".to_string(),
            "/m/view/base/web/js/widget.js".to_string(),
            "/x/view/frontend/web/js/ext.js".to_string(),
            "/x/view/adminhtml/web/js/ext.js".to_string(),
            "/x/view/base/web/js/ext.js".to_string(),
        ]
    );
}

#[test]
fn library_component_candidates_per_workspace() {
    let mut state = State::new();
    state.add_workspace_path("/w1");
    state.add_workspace_path("/w2");
    let item = M2Item::Component("jquery".into());
    assert_eq!(
        definition_candidates(&state, &item, "/a.js"),
        vec!["/w1/lib/web/jquery.js".to_string(), "/w2/lib/web/jquery.js".to_string()]
    );
}

#[test]
fn area_of_paths() {
    assert_eq!(get_area("/a/view/frontend/c"), M2Area::Frontend);
    assert_eq!(get_area("/a/design/adminhtml/c"), M2Area::Adminhtml);
    assert_eq!(get_area("/a/view/base/c"), M2Area::Base);
    assert_eq!(get_area("/a/a/c"), M2Area::Base);
    assert!(is_test("/x/dev/tests/y.php"));
    assert!(!is_test("/x/dev/y.php"));
    assert_eq!(M2Area::Frontend.lower_area(), Some(M2Area::Base));
    assert_eq!(M2Area::Base.lower_area(), None);
    assert_eq!(M2Area::Base.path_candidates(), vec!["frontend", "adminhtml", "base"]);
}

fn tag(attrs: &[(&str, &str)], text: &str, hover_on: XmlPart) -> XmlTag {
    let mut attributes = StrMap::new();
    for (k, v) in attrs {
        attributes.insert(k.to_string(), v.to_string());
    }
    XmlTag {
        name: "item".to_string(),
        attributes,
        text: text.to_string(),
        hover_on,
    }
}

#[test]
fn test_get_item_from_pos_class_in_tag_text() {
    let t = tag(&[], "A\\B\\C", XmlPart::Text);
    assert_eq!(get_item_from_tag(&State::new(), &t, "/a/b/c"), Some(M2Item::Class("A\\B\\C".into())));
}

#[test]
fn test_get_item_from_pos_template_in_tag_attribute() {
    let t = tag(&[("template", "Some_Module::path/to/file.phtml")], "", XmlPart::Attribute("template".into()));
    assert_eq!(
        get_item_from_tag(&State::new(), &t, "/a/design/adminhtml/c"),
        Some(M2Item::AdminPhtml("Some_Module".into(), "path/to/file.phtml".into()))
    );
}

#[test]
fn test_get_item_from_pos_frontend_template_in_tag_attribute() {
    let t = tag(&[("template", "Some_Module::path/to/file.phtml")], "", XmlPart::Attribute("template".into()));
    assert_eq!(
        get_item_from_tag(&State::new(), &t, "/a/view/frontend/c"),
        Some(M2Item::FrontPhtml("Some_Module".into(), "path/to/file.phtml".into()))
    );
}

#[test]
fn test_get_item_from_pos_method_in_job_tag_attribute() {
    let t = tag(&[("instance", "A\\B\\C"), ("method", "metHod")], "", XmlPart::Attribute("method".into()));
    assert_eq!(
        get_item_from_tag(&State::new(), &t, "/a/a/c"),
        Some(M2Item::Method("A\\B\\C".into(), "metHod".into()))
    );
}

#[test]
fn test_get_item_from_pos_method_in_service_tag_attribute() {
    let t = tag(&[("class", "A\\B\\C"), ("method", "metHod")], "", XmlPart::Attribute("method".into()));
    assert_eq!(
        get_item_from_tag(&State::new(), &t, "/a/a/c"),
        Some(M2Item::Method("A\\B\\C".into(), "metHod".into()))
    );
}

#[test]
fn test_get_item_from_pos_class_in_service_tag_attribute() {
    let t = tag(&[("class", "A\\B\\C"), ("method", "metHod")], "xx", XmlPart::Attribute("class".into()));
    assert_eq!(
        get_item_from_tag(&State::new(), &t, "/a/a/c"),
        Some(M2Item::Method("A\\B\\C".into(), "metHod".into()))
    );
}

#[test]
fn test_get_item_from_pos_attribute_in_tag_with_method() {
    let t = tag(&[("something", "A\\B\\C"), ("method", "metHod")], "xx", XmlPart::Attribute("something".into()));
    assert_eq!(get_item_from_tag(&State::new(), &t, "/a/a/c"), Some(M2Item::Class("A\\B\\C".into())));
}

#[test]
fn test_get_item_from_pos_class_in_text_in_tag() {
    let t = tag(&[], "A\\B\\C", XmlPart::Text);
    assert_eq!(get_item_from_tag(&State::new(), &t, "/a/a/c"), Some(M2Item::Class("A\\B\\C".into())));
}

#[test]
fn test_get_item_from_pos_const_in_text_in_tag() {
    let t = tag(&[], "\\A\\B\\C::CONST_ANT", XmlPart::Text);
    assert_eq!(
        get_item_from_tag(&State::new(), &t, "/a/a/c"),
        Some(M2Item::Const("A\\B\\C".into(), "CONST_ANT".into()))
    );
}

#[test]
fn test_get_item_from_pos_template_in_text_in_tag() {
    let t = tag(&[], "Some_Module::file.phtml", XmlPart::Text);
    assert_eq!(
        get_item_from_tag(&State::new(), &t, "/a/view/adminhtml/c"),
        Some(M2Item::AdminPhtml("Some_Module".into(), "file.phtml".into()))
    );
}

#[test]
fn test_get_item_from_pos_method_attribute_in_tag() {
    let t = tag(&[("something", "A\\B\\C"), ("method", "metHod")], "xx", XmlPart::Attribute("method".into()));
    assert_eq!(get_item_from_tag(&State::new(), &t, "/a/a/c"), None);
}

#[test]
fn test_should_get_most_inner_tag_from_nested() {
    let t = tag(&[("name", "boolean"), ("xsi:type", "object")], "Some\\Class\\Name", XmlPart::Text);
    assert_eq!(
        get_item_from_tag(&State::new(), &t, "/a/a/c"),
        Some(M2Item::Class("Some\\Class\\Name".into()))
    );
}

#[test]
fn test_should_get_class_from_class_attribute_of_block_tag() {
    let t = tag(
        &[("class", "A\\B\\C"), ("name", "some_name"), ("template", "Some_Module::temp/file.phtml")],
        "",
        XmlPart::Attribute("class".into()),
    );
    assert_eq!(get_item_from_tag(&State::new(), &t, "/a/a/c"), Some(M2Item::Class("A\\B\\C".into())));
}

#[test]
fn xml_text_component_goes_through_js_resolution() {
    let mut state = State::new();
    state.add_module_path("Acme_Ui", "/ui");
    let t = tag(&[("name", "component"), ("xsi:type", "string")], "Acme_Ui/js/grid", XmlPart::Text);
    assert_eq!(
        get_item_from_tag(&state, &t, "/x/view/adminhtml/ui_component/a.xml"),
        Some(M2Item::ModComponent("Acme_Ui".into(), "js/grid".into(), "/ui".into()))
    );
    let nothing = tag(&[], "x", XmlPart::Nothing);
    assert_eq!(get_item_from_tag(&state, &nothing, "/a.xml"), None);
}

#[test]
fn item_texts() {
    assert_eq!(try_const_item_from_str("A::B"), Some(M2Item::Const("A".into(), "B".into())));
    assert_eq!(try_const_item_from_str("A::B::C"), None);
    assert_eq!(try_const_item_from_str("AB"), None);
    assert_eq!(
        try_phtml_item_from_str("M_N::a.phtml", &M2Area::Base),
        Some(M2Item::BasePhtml("M_N".into(), "a.phtml".into()))
    );
    assert_eq!(try_any_item_from_str("lower", &M2Area::Base), None);
    assert_eq!(try_any_item_from_str("Upper", &M2Area::Base), Some(M2Item::Class("Upper".into())));
    let t = tag(&[("method", "m")], "", XmlPart::Nothing);
    assert_eq!(try_method_item_from_tag(&t), None);
}
