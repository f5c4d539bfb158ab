use magento2_ls::completion::{
    class_candidate, get_node_text_before_pos, class_completion, sorted_labels, xml_completion_kind, ClassCompletion,
    CompletionKind, Position, Range, TemplateCompletion, XmlCompletion,
};
use magento2_ls::indexer::{config_globs, registration_globs};
use magento2_ls::m2::{append, join, M2Area};
use magento2_ls::state::State;
use magento2_ls::table::StrMap;
use magento2_ls::xml::{XmlPart, XmlTag};

fn at(path: &str, attrs: &[(&str, &str)]) -> XmlCompletion {
    let zero = Position { line: 0, character: 0 };
    let tag = if attrs.is_empty() {
        None
    } else {
        let mut attributes = StrMap::new();
        for (k, v) in attrs {
            attributes.insert(k.to_string(), v.to_string());
        }
        Some(XmlTag {
            name: "item".to_string(),
            attributes,
            text: String::new(),
            hover_on: XmlPart::Nothing,
        })
    };
    XmlCompletion {
        path: path.to_string(),
        text: String::new(),
        range: Range { start: zero, end: zero },
        tag,
    }
}

#[test]
fn xml_completion_kinds() {
    assert_eq!(xml_completion_kind(&at("/config/type/block[@template]", &[]), "/a/layout.xml"), CompletionKind::Templates);
    assert_eq!(
        xml_completion_kind(&at("/x/item[$text]", &[("xsi:type", "string"), ("name", "template")]), "/a.xml"),
        CompletionKind::Templates
    );
    assert_eq!(
        xml_completion_kind(&at("/x/item[$text]", &[("xsi:type", "string"), ("name", "component")]), "/a.xml"),
        CompletionKind::Components
    );
    assert_eq!(xml_completion_kind(&at("/config/event[@name]", &[]), "/m/etc/events.xml"), CompletionKind::Events);
    assert_eq!(xml_completion_kind(&at("/config/event[@name]", &[]), "/m/etc/di.xml"), CompletionKind::Nothing);
    assert_eq!(xml_completion_kind(&at("/config/preference[@for]", &[]), "/m/etc/di.xml"), CompletionKind::Classes);
    assert_eq!(xml_completion_kind(&at("/config/type/plugin[@class]", &[]), "/a.xml"), CompletionKind::Classes);
    assert_eq!(
        xml_completion_kind(&at("/x/argument[$text]", &[("xsi:type", "object")]), "/a.xml"),
        CompletionKind::Classes
    );
    assert_eq!(xml_completion_kind(&at("/config/type[@name]", &[]), "/a.xml"), CompletionKind::Classes);
    assert_eq!(
        xml_completion_kind(&at("/field/source[$text]", &[("_model", "")]), "/a.xml"),
        CompletionKind::Classes
    );
    assert_eq!(xml_completion_kind(&at("/config/type", &[]), "/a.xml"), CompletionKind::Nothing);
    let x = at("/a[@b]", &[("xsi:type", "const")]);
    assert!(x.match_path("[@b]"));
    assert!(x.attribute_eq("xsi:type", "const"));
    assert!(!x.attribute_eq("xsi:type", "object"));
    assert!(x.attribute_in("xsi:type", &["object", "const"]));
    assert!(!x.attribute_in("name", &["const"]));
}

#[test]
fn class_completion_modes() {
    assert_eq!(class_completion(""), ClassCompletion::Prefixes);
    assert_eq!(class_completion("\\Mage"), ClassCompletion::Prefixes);
    assert_eq!(class_completion("Magento\\Cat"), ClassCompletion::PrefixesAndClasses);
    assert_eq!(class_completion("Mage-"), ClassCompletion::Nothing);
}

#[test]
fn class_candidates_from_files() {
    assert_eq!(
        class_candidate("Acme\\Mod", "Model/Thing.php", "Acme\\Mod\\Mo"),
        Some("Acme\\Mod\\Model\\Thing".to_string())
    );
    assert_eq!(class_candidate("Acme\\Mod", "registration.php", "Acme\\Mod\\"), None);
    assert_eq!(class_candidate("Acme\\Mod", "Block/View.php", "Acme\\Mod\\Mo"), None);
    let mut state = State::new();
    state.add_module_path("Acme\\Mod", "/m");
    let roots = state.class_search_roots("Acme\\Mod\\Model\\X");
    assert_eq!(roots, vec![("Acme\\Mod".to_string(), "/m".to_string())]);
}

#[test]
fn labels_sorted_without_repeats() {
    let labels = vec!["b".to_string(), "a".to_string(), "b".to_string(), "ab".to_string()];
    assert_eq!(sorted_labels(labels), vec!["a".to_string(), "ab".to_string(), "b".to_string()]);
}

#[test]
fn template_completion_sources() {
    let mut state = State::new();
    state.add_module("Acme_Module");
    state.add_module_path("Acme_Module", "/m");
    state.add_front_theme_path("frontend/Acme/look", "/t");
    match state.template_completion("Acme_Mo", &M2Area::Frontend) {
        TemplateCompletion::Modules(m) => assert_eq!(m, vec!["Acme_Module".to_string()]),
        _ => panic!("module names expected"),
    }
    match state.template_completion("Acme_Module::pa", &M2Area::Frontend) {
        TemplateCompletion::Files { module, dirs } => {
            assert_eq!(module, "Acme_Module");
            assert_eq!(
                dirs,
                vec![
                    "/m/view/frontend/templates".to_string(),
                    "/m/view/base/templates".to_string(),
                    "/t/Acme_Module/templates".to_string(),
                ]
            );
        }
        _ => panic!("template directories expected"),
    }
    assert!(matches!(state.template_completion("Other_Module::x", &M2Area::Frontend), TemplateCompletion::Nothing));
    assert!(matches!(state.template_completion("a/b", &M2Area::Frontend), TemplateCompletion::Nothing));
}

#[test]
fn component_completion_sources() {
    let mut state = State::new();
    state.add_module("Acme_Ui");
    state.add_module_path("Acme_Ui", "/ui");
    state.add_workspace_path("/w");
    state.add_component_map("grid", "Acme_Ui/js/grid", &M2Area::Base);
    let before = state.component_completion("Acm", &M2Area::Adminhtml);
    assert_eq!(sorted_labels(before.labels), vec!["Acme_Ui".to_string(), "grid".to_string()]);
    assert!(before.module_dirs.is_empty());
    assert_eq!(before.library_dirs, vec!["/w/lib/web".to_string()]);
    let after = state.component_completion("Acme_Ui/js", &M2Area::Adminhtml);
    assert_eq!(after.module, "Acme_Ui");
    assert_eq!(after.labels, vec!["grid".to_string()]);
    assert_eq!(
        after.module_dirs,
        vec!["/ui/view/adminhtml/web".to_string(), "/ui/view/base/web".to_string()]
    );
}

#[test]
fn scan_patterns() {
    let reg = registration_globs("/srv");
    assert_eq!(reg.len(), 5);
    assert_eq!(reg[0], "/srv/registration.php");
    assert_eq!(reg[1], "/srv/vendor/*/*/registration.php");
    assert_eq!(reg[4], "/srv/vendor/magento/magento2-base/setup/src/Magento/Setup/registration.php");
    let cfg = config_globs("/srv/");
    assert_eq!(cfg[0], "/srv/view/*/requirejs-config.js");
    assert_eq!(cfg[4], "/srv/app/design/**/requirejs-config.js");
}

#[test]
fn path_joining() {
    assert_eq!(join("/a", "b"), "/a/b");
    assert_eq!(join("/a/", "b"), "/a/b");
    assert_eq!(join("", "b"), "b");
    assert_eq!(append("/r", &["view", "base", "web"]), "/r/view/base/web");
}

#[test]
fn text_before_cursor() {
    let at = |line: u32, character: u32| Position { line, character };
    assert_eq!(get_node_text_before_pos("'Some_Mod'", at(2, 4), at(2, 9)), "'Some");
    assert_eq!(get_node_text_before_pos("ab\ncdef\ngh", at(1, 10), at(2, 2)), "ab\ncd");
    assert_eq!(get_node_text_before_pos("ab\ncdef", at(1, 10), at(1, 11)), "a");
    assert_eq!(get_node_text_before_pos("ab\ncd", at(0, 0), at(1, 9)), "ab\ncd");
    assert!(magento2_ls::completion::node_at_position(at(1, 2), at(3, 4), at(2, 0)));
    assert!(!magento2_ls::completion::node_at_position(at(1, 2), at(3, 4), at(1, 1)));
    assert!(!magento2_ls::completion::node_at_position(at(1, 2), at(3, 4), at(3, 5)));
}

#[test]
fn js_completion_item() {
    let at = |line: u32, character: u32| Position { line, character };
    let item = magento2_ls::completion::get_completion_item("'Acme_Mo'", at(3, 16), at(3, 23)).unwrap();
    assert_eq!(item.text, "Acme_M");
    assert_eq!(item.range, Range { start: at(3, 17), end: at(3, 23) });
    assert_eq!(item.kind, magento2_ls::completion::JsCompletionType::Definition);
    assert!(magento2_ls::completion::get_completion_item("'x'", at(3, 16), at(3, 16)).is_none());
}

#[test]
fn completion_labels() {
    assert_eq!(magento2_ls::completion::template_label("Acme_Mod", "a/b.phtml"), "Acme_Mod::a/b.phtml");
    assert_eq!(magento2_ls::completion::script_label(Some("Acme_Mod"), "js/grid.js"), "Acme_Mod/js/grid");
    assert_eq!(magento2_ls::completion::script_label(None, "jquery/ui.min.js"), "jquery/ui.min");
    assert_eq!(magento2_ls::completion::strip_suffix_all("x.js.js", ".js"), "x");
    assert_eq!(magento2_ls::completion::strip_suffix_all("x.js", ""), "x.js");
}
