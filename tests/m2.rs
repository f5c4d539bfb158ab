use magento2_ls::m2::{append_ext, has_components, is_part_of_class_name, is_part_of_module_name};

#[test]
fn m2_test_has_components_when_components_in_the_middle() {
    let path = "app/code/Magento/Checkout/Block/Cart.php";
    assert!(has_components(path, &["Magento", "Checkout"]));
}

#[test]
fn m2_test_has_components_when_components_at_start() {
    let path = "app/code/Magento/Checkout/Block/Cart.php";
    assert!(has_components(path, &["app", "code"]));
}

#[test]
fn m2_test_has_components_when_components_at_end() {
    let path = "app/code/Magento/Checkout/Block/Cart.php";
    assert!(has_components(path, &["Block", "Cart.php"]));
}

#[test]
fn m2_test_has_components_when_components_are_not_in_order() {
    let path = "app/code/Magento/Checkout/Block/Cart.php";
    assert!(!has_components(path, &["Checkout", "Cart.php"]));
}

#[test]
fn test_if_extention_can_be_add_with_append() {
    let path = "app/code/Magento/Checkout/Block/Cart";
    assert_eq!(append_ext(path, "php"), "app/code/Magento/Checkout/Block/Cart.php");
}

#[test]
fn test_is_part_of_class_name_when_module_name() {
    assert!(!is_part_of_class_name("Some_Module"));
}

#[test]
fn test_is_part_of_class_name_when_module_class() {
    assert!(is_part_of_class_name("Some\\Module"));
}

#[test]
fn test_is_part_of_class_name_when_only_one_letter() {
    assert!(is_part_of_class_name("N"));
}

#[test]
fn test_is_part_of_module_name_when_module_name() {
    assert!(is_part_of_module_name("Some_Module"));
}

#[test]
fn test_is_part_of_module_name_when_module_class() {
    assert!(!is_part_of_module_name("Some\\Module"));
}

#[test]
fn test_is_part_of_module_name_when_only_one_letter() {
    assert!(is_part_of_module_name("N"));
}

#[test]
fn m2_types_test_has_components_when_components_in_the_middle() {
    let path = "app/code/Magento/Checkout/Block/Cart.php";
    assert!(has_components(path, &["Magento", "Checkout"]));
}

#[test]
fn m2_types_test_has_components_when_components_at_start() {
    let path = "app/code/Magento/Checkout/Block/Cart.php";
    assert!(has_components(path, &["app", "code"]));
}

#[test]
fn m2_types_test_has_components_when_components_at_end() {
    let path = "app/code/Magento/Checkout/Block/Cart.php";
    assert!(has_components(path, &["Block", "Cart.php"]));
}

#[test]
fn m2_types_test_has_components_when_components_are_not_in_order() {
    let path = "app/code/Magento/Checkout/Block/Cart.php";
    assert!(!has_components(path, &["Checkout", "Cart.php"]));
}
