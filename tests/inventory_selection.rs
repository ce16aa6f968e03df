use plugin_interface::inventory::factories_for;
use plugin_interface::PluginTrait;

#[test]
fn factories_of_the_trait_are_selected_in_order() {
    let names = vec!["Greeter".to_string(), "Other".to_string(), "Greeter".to_string()];
    assert_eq!(factories_for(&names, PluginTrait::Greeter), Some(vec![0, 2]));
}

#[test]
fn no_matching_factory_gives_none() {
    let names = vec!["Other".to_string(), "greeter".to_string()];
    assert_eq!(factories_for(&names, PluginTrait::Greeter), None);
    assert_eq!(factories_for(&vec![], PluginTrait::Greeter), None);
}
