use ixgateway::log_admin::{
    lookup_category, verbose_categories_mask_from_request, verbose_category_switch, CategorySwitch, VerboseCategory,
};

fn table() -> Vec<VerboseCategory> {
    vec![
        VerboseCategory { env_name: "session".to_string(), mask: 1 },
        VerboseCategory { env_name: "skill".to_string(), mask: 2 },
        VerboseCategory { env_name: "proxy".to_string(), mask: 4 },
    ]
}

#[test]
fn categories_are_looked_up_as_given_and_reported_normalized() {
    let req = vec!["session".to_string(), "proxy".to_string()];
    assert_eq!(verbose_categories_mask_from_request(&req, &table()), Ok(5));
    assert_eq!(verbose_categories_mask_from_request(&[], &table()), Ok(0));
    let req = vec![" Session ".to_string(), "proxy".to_string()];
    assert_eq!(verbose_categories_mask_from_request(&req, &table()), Err(vec!["session".to_string()]));
}

#[test]
fn category_order_and_repetition_do_not_matter() {
    let a = vec!["skill".to_string(), "session".to_string()];
    let b = vec!["session".to_string(), "skill".to_string(), "session".to_string()];
    assert_eq!(verbose_categories_mask_from_request(&a, &table()), Ok(3));
    assert_eq!(verbose_categories_mask_from_request(&b, &table()), Ok(3));
}

#[test]
fn unknown_categories_are_reported_once_in_order() {
    let req = vec!["bogus".to_string(), "skill".to_string(), " BOGUS".to_string(), "".to_string(), "other".to_string()];
    assert_eq!(
        verbose_categories_mask_from_request(&req, &table()),
        Err(vec!["bogus".to_string(), "".to_string(), "other".to_string()])
    );
}

#[test]
fn lookup_finds_exact_names() {
    assert_eq!(lookup_category(&table(), "skill"), Some(2));
    assert_eq!(lookup_category(&table(), "Skill"), None);
}

#[test]
fn single_category_switches_set_and_clear_its_bit() {
    assert_eq!(verbose_category_switch(&table(), 1, "proxy", CategorySwitch::Enable), Ok(5));
    assert_eq!(verbose_category_switch(&table(), 5, "proxy", CategorySwitch::Enable), Ok(5));
    assert_eq!(verbose_category_switch(&table(), 7, "skill", CategorySwitch::Disable), Ok(5));
    assert_eq!(verbose_category_switch(&table(), 7, "SKILL", CategorySwitch::Disable), Err("skill".to_string()));
    assert_eq!(verbose_category_switch(&table(), 5, "skill", CategorySwitch::Disable), Ok(5));
    assert_eq!(
        verbose_category_switch(&table(), 5, " Bogus ", CategorySwitch::Enable),
        Err("bogus".to_string())
    );
}
