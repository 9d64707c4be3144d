use libx::locale::{Components, Locale};
use libx::utils::{get_env_var, variable_name};

#[test]
fn locale_keeps_its_identifier() {
    let locale = Locale::new(String::from("de_DE"));
    assert_eq!(locale.identifier(), "de_DE");
    assert_eq!(locale, Locale::new(String::from("de_DE")));
}

#[test]
fn current_locale_is_lang_before_the_full_stop() {
    assert_eq!(
        Locale::current(Some(String::from("en_GB.UTF-8"))).identifier(),
        "en_GB"
    );
    assert_eq!(Locale::current(Some(String::from("C"))).identifier(), "C");
    assert_eq!(Locale::current(Some(String::from(""))).identifier(), "");
    assert_eq!(Locale::current(Some(String::from(".utf8"))).identifier(), "");
    assert_eq!(
        Locale::current(Some(String::from("a.b.c"))).identifier(),
        "a"
    );
    assert_eq!(Locale::current(None).identifier(), "en_US");
}

#[test]
fn currency_codes_are_listed_in_order() {
    let codes = Locale::common_iso_currency_codes();
    assert_eq!(codes.len(), 304);
    assert_eq!(codes[0], "ADP");
    assert_eq!(codes[1], "AED");
    assert_eq!(codes[93], "EUR");
    assert_eq!(codes[303], "ZWR");
    assert!(codes.iter().any(|code| code == "USD"));
    assert!(codes.iter().all(|code| code.len() == 3));
    let mut sorted = codes.clone();
    sorted.sort();
    sorted.dedup();
    assert_eq!(sorted, codes);
}

#[test]
fn identifier_from_pairs_joins_with_semicolons() {
    assert_eq!(Locale::identifier_from_pairs(&vec![]), "@");
    assert_eq!(
        Locale::identifier_from_pairs(&vec![(String::from("calendar"), String::from("gregorian"))]),
        "@calendar=gregorian"
    );
    assert_eq!(
        Locale::identifier_from_pairs(&vec![
            (String::from("a"), String::from("1")),
            (String::from("b"), String::from("2")),
            (String::from("c"), String::from("")),
        ]),
        "@a=1;b=2;c="
    );
}

#[test]
fn identifier_from_components_names_every_component() {
    assert_eq!(Locale::identifier_from_components(Components::new()), "@");
    let mut one = Components::new();
    assert_eq!(one.insert(String::from("currency"), String::from("EUR")), None);
    assert_eq!(Locale::identifier_from_components(one), "@currency=EUR");
    let mut two = Components::new();
    two.insert(String::from("currency"), String::from("EUR"));
    two.insert(String::from("calendar"), String::from("gregorian"));
    assert_eq!(
        two.insert(String::from("currency"), String::from("USD")),
        Some(String::from("EUR"))
    );
    let mut pairs = two.pairs();
    pairs.sort();
    assert_eq!(
        pairs,
        vec![
            (String::from("calendar"), String::from("gregorian")),
            (String::from("currency"), String::from("USD")),
        ]
    );
    let identifier = Locale::identifier_from_components(two);
    assert!(
        identifier == "@currency=USD;calendar=gregorian"
            || identifier == "@calendar=gregorian;currency=USD"
    );
}

#[test]
fn env_var_with_a_value_in_its_name() {
    assert_eq!(variable_name("LANG"), "LANG");
    assert_eq!(variable_name("LANG=de_DE"), "LANG");
    assert_eq!(variable_name("=x"), "");
    assert_eq!(variable_name("A=B=C"), "A");
    assert_eq!(get_env_var("LANG", None), None);
    assert_eq!(
        get_env_var("LANG", Some(String::from("en_US.UTF-8"))),
        Some(String::from("en_US.UTF-8"))
    );
    assert_eq!(
        get_env_var("LANG=de_DE", Some(String::from("en_US"))),
        Some(String::from("de_DE"))
    );
    assert_eq!(get_env_var("LANG=", Some(String::from("en_US"))), None);
    assert_eq!(get_env_var("A=B=C", None), Some(String::from("B=C")));
    assert_eq!(get_env_var("", Some(String::from("x"))), Some(String::from("x")));
}
