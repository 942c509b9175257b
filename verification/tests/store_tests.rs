use menuapi::model::{Availability, Item, Menu, Restaurant, Section, Settings};
use menuapi::price::Price;
use menuapi::render::render;
use menuapi::store::{MenuError, MenuStore};

fn menu(id: &str, name: &str) -> Menu {
    Menu {
        id: id.to_string(),
        restaurant: Restaurant {
            name: name.to_string(),
            address: "2 Side St".to_string(),
            phone: "555".to_string(),
            website: String::new(),
            currency: "EUR".to_string(),
            note: String::new(),
        },
        settings: Settings { price_decimals: 2, show_tags: true, show_descriptions: true },
        sections: vec![Section {
            id: "s".to_string(),
            title: "Mains".to_string(),
            note: String::new(),
            items: vec![Item {
                id: "i".to_string(),
                name: "Pie".to_string(),
                description: "Warm".to_string(),
                price: Price::parse("12.5").unwrap(),
                tags: vec!["new".to_string()],
                available: Availability::Unset,
            }],
        }],
    }
}

#[test]
fn new_store_is_empty() {
    let store = MenuStore::new();
    assert!(store.get("m1").is_none());
    assert!(store.get("").is_none());
}

#[test]
fn put_then_get_gives_the_document() {
    let mut store = MenuStore::new();
    store.put(menu("m1", "One"));
    assert_eq!(store.get("m1"), Some(&menu("m1", "One")));
    assert!(store.get("m2").is_none());
}

#[test]
fn repeated_put_is_idempotent() {
    let mut store = MenuStore::new();
    store.put(menu("m1", "One"));
    store.put(menu("m1", "One"));
    store.put(menu("m1", "One"));
    assert_eq!(store.get("m1"), Some(&menu("m1", "One")));
}

#[test]
fn put_replaces_the_whole_document() {
    let mut store = MenuStore::new();
    store.put(menu("m1", "One"));
    store.put(menu("m2", "Two"));
    let mut changed = menu("m1", "Uno");
    changed.sections.clear();
    store.put(changed.clone());
    assert_eq!(store.get("m1"), Some(&changed));
    assert_eq!(store.get("m2"), Some(&menu("m2", "Two")));
}

#[test]
fn put_takes_an_empty_identifier() {
    let mut store = MenuStore::new();
    store.put(menu("", "Nameless"));
    assert_eq!(store.get(""), Some(&menu("", "Nameless")));
}

#[test]
fn identifiers_are_told_apart_exactly() {
    let mut store = MenuStore::new();
    store.put(menu("menu", "One"));
    assert!(store.get("Menu").is_none());
    assert!(store.get("menu ").is_none());
    assert!(store.get("men").is_none());
    assert!(store.get("menu").is_some());
}

#[test]
fn submit_turns_down_an_empty_identifier() {
    let mut store = MenuStore::new();
    assert_eq!(store.submit(menu("", "Nameless")), Err(MenuError::Validation));
    assert!(store.get("").is_none());
    assert_eq!(store.submit(menu("m1", "One")), Ok(()));
    assert_eq!(store.get("m1"), Some(&menu("m1", "One")));
}

#[test]
fn fetch_unknown_identifier_is_not_found() {
    let mut store = MenuStore::new();
    assert_eq!(store.fetch("m1"), Err(MenuError::NotFound));
    store.put(menu("m2", "Two"));
    assert_eq!(store.fetch("m1"), Err(MenuError::NotFound));
    assert_eq!(store.fetch(""), Err(MenuError::NotFound));
}

#[test]
fn fetch_renders_the_stored_document() {
    let mut store = MenuStore::new();
    store.put(menu("m1", "One"));
    let page = store.fetch("m1").unwrap();
    assert_eq!(page, render(&menu("m1", "One")));
    assert!(page.starts_with("<!doctype html>"));
    assert!(page.contains("<title>One</title>"));
    assert!(page.contains("<div class=\"price\">12.50</div>"));
    assert!(page.contains("  <div class=\"meta\">2 Side St · 555</div>\n"));
    store.put(menu("m1", "Uno"));
    assert!(store.fetch("m1").unwrap().contains("<title>Uno</title>"));
}

#[test]
fn error_messages() {
    assert_eq!(MenuError::NotFound.message(), "not found");
    assert_eq!(MenuError::Validation.message(), "identifier must not be empty");
}

#[test]
fn identifier_presence() {
    assert!(menu("m1", "One").has_identifier());
    assert!(!menu("", "Nameless").has_identifier());
}

#[test]
fn stored_document_carries_the_identifier_asked_for() {
    let mut store = MenuStore::new();
    store.put(menu("a", "A"));
    store.put(menu("b", "B"));
    store.put(menu("a", "A2"));
    assert_eq!(store.get("a").unwrap().id, "a");
    assert_eq!(store.get("a").unwrap().restaurant.name, "A2");
    assert_eq!(store.get("b").unwrap().id, "b");
}
