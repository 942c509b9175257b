use menuapi::escape::escape_html;
use menuapi::model::{Availability, Item, Menu, Restaurant, Section, Settings};
use menuapi::price::Price;
use menuapi::render::{
    contact_line, header, item_row, note_line, render, section_block, stylesheet,
};

fn restaurant(address: &str, phone: &str, website: &str, note: &str) -> Restaurant {
    Restaurant {
        name: "Chez <Max>".to_string(),
        address: address.to_string(),
        phone: phone.to_string(),
        website: website.to_string(),
        currency: "EUR".to_string(),
        note: note.to_string(),
    }
}

fn settings(price_decimals: u8, show_tags: bool, show_descriptions: bool) -> Settings {
    Settings { price_decimals, show_tags, show_descriptions }
}

fn item(name: &str, description: &str, price: &str, tags: &[&str], flag: Option<bool>) -> Item {
    Item {
        id: format!("id-{}", name),
        name: name.to_string(),
        description: description.to_string(),
        price: Price::parse(price).unwrap(),
        tags: tags.iter().map(|t| t.to_string()).collect(),
        available: Availability::from_flag(flag),
    }
}

fn sample_menu() -> Menu {
    Menu {
        id: "m1".to_string(),
        restaurant: restaurant("1 Main St", "", "example.com", "Open daily"),
        settings: settings(2, true, true),
        sections: vec![
            Section {
                id: "s1".to_string(),
                title: "Starters".to_string(),
                note: String::new(),
                items: vec![
                    item("Soup", "Hot & fresh", "9.5", &["vegan", "gf"], None),
                    item("Hidden", "Secret", "1", &["x"], Some(false)),
                ],
            },
            Section {
                id: "s2".to_string(),
                title: "Empty".to_string(),
                note: "Coming soon".to_string(),
                items: vec![],
            },
        ],
    }
}

fn page_open(name: &str) -> String {
    format!(
        "<!doctype html><html><head>\n<meta charset=\"utf-8\"><meta name=\"viewport\" content=\"width=device-width,initial-scale=1\">\n<title>{}</title>\n<style>{}</style>\n</head><body><main class=\"right\"><section class=\"menu\" id=\"preview\">\n",
        name,
        stylesheet()
    )
}

#[test]
fn escape_replaces_the_five_markup_characters() {
    assert_eq!(
        escape_html("<a href=\"x\">Tom & Jerry's</a>"),
        "&lt;a href=&quot;x&quot;&gt;Tom &amp; Jerry&#x27;s&lt;/a&gt;"
    );
}

#[test]
fn escape_keeps_everything_else() {
    assert_eq!(escape_html(""), "");
    assert_eq!(escape_html("Café · 日本語 #1!"), "Café · 日本語 #1!");
    assert_eq!(escape_html("&&"), "&amp;&amp;");
}

#[test]
fn stylesheet_is_embedded_whole() {
    let css = stylesheet();
    assert!(css.starts_with(":root { --bg:#fff;"));
    assert!(css.ends_with(".tag{border:1px solid #e5e5e5;border-radius:999px;font-size:10px;padding:2px 6px;color:#666}"));
    assert_eq!(css.lines().count(), 5);
    assert_eq!(escape_html(css), css);
}

#[test]
fn contact_line_absent_when_all_three_are_empty() {
    assert_eq!(contact_line(&restaurant("", "", "", "a note")), "");
    let top = header(&restaurant("", "", "", ""));
    assert_eq!(
        top,
        "<header>\n  <h1 style=\"font-size:28px; margin:0;\">Chez &lt;Max&gt;</h1>\n</header>\n"
    );
}

#[test]
fn contact_line_without_phone_has_one_separator() {
    assert_eq!(
        contact_line(&restaurant("1 Main St", "", "example.com", "")),
        "  <div class=\"meta\">1 Main St · example.com</div>\n"
    );
}

#[test]
fn contact_line_in_every_combination() {
    let line = |a: &str, p: &str, w: &str| contact_line(&restaurant(a, p, w, ""));
    assert_eq!(line("A", "P", "W"), "  <div class=\"meta\">A · P · W</div>\n");
    assert_eq!(line("A", "P", ""), "  <div class=\"meta\">A · P</div>\n");
    assert_eq!(line("", "P", "W"), "  <div class=\"meta\">P · W</div>\n");
    assert_eq!(line("A", "", ""), "  <div class=\"meta\">A</div>\n");
    assert_eq!(line("", "P", ""), "  <div class=\"meta\">P</div>\n");
    assert_eq!(line("", "", "W"), "  <div class=\"meta\">W</div>\n");
    assert_eq!(line("A&B", "", "<W>"), "  <div class=\"meta\">A&amp;B · &lt;W&gt;</div>\n");
}

#[test]
fn note_line_only_for_a_note() {
    assert_eq!(note_line(""), "");
    assert_eq!(note_line("Cash only"), "  <div class=\"meta\">Cash only</div>\n");
    assert_eq!(note_line("a<b"), "  <div class=\"meta\">a&lt;b</div>\n");
}

#[test]
fn header_with_contact_and_note() {
    assert_eq!(
        header(&restaurant("1 Main St", "555", "", "Open daily")),
        "<header>\n  <h1 style=\"font-size:28px; margin:0;\">Chez &lt;Max&gt;</h1>\n  <div class=\"meta\">1 Main St · 555</div>\n  <div class=\"meta\">Open daily</div>\n</header>\n"
    );
}

#[test]
fn item_row_with_everything() {
    let row = item_row(
        &settings(2, true, true),
        &item("Soup", "Hot & fresh", "9.5", &["vegan", "gf"], None),
    );
    assert_eq!(
        row,
        "    <div class=\"item\">\n      <div>\n        <div class=\"name\">Soup</div>\n        <div class=\"desc\">Hot &amp; fresh</div>\n        <div class=\"tags\"><span class=\"tag\">vegan</span><span class=\"tag\">gf</span></div>\n      </div>\n      <div class=\"price\">9.50</div>\n    </div>\n"
    );
}

#[test]
fn item_row_plain() {
    let row = item_row(&settings(0, true, true), &item("Tea", "", "9.5", &[], Some(true)));
    assert_eq!(
        row,
        "    <div class=\"item\">\n      <div>\n        <div class=\"name\">Tea</div>\n      </div>\n      <div class=\"price\">10</div>\n    </div>\n"
    );
}

#[test]
fn unavailable_item_has_no_row() {
    for tags in [true, false] {
        for descriptions in [true, false] {
            let s = settings(2, tags, descriptions);
            assert_eq!(item_row(&s, &item("Soup", "Hot", "9.5", &["v"], Some(false))), "");
            assert!(item_row(&s, &item("Soup", "Hot", "9.5", &["v"], Some(true))).contains("Soup"));
            assert!(item_row(&s, &item("Soup", "Hot", "9.5", &["v"], None)).contains("Soup"));
        }
    }
}

#[test]
fn descriptions_switched_off() {
    let mut menu = sample_menu();
    menu.settings.show_descriptions = false;
    let page = render(&menu);
    assert!(!page.contains("Hot &amp; fresh"));
    assert!(!page.contains("class=\"desc\""));
    assert!(page.contains("<span class=\"tag\">vegan</span>"));
    let mut bare = menu.clone();
    for section in bare.sections.iter_mut() {
        for it in section.items.iter_mut() {
            it.description = String::new();
        }
    }
    assert_eq!(render(&bare), page);
}

#[test]
fn tags_switched_off() {
    let mut menu = sample_menu();
    menu.settings.show_tags = false;
    let page = render(&menu);
    assert!(!page.contains("vegan"));
    assert!(!page.contains("class=\"tags\""));
    assert!(page.contains("Hot &amp; fresh"));
    let mut bare = menu.clone();
    for section in bare.sections.iter_mut() {
        for it in section.items.iter_mut() {
            it.tags.clear();
        }
    }
    assert_eq!(render(&bare), page);
}

#[test]
fn empty_section_has_title_and_note_only() {
    let s = settings(2, true, true);
    let with_note = Section {
        id: "s".to_string(),
        title: "Specials".to_string(),
        note: "Ask us".to_string(),
        items: vec![],
    };
    assert_eq!(
        section_block(&s, &with_note),
        "  <h2>Specials</h2>\n  <div class=\"meta\">Ask us</div>\n"
    );
    let bare = Section { note: String::new(), ..with_note };
    assert_eq!(section_block(&s, &bare), "  <h2>Specials</h2>\n");
}

#[test]
fn section_of_hidden_items_only_has_no_rows() {
    let s = settings(2, true, true);
    let section = Section {
        id: "s".to_string(),
        title: "Gone".to_string(),
        note: String::new(),
        items: vec![item("A", "", "1", &[], Some(false)), item("B", "", "2", &[], Some(false))],
    };
    assert_eq!(section_block(&s, &section), "  <h2>Gone</h2>\n");
}

#[test]
fn section_keeps_the_order_of_its_items() {
    let s = settings(1, false, false);
    let section = Section {
        id: "s".to_string(),
        title: "T".to_string(),
        note: String::new(),
        items: vec![
            item("B", "", "2", &[], None),
            item("X", "", "3", &[], Some(false)),
            item("A", "", "1", &[], Some(true)),
        ],
    };
    let want = format!(
        "  <h2>T</h2>\n{}{}",
        item_row(&s, &section.items[0]),
        item_row(&s, &section.items[2])
    );
    assert_eq!(section_block(&s, &section), want);
    assert!(want.find("\"name\">B<").unwrap() < want.find("\"name\">A<").unwrap());
}

#[test]
fn whole_page() {
    let want = format!(
        "{}{}{}{}{}",
        page_open("Chez &lt;Max&gt;"),
        "<header>\n  <h1 style=\"font-size:28px; margin:0;\">Chez &lt;Max&gt;</h1>\n  <div class=\"meta\">1 Main St · example.com</div>\n  <div class=\"meta\">Open daily</div>\n</header>\n",
        "  <h2>Starters</h2>\n    <div class=\"item\">\n      <div>\n        <div class=\"name\">Soup</div>\n        <div class=\"desc\">Hot &amp; fresh</div>\n        <div class=\"tags\"><span class=\"tag\">vegan</span><span class=\"tag\">gf</span></div>\n      </div>\n      <div class=\"price\">9.50</div>\n    </div>\n",
        "  <h2>Empty</h2>\n  <div class=\"meta\">Coming soon</div>\n",
        "</section></main></body></html>\n"
    );
    assert_eq!(render(&sample_menu()), want);
}

#[test]
fn menu_without_sections_is_shell_and_header() {
    let mut menu = sample_menu();
    menu.sections.clear();
    let want = format!(
        "{}{}{}",
        page_open("Chez &lt;Max&gt;"),
        header(&menu.restaurant),
        "</section></main></body></html>\n"
    );
    assert_eq!(render(&menu), want);
}

#[test]
fn render_twice_gives_the_same_bytes() {
    let menu = sample_menu();
    let first = render(&menu);
    let second = render(&menu);
    assert_eq!(first.as_bytes(), second.as_bytes());
    assert_eq!(render(&menu.clone()), first);
}

#[test]
fn render_takes_all_fields_empty() {
    let menu = Menu {
        id: String::new(),
        restaurant: Restaurant {
            name: String::new(),
            address: String::new(),
            phone: String::new(),
            website: String::new(),
            currency: String::new(),
            note: String::new(),
        },
        settings: settings(0, true, true),
        sections: vec![Section {
            id: String::new(),
            title: String::new(),
            note: String::new(),
            items: vec![Item {
                id: String::new(),
                name: String::new(),
                description: String::new(),
                price: Price::new(0, 0).unwrap(),
                tags: vec![],
                available: Availability::Unset,
            }],
        }],
    };
    let want = format!(
        "{}{}{}{}",
        page_open(""),
        "<header>\n  <h1 style=\"font-size:28px; margin:0;\"></h1>\n</header>\n",
        "  <h2></h2>\n    <div class=\"item\">\n      <div>\n        <div class=\"name\"></div>\n      </div>\n      <div class=\"price\">0</div>\n    </div>\n",
        "</section></main></body></html>\n"
    );
    assert_eq!(render(&menu), want);
}

#[test]
fn currency_has_no_effect() {
    let mut other = sample_menu();
    other.restaurant.currency = "USD".to_string();
    assert_eq!(render(&other), render(&sample_menu()));
}

#[test]
fn availability_flags() {
    assert_eq!(Availability::from_flag(None), Availability::Unset);
    assert_eq!(Availability::from_flag(Some(true)), Availability::Available);
    assert_eq!(Availability::from_flag(Some(false)), Availability::Unavailable);
    assert_eq!(Availability::Unset.to_flag(), None);
    assert_eq!(Availability::Available.to_flag(), Some(true));
    assert_eq!(Availability::Unavailable.to_flag(), Some(false));
    assert!(Availability::Unset.shown());
    assert!(Availability::Available.shown());
    assert!(!Availability::Unavailable.shown());
}
