use classy::catalog::{Catalog, CatalogTrait};
use classy::class::{Class, ClassTrait};
use classy::get_classes::{reconcile_cache, ClassPage};
use classy::text::{clean, shorten_description, str_eq};

fn sample_class(department: &str, name: &str, number: &str, title: &str) -> Class {
    Class::new(
        String::from(department),
        String::from(name),
        String::from(number),
        String::from(title),
        format!("A course about {title}."),
        String::from("3"),
        String::from(""),
        vec![String::from("Fall")],
        vec![],
        vec![],
        format!("https://example.test/{department}/{number}"),
    )
}

fn sample_catalog() -> Catalog {
    Catalog::new(vec![
        sample_class("MA", "Mathematics", "121", "Differential Calculus"),
        sample_class("CS", "Computer Science", "115", "Intro to Programming"),
        sample_class("CS", "Computer Science", "284", "Data Structures"),
        sample_class("ACC", "Accounting", "200", "Financial Accounting"),
    ])
}

#[test]
fn class_getters_return_the_parts() {
    let c = sample_class("CS", "Computer Science", "115", "Intro to Programming");
    assert_eq!(c.id(), "CS 115");
    assert_eq!(c.department(), "CS");
    assert_eq!(c.department_name(), "Computer Science");
    assert_eq!(c.discriminator(), "115");
    assert_eq!(c.title(), "Intro to Programming");
    assert_eq!(c.description(), "A course about Intro to Programming.");
    assert_eq!(c.credits(), "3");
    assert_eq!(c.prerequisites(), "");
    assert_eq!(c.offered(), vec![String::from("Fall")]);
    assert_eq!(c.cross_listings(), Vec::<String>::new());
    assert_eq!(c.distributions(), Vec::<String>::new());
    assert_eq!(c.url(), "https://example.test/CS/115");
}

#[test]
fn query_by_id_ignores_case_and_punctuation() {
    let catalog = sample_catalog();
    let hit = catalog.query_by_id("cs115").unwrap();
    assert_eq!(hit.id(), "CS 115");
    let hit2 = catalog.query_by_id("  c-s 1.15 ").unwrap();
    assert_eq!(hit2.id(), "CS 115");
    assert!(catalog.query_by_id("cs 999").is_none());
}

#[test]
fn query_by_department_filters_in_order() {
    let catalog = sample_catalog();
    let cs = catalog.query_by_department("cs");
    let ids: Vec<String> = cs.iter().map(|c| c.id()).collect();
    assert_eq!(ids, vec![String::from("CS 115"), String::from("CS 284")]);
}

#[test]
fn empty_department_matches_everything() {
    let catalog = sample_catalog();
    let all = catalog.query_by_department("");
    assert_eq!(all.len(), 4);
}

#[test]
fn departments_come_sorted_and_unique() {
    let catalog = sample_catalog();
    let departments = catalog.departments();
    let got: Vec<(String, String)> = departments;
    assert_eq!(
        got,
        vec![
            (String::from("ACC"), String::from("Accounting")),
            (String::from("CS"), String::from("Computer Science")),
            (String::from("MA"), String::from("Mathematics")),
        ]
    );
}

#[test]
fn department_matches_merge_sorted_without_duplicates() {
    let catalog = sample_catalog();
    let matches = catalog.department_matches(&vec![
        String::from("cs"),
        String::from("ma"),
        String::from("cs"),
    ]);
    let ids: Vec<String> = matches.iter().map(|c| c.id()).collect();
    assert_eq!(ids, vec![String::from("CS 115"), String::from("CS 284"), String::from("MA 121")]);
}

#[test]
fn random_class_picks_a_match_or_nothing() {
    let catalog = sample_catalog();
    let picked = catalog.random_class(&vec![String::from("acc")]).unwrap();
    assert_eq!(picked.id(), "ACC 200");
    assert!(catalog.random_class(&vec![String::from("zz")]).is_none());
    let any = catalog.random_class(&vec![String::from("")]).unwrap();
    assert!(!any.id().is_empty());
}

#[test]
fn clean_uppercases_and_keeps_alphanumerics() {
    assert_eq!(clean("  c-s 1.15 "), "CS115");
    assert_eq!(clean("abC"), "ABC");
    assert_eq!(clean("...!"), "");
}

#[test]
fn str_eq_compares_by_characters() {
    assert!(str_eq("abc", "abc"));
    assert!(!str_eq("abc", "abd"));
    assert!(!str_eq("abc", "ab"));
    assert!(str_eq("", ""));
}

#[test]
fn short_descriptions_are_kept_whole() {
    assert_eq!(shorten_description("a short description"), "a short description");
}

#[test]
fn long_descriptions_break_at_the_last_word() {
    let description = "word ".repeat(28);
    assert_eq!(description.len(), 140);
    let expected = format!("{} ...", "word ".repeat(25) + "word");
    assert_eq!(shorten_description(&description), expected);
}

#[test]
fn long_descriptions_without_spaces_are_cut_hard() {
    let description = "x".repeat(140);
    let expected = format!("{} ...", "x".repeat(131));
    assert_eq!(shorten_description(&description), expected);
}

#[test]
fn reconcile_serves_cached_pages_and_keeps_the_rest() {
    let links = vec![
        String::from("https://example.test/a/"),
        String::from("https://example.test/b/"),
        String::from("https://example.test/c/"),
    ];
    let cache = vec![ClassPage {
        link: String::from("https://example.test/b/"),
        text: String::from("<html>b</html>"),
    }];
    let outcome = reconcile_cache(links, &cache);
    assert!(outcome.missing.is_none());
    assert_eq!(outcome.hits.len(), 1);
    assert_eq!(outcome.hits[0].link, "https://example.test/b/");
    assert_eq!(outcome.hits[0].text, "<html>b</html>");
    assert_eq!(
        outcome.to_fetch,
        vec![String::from("https://example.test/a/"), String::from("https://example.test/c/")]
    );
}

#[test]
fn reconcile_stops_at_the_first_stale_page() {
    let links = vec![String::from("https://example.test/a/")];
    let cache = vec![
        ClassPage { link: String::from("https://example.test/zzz/"), text: String::new() },
        ClassPage { link: String::from("https://example.test/a/"), text: String::new() },
    ];
    let outcome = reconcile_cache(links, &cache);
    assert_eq!(outcome.missing, Some(String::from("https://example.test/zzz/")));
    assert_eq!(outcome.hits.len(), 0);
    assert_eq!(outcome.to_fetch, vec![String::from("https://example.test/a/")]);
}

#[test]
fn first_department_name_wins() {
    let catalog = Catalog::new(vec![
        sample_class("CS", "Computer Science", "115", "Intro to Programming"),
        sample_class("CS", "Computing Sciences", "284", "Data Structures"),
    ]);
    assert_eq!(
        catalog.departments(),
        vec![(String::from("CS"), String::from("Computer Science"))]
    );
}

#[test]
fn empty_catalog_has_no_departments_or_matches() {
    let catalog = Catalog::new(vec![]);
    assert!(catalog.departments().is_empty());
    assert!(catalog.query_by_id("cs 115").is_none());
    assert!(catalog.query_by_department("").is_empty());
    assert!(catalog.random_class(&vec![String::from("")]).is_none());
}

#[test]
fn duplicated_classes_keep_every_field() {
    let c = sample_class("MA", "Mathematics", "121", "Differential Calculus");
    let d = c.duplicate();
    assert_eq!(d.id(), c.id());
    assert_eq!(d.department_name(), c.department_name());
    assert_eq!(d.description(), c.description());
    assert_eq!(d.offered(), c.offered());
    assert_eq!(d.url(), c.url());
}
