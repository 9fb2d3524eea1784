use kitchn::ingredient::{Ingredient, IngredientManifest};
use kitchn::store::Pantry;

fn create_ingredient(name: &str) -> Ingredient {
    Ingredient {
        meta: IngredientManifest {
            name: name.to_string(),
            version: "1.0.0".to_string(),
            authors: vec![],
            description: "".to_string(),
            repository: None,
            license: None,
            ignored: false,
        },
        templates: vec![],
        files: vec![],
        hooks: Default::default(),
    }
}

#[test]
fn db_tests_test_install_remove() {
    let mut db = Pantry::new("pantry.db".to_string());

    db.store(create_ingredient("obsolete")).unwrap();
    assert_eq!(db.list().len(), 1);

    let removed = db.discard("obsolete");
    assert!(removed.is_some());
    assert_eq!(db.list().len(), 0);

    assert!(db.discard("ghost").is_none());
}

#[test]
fn db_tests_test_update_fragment() {
    let mut db = Pantry::new("pantry.db".to_string());

    let mut f1 = create_ingredient("app");
    f1.meta.version = "1.0.0".to_string();
    db.store(f1).unwrap();

    assert_eq!(db.list()[0].meta.version, "1.0.0");

    let mut f2 = create_ingredient("app");
    f2.meta.version = "2.0.0".to_string();
    db.store(f2).unwrap();

    assert_eq!(db.list()[0].meta.version, "2.0.0");
}

#[test]
fn store_upsert_keeps_one_record() {
    let mut db = Pantry::new("p".to_string());
    let mut f1 = create_ingredient("same");
    f1.meta.description = "first".to_string();
    let mut f2 = create_ingredient("same");
    f2.meta.description = "second".to_string();
    db.store(f1).unwrap();
    db.store(f2).unwrap();
    assert_eq!(db.list().len(), 1);
    assert_eq!(db.list()[0].meta.description, "second");
    let before = db.list().len();
    assert!(db.discard("absent").is_none());
    assert_eq!(db.list().len(), before);
}

#[test]
fn list_is_in_name_order() {
    let mut db = Pantry::new("p".to_string());
    for n in ["theme_dark", "icon_pack", "Zed", "alpha", "icon"] {
        db.store(create_ingredient(n)).unwrap();
    }
    let names: Vec<String> = db.list().iter().map(|i| i.meta.name.clone()).collect();
    assert_eq!(names, vec!["Zed", "alpha", "icon", "icon_pack", "theme_dark"]);
    let iterated: Vec<String> = db.iter().map(|i| i.meta.name.clone()).collect();
    assert_eq!(iterated, names);
    assert_eq!(db.get("icon").unwrap().meta.name, "icon");
    assert!(db.get("nope").is_none());
    assert_eq!(db.discard("alpha").unwrap().meta.name, "alpha");
    assert_eq!(db.list().len(), 4);
    db.clean();
    assert!(db.list().is_empty());
    assert_eq!(db.path(), "p");
}

#[test]
fn list_holds_every_stored_ingredient_once() {
    let mut db = Pantry::new("p".to_string());
    for n in ["b", "a", "c", "a"] {
        db.store(create_ingredient(n)).unwrap();
    }
    let names: Vec<String> = db.list().iter().map(|i| i.meta.name.clone()).collect();
    assert_eq!(names, vec!["a", "b", "c"]);
}
