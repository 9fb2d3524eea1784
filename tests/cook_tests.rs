use kitchn::cook::{execute, CookAction, CookRun, CookTally};
use kitchn::ingredient::{Hooks, Ingredient, IngredientManifest};
use kitchn::store::Pantry;

fn ingredient(name: &str, ignored: bool, hook: Option<&str>) -> Ingredient {
    Ingredient {
        meta: IngredientManifest {
            name: name.to_string(),
            version: "0.1".to_string(),
            authors: vec!["test".to_string()],
            description: "test".to_string(),
            repository: None,
            license: None,
            ignored,
        },
        templates: vec![],
        files: vec![],
        hooks: Hooks {
            reload: hook.map(|h| h.to_string()),
        },
    }
}

fn run(pantry: &Pantry, outcomes: &[bool]) -> (Vec<String>, CookTally) {
    let list = pantry.list();
    let mut state = CookRun::start(&list);
    let mut applied = Vec::new();
    let mut last = None;
    let mut next_outcome = outcomes.iter();
    loop {
        match execute(&mut state, last) {
            CookAction::Apply(i) => {
                applied.push(list[i].meta.name.clone());
                last = Some(*next_outcome.next().unwrap());
            }
            CookAction::Done(t) => return (applied, t),
        }
    }
}

#[test]
fn ignored_ingredient_is_skipped() {
    let mut p = Pantry::new("p".to_string());
    p.store(ingredient("b_theme", false, None)).unwrap();
    p.store(ingredient("a_off", true, None)).unwrap();
    let (applied, tally) = run(&p, &[true]);
    assert_eq!(applied, vec!["b_theme".to_string()]);
    assert_eq!(
        tally,
        CookTally { total: 2, applied: 1, skipped: 1, hook_failed: 0 }
    );
}

#[test]
fn failed_hook_is_counted_not_fatal() {
    let mut p = Pantry::new("p".to_string());
    p.store(ingredient("fails", false, Some("false"))).unwrap();
    p.store(ingredient("works", false, Some("true"))).unwrap();
    let (applied, tally) = run(&p, &[false, true]);
    assert_eq!(applied, vec!["fails".to_string(), "works".to_string()]);
    assert_eq!(
        tally,
        CookTally { total: 2, applied: 2, skipped: 0, hook_failed: 1 }
    );
}

#[test]
fn empty_pantry_is_done_at_once() {
    let p = Pantry::new("p".to_string());
    let (applied, tally) = run(&p, &[]);
    assert!(applied.is_empty());
    assert_eq!(
        tally,
        CookTally { total: 0, applied: 0, skipped: 0, hook_failed: 0 }
    );
}

#[test]
fn stepwise_driver() {
    let mut p = Pantry::new("p".to_string());
    p.store(ingredient("x", true, None)).unwrap();
    p.store(ingredient("y", true, None)).unwrap();
    p.store(ingredient("z", false, None)).unwrap();
    let list = p.list();
    let mut state = CookRun::start(&list);
    assert_eq!(state.next(), CookAction::Apply(2));
    state.record(true);
    assert_eq!(
        state.next(),
        CookAction::Done(CookTally { total: 3, applied: 1, skipped: 2, hook_failed: 0 })
    );
    assert_eq!(state.tally().skipped, 2);
}
