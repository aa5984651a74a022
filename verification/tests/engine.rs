use storygamer::condition::{ComparisonOp, Condition, Operation};
use storygamer::game::Game;
use storygamer::item::{Item, ItemDef};
use storygamer::story::{
    Link, LinkAction, LinkDest, Page, PageRef, Prompt, StoryGraph,
};
use storygamer::story::LinkTrigger;
use storygamer::variable::{VarType, Variable};
use storygamer::varstore::VarStore;

fn page(id: &str, links: Vec<Link>) -> Page {
    Page::new(id.to_string(), None, "text".to_string(), None, links)
}

fn link(dest: LinkDest, actions: Vec<LinkAction>, triggers: Vec<LinkTrigger>) -> Link {
    Link { text: "go".to_string(), dest, triggers, actions }
}

fn to_page(i: usize) -> LinkDest {
    LinkDest::Page(PageRef::Resolved(i))
}

fn game_with(pages: Vec<Page>, vars: VarStore, defs: Vec<ItemDef>) -> Game {
    Game::new(StoryGraph { pages, entry: 0 }, vars, defs)
}

fn torch_def(max_uses: Option<i32>, effect: LinkAction) -> ItemDef {
    ItemDef { name: "torch".to_string(), description: None, max_uses, effect }
}

#[test]
fn empty_conjunction_is_true_and_empty_disjunction_is_false() {
    let g = game_with(vec![page("start", vec![])], VarStore::new(), vec![]);
    assert!(g.eval_condition(&Condition::And(vec![])));
    assert!(!g.eval_condition(&Condition::Or(vec![])));
}

#[test]
fn negation_complements_child() {
    let g = game_with(vec![page("start", vec![])], VarStore::new(), vec![]);
    assert!(!g.eval_condition(&Condition::Not(Box::new(Condition::And(vec![])))));
}

#[test]
fn comparison_operators_on_integers() {
    let mut vars = VarStore::new();
    vars.insert("hp".to_string(), Variable::Num(7));
    let g = game_with(vec![page("start", vec![])], vars, vec![]);
    let op = |op: ComparisonOp, v: i32| {
        Condition::Op(Operation { name: "hp".to_string(), op, value: Variable::Num(v) })
    };
    assert!(g.eval_condition(&op(ComparisonOp::EQ, 7)));
    assert!(g.eval_condition(&op(ComparisonOp::NEQ, 8)));
    assert!(g.eval_condition(&op(ComparisonOp::GT, 6)));
    assert!(g.eval_condition(&op(ComparisonOp::GTE, 7)));
    assert!(g.eval_condition(&op(ComparisonOp::LT, 8)));
    assert!(g.eval_condition(&op(ComparisonOp::LTE, 7)));
    assert!(!g.eval_condition(&op(ComparisonOp::GT, 7)));
}

#[test]
fn has_item_reflects_holdings() {
    let defs = vec![torch_def(None, LinkAction::SetDest(LinkDest::CurrentPage))];
    let l = link(
        LinkDest::CurrentPage,
        vec![LinkAction::AcquireItem("torch".to_string())],
        vec![],
    );
    let mut g = game_with(vec![page("start", vec![l])], VarStore::new(), defs);
    assert!(!g.eval_condition(&Condition::HasItem("torch".to_string())));
    assert_eq!(g.follow_link(0), None);
    assert!(g.eval_condition(&Condition::HasItem("torch".to_string())));
}

#[test]
fn self_loop_keeps_history_and_arrival_index() {
    let l = link(to_page(0), vec![], vec![]);
    let mut g = game_with(vec![page("start", vec![l])], VarStore::new(), vec![]);
    assert_eq!(g.follow_link(0), None);
    assert_eq!(g.current_page, 0);
    assert_eq!(g.history.len(), 0);
    assert_eq!(g.current_link_idx, None);
}

#[test]
fn previous_on_empty_history_is_a_noop() {
    let l = link(LinkDest::PrevPage, vec![], vec![]);
    let mut g = game_with(vec![page("start", vec![l])], VarStore::new(), vec![]);
    assert_eq!(g.follow_link(0), None);
    assert_eq!(g.current_page, 0);
    assert_eq!(g.current_link_idx, None);
    assert_eq!(g.history.len(), 0);
}

#[test]
fn forward_then_previous_restores_position() {
    let start = page("start", vec![link(to_page(1), vec![], vec![])]);
    let cave = page("cave", vec![link(LinkDest::PrevPage, vec![], vec![])]);
    let mut g = game_with(vec![start, cave], VarStore::new(), vec![]);
    assert_eq!(g.follow_link(0), None);
    assert_eq!(g.current_page, 1);
    assert_eq!(g.current_link_idx, Some(0));
    assert_eq!(g.history.len(), 1);
    assert_eq!(g.follow_link(0), None);
    assert_eq!(g.current_page, 0);
    // going back restores the index of the link once followed to leave
    assert_eq!(g.current_link_idx, Some(0));
    assert_eq!(g.history.len(), 0);
}

#[test]
fn history_entries_record_the_just_followed_link_index() {
    // Two links lead away from the start; following the second must leave
    // behind a history entry carrying index 1.
    let start = page(
        "start",
        vec![link(to_page(1), vec![], vec![]), link(to_page(1), vec![], vec![])],
    );
    let cave = page("cave", vec![]);
    let mut g = game_with(vec![start, cave], VarStore::new(), vec![]);
    assert_eq!(g.follow_link(1), None);
    assert_eq!(g.history.len(), 1);
    assert_eq!(g.history[0].page, 0);
    assert_eq!(g.history[0].link_idx, Some(1));
}

#[test]
fn ending_the_game_keeps_position_and_clears_arrival_index() {
    let start = page("start", vec![link(to_page(1), vec![], vec![])]);
    let cave = page(
        "cave",
        vec![link(LinkDest::EndGame("The end.".to_string()), vec![], vec![])],
    );
    let mut g = game_with(vec![start, cave], VarStore::new(), vec![]);
    assert_eq!(g.follow_link(0), None);
    assert_eq!(g.current_link_idx, Some(0));
    let msg = g.follow_link(0);
    assert_eq!(msg, Some("The end.".to_string()));
    assert_eq!(g.current_page, 1);
    assert_eq!(g.history.len(), 1);
    assert_eq!(g.current_link_idx, None);
}

#[test]
fn set_var_writes_only_declared_variables() {
    let mut vars = VarStore::new();
    vars.insert("mood".to_string(), Variable::Str("calm".to_string()));
    let l = link(
        LinkDest::CurrentPage,
        vec![
            LinkAction::SetVar {
                name: "mood".to_string(),
                value: Variable::Str("angry".to_string()),
            },
            LinkAction::SetVar { name: "ghostly".to_string(), value: Variable::Num(1) },
        ],
        vec![],
    );
    let mut g = game_with(vec![page("start", vec![l])], vars, vec![]);
    assert_eq!(g.follow_link(0), None);
    match g.variables.get(&"mood".to_string()) {
        Some(Variable::Str(s)) => assert_eq!(s, "angry"),
        other => panic!("unexpected value: {:?}", other),
    }
    assert!(g.variables.get(&"ghostly".to_string()).is_none());
}

#[test]
fn mod_num_adds_and_clamps_instead_of_wrapping() {
    let mut vars = VarStore::new();
    vars.insert("hp".to_string(), Variable::Num(5));
    vars.insert("top".to_string(), Variable::Num(i32::MAX));
    vars.insert("bottom".to_string(), Variable::Num(i32::MIN));
    let l = link(
        LinkDest::CurrentPage,
        vec![
            LinkAction::ModNum { name: "hp".to_string(), value: -10 },
            LinkAction::ModNum { name: "top".to_string(), value: 100 },
            LinkAction::ModNum { name: "bottom".to_string(), value: -100 },
        ],
        vec![],
    );
    let mut g = game_with(vec![page("start", vec![l])], vars, vec![]);
    assert_eq!(g.follow_link(0), None);
    match g.variables.get(&"hp".to_string()) {
        Some(Variable::Num(v)) => assert_eq!(*v, -5),
        other => panic!("unexpected value: {:?}", other),
    }
    match g.variables.get(&"top".to_string()) {
        Some(Variable::Num(v)) => assert_eq!(*v, i32::MAX),
        other => panic!("unexpected value: {:?}", other),
    }
    match g.variables.get(&"bottom".to_string()) {
        Some(Variable::Num(v)) => assert_eq!(*v, i32::MIN),
        other => panic!("unexpected value: {:?}", other),
    }
}

#[test]
fn toggle_bool_flips_the_value() {
    let mut vars = VarStore::new();
    vars.insert("lit".to_string(), Variable::Bool(false));
    let l = link(
        LinkDest::CurrentPage,
        vec![LinkAction::ToggleBool("lit".to_string())],
        vec![],
    );
    let mut g = game_with(vec![page("start", vec![l])], vars, vec![]);
    assert_eq!(g.follow_link(0), None);
    match g.variables.get(&"lit".to_string()) {
        Some(Variable::Bool(b)) => assert!(*b),
        other => panic!("unexpected value: {:?}", other),
    }
}

#[test]
fn prompts_queue_in_first_in_first_out_order() {
    let l = link(
        LinkDest::CurrentPage,
        vec![
            LinkAction::Prompt(Prompt { text: "first".to_string(), variable: None }),
            LinkAction::Prompt(Prompt {
                text: "second".to_string(),
                variable: Some("name".to_string()),
            }),
        ],
        vec![],
    );
    let mut vars = VarStore::new();
    vars.insert("name".to_string(), Variable::Str("".to_string()));
    let mut g = game_with(vec![page("start", vec![l])], vars, vec![]);
    assert_eq!(g.follow_link(0), None);
    let p1 = g.pop_prompt().expect("first prompt");
    assert_eq!(p1.text, "first");
    assert_eq!(p1.variable, None);
    let p2 = g.pop_prompt().expect("second prompt");
    assert_eq!(p2.text, "second");
    assert_eq!(p2.variable, Some("name".to_string()));
    assert!(g.pop_prompt().is_none());
}

#[test]
fn answer_prompt_writes_matching_tag_and_rejects_others() {
    let mut vars = VarStore::new();
    vars.insert("name".to_string(), Variable::Str("".to_string()));
    let mut g = game_with(vec![page("start", vec![])], vars, vec![]);
    assert!(g.answer_prompt(&"name".to_string(), Variable::Str("Ada".to_string())).is_ok());
    match g.variables.get(&"name".to_string()) {
        Some(Variable::Str(s)) => assert_eq!(s, "Ada"),
        other => panic!("unexpected value: {:?}", other),
    }
    match g.answer_prompt(&"name".to_string(), Variable::Num(3)) {
        Err(storygamer::errors::Error::BadValueType { expected, .. }) => {
            assert_eq!(expected, VarType::Str)
        }
        other => panic!("expected a bad-value-type rejection, got {:?}", other),
    }
    match g.answer_prompt(&"nope".to_string(), Variable::Num(3)) {
        Err(storygamer::errors::Error::UndeclaredVariable(n)) => assert_eq!(n, "nope"),
        other => panic!("expected an undeclared-variable rejection, got {:?}", other),
    }
}

#[test]
fn acquiring_transfers_wear_from_previous_back_instance() {
    // A torch with three uses; its effect toggles a declared boolean.
    let defs = vec![torch_def(Some(3), LinkAction::ToggleBool("lit".to_string()))];
    let mut vars = VarStore::new();
    vars.insert("lit".to_string(), Variable::Bool(false));
    let acquire = link(
        LinkDest::CurrentPage,
        vec![LinkAction::AcquireItem("torch".to_string())],
        vec![],
    );
    let use_it = link(
        LinkDest::CurrentPage,
        vec![LinkAction::UseItem("torch".to_string())],
        vec![],
    );
    let mut g = game_with(vec![page("start", vec![acquire, use_it])], vars, defs);
    assert_eq!(g.follow_link(0), None); // acquire
    assert_eq!(g.follow_link(1), None); // use: count 1
    assert_eq!(g.follow_link(1), None); // use: count 2
    assert_eq!(g.items.count(&"torch".to_string()), 1);
    assert_eq!(g.items.get_instance(&"torch".to_string(), 0).unwrap().used(), 2);
    assert_eq!(g.follow_link(0), None); // acquire again: wear moves forward
    assert_eq!(g.items.count(&"torch".to_string()), 2);
    let front = g.items.get_instance(&"torch".to_string(), 0).unwrap();
    assert_eq!(front.used(), 0);
    let back = g.items.get_instance(&"torch".to_string(), 1).unwrap();
    assert_eq!(back.used(), 2);
}

#[test]
fn using_an_item_fires_its_effect_each_successful_use() {
    let defs = vec![torch_def(Some(3), LinkAction::ModNum {
        name: "warmth".to_string(),
        value: 1,
    })];
    let mut vars = VarStore::new();
    vars.insert("warmth".to_string(), Variable::Num(0));
    let l = link(
        LinkDest::CurrentPage,
        vec![
            LinkAction::AcquireItem("torch".to_string()),
            LinkAction::UseItem("torch".to_string()),
            LinkAction::UseItem("torch".to_string()),
        ],
        vec![],
    );
    let mut g = game_with(vec![page("start", vec![l])], vars, defs);
    assert_eq!(g.follow_link(0), None);
    match g.variables.get(&"warmth".to_string()) {
        Some(Variable::Num(v)) => assert_eq!(*v, 2),
        other => panic!("unexpected value: {:?}", other),
    }
}

#[test]
fn depleting_use_removes_the_instance_and_its_proposal_wins() {
    // The second use reaches the maximum of two: the instance leaves the
    // stack before the effect runs, and the effect's proposed destination
    // is the one applied.
    let defs = vec![torch_def(Some(2), LinkAction::SetDest(to_page(1)))];
    let l = link(
        LinkDest::CurrentPage,
        vec![
            LinkAction::AcquireItem("torch".to_string()),
            LinkAction::UseItem("torch".to_string()),
            LinkAction::UseItem("torch".to_string()),
        ],
        vec![],
    );
    let start = page("start", vec![l]);
    let cave = page("cave", vec![]);
    let mut g = game_with(vec![start, cave], VarStore::new(), defs);
    assert_eq!(g.follow_link(0), None);
    assert_eq!(g.items.count(&"torch".to_string()), 0);
    assert_eq!(g.current_page, 1);
}

#[test]
fn dropping_removes_the_oldest_instance_first() {
    let defs = vec![torch_def(Some(3), LinkAction::SetDest(LinkDest::CurrentPage))];
    let acquire = link(
        LinkDest::CurrentPage,
        vec![LinkAction::AcquireItem("torch".to_string())],
        vec![],
    );
    let use_then_drop = link(
        LinkDest::CurrentPage,
        vec![
            LinkAction::UseItem("torch".to_string()),
            LinkAction::DropItem("torch".to_string()),
        ],
        vec![],
    );
    let mut g = game_with(
        vec![page("start", vec![acquire, use_then_drop])],
        VarStore::new(),
        defs,
    );
    assert_eq!(g.follow_link(0), None);
    assert_eq!(g.follow_link(0), None);
    // front has one use, back is fresh; dropping removes the worn front
    assert_eq!(g.follow_link(1), None);
    assert_eq!(g.items.count(&"torch".to_string()), 1);
    assert_eq!(g.items.get_instance(&"torch".to_string(), 0).unwrap().used(), 0);
}

#[test]
fn dropping_an_unheld_item_is_a_noop() {
    let defs = vec![torch_def(None, LinkAction::SetDest(LinkDest::CurrentPage))];
    let l = link(
        LinkDest::CurrentPage,
        vec![LinkAction::DropItem("torch".to_string())],
        vec![],
    );
    let mut g = game_with(vec![page("start", vec![l])], VarStore::new(), defs);
    assert_eq!(g.follow_link(0), None);
    assert_eq!(g.items.count(&"torch".to_string()), 0);
}

#[test]
fn last_proposal_wins_across_actions_and_triggers() {
    // Static destination D, an action proposing A, and a later-evaluating
    // trigger (condition true) proposing B: B is applied.
    let l = link(
        to_page(1), // D
        vec![LinkAction::SetDest(to_page(2))], // A
        vec![LinkTrigger {
            condition: Condition::And(vec![]),
            actions: vec![LinkAction::SetDest(to_page(3))], // B
        }],
    );
    let pages = vec![
        page("start", vec![l]),
        page("d", vec![]),
        page("a", vec![]),
        page("b", vec![]),
    ];
    let mut g = game_with(pages, VarStore::new(), vec![]);
    assert_eq!(g.follow_link(0), None);
    assert_eq!(g.current_page, 3);
}

#[test]
fn trigger_with_false_condition_does_not_fire() {
    let l = link(
        to_page(1),
        vec![],
        vec![LinkTrigger {
            condition: Condition::Or(vec![]),
            actions: vec![LinkAction::SetDest(to_page(2))],
        }],
    );
    let pages = vec![page("start", vec![l]), page("d", vec![]), page("b", vec![])];
    let mut g = game_with(pages, VarStore::new(), vec![]);
    assert_eq!(g.follow_link(0), None);
    assert_eq!(g.current_page, 1);
}

#[test]
fn item_counters_report_uses_left() {
    let def = torch_def(Some(3), LinkAction::SetDest(LinkDest::CurrentPage));
    let mut it = Item::new(&def);
    assert_eq!(it.used(), 0);
    assert_eq!(it.uses_left(), Some(3));
    assert_eq!(it.max_uses(), Some(3));
    assert_eq!(it.name(), "torch");
    let moved = it.mod_uses(2);
    assert_eq!(moved, 2);
    assert_eq!(it.used(), 2);
    assert_eq!(it.uses_left(), Some(1));
    // clamped at the maximum
    let moved = it.mod_uses(10);
    assert_eq!(moved, 1);
    assert_eq!(it.used(), 3);
    // and at zero on the way down
    let moved = it.mod_uses(-10);
    assert_eq!(moved, -3);
    assert_eq!(it.used(), 0);
}

#[test]
fn variable_tags_compare_by_kind() {
    assert_eq!(Variable::Num(1).type_(), VarType::Num);
    assert_eq!(Variable::Bool(true).type_(), VarType::Bool);
    assert_eq!(Variable::Str("x".to_string()).type_(), VarType::Str);
    assert!(Variable::Num(1).type_eq(&Variable::Num(9)));
    assert!(!Variable::Num(1).type_eq(&Variable::Bool(false)));
}

#[test]
fn is_parent_path_compares_against_the_parent_directory() {
    assert!(storygamer::utils::is_parent_path(
        &"a/b".to_string(),
        &"a/b/c".to_string()
    ));
    assert!(!storygamer::utils::is_parent_path(
        &"a".to_string(),
        &"a/b/c".to_string()
    ));
    assert!(storygamer::utils::is_parent_path(&"/".to_string(), &"/top".to_string()));
    assert!(storygamer::utils::is_parent_path(&"".to_string(), &"file".to_string()));
    assert!(!storygamer::utils::is_parent_path(&"x".to_string(), &"/".to_string()));
    // trailing separators are dropped before the parent is taken
    assert!(storygamer::utils::is_parent_path(&"a".to_string(), &"a/b/".to_string()));
    assert!(!storygamer::utils::is_parent_path(&"x".to_string(), &"///".to_string()));
}
