use storygamer::condition::{ComparisonOp, Condition, Operation};
use storygamer::errors::Error;
use storygamer::item::ItemDef;
use storygamer::loader::parse;
use storygamer::settings::{validate_item_defs, LoggingSettings, Settings};
use storygamer::story::{Link, LinkAction, LinkDest, LinkTrigger, Page, PageRef};
use storygamer::variable::{VarType, Variable};
use storygamer::varstore::VarStore;

fn settings_with(
    declared: Vec<&str>,
    variables: VarStore,
    items: Vec<ItemDef>,
    entrypoint: &str,
) -> Settings {
    Settings::new(
        None,
        "A Story".to_string(),
        "stories".to_string(),
        entrypoint.to_string(),
        declared.into_iter().map(|s| s.to_string()).collect(),
        variables,
        items,
        LoggingSettings { base_file_name: None, file_ext: None, level: None },
    )
}

fn page(id: &str, links: Vec<Link>) -> Page {
    Page::new(id.to_string(), None, "text".to_string(), None, links)
}

fn link_to(name: &str) -> Link {
    Link {
        text: "go".to_string(),
        dest: LinkDest::Page(PageRef::Name(name.to_string())),
        triggers: vec![],
        actions: vec![],
    }
}

#[test]
fn loading_resolves_references_and_finds_the_entry_page() {
    let settings = settings_with(
        vec!["start", "cave"],
        VarStore::new(),
        vec![],
        "stories/start.yaml",
    );
    let pages = vec![page("start", vec![link_to("cave")]), page("cave", vec![])];
    let (graph, defs) = parse(&settings, pages).expect("load should succeed");
    assert_eq!(graph.pages.len(), 2);
    assert_eq!(graph.entry, 0);
    assert!(defs.is_empty());
    match &graph.pages[0].links[0].dest {
        LinkDest::Page(PageRef::Resolved(i)) => assert_eq!(*i, 1),
        other => panic!("destination not resolved: {:?}", other),
    }
    // the target records a back-reference to the referring page
    assert_eq!(graph.pages[1].parents, vec![0]);
}

#[test]
fn proposed_destinations_record_back_references_too() {
    let settings = settings_with(
        vec!["start", "cave"],
        VarStore::new(),
        vec![],
        "stories/start.yaml",
    );
    let l = Link {
        text: "go".to_string(),
        dest: LinkDest::CurrentPage,
        triggers: vec![],
        actions: vec![LinkAction::SetDest(LinkDest::Page(PageRef::Name(
            "cave".to_string(),
        )))],
    };
    let pages = vec![page("start", vec![l]), page("cave", vec![])];
    let (graph, _) = parse(&settings, pages).expect("load should succeed");
    assert_eq!(graph.pages[1].parents, vec![0]);
    assert!(graph.pages[0].parents.is_empty());
}

#[test]
fn undeclared_page_id_fails_the_load() {
    let settings = settings_with(vec!["start"], VarStore::new(), vec![], "stories/start.yaml");
    let pages = vec![page("start", vec![]), page("secret", vec![])];
    match parse(&settings, pages) {
        Err(Error::UndeclaredPageID(id)) => assert_eq!(id, "secret"),
        other => panic!("expected an undeclared page ID failure, got {:?}", other),
    }
}

#[test]
fn unresolvable_link_destination_fails_the_load() {
    let settings = settings_with(vec!["start"], VarStore::new(), vec![], "stories/start.yaml");
    let pages = vec![page("start", vec![link_to("nowhere")])];
    match parse(&settings, pages) {
        Err(Error::UndeclaredPageID(id)) => assert_eq!(id, "nowhere"),
        other => panic!("expected an undeclared page ID failure, got {:?}", other),
    }
}

#[test]
fn undeclared_variable_in_an_action_fails_the_load() {
    let settings = settings_with(vec!["start"], VarStore::new(), vec![], "stories/start.yaml");
    let l = Link {
        text: "go".to_string(),
        dest: LinkDest::CurrentPage,
        triggers: vec![],
        actions: vec![LinkAction::SetVar {
            name: "mood".to_string(),
            value: Variable::Num(1),
        }],
    };
    let pages = vec![page("start", vec![l])];
    match parse(&settings, pages) {
        Err(Error::UndeclaredVariable(name)) => assert_eq!(name, "mood"),
        other => panic!("expected an undeclared variable failure, got {:?}", other),
    }
}

#[test]
fn wrong_literal_tag_fails_the_load() {
    let mut vars = VarStore::new();
    vars.insert("hp".to_string(), Variable::Num(10));
    let settings = settings_with(vec!["start"], vars, vec![], "stories/start.yaml");
    let l = Link {
        text: "go".to_string(),
        dest: LinkDest::CurrentPage,
        triggers: vec![],
        actions: vec![LinkAction::SetVar {
            name: "hp".to_string(),
            value: Variable::Bool(true),
        }],
    };
    let pages = vec![page("start", vec![l])];
    match parse(&settings, pages) {
        Err(Error::BadValueType { value, expected }) => {
            assert_eq!(expected, VarType::Num);
            assert!(matches!(value, Variable::Bool(true)));
        }
        other => panic!("expected a bad value type failure, got {:?}", other),
    }
}

#[test]
fn ordering_comparator_on_a_boolean_variable_fails_the_load() {
    let mut vars = VarStore::new();
    vars.insert("lit".to_string(), Variable::Bool(false));
    let settings = settings_with(vec!["start"], vars, vec![], "stories/start.yaml");
    let l = Link {
        text: "go".to_string(),
        dest: LinkDest::CurrentPage,
        triggers: vec![LinkTrigger {
            condition: Condition::Op(Operation {
                name: "lit".to_string(),
                op: ComparisonOp::GT,
                value: Variable::Num(1),
            }),
            actions: vec![],
        }],
        actions: vec![],
    };
    let pages = vec![page("start", vec![l])];
    match parse(&settings, pages) {
        Err(Error::BadVariableType { var_name, var_type, expected }) => {
            assert_eq!(var_name, "lit");
            assert_eq!(var_type, VarType::Bool);
            assert_eq!(expected, VarType::Num);
        }
        other => panic!("expected a bad variable type failure, got {:?}", other),
    }
}

#[test]
fn equality_comparison_across_tags_fails_the_load() {
    let mut vars = VarStore::new();
    vars.insert("hp".to_string(), Variable::Num(10));
    let settings = settings_with(vec!["start"], vars, vec![], "stories/start.yaml");
    let l = Link {
        text: "go".to_string(),
        dest: LinkDest::CurrentPage,
        triggers: vec![LinkTrigger {
            condition: Condition::Op(Operation {
                name: "hp".to_string(),
                op: ComparisonOp::EQ,
                value: Variable::Str("ten".to_string()),
            }),
            actions: vec![],
        }],
        actions: vec![],
    };
    let pages = vec![page("start", vec![l])];
    match parse(&settings, pages) {
        Err(Error::BadValueType { expected, .. }) => assert_eq!(expected, VarType::Num),
        other => panic!("expected a bad value type failure, got {:?}", other),
    }
}

#[test]
fn undeclared_item_fails_the_load() {
    let settings = settings_with(vec!["start"], VarStore::new(), vec![], "stories/start.yaml");
    let l = Link {
        text: "go".to_string(),
        dest: LinkDest::CurrentPage,
        triggers: vec![],
        actions: vec![LinkAction::AcquireItem("lantern".to_string())],
    };
    let pages = vec![page("start", vec![l])];
    match parse(&settings, pages) {
        Err(Error::UndeclaredItem(name)) => assert_eq!(name, "lantern"),
        other => panic!("expected an undeclared item failure, got {:?}", other),
    }
}

#[test]
fn missing_entry_page_is_an_internal_error() {
    let settings = settings_with(vec!["cave"], VarStore::new(), vec![], "stories/start.yaml");
    let pages = vec![page("cave", vec![])];
    match parse(&settings, pages) {
        Err(Error::Internal(_)) => {}
        other => panic!("expected an internal failure, got {:?}", other),
    }
}

#[test]
fn item_effects_are_validated_and_resolved_too() {
    let defs = vec![ItemDef {
        name: "torch".to_string(),
        description: None,
        max_uses: Some(3),
        effect: LinkAction::SetDest(LinkDest::Page(PageRef::Name("cave".to_string()))),
    }];
    let settings = settings_with(
        vec!["start", "cave"],
        VarStore::new(),
        defs,
        "stories/start.yaml",
    );
    let pages = vec![page("start", vec![]), page("cave", vec![])];
    let (_, out_defs) = parse(&settings, pages).expect("load should succeed");
    match &out_defs[0].effect {
        LinkAction::SetDest(LinkDest::Page(PageRef::Resolved(i))) => assert_eq!(*i, 1),
        other => panic!("effect destination not resolved: {:?}", other),
    }
}

#[test]
fn item_effect_with_an_undeclared_variable_fails_the_load() {
    let defs = vec![ItemDef {
        name: "torch".to_string(),
        description: None,
        max_uses: None,
        effect: LinkAction::ToggleBool("lit".to_string()),
    }];
    let settings = settings_with(vec!["start"], VarStore::new(), defs, "stories/start.yaml");
    let pages = vec![page("start", vec![])];
    match parse(&settings, pages) {
        Err(Error::UndeclaredVariable(name)) => assert_eq!(name, "lit"),
        other => panic!("expected an undeclared variable failure, got {:?}", other),
    }
}

#[test]
fn duplicate_page_ids_keep_the_last_parsed_page() {
    let settings = settings_with(vec!["start"], VarStore::new(), vec![], "stories/start.yaml");
    let mut early = page("start", vec![]);
    early.content = "early".to_string();
    let mut late = page("start", vec![]);
    late.content = "late".to_string();
    let (graph, _) = parse(&settings, vec![early, late]).expect("load should succeed");
    assert_eq!(graph.pages.len(), 1);
    assert_eq!(graph.pages[0].content, "late");
}

#[test]
fn entry_page_comes_from_the_entry_file_base_name() {
    let settings = settings_with(
        vec!["start", "cave"],
        VarStore::new(),
        vec![],
        "stories/cave.yaml",
    );
    let pages = vec![page("start", vec![]), page("cave", vec![])];
    let (graph, _) = parse(&settings, pages).expect("load should succeed");
    assert_eq!(graph.entry, 1);
}

fn round_trip_input() -> (Settings, Vec<Page>) {
    let mut vars = VarStore::new();
    vars.insert("hp".to_string(), Variable::Num(3));
    let defs = vec![ItemDef {
        name: "torch".to_string(),
        description: Some("a light".to_string()),
        max_uses: Some(3),
        effect: LinkAction::ModNum { name: "hp".to_string(), value: 1 },
    }];
    let settings = settings_with(
        vec!["start", "cave"],
        vars,
        defs,
        "stories/start.yaml",
    );
    let l = Link {
        text: "down".to_string(),
        dest: LinkDest::Page(PageRef::Name("cave".to_string())),
        triggers: vec![LinkTrigger {
            condition: Condition::HasItem("torch".to_string()),
            actions: vec![LinkAction::SetDest(LinkDest::Page(PageRef::Name(
                "start".to_string(),
            )))],
        }],
        actions: vec![LinkAction::AcquireItem("torch".to_string())],
    };
    let pages = vec![page("start", vec![l]), page("cave", vec![link_to("start")])];
    (settings, pages)
}

#[test]
fn loading_twice_yields_identical_graphs() {
    let (s1, p1) = round_trip_input();
    let (s2, p2) = round_trip_input();
    let (g1, d1) = parse(&s1, p1).expect("first load");
    let (g2, d2) = parse(&s2, p2).expect("second load");
    assert_eq!(g1.entry, g2.entry);
    assert_eq!(g1.pages.len(), g2.pages.len());
    for (a, b) in g1.pages.iter().zip(g2.pages.iter()) {
        assert_eq!(a.id, b.id);
        assert_eq!(a.links.len(), b.links.len());
        assert_eq!(a.parents, b.parents);
        for (la, lb) in a.links.iter().zip(b.links.iter()) {
            assert_eq!(format!("{:?}", la), format!("{:?}", lb));
        }
    }
    assert_eq!(d1.len(), d2.len());
    for (a, b) in d1.iter().zip(d2.iter()) {
        assert_eq!(format!("{:?}", a), format!("{:?}", b));
    }
}

#[test]
fn raw_item_definitions_take_the_name_of_their_key() {
    let raw = vec![(
        "torch".to_string(),
        ItemDef {
            name: "".to_string(),
            description: None,
            max_uses: Some(3),
            effect: LinkAction::SetDest(LinkDest::CurrentPage),
        },
    )];
    let defs = validate_item_defs(&raw).expect("valid definitions");
    assert_eq!(defs.len(), 1);
    assert_eq!(defs[0].name, "torch");
}

#[test]
fn raw_item_definition_with_a_name_field_is_rejected() {
    let raw = vec![(
        "torch".to_string(),
        ItemDef {
            name: "sneaky".to_string(),
            description: None,
            max_uses: None,
            effect: LinkAction::SetDest(LinkDest::CurrentPage),
        },
    )];
    match validate_item_defs(&raw) {
        Err(Error::Unexpected(_)) => {}
        other => panic!("expected a rejection, got {:?}", other),
    }
}

#[test]
fn item_max_uses_out_of_range_is_rejected() {
    for bad in [0i32, -1, 32768] {
        let raw = vec![(
            "torch".to_string(),
            ItemDef {
                name: "".to_string(),
                description: None,
                max_uses: Some(bad),
                effect: LinkAction::SetDest(LinkDest::CurrentPage),
            },
        )];
        match validate_item_defs(&raw) {
            Err(Error::Expected(_)) => {}
            other => panic!("expected a rejection for {}, got {:?}", bad, other),
        }
    }
}

#[test]
fn later_item_definitions_shadow_earlier_ones_of_the_same_name() {
    let mk = |max: i32| ItemDef {
        name: "".to_string(),
        description: None,
        max_uses: Some(max),
        effect: LinkAction::SetDest(LinkDest::CurrentPage),
    };
    let raw = vec![("torch".to_string(), mk(1)), ("torch".to_string(), mk(5))];
    let defs = validate_item_defs(&raw).expect("valid definitions");
    assert_eq!(defs.len(), 1);
    assert_eq!(defs[0].max_uses, Some(5));
}
