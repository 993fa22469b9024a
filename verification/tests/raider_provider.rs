use localtools::raider::provider::{
    build_catalog, provider_refresh_actions, ModelRef, ProviderAction, ProviderList, WireModel, WireProvider,
};

fn model(id: &str, name: &str, status: Option<&str>) -> WireModel {
    WireModel {
        id: id.into(),
        name: name.into(),
        status: status.map(String::from),
        variants: Vec::new(),
        context_limit: None,
    }
}

fn provider(id: &str, name: &str, models: Vec<WireModel>) -> WireProvider {
    WireProvider { id: id.into(), name: name.into(), models }
}

#[test]
fn provider_refresh_pushes_catalog_and_default_model() {
    let list = ProviderList {
        all: vec![
            provider(
                "acme",
                "Acme",
                vec![
                    model("sonnet-4-5", "Sonnet 4.5", Some("active")),
                    model("haiku-old", "Old Haiku", Some("deprecated")),
                ],
            ),
            provider("opencode", "OpenCode Zen", vec![model("opus", "Opus 4.7", Some("active"))]),
        ],
        default: vec![("opencode".into(), "opus".into())],
    };
    let actions = provider_refresh_actions(&list, None);
    assert_eq!(actions.len(), 2);
    match &actions[0] {
        ProviderAction::SetCatalog(c) => {
            assert_eq!(c.providers[0].id, "opencode");
            assert_eq!(c.providers[1].id, "acme");
            let acme = &c.providers[1];
            assert_eq!(acme.models.len(), 1);
            assert_eq!(acme.models[0].id, "sonnet-4-5");
        }
        _ => panic!("expected the catalog first"),
    }
    match &actions[1] {
        ProviderAction::SetCurrentModel(Some(m)) => {
            assert_eq!(m.provider_id, "opencode");
            assert_eq!(m.model_id, "opus");
        }
        _ => panic!("expected opencode/opus to be picked"),
    }
}

#[test]
fn provider_refresh_preserves_existing_current_model() {
    let list = ProviderList {
        all: vec![provider("p1", "P1", vec![model("m1", "M1", Some("active"))])],
        default: Vec::new(),
    };
    let current = ModelRef { provider_id: "p1".into(), model_id: "m1".into() };
    let actions = provider_refresh_actions(&list, Some(&current));
    assert_eq!(actions.len(), 1);
    assert!(matches!(actions[0], ProviderAction::SetCatalog(_)));
}

#[test]
fn catalog_sorts_without_case_and_keeps_ties_in_order() {
    let mut m = model("b", "beta", None);
    m.variants = vec!["high".into(), "low".into(), "fast".into()];
    m.context_limit = Some(200_000);
    let list = ProviderList {
        all: vec![
            provider("z", "zeta", vec![model("a2", "Alpha", None), m, model("a1", "alpha", None), model("", "", None)]),
            provider("y", "Beta", Vec::new()),
            provider("x", "beta", Vec::new()),
            provider("opencode", "", Vec::new()),
        ],
        default: vec![("z".into(), "missing".into())],
    };
    let c = build_catalog(&list);
    let ids: Vec<&str> = c.providers.iter().map(|p| p.id.as_str()).collect();
    assert_eq!(ids, vec!["opencode", "y", "x", "z"]);
    assert_eq!(c.providers[0].name, None);
    let z = &c.providers[3];
    let model_ids: Vec<&str> = z.models.iter().map(|m| m.id.as_str()).collect();
    assert_eq!(model_ids, vec!["", "a1", "a2", "b"]);
    assert_eq!(z.models[0].name, None);
    assert_eq!(z.models[3].variants, vec!["fast", "high", "low"]);
    assert_eq!(z.models[3].context_limit, 200_000);
    assert_eq!(z.models[1].context_limit, 0);
    let actions = provider_refresh_actions(&list, Some(&ModelRef { provider_id: "z".into(), model_id: "gone".into() }));
    match &actions[1] {
        ProviderAction::SetCurrentModel(Some(m)) => {
            assert_eq!(m.provider_id, "z");
            assert_eq!(m.model_id, "");
        }
        _ => panic!("expected the first model of the first stocked provider"),
    }
    let empty = ProviderList { all: Vec::new(), default: Vec::new() };
    assert!(matches!(provider_refresh_actions(&empty, None)[1], ProviderAction::SetCurrentModel(None)));
}
