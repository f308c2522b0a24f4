use hills::index::multi_named::MultiNamedIndex;
use hills::index::named::NamedIndex;
use hills::index::Action;
use hills::index::IndexError;
use hills::index::Similarity;
use hills::index::StringPostProcess;
use hills::keys::GenericKey;

#[test]
fn post_process_folds_trims_and_filters() {
    let pp = StringPostProcess {
        case_sensitive: false,
        ignore_chars: vec!['-'],
        trim_whitespace: true,
    };
    assert_eq!(pp.post_process(" Hello-World "), "helloworld");
    let keep_case = StringPostProcess {
        case_sensitive: true,
        ignore_chars: vec![],
        trim_whitespace: false,
    };
    assert_eq!(keep_case.post_process(" Hello "), " Hello ");
}

#[test]
fn named_index_insert_get_and_duplicates() {
    let mut idx = NamedIndex::new().case_sensitive(false).trim_whitespace(true);
    let k1 = GenericKey::new(1, 0);
    let k2 = GenericKey::new(2, 0);
    idx.apply(k1, "Widget A", Action::Insert).unwrap();
    assert_eq!(idx.get("widget a"), Some(k1));
    assert_eq!(idx.get("  WIDGET A  "), Some(k1));
    assert_eq!(idx.get("widget b"), None);

    let err = idx.apply(k2, "WIDGET A", Action::Insert).unwrap_err();
    assert!(matches!(err, IndexError::Duplicate(_)));
    // The failed insert left the index alone.
    assert_eq!(idx.get("widget a"), Some(k1));
}

#[test]
fn named_index_update_moves_the_name() {
    let mut idx = NamedIndex::new();
    let k1 = GenericKey::new(1, 0);
    idx.apply(k1, "old name", Action::Insert).unwrap();
    idx.apply(k1, "new name", Action::Update).unwrap();
    assert_eq!(idx.get("old name"), None);
    assert_eq!(idx.get("new name"), Some(k1));

    // Updating a key that was never inserted is refused.
    let err = idx.apply(GenericKey::new(9, 0), "x", Action::Update).unwrap_err();
    assert!(matches!(err, IndexError::Other(_)));
}

#[test]
fn named_index_remove() {
    let mut idx = NamedIndex::new();
    let k1 = GenericKey::new(1, 0);
    idx.apply(k1, "gone soon", Action::Insert).unwrap();
    idx.apply(k1, "gone soon", Action::Remove).unwrap();
    assert_eq!(idx.get("gone soon"), None);
}

#[test]
fn named_index_similarity() {
    let mut idx = NamedIndex::new();
    let k1 = GenericKey::new(1, 0);
    let k2 = GenericKey::new(2, 0);
    let k3 = GenericKey::new(3, 0);
    idx.apply(k1, "motor", Action::Insert).unwrap();
    idx.apply(k2, "motorway", Action::Insert).unwrap();
    idx.apply(k3, "promotor", Action::Insert).unwrap();
    let hits = idx.get_similar("motor");
    assert!(hits.contains(&(k1, Similarity::Exact)));
    assert!(hits.contains(&(k2, Similarity::Loose)));
    assert!(hits.contains(&(k3, Similarity::Loose)));
    let none = idx.get_similar("windmill");
    assert!(none.is_empty());
}

#[test]
fn multi_named_index_symmetric_difference() {
    let mut idx = MultiNamedIndex::new();
    let k1 = GenericKey::new(1, 0);
    let k2 = GenericKey::new(2, 0);
    let names = |xs: &[&str]| xs.iter().map(|s| s.to_string()).collect::<Vec<String>>();

    idx.apply(k1, &names(&["alpha", "beta"]), Action::Insert).unwrap();
    assert_eq!(idx.get("alpha"), Some(k1));
    assert_eq!(idx.get("beta"), Some(k1));

    // Names must stay globally unique across the index.
    let err = idx.apply(k2, &names(&["beta"]), Action::Insert).unwrap_err();
    assert!(matches!(err, IndexError::Duplicate(_)));

    // An update keeps the intersection and swaps the rest.
    idx.apply(k1, &names(&["beta", "gamma"]), Action::Update).unwrap();
    assert_eq!(idx.get("alpha"), None);
    assert_eq!(idx.get("beta"), Some(k1));
    assert_eq!(idx.get("gamma"), Some(k1));

    // Another key cannot steal an owned name through an update.
    idx.apply(k2, &names(&["delta"]), Action::Insert).unwrap();
    let err = idx.apply(k2, &names(&["gamma"]), Action::Update).unwrap_err();
    assert!(matches!(err, IndexError::Duplicate(_)));
    assert_eq!(idx.get("gamma"), Some(k1));

    // A removal drops every listed name.
    idx.apply(k1, &names(&["beta", "gamma"]), Action::Remove).unwrap();
    assert_eq!(idx.get("beta"), None);
    assert_eq!(idx.get("gamma"), None);
    assert_eq!(idx.get("delta"), Some(k2));
}

#[test]
fn rebuild_repopulates_and_refuses_duplicates() {
    let mut idx = NamedIndex::new().case_sensitive(false);
    let k1 = GenericKey::new(1, 0);
    let k2 = GenericKey::new(2, 0);
    idx.apply(k1, "stale", Action::Insert).unwrap();

    idx.rebuild(&vec![(k1, "Widget".to_string()), (k2, "Gadget".to_string())]).unwrap();
    assert_eq!(idx.get("stale"), None);
    assert_eq!(idx.get("widget"), Some(k1));
    assert_eq!(idx.get("gadget"), Some(k2));

    // Two entries folding to the same name refuse the rebuild and leave
    // the index untouched.
    let err = idx
        .rebuild(&vec![(k1, "Same".to_string()), (k2, "sAME".to_string())])
        .unwrap_err();
    assert!(matches!(err, IndexError::Duplicate(_)));
    assert_eq!(idx.get("widget"), Some(k1));
}
