use permute_compile::model::{Body, ExprKind, ExprNode, Item, ItemKind, ProgramModel, Visibility};
use permute_compile::registry::{
    collect_capabilities, impls, path_of, type_ids, types, CapabilitySetupError, ItemPath, SinksAndSources,
};

fn path(segments: &[&str]) -> Vec<String> {
    segments.iter().map(|s| s.to_string()).collect()
}

fn type_decl(name: &str, visibility: Visibility) -> Item {
    Item { path: path(&["unit", name]), kind: ItemKind::TypeDecl { visibility } }
}

fn impl_block(trait_path: Option<&[&str]>, target: Option<usize>) -> Item {
    Item {
        path: path(&["unit", "impl"]),
        kind: ItemKind::Impl { trait_path: trait_path.map(path), target },
    }
}

fn capabilities() -> Vec<Vec<String>> {
    vec![path(&["runtime", "Sink"]), path(&["runtime", "Source"])]
}

#[test]
fn exact_source_is_classified_and_sink_prefix_is_not() {
    let m = ProgramModel {
        items: vec![
            type_decl("Reader", Visibility::DirectlyPublic),
            impl_block(Some(&["runtime", "Source"]), Some(0)),
            impl_block(Some(&["runtime"]), Some(0)),
        ],
        trusted_traits: capabilities(),
    };
    let c = collect_capabilities(&m).unwrap();
    assert_eq!(c.public_types, vec![0]);
    assert_eq!(c.sources, vec![1]);
    assert_eq!(c.sinks, Vec::<usize>::new());
}

#[test]
fn longer_or_different_paths_do_not_match() {
    let m = ProgramModel {
        items: vec![
            type_decl("Writer", Visibility::DirectlyPublic),
            impl_block(Some(&["runtime", "Sink", "Extra"]), Some(0)),
            impl_block(Some(&["other", "Sink"]), Some(0)),
            impl_block(Some(&["runtime", "Sink"]), Some(0)),
            impl_block(Some(&["runtime", "Sink"]), None),
            impl_block(Some(&["runtime", "Sink"]), Some(42)),
            impl_block(None, Some(0)),
        ],
        trusted_traits: capabilities(),
    };
    let c = collect_capabilities(&m).unwrap();
    assert_eq!(c.sinks, vec![3]);
    assert_eq!(c.sources, Vec::<usize>::new());
}

#[test]
fn only_directly_public_types_are_listed() {
    let m = ProgramModel {
        items: vec![
            type_decl("A", Visibility::DirectlyPublic),
            type_decl("B", Visibility::Other),
            impl_block(None, None),
            type_decl("C", Visibility::DirectlyPublic),
            Item { path: path(&["unit", "m"]), kind: ItemKind::Other },
        ],
        trusted_traits: capabilities(),
    };
    assert_eq!(type_ids(&m), vec![0, 3]);
    let paths: Vec<String> = types(&m).iter().map(|p| p.to_string()).collect();
    assert_eq!(paths, vec!["unit::A".to_string(), "unit::C".to_string()]);
}

#[test]
fn missing_sink_is_a_setup_error() {
    let m = ProgramModel {
        items: vec![],
        trusted_traits: vec![path(&["runtime", "Source"]), path(&["elsewhere", "Sink"])],
    };
    assert_eq!(collect_capabilities(&m).unwrap_err(), CapabilitySetupError::SinkNotFound);
    assert!(SinksAndSources::collect_from(&m).is_err());
}

#[test]
fn missing_source_is_a_setup_error() {
    let m = ProgramModel { items: vec![], trusted_traits: vec![path(&["runtime", "Sink"])] };
    assert_eq!(collect_capabilities(&m).unwrap_err(), CapabilitySetupError::SourceNotFound);
}

#[test]
fn capability_found_under_nested_module() {
    let m = ProgramModel {
        items: vec![impl_block(Some(&["runtime", "io", "Sink"]), Some(0))],
        trusted_traits: vec![
            path(&["runtime", "io", "Sink"]),
            path(&["runtime", "Source"]),
        ],
    };
    let c = collect_capabilities(&m).unwrap();
    assert_eq!(c.sinks, vec![0]);
}

#[test]
fn filter_removes_listed_identifiers() {
    let mut s = SinksAndSources { sinks: vec![1, 4, 2, 4], sources: vec![3, 2, 5] };
    s.filter_not_in(&vec![4, 2]);
    assert_eq!(s.sinks, vec![1]);
    assert_eq!(s.sources, vec![3, 5]);
}

#[test]
fn classification_is_idempotent() {
    let m = ProgramModel {
        items: vec![
            impl_block(Some(&["runtime", "Sink"]), Some(2)),
            impl_block(Some(&["runtime", "Source"]), Some(2)),
            type_decl("T", Visibility::DirectlyPublic),
        ],
        trusted_traits: capabilities(),
    };
    let a = collect_capabilities(&m).unwrap();
    let b = collect_capabilities(&m).unwrap();
    assert_eq!((a.public_types, a.sinks, a.sources), (b.public_types, b.sinks, b.sources));
}

#[test]
fn item_path_is_joined() {
    let p = ItemPath { segments: path(&["runtime", "io", "Sink"]) };
    assert_eq!(p.to_string(), "runtime::io::Sink");
    assert_eq!(ItemPath { segments: vec![] }.to_string(), "");
    assert_eq!(ItemPath { segments: path(&["one"]) }.to_string(), "one");
}

#[test]
fn path_of_resolves_identifier() {
    let body = Body { nodes: vec![ExprNode { kind: ExprKind::Lit, children: vec![] }], root: 0 };
    let m = ProgramModel {
        items: vec![Item {
            path: path(&["unit", "module", "f"]),
            kind: ItemKind::Function { body, terminating: false },
        }],
        trusted_traits: vec![],
    };
    assert_eq!(path_of(&m, 0).to_string(), "unit::module::f");
}

#[test]
fn impls_lists_every_implementation_block() {
    let m = ProgramModel {
        items: vec![
            type_decl("A", Visibility::DirectlyPublic),
            impl_block(Some(&["runtime", "Sink"]), Some(0)),
            impl_block(None, None),
            Item { path: path(&["unit", "m"]), kind: ItemKind::Other },
            impl_block(Some(&["other", "Trait"]), Some(0)),
        ],
        trusted_traits: vec![],
    };
    assert_eq!(impls(&m), vec![1, 2, 4]);
}
