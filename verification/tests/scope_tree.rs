use kanbei::contribution::{CommandContribution, Contribution, ContributionKind};
use kanbei::epoch::CompositionStore;
use kanbei::errors::ScopeError;
use kanbei::ids::Digest;
use kanbei::registry::ContributionRegistry;
use kanbei::scope_tree::{OwnerLease, ScopeTree};
use kanbei::services::{ScopePath, ServiceRegistry};

/// A content digest for the tests: a 64-bit FNV-1a in hexadecimal.
fn digest_of(bytes: Vec<u8>) -> Digest {
    let mut hash: u64 = 0xcbf29ce484222325;
    for b in bytes {
        hash ^= b as u64;
        hash = hash.wrapping_mul(0x100000001b3);
    }
    Digest {
        text: format!("{hash:016x}"),
    }
}

fn root() -> ScopePath {
    ScopePath(vec![])
}

#[test]
fn root_and_single_level_children() {
    let mut tree = ScopeTree::new_root();
    let scopes = tree.scopes();
    assert_eq!(scopes.len(), 1);
    assert_eq!(scopes[0].path, root());
    assert_eq!(scopes[0].owner, OwnerLease::Run(0));
    assert_eq!(scopes[0].parent, None);
    assert!(scopes[0].children.is_empty());

    let a = tree
        .create_child(&root(), "a", OwnerLease::Generation(7))
        .unwrap();
    let b = tree.create_child(&root(), "b", OwnerLease::Run(3)).unwrap();
    assert_eq!(a, ScopePath(vec!["a".into()]));
    assert_eq!(b, ScopePath(vec!["b".into()]));

    let scopes = tree.scopes();
    assert_eq!(scopes.len(), 3);
    // sorted by path: "/" < "/a" < "/b"
    assert_eq!(scopes[0].path, root());
    assert_eq!(scopes[1].path, a.clone());
    assert_eq!(scopes[2].path, b.clone());
    assert_eq!(
        tree.scope(&a).unwrap().owner,
        OwnerLease::Generation(7)
    );
    assert_eq!(tree.scope(&a).unwrap().parent, Some(root()));
    assert_eq!(
        tree.scope(&root()).unwrap().children,
        vec![a.clone(), b.clone()]
    );
}

#[test]
fn nested_child_rejected() {
    let mut tree = ScopeTree::new_root();
    let a = tree.create_child(&root(), "a", OwnerLease::Run(1)).unwrap();
    let err = tree
        .create_child(&a, "a-child", OwnerLease::Run(1))
        .unwrap_err();
    assert!(matches!(
        err,
        ScopeError::InvalidInput(msg) if msg.contains("nested scopes are MVP non-goals")
    ));
}

#[test]
fn duplicate_child_name_rejected() {
    let mut tree = ScopeTree::new_root();
    tree.create_child(&root(), "a", OwnerLease::Run(1)).unwrap();
    let err = tree
        .create_child(&root(), "a", OwnerLease::Generation(2))
        .unwrap_err();
    assert_eq!(
        err,
        ScopeError::DuplicateScope {
            parent: root(),
            name: "a".into(),
        }
    );
}

#[test]
fn empty_child_name_rejected() {
    let mut tree = ScopeTree::new_root();
    let err = tree
        .create_child(&root(), "", OwnerLease::Run(1))
        .unwrap_err();
    assert!(matches!(err, ScopeError::InvalidInput(_)));
}

#[test]
fn dispose_root_recursively_disposes_children() {
    let mut tree = ScopeTree::new_root();
    let mut registry = ContributionRegistry::new(ServiceRegistry::new());
    let a = tree.create_child(&root(), "a", OwnerLease::Run(1)).unwrap();
    let b = tree.create_child(&root(), "b", OwnerLease::Run(2)).unwrap();
    let mut store = CompositionStore::new(&registry, &digest_of);
    for (path, name) in [(&a, "cmd-a"), (&b, "cmd-b"), (&root(), "cmd-root")] {
        let set = vec![Contribution {
            scope: path.clone(),
            kind: ContributionKind::Command(CommandContribution {
                name: name.into(),
                handler: "h".into(),
            }),
        }];
        store.stage_publish(&set, &mut registry, &digest_of).unwrap();
    }
    assert_eq!(registry.snapshot().len(), 3);

    // disposing the root disposes every child
    tree.dispose_scope(&root(), &mut registry, false).unwrap();
    assert!(tree.scopes().is_empty());
    assert!(registry.snapshot().is_empty());
}

#[test]
fn dispose_unknown_scope_rejected() {
    let mut tree = ScopeTree::new_root();
    let mut registry = ContributionRegistry::new(ServiceRegistry::new());
    let err = tree
        .dispose_scope(&ScopePath(vec!["ghost".into()]), &mut registry, false)
        .unwrap_err();
    assert!(matches!(err, ScopeError::InvalidInput(_)));
    // the root survives a failed dispose
    assert_eq!(tree.scopes().len(), 1);
}

#[test]
fn a_disposed_root_leaves_an_empty_listing() {
    let mut tree = ScopeTree::new_root();
    let mut registry = ContributionRegistry::new(ServiceRegistry::new());
    for name in ["-", "zz", "a"] {
        tree.create_child(&root(), name, OwnerLease::Run(1)).unwrap();
    }
    let paths: Vec<String> = tree.scopes().iter().map(|s| s.path.text()).collect();
    assert_eq!(paths, vec!["/", "/-", "/a", "/zz"]);
    tree.dispose_scope(&root(), &mut registry, false).unwrap();
    assert!(tree.scopes().is_empty());
}
