use cargo_mcp::docmodel::{DocInner, DocRecord, DocSummary, Document, ExternalPackage, ItemKind};
use cargo_mcp::graph::ItemGraph;
use cargo_mcp::itemdoc::resolve_item;
use cargo_mcp::search::{EXACT_SCORE, FUZZY_FLOOR};

const FORMAT: u32 = 54;

fn record(id: u32, crate_id: u32, name: Option<&str>, docs: Option<&str>, inner: DocInner) -> DocRecord {
    DocRecord {
        id,
        crate_id,
        name: name.map(|s| s.to_string()),
        docs: docs.map(|s| s.to_string()),
        inner,
    }
}

fn summary(id: u32, path: &[&str], kind: ItemKind) -> DocSummary {
    DocSummary {
        id,
        path: path.iter().map(|s| s.to_string()).collect(),
        kind,
    }
}

/// A document describing `test_crate` with
/// `pub struct TestStruct { pub field: String }` and
/// `impl TestStruct { pub fn new(field: String) -> Self }`.
fn test_crate_document() -> Document {
    Document {
        format_version: FORMAT,
        root: 0,
        index: vec![
            record(
                0,
                0,
                Some("test_crate"),
                Some("Test crate documentation."),
                DocInner::Module,
            ),
            record(
                1,
                0,
                Some("TestStruct"),
                Some("A test struct."),
                DocInner::Struct { impls: vec![2] },
            ),
            record(
                2,
                0,
                None,
                None,
                DocInner::Impl {
                    trait_path: None,
                    members: vec![3],
                },
            ),
            record(
                3,
                0,
                Some("new"),
                Some("Creates a new instance."),
                DocInner::Function,
            ),
        ],
        paths: vec![
            summary(0, &["test_crate"], ItemKind::Module),
            summary(1, &["test_crate", "TestStruct"], ItemKind::Struct),
        ],
        external_packages: vec![],
    }
}

#[test]
fn test_rustdoc_workspace() {
    let doc = test_crate_document();
    let krate = ItemGraph::from_document(&doc, None, FORMAT).unwrap();

    // Root module resolution.
    let items = krate.search("test_crate", None);
    assert_eq!(items.len(), 1);
    let item = &items[0];
    assert_eq!(&*item.item.path, "test_crate");
    assert!(matches!(item.item.kind, ItemKind::Module));
    assert_eq!(item.item.docs.as_deref(), Some("Test crate documentation."));

    // Struct resolution.
    let items = krate.search("TestStruct", None);
    assert_eq!(items.len(), 1);
    let item = &items[0];
    assert_eq!(&*item.item.path, "test_crate::TestStruct");
    assert!(matches!(item.item.kind, ItemKind::Struct));
    assert_eq!(item.item.docs.as_deref(), Some("A test struct."));

    // Function resolution: the synthesized child of the inherent impl.
    let items = krate.search("new", None);
    assert!(!items.is_empty());
    let new_fn = items
        .iter()
        .find(|i| &*i.item.path == "test_crate::TestStruct::new")
        .unwrap();
    assert!(matches!(new_fn.item.kind, ItemKind::Function));
    assert_eq!(new_fn.item.docs.as_deref(), Some("Creates a new instance."));

    // The parent's function list records the member.
    let parent = krate
        .search("TestStruct", None)
        .into_iter()
        .next()
        .unwrap()
        .item;
    assert_eq!(parent.functions, vec!["new".to_string()]);
}

#[test]
fn test_graph_determinism() {
    let doc = test_crate_document();
    let g1 = ItemGraph::from_document(&doc, None, FORMAT).unwrap();
    let g2 = ItemGraph::from_document(&doc, None, FORMAT).unwrap();

    assert_eq!(g1.root_id, g2.root_id);
    assert_eq!(g1.name, g2.name);
    assert_eq!(g1.items.len(), g2.items.len());
    for (a, b) in g1.items.iter().zip(g2.items.iter()) {
        assert_eq!(a.id, b.id);
        assert_eq!(a.name, b.name);
        assert_eq!(a.path, b.path);
        assert_eq!(a.search, b.search);
        assert_eq!(a.docs, b.docs);
        assert_eq!(a.functions, b.functions);
        assert_eq!(a.variants, b.variants);
        assert_eq!(a.trait_impls, b.trait_impls);
    }
}

#[test]
fn test_enum_variants_and_trait_impls() {
    let doc = Document {
        format_version: FORMAT,
        root: 0,
        index: vec![
            record(0, 0, Some("pkg"), None, DocInner::Module),
            record(
                1,
                0,
                Some("Color"),
                None,
                DocInner::Enum {
                    variants: vec![4, 3],
                    impls: vec![2, 5],
                },
            ),
            record(
                2,
                0,
                None,
                None,
                DocInner::Impl {
                    trait_path: Some("core::fmt::Debug".to_string()),
                    members: vec![],
                },
            ),
            record(3, 0, Some("Blue"), None, DocInner::Other),
            record(4, 0, Some("Red"), None, DocInner::Other),
            record(
                5,
                0,
                None,
                None,
                DocInner::Impl {
                    trait_path: None,
                    members: vec![6, 7],
                },
            ),
            record(6, 0, Some("is_warm"), None, DocInner::Function),
            // A non-function member is skipped, not recorded.
            record(7, 0, Some("SOME_CONST"), None, DocInner::Constant),
        ],
        paths: vec![
            summary(0, &["pkg"], ItemKind::Module),
            summary(1, &["pkg", "Color"], ItemKind::Enum),
        ],
        external_packages: vec![],
    };
    let krate = ItemGraph::from_document(&doc, None, FORMAT).unwrap();

    let color = krate
        .search("Color", None)
        .into_iter()
        .next()
        .unwrap()
        .item;
    // Variant names are sorted, whatever order the document listed them in.
    assert_eq!(color.variants, vec!["Blue".to_string(), "Red".to_string()]);
    assert_eq!(color.trait_impls, vec!["core::fmt::Debug".to_string()]);
    assert_eq!(color.functions, vec!["is_warm".to_string()]);

    // The variants exist as items of their own.
    let red = krate.search("Red", None);
    assert_eq!(red.len(), 1);
    assert_eq!(&*red[0].item.path, "pkg::Color::Red");
    assert!(matches!(red[0].item.kind, ItemKind::Variant));

    // The ambiguity index finds the variant by its full path.
    assert_eq!(krate.ids_at_path("pkg::Color::Red"), vec![4]);
    assert_eq!(krate.ids_at_path("pkg::Color"), vec![1]);
    assert_eq!(krate.ids_at_path("no::such"), Vec::<u32>::new());
}

#[test]
fn test_named_package_resolution() {
    let mut doc = test_crate_document();
    doc.external_packages = vec![ExternalPackage {
        id: 0,
        name: "test_crate".to_string(),
    }];
    let by_name = ItemGraph::from_document(&doc, Some("test_crate"), FORMAT).unwrap();
    assert_eq!(by_name.name, "test_crate");

    let missing = ItemGraph::from_document(&doc, Some("other_crate"), FORMAT);
    assert!(matches!(
        missing,
        Err(cargo_mcp::errors::Error::CrateNotFound(_))
    ));
}

#[test]
fn test_format_version_mismatch() {
    let doc = test_crate_document();
    let r = ItemGraph::from_document(&doc, None, FORMAT + 1);
    match r {
        Err(cargo_mcp::errors::Error::ParseError(msg)) => {
            // The report names both versions.
            assert!(msg.contains("expected 55"));
            assert!(msg.contains("found 54"));
        }
        other => panic!("expected a parse error, got {other:?}"),
    }
}

#[test]
fn test_search_fuzzy_ranking() {
    let doc = test_crate_document();
    let krate = ItemGraph::from_document(&doc, None, FORMAT).unwrap();

    // A near-miss query: no exact match, the close name must come back
    // first with a real similarity score.
    let items = krate.search("TestStrct", None);
    assert!(!items.is_empty());
    assert_eq!(&*items[0].item.path, "test_crate::TestStruct");
    assert!(items[0].score > FUZZY_FLOOR);
    assert!(items[0].score < EXACT_SCORE);

    // Results are sorted by descending score.
    for w in items.windows(2) {
        assert!(w[0].score >= w[1].score);
    }
}

#[test]
fn test_search_exact_not_truncated() {
    // Seven same-named functions in seven structs: an exact-name query
    // returns all of them even though the default limit is five.
    let mut index = vec![record(0, 0, Some("pkg"), None, DocInner::Module)];
    let mut paths = vec![summary(0, &["pkg"], ItemKind::Module)];
    for k in 0..7u32 {
        let sid = 1 + k * 3;
        let iid = 2 + k * 3;
        let fid = 3 + k * 3;
        let sname = format!("S{}", k);
        index.push(record(
            sid,
            0,
            Some(&sname),
            None,
            DocInner::Struct { impls: vec![iid] },
        ));
        index.push(record(
            iid,
            0,
            None,
            None,
            DocInner::Impl {
                trait_path: None,
                members: vec![fid],
            },
        ));
        index.push(record(fid, 0, Some("build"), None, DocInner::Function));
        paths.push(summary(sid, &["pkg", &sname], ItemKind::Struct));
    }
    let doc = Document {
        format_version: FORMAT,
        root: 0,
        index,
        paths,
        external_packages: vec![],
    };
    let krate = ItemGraph::from_document(&doc, None, FORMAT).unwrap();

    let items = krate.search("build", None);
    assert_eq!(items.len(), 7);
    for it in &items {
        assert_eq!(it.score, EXACT_SCORE);
        assert_eq!(&*it.item.name, "build");
    }
}

#[test]
fn test_search_default_limit_and_tie_order() {
    // Same seven-struct document as above: a one-letter query matches all
    // seven struct names equally well, so the default limit of five
    // applies and ties come back in arena order.
    let mut index = vec![record(0, 0, Some("pkg"), None, DocInner::Module)];
    let mut paths = vec![summary(0, &["pkg"], ItemKind::Module)];
    for k in 0..7u32 {
        let sid = 1 + k;
        let sname = format!("S{}", k);
        index.push(record(sid, 0, Some(&sname), None, DocInner::Struct { impls: vec![] }));
        paths.push(summary(sid, &["pkg", &sname], ItemKind::Struct));
    }
    let doc = Document {
        format_version: FORMAT,
        root: 0,
        index,
        paths,
        external_packages: vec![],
    };
    let krate = ItemGraph::from_document(&doc, None, FORMAT).unwrap();

    let items = krate.search("S", None);
    assert_eq!(items.len(), 5);
    for (k, it) in items.iter().enumerate() {
        assert_eq!(it.item.path, format!("pkg::S{}", k));
    }
}

#[test]
fn test_search_max_results() {
    let doc = test_crate_document();
    let krate = ItemGraph::from_document(&doc, None, FORMAT).unwrap();

    // A loose query with no exact match obeys the limit.
    let items = krate.search("test", Some(1));
    assert!(items.len() <= 1);
}

#[test]
fn test_search_qualified_path() {
    let doc = test_crate_document();
    let krate = ItemGraph::from_document(&doc, None, FORMAT).unwrap();

    // A fully qualified query works: the package prefix is stripped.
    let items = krate.search("test_crate::TestStruct", None);
    assert_eq!(items.len(), 1);
    assert_eq!(&*items[0].item.path, "test_crate::TestStruct");
    assert_eq!(items[0].score, EXACT_SCORE);
}

#[test]
fn test_resolve_item() {
    let doc = test_crate_document();

    let d = resolve_item(&doc, "TestStruct").unwrap();
    assert_eq!(d.name, "TestStruct");
    assert!(matches!(d.kind, ItemKind::Struct));
    assert_eq!(d.docs.as_deref(), Some("A test struct."));
    assert!(d.methods.is_empty());

    let missing = resolve_item(&doc, "Nope");
    assert!(matches!(
        missing,
        Err(cargo_mcp::errors::Error::CrateNotFound(_))
    ));
}

#[test]
fn test_resolve_item_unsupported_kind() {
    let doc = Document {
        format_version: FORMAT,
        root: 0,
        index: vec![
            record(0, 0, Some("pkg"), None, DocInner::Module),
            record(1, 0, Some("weird"), None, DocInner::Other),
        ],
        paths: vec![summary(0, &["pkg"], ItemKind::Module)],
        external_packages: vec![],
    };
    let r = resolve_item(&doc, "weird");
    assert!(matches!(r, Err(cargo_mcp::errors::Error::ParseError(_))));
}
