//! The documentation index: the item graph built from an
//! interface-description document. Items live in a flat arena and refer to
//! one another only by id; each carries its fully qualified path, a search
//! key with the package-name prefix stripped, and sorted, de-duplicated
//! child-name lists.

use crate::docmodel::{DocInner, DocRecord, DocSummary, Document, ItemKind};
use crate::errors::Error;
use crate::strutil::{join_spec, sort_dedup_spec, strip_prefix_spec};
use vstd::prelude::*;
use vstd::string::StringExecFns;

verus! {

/// The mathematical content of an item: every field as a sequence of
/// characters.
#[verifier::ext_equal]
pub ghost struct ItemModel {
    pub id: u32,
    pub name: Seq<char>,
    pub path: Seq<char>,
    pub search: Seq<char>,
    pub kind: ItemKind,
    pub docs: Option<Seq<char>>,
    pub functions: Seq<Seq<char>>,
    pub variants: Seq<Seq<char>>,
    pub traits: Seq<Seq<char>>,
    pub trait_impls: Seq<Seq<char>>,
    pub structs: Seq<Seq<char>>,
    pub enums: Seq<Seq<char>>,
}

/// One documented entity in the index.
#[derive(Debug)]
pub struct Item {
    /// The item's id, carried over from the document.
    pub id: u32,
    /// The unqualified name.
    pub name: String,
    /// The fully qualified path from the package root.
    pub path: String,
    /// The path with the package-name prefix stripped.
    pub search: String,
    /// The item's kind.
    pub kind: ItemKind,
    /// The documentation string, when present.
    pub docs: Option<String>,
    /// Names of the functions in inherent implementation blocks.
    pub functions: Vec<String>,
    /// Names of the enum's variants.
    pub variants: Vec<String>,
    /// Names of traits this item implements, when recorded directly.
    pub traits: Vec<String>,
    /// Fully qualified names of the traits implemented for this item.
    pub trait_impls: Vec<String>,
    /// Names of child structs.
    pub structs: Vec<String>,
    /// Names of child enums.
    pub enums: Vec<String>,
}

impl View for Item {
    type V = ItemModel;

    open spec fn view(&self) -> ItemModel {
        ItemModel {
            id: self.id,
            name: self.name@,
            path: self.path@,
            search: self.search@,
            kind: self.kind,
            docs: crate::docmodel::opt_string_view(self.docs),
            functions: self.functions.deep_view(),
            variants: self.variants.deep_view(),
            traits: self.traits.deep_view(),
            trait_impls: self.trait_impls.deep_view(),
            structs: self.structs.deep_view(),
            enums: self.enums.deep_view(),
        }
    }
}

impl DeepView for Item {
    type V = ItemModel;

    open spec fn deep_view(&self) -> ItemModel {
        self.view()
    }
}

/// Duplicates a list of strings, value for value.
pub fn clone_strings(v: &Vec<String>) -> (r: Vec<String>)
    ensures
        r@ == v@,
{
    let mut out: Vec<String> = Vec::new();
    let mut i: usize = 0;
    while i < v.len()
        invariant
            i <= v@.len(),
            out@ =~= v@.take(i as int),
        decreases v@.len() - i,
    {
        out.push(v[i].clone());
        proof {
            assert(out@ =~= v@.take(i + 1 as int));
        }
        i = i + 1;
    }
    proof {
        assert(v@.take(v@.len() as int) =~= v@);
    }
    out
}

/// Duplicates an optional string, value for value.
pub fn clone_opt_string(v: &Option<String>) -> (r: Option<String>)
    ensures
        r == *v,
{
    match v {
        Some(s) => Some(s.clone()),
        None => None,
    }
}

impl Item {
    /// An item with the given identity and no children.
    pub fn new(
        id: u32,
        name: String,
        path: String,
        search: String,
        kind: ItemKind,
        docs: Option<String>,
    ) -> (r: Item)
        ensures
            r.id == id,
            r.name == name,
            r.path == path,
            r.search == search,
            r.kind == kind,
            r.docs == docs,
            r.functions@.len() == 0,
            r.variants@.len() == 0,
            r.traits@.len() == 0,
            r.trait_impls@.len() == 0,
            r.structs@.len() == 0,
            r.enums@.len() == 0,
    {
        Item {
            id,
            name,
            path,
            search,
            kind,
            docs,
            functions: Vec::new(),
            variants: Vec::new(),
            traits: Vec::new(),
            trait_impls: Vec::new(),
            structs: Vec::new(),
            enums: Vec::new(),
        }
    }

    /// A duplicate of the item, equal to it in every modelled field.
    pub fn duplicate(&self) -> (r: Item)
        ensures
            r@ == self@,
    {
        Item {
            id: self.id,
            name: self.name.clone(),
            path: self.path.clone(),
            search: self.search.clone(),
            kind: self.kind,
            docs: clone_opt_string(&self.docs),
            functions: clone_strings(&self.functions),
            variants: clone_strings(&self.variants),
            traits: clone_strings(&self.traits),
            trait_impls: clone_strings(&self.trait_impls),
            structs: clone_strings(&self.structs),
            enums: clone_strings(&self.enums),
        }
    }
}

/// An item as the first pass builds it from a path-table entry and its
/// record: path components joined with `::`, the search key with the
/// package-name prefix stripped, and no children yet.
pub open spec fn base_item_model(sum: DocSummary, rec: DocRecord, pkg_name: Seq<char>) -> ItemModel {
    let path = join_spec(sum.path.deep_view(), "::"@);
    ItemModel {
        id: sum.id,
        name: sum.path.deep_view().last(),
        path: path,
        search: strip_prefix_spec(path, pkg_name),
        kind: sum.kind,
        docs: crate::docmodel::opt_string_view(rec.docs),
        functions: Seq::empty(),
        variants: Seq::empty(),
        traits: Seq::empty(),
        trait_impls: Seq::empty(),
        structs: Seq::empty(),
        enums: Seq::empty(),
    }
}

/// The first `n` path-table entries turned into items: an entry
/// contributes one item when its record exists, belongs to the target
/// package, and its path is non-empty.
pub open spec fn first_pass(
    paths: Seq<DocSummary>,
    index: Seq<DocRecord>,
    pkg_id: u32,
    pkg_name: Seq<char>,
    n: int,
) -> Seq<ItemModel>
    decreases n,
{
    if n <= 0 {
        Seq::empty()
    } else {
        let prev = first_pass(paths, index, pkg_id, pkg_name, n - 1);
        let sum = paths[n - 1];
        match crate::docmodel::find_record(index, sum.id) {
            Some(rec) => if rec.crate_id == pkg_id && sum.path@.len() > 0 {
                prev.push(base_item_model(sum, rec, pkg_name))
            } else {
                prev
            },
            None => prev,
        }
    }
}

/// A child item synthesized under a parent: the parent's path and search
/// key extended by the member's name.
pub open spec fn child_item_model(
    parent: ItemModel,
    rec: DocRecord,
    nm: Seq<char>,
    kind: ItemKind,
) -> ItemModel {
    ItemModel {
        id: rec.id,
        name: nm,
        path: parent.path + "::"@ + nm,
        search: if parent.search.len() == 0 {
            nm
        } else {
            parent.search + "::"@ + nm
        },
        kind: kind,
        docs: crate::docmodel::opt_string_view(rec.docs),
        functions: Seq::empty(),
        variants: Seq::empty(),
        traits: Seq::empty(),
        trait_impls: Seq::empty(),
        structs: Seq::empty(),
        enums: Seq::empty(),
    }
}

/// The first `n` members of an inherent implementation block applied to
/// the parent: each function member appends its name to the parent's
/// function list and synthesizes a child item; members of any other kind,
/// or without a record or name, are skipped.
pub open spec fn apply_members(
    item: ItemModel,
    index: Seq<DocRecord>,
    members: Seq<u32>,
    n: int,
) -> (ItemModel, Seq<ItemModel>)
    decreases n,
{
    if n <= 0 {
        (item, Seq::empty())
    } else {
        let (it, kids) = apply_members(item, index, members, n - 1);
        match crate::docmodel::find_record(index, members[n - 1]) {
            Some(rec) => match rec.name {
                Some(nm) => match rec.inner {
                    DocInner::Function => (
                        ItemModel { functions: it.functions.push(nm@), ..it },
                        kids.push(child_item_model(it, rec, nm@, ItemKind::Function)),
                    ),
                    _ => (it, kids),
                },
                None => (it, kids),
            },
            None => (it, kids),
        }
    }
}

/// The first `n` implementation blocks applied to the parent: a
/// trait-bearing block appends the trait's name to the parent's
/// trait-implementation list, an inherent block contributes its function
/// members, and a missing or non-implementation record is skipped.
pub open spec fn apply_impls(
    item: ItemModel,
    index: Seq<DocRecord>,
    impls: Seq<u32>,
    n: int,
) -> (ItemModel, Seq<ItemModel>)
    decreases n,
{
    if n <= 0 {
        (item, Seq::empty())
    } else {
        let (it, kids) = apply_impls(item, index, impls, n - 1);
        match crate::docmodel::find_record(index, impls[n - 1]) {
            Some(rec) => match rec.inner {
                DocInner::Impl { trait_path, members } => match trait_path {
                    Some(t) => (ItemModel { trait_impls: it.trait_impls.push(t@), ..it }, kids),
                    None => {
                        let (it2, kids2) = apply_members(it, index, members@, members@.len() as int);
                        (it2, kids + kids2)
                    },
                },
                _ => (it, kids),
            },
            None => (it, kids),
        }
    }
}

/// The first `n` declared variants applied to an enum: each variant with a
/// record and a name appends its name to the variant list and synthesizes
/// a child item.
pub open spec fn apply_variants(
    item: ItemModel,
    index: Seq<DocRecord>,
    variants: Seq<u32>,
    n: int,
) -> (ItemModel, Seq<ItemModel>)
    decreases n,
{
    if n <= 0 {
        (item, Seq::empty())
    } else {
        let (it, kids) = apply_variants(item, index, variants, n - 1);
        match crate::docmodel::find_record(index, variants[n - 1]) {
            Some(rec) => match rec.name {
                Some(nm) => (
                    ItemModel { variants: it.variants.push(nm@), ..it },
                    kids.push(child_item_model(it, rec, nm@, ItemKind::Variant)),
                ),
                None => (it, kids),
            },
            None => (it, kids),
        }
    }
}

/// The item with every child-name list sorted and de-duplicated.
pub open spec fn sorted_lists(it: ItemModel) -> ItemModel {
    ItemModel {
        functions: sort_dedup_spec(it.functions),
        variants: sort_dedup_spec(it.variants),
        traits: sort_dedup_spec(it.traits),
        trait_impls: sort_dedup_spec(it.trait_impls),
        structs: sort_dedup_spec(it.structs),
        enums: sort_dedup_spec(it.enums),
        ..it
    }
}

/// Child resolution for one item: structs and enums gather their
/// implementation blocks, enums additionally their variants; every other
/// kind is left as it is.
pub open spec fn resolved_item(item: ItemModel, index: Seq<DocRecord>) -> (ItemModel, Seq<
    ItemModel,
>) {
    match crate::docmodel::find_record(index, item.id) {
        Some(rec) => match rec.inner {
            DocInner::Struct { impls } => apply_impls(item, index, impls@, impls@.len() as int),
            DocInner::Enum { variants, impls } => {
                let r1 = apply_variants(item, index, variants@, variants@.len() as int);
                let r2 = apply_impls(r1.0, index, impls@, impls@.len() as int);
                (r2.0, r1.1 + r2.1)
            },
            _ => (item, Seq::empty()),
        },
        None => (item, Seq::empty()),
    }
}

/// The second pass over the first `n` items: each item resolved and its
/// lists sorted, with every synthesized child collected in order.
pub open spec fn second_pass(items: Seq<ItemModel>, index: Seq<DocRecord>, n: int) -> (Seq<
    ItemModel,
>, Seq<ItemModel>)
    decreases n,
{
    if n <= 0 {
        (Seq::empty(), Seq::empty())
    } else {
        let (acc, kids) = second_pass(items, index, n - 1);
        let (it, k) = resolved_item(items[n - 1], index);
        (acc.push(sorted_lists(it)), kids + k)
    }
}

/// The position of the first item carrying the id, or `-1`.
pub open spec fn index_of_id(items: Seq<ItemModel>, id: u32) -> int
    decreases items.len(),
{
    if items.len() == 0 {
        -1
    } else if items[0].id == id {
        0
    } else {
        let rest = index_of_id(items.drop_first(), id);
        if rest == -1 {
            -1
        } else {
            1 + rest
        }
    }
}

/// `index_of_id` points at the first item with the id, and is `-1` exactly
/// when no item carries it.
pub proof fn lemma_index_of_id(items: Seq<ItemModel>, id: u32)
    ensures
        index_of_id(items, id) == -1 <==> (forall|j: int| 0 <= j < items.len() ==> (#[trigger] items[j]).id != id),
        index_of_id(items, id) != -1 ==> 0 <= index_of_id(items, id) < items.len() && items[
            index_of_id(items, id)].id == id,
        index_of_id(items, id) != -1 ==> (forall|j: int|
            0 <= j < index_of_id(items, id) ==> (#[trigger] items[j]).id != id),
    decreases items.len(),
{
    if items.len() > 0 && items[0].id != id {
        lemma_index_of_id(items.drop_first(), id);
        assert(forall|j: int| 0 <= j < items.len() - 1 ==> items.drop_first()[j] == #[trigger] items[j + 1]);
        if index_of_id(items.drop_first(), id) == -1 {
            assert forall|j: int| 0 <= j < items.len() implies (#[trigger] items[j]).id != id by {
                if j > 0 {
                    assert(items.drop_first()[j - 1].id != id);
                }
            }
        } else {
            let vi = index_of_id(items, id);
            assert(vi == 1 + index_of_id(items.drop_first(), id));
            assert forall|j: int| 0 <= j < vi implies (#[trigger] items[j]).id != id by {
                if j > 0 {
                    assert(items.drop_first()[j - 1].id != id);
                }
            }
        }
    }
}

/// A child merged into the arena: it replaces the first item with its id,
/// or is appended when the id is new.
pub open spec fn upsert(items: Seq<ItemModel>, kid: ItemModel) -> Seq<ItemModel> {
    let i = index_of_id(items, kid.id);
    if i == -1 {
        items.push(kid)
    } else {
        items.update(i, kid)
    }
}

/// The first `n` children merged into the arena, in order.
pub open spec fn merged(items: Seq<ItemModel>, kids: Seq<ItemModel>, n: int) -> Seq<ItemModel>
    decreases n,
{
    if n <= 0 {
        items
    } else {
        upsert(merged(items, kids, n - 1), kids[n - 1])
    }
}

/// Every item of the graph built from the document for the package with
/// the given id and name: the path-table pass, child resolution, and the
/// merge of synthesized children.
pub open spec fn graph_items(d: Document, pkg_id: u32, pkg_name: Seq<char>) -> Seq<ItemModel> {
    let base = first_pass(d.paths@, d.index@, pkg_id, pkg_name, d.paths@.len() as int);
    let (resolved, kids) = second_pass(base, d.index@, base.len() as int);
    merged(resolved, kids, kids.len() as int)
}

/// Builds the base items of the first pass.
fn build_base_items(doc: &Document, pkg_id: u32, pkg_name: &str) -> (r: Vec<Item>)
    ensures
        r.deep_view() =~= first_pass(
            doc.paths@,
            doc.index@,
            pkg_id,
            pkg_name@,
            doc.paths@.len() as int,
        ),
{
    let mut items: Vec<Item> = Vec::new();
    let mut i: usize = 0;
    while i < doc.paths.len()
        invariant
            i <= doc.paths@.len(),
            items.deep_view() =~= first_pass(doc.paths@, doc.index@, pkg_id, pkg_name@, i as int),
        decreases doc.paths@.len() - i,
    {
        let sum = &doc.paths[i];
        let ghost pre_dv = items.deep_view();
        match crate::docmodel::lookup_record(&doc.index, sum.id) {
            Some(rec) => {
                if rec.crate_id == pkg_id && sum.path.len() > 0 {
                    let name = sum.path[sum.path.len() - 1].clone();
                    let path = crate::strutil::join_strings(&sum.path, "::");
                    let search = crate::strutil::strip_package_prefix(path.as_str(), pkg_name);
                    let docs = clone_opt_string(&rec.docs);
                    let item = Item::new(sum.id, name, path, search, sum.kind, docs);
                    proof {
                        assert(item@ =~= base_item_model(doc.paths@[i as int], *rec, pkg_name@));
                    }
                    items.push(item);
                    proof {
                        assert(items.deep_view() =~= pre_dv.push(
                            base_item_model(doc.paths@[i as int], *rec, pkg_name@),
                        ));
                    }
                }
            },
            None => {},
        }
        i = i + 1;
    }
    proof {
        assert(items.deep_view() =~= first_pass(
            doc.paths@,
            doc.index@,
            pkg_id,
            pkg_name@,
            doc.paths@.len() as int,
        ));
    }
    items
}

/// Synthesizes a child item under the parent, for an implementation-block
/// member or an enum variant.
fn make_child(parent: &Item, rec: &DocRecord, nm: &String, kind: ItemKind) -> (r: Item)
    ensures
        r@ =~= child_item_model(parent@, *rec, nm@, kind),
{
    let path = parent.path.clone().concat("::").concat(nm.as_str());
    let search = if parent.search.as_str().unicode_len() == 0 {
        nm.clone()
    } else {
        parent.search.clone().concat("::").concat(nm.as_str())
    };
    let r = Item::new(rec.id, nm.clone(), path, search, kind, clone_opt_string(&rec.docs));
    proof {
        assert(r@ =~= child_item_model(parent@, *rec, nm@, kind));
    }
    r
}

/// Applies the members of one inherent implementation block to the parent,
/// collecting the synthesized children.
fn apply_members_exec(item: Item, index: &Vec<DocRecord>, members: &Vec<u32>, kids: &mut Vec<
    Item,
>) -> (r: Item)
    ensures
        ({
            let sp = apply_members(item@, index@, members@, members@.len() as int);
            r@ =~= sp.0 && final(kids).deep_view() =~= old(kids).deep_view() + sp.1
        }),
{
    let ghost item0 = item@;
    let ghost kids0 = kids.deep_view();
    let mut cur = item;
    let mut i: usize = 0;
    while i < members.len()
        invariant
            i <= members@.len(),
            ({
                let sp = apply_members(item0, index@, members@, i as int);
                cur@ =~= sp.0 && kids.deep_view() =~= kids0 + sp.1
            }),
        decreases members@.len() - i,
    {
        let ghost sp_pre = apply_members(item0, index@, members@, i as int);
        match crate::docmodel::lookup_record(index, members[i]) {
            Some(rec) => {
                match &rec.name {
                    Some(nm) => {
                        match &rec.inner {
                            DocInner::Function => {
                                let child = make_child(&cur, rec, nm, ItemKind::Function);
                                proof {
                                    assert(child@ == child_item_model(
                                        sp_pre.0,
                                        *rec,
                                        nm@,
                                        ItemKind::Function,
                                    ));
                                }
                                let ghost kids_pre = kids.deep_view();
                                kids.push(child);
                                cur.functions.push(nm.clone());
                                proof {
                                    assert(cur@ =~= (ItemModel {
                                        functions: sp_pre.0.functions.push(nm@),
                                        ..sp_pre.0
                                    }));
                                    assert(kids.deep_view() =~= kids_pre.push(child@));
                                    assert(kids.deep_view() =~= kids0 + sp_pre.1.push(
                                        child_item_model(sp_pre.0, *rec, nm@, ItemKind::Function),
                                    ));
                                }
                            },
                            _ => {},
                        }
                    },
                    None => {},
                }
            },
            None => {},
        }
        i = i + 1;
    }
    cur
}

/// Applies the implementation blocks of a struct or enum to the parent,
/// collecting the synthesized children.
fn apply_impls_exec(item: Item, index: &Vec<DocRecord>, impls: &Vec<u32>, kids: &mut Vec<
    Item,
>) -> (r: Item)
    ensures
        ({
            let sp = apply_impls(item@, index@, impls@, impls@.len() as int);
            r@ =~= sp.0 && final(kids).deep_view() =~= old(kids).deep_view() + sp.1
        }),
{
    let ghost item0 = item@;
    let ghost kids0 = kids.deep_view();
    let mut cur = item;
    let mut i: usize = 0;
    while i < impls.len()
        invariant
            i <= impls@.len(),
            ({
                let sp = apply_impls(item0, index@, impls@, i as int);
                cur@ =~= sp.0 && kids.deep_view() =~= kids0 + sp.1
            }),
        decreases impls@.len() - i,
    {
        let ghost sp_pre = apply_impls(item0, index@, impls@, i as int);
        match crate::docmodel::lookup_record(index, impls[i]) {
            Some(rec) => {
                match &rec.inner {
                    DocInner::Impl { trait_path, members } => {
                        match trait_path {
                            Some(t) => {
                                cur.trait_impls.push(t.clone());
                                proof {
                                    assert(cur@ =~= (ItemModel {
                                        trait_impls: sp_pre.0.trait_impls.push(t@),
                                        ..sp_pre.0
                                    }));
                                }
                            },
                            None => {
                                cur = apply_members_exec(cur, index, members, kids);
                                proof {
                                    let sp2 = apply_members(
                                        sp_pre.0,
                                        index@,
                                        members@,
                                        members@.len() as int,
                                    );
                                    assert(kids.deep_view() =~= kids0 + (sp_pre.1 + sp2.1));
                                }
                            },
                        }
                    },
                    _ => {},
                }
            },
            None => {},
        }
        i = i + 1;
    }
    cur
}

/// Applies the declared variants of an enum to the parent, collecting the
/// synthesized children.
fn apply_variants_exec(item: Item, index: &Vec<DocRecord>, variants: &Vec<u32>, kids: &mut Vec<
    Item,
>) -> (r: Item)
    ensures
        ({
            let sp = apply_variants(item@, index@, variants@, variants@.len() as int);
            r@ =~= sp.0 && final(kids).deep_view() =~= old(kids).deep_view() + sp.1
        }),
{
    let ghost item0 = item@;
    let ghost kids0 = kids.deep_view();
    let mut cur = item;
    let mut i: usize = 0;
    while i < variants.len()
        invariant
            i <= variants@.len(),
            ({
                let sp = apply_variants(item0, index@, variants@, i as int);
                cur@ =~= sp.0 && kids.deep_view() =~= kids0 + sp.1
            }),
        decreases variants@.len() - i,
    {
        let ghost sp_pre = apply_variants(item0, index@, variants@, i as int);
        match crate::docmodel::lookup_record(index, variants[i]) {
            Some(rec) => {
                match &rec.name {
                    Some(nm) => {
                        let child = make_child(&cur, rec, nm, ItemKind::Variant);
                        proof {
                            assert(child@ == child_item_model(
                                sp_pre.0,
                                *rec,
                                nm@,
                                ItemKind::Variant,
                            ));
                        }
                        let ghost kids_pre = kids.deep_view();
                        kids.push(child);
                        cur.variants.push(nm.clone());
                        proof {
                            assert(cur@ =~= (ItemModel {
                                variants: sp_pre.0.variants.push(nm@),
                                ..sp_pre.0
                            }));
                            assert(kids.deep_view() =~= kids_pre.push(child@));
                            assert(kids.deep_view() =~= kids0 + sp_pre.1.push(
                                child_item_model(sp_pre.0, *rec, nm@, ItemKind::Variant),
                            ));
                        }
                    },
                    None => {},
                }
            },
            None => {},
        }
        i = i + 1;
    }
    cur
}

/// Sorts and de-duplicates every child-name list of the item.
fn sort_item_lists(item: &mut Item)
    ensures
        final(item)@ =~= sorted_lists(old(item)@),
{
    crate::strutil::sort_dedup_strings(&mut item.functions);
    crate::strutil::sort_dedup_strings(&mut item.variants);
    crate::strutil::sort_dedup_strings(&mut item.traits);
    crate::strutil::sort_dedup_strings(&mut item.trait_impls);
    crate::strutil::sort_dedup_strings(&mut item.structs);
    crate::strutil::sort_dedup_strings(&mut item.enums);
}

/// Resolves one item's children and collects what it synthesized.
fn resolve_children_exec(item: Item, index: &Vec<DocRecord>, kids: &mut Vec<Item>) -> (r: Item)
    ensures
        ({
            let sp = resolved_item(item@, index@);
            r@ =~= sp.0 && final(kids).deep_view() =~= old(kids).deep_view() + sp.1
        }),
{
    let ghost kids0 = kids.deep_view();
    let id = item.id;
    match crate::docmodel::lookup_record(index, id) {
        Some(rec) => {
            match &rec.inner {
                DocInner::Struct { impls } => apply_impls_exec(item, index, impls, kids),
                DocInner::Enum { variants, impls } => {
                    let ghost item0 = item@;
                    let cur = apply_variants_exec(item, index, variants, kids);
                    let r = apply_impls_exec(cur, index, impls, kids);
                    proof {
                        let r1 = apply_variants(item0, index@, variants@, variants@.len() as int);
                        let r2 = apply_impls(r1.0, index@, impls@, impls@.len() as int);
                        assert(kids.deep_view() =~= kids0 + (r1.1 + r2.1));
                    }
                    r
                },
                _ => {
                    proof {
                        assert(kids.deep_view() =~= kids0 + Seq::<ItemModel>::empty());
                    }
                    item
                },
            }
        },
        None => {
            proof {
                assert(kids.deep_view() =~= kids0 + Seq::<ItemModel>::empty());
            }
            item
        },
    }
}

/// Merges the synthesized children into the arena: each replaces the item
/// carrying its id, or is appended when the id is new.
fn merge_kids(items: &mut Vec<Item>, kids: Vec<Item>)
    ensures
        final(items).deep_view() =~= merged(
            old(items).deep_view(),
            kids.deep_view(),
            kids.deep_view().len() as int,
        ),
{
    let ghost items0 = items.deep_view();
    let ghost kids_dv = kids.deep_view();
    let mut i: usize = 0;
    while i < kids.len()
        invariant
            i <= kids@.len(),
            kids_dv == kids.deep_view(),
            kids_dv.len() == kids@.len(),
            items.deep_view() =~= merged(items0, kids_dv, i as int),
        decreases kids@.len() - i,
    {
        let kid = kids[i].duplicate();
        let ghost pre_dv = items.deep_view();
        proof {
            lemma_index_of_id(pre_dv, kid@.id);
        }
        let pos = find_item_index(items, kid.id);
        match pos {
            Some(p) => {
                items.remove(p);
                items.insert(p, kid);
                proof {
                    assert(items.deep_view() =~= pre_dv.update(
                        index_of_id(pre_dv, kids_dv[i as int].id),
                        kids_dv[i as int],
                    ));
                }
            },
            None => {
                items.push(kid);
                proof {
                    assert(items.deep_view() =~= pre_dv.push(kids_dv[i as int]));
                }
            },
        }
        proof {
            assert(items.deep_view() =~= upsert(pre_dv, kids_dv[i as int]));
        }
        i = i + 1;
    }
}

/// The position of the first item carrying the id, if any.
fn find_item_index(items: &Vec<Item>, id: u32) -> (r: Option<usize>)
    ensures
        match r {
            Some(p) => p == index_of_id(items.deep_view(), id) && p < items@.len(),
            None => index_of_id(items.deep_view(), id) == -1,
        },
{
    let mut i: usize = 0;
    while i < items.len()
        invariant
            i <= items@.len(),
            forall|j: int| 0 <= j < i ==> (#[trigger] items.deep_view()[j]).id != id,
        decreases items@.len() - i,
    {
        if items[i].id == id {
            proof {
                lemma_index_of_id(items.deep_view(), id);
                assert(items.deep_view()[i as int].id == id);
            }
            return Some(i);
        }
        proof {
            assert(items.deep_view()[i as int].id != id);
        }
        i = i + 1;
    }
    proof {
        lemma_index_of_id(items.deep_view(), id);
    }
    None
}

/// The mathematical content of a built index.
#[verifier::ext_equal]
pub ghost struct GraphModel {
    pub root_id: u32,
    pub name: Seq<char>,
    pub items: Seq<ItemModel>,
}

/// The built index for one package: the arena of items, the package name,
/// and the document's root id. Immutable once built.
#[derive(Debug)]
pub struct ItemGraph {
    /// The id of the document's root item.
    pub root_id: u32,
    /// The package's name.
    pub name: String,
    /// Every item, in build order: path-table items first, synthesized
    /// children after them.
    pub items: Vec<Item>,
}

impl View for ItemGraph {
    type V = GraphModel;

    open spec fn view(&self) -> GraphModel {
        GraphModel { root_id: self.root_id, name: self.name@, items: self.items.deep_view() }
    }
}

/// The characters of an optional package-name argument.
pub open spec fn opt_str_view(p: Option<&str>) -> Option<Seq<char>> {
    match p {
        Some(s) => Some(s@),
        None => None,
    }
}

/// The target package's id and name: looked up in the external-package
/// table when a name is supplied, else taken from the document root's
/// record; nothing when either lookup fails.
pub open spec fn target_package(d: Document, package: Option<Seq<char>>) -> Option<
    (u32, Seq<char>),
> {
    match package {
        Some(nm) => match crate::docmodel::find_external(d.external_packages@, nm) {
            Some(id) => Some((id, nm)),
            None => None,
        },
        None => match crate::docmodel::find_record(d.index@, d.root) {
            Some(rec) => match rec.name {
                Some(nm) => Some((rec.crate_id, nm@)),
                None => None,
            },
            None => None,
        },
    }
}

impl ItemGraph {
    /// Builds the index from a parsed interface-description document.
    ///
    /// The target package is the named one, resolved through the
    /// external-package table, or the package owning the document's root
    /// item when no name is supplied. Path-table entries with empty paths
    /// or without a record are ignored; ids referenced by implementation
    /// blocks but absent from the index are skipped silently, and
    /// non-function implementation members are skipped.
    ///
    /// Fails with `ParseError` when the document declares a different
    /// format version than expected or its root cannot be resolved, and
    /// with `CrateNotFound` when the named package is not in the document.
    pub fn from_document(
        doc: &Document,
        package: Option<&str>,
        expected_format_version: u32,
    ) -> (r: Result<ItemGraph, Error>)
        ensures
            match r {
                Ok(g) => {
                    &&& doc.format_version == expected_format_version
                    &&& target_package(*doc, opt_str_view(package)) is Some
                    &&& ({
                        let t = target_package(*doc, opt_str_view(package))->Some_0;
                        g@ =~= (GraphModel {
                            root_id: doc.root,
                            name: t.1,
                            items: graph_items(*doc, t.0, t.1),
                        })
                    })
                },
                Err(e) => {
                    ||| {
                        &&& doc.format_version != expected_format_version
                        &&& e is ParseError
                        &&& e.message_view() == crate::pipeline::mismatch_message(
                            expected_format_version as int,
                            doc.format_version as int,
                        )
                    }
                    ||| {
                        &&& doc.format_version == expected_format_version
                        &&& target_package(*doc, opt_str_view(package)) is None
                        &&& match package {
                            Some(nm) => e is CrateNotFound && e.message_view()
                                == "package not in document: "@ + nm@,
                            None => match crate::docmodel::find_record(doc.index@, doc.root) {
                                Some(_) => e is ParseError && e.message_view()
                                    == "document root item has no name"@,
                                None => e is ParseError && e.message_view()
                                    == "document root item is not in the index"@,
                            },
                        }
                    }
                },
            },
    {
        if doc.format_version != expected_format_version {
            return Err(
                crate::pipeline::format_mismatch_error(
                    expected_format_version as u64,
                    doc.format_version as u64,
                ),
            );
        }
        let (pkg_id, pkg_name): (u32, String) = match package {
            Some(nm) => match crate::docmodel::lookup_external(&doc.external_packages, nm) {
                Some(id) => (id, nm.to_owned()),
                None => {
                    return Err(
                        Error::CrateNotFound(
                            String::from_str("package not in document: ").concat(nm),
                        ),
                    );
                },
            },
            None => match crate::docmodel::lookup_record(&doc.index, doc.root) {
                Some(rec) => match &rec.name {
                    Some(nm) => (rec.crate_id, nm.clone()),
                    None => {
                        return Err(
                            Error::ParseError(
                                String::from_str("document root item has no name"),
                            ),
                        );
                    },
                },
                None => {
                    return Err(
                        Error::ParseError(
                            String::from_str("document root item is not in the index"),
                        ),
                    );
                },
            },
        };
        let ghost t = target_package(*doc, opt_str_view(package))->Some_0;
        proof {
            assert(pkg_id == t.0 && pkg_name@ == t.1);
        }
        let base = build_base_items(doc, pkg_id, pkg_name.as_str());
        let ghost base_dv = base.deep_view();
        let mut resolved: Vec<Item> = Vec::new();
        let mut kids: Vec<Item> = Vec::new();
        let mut j: usize = 0;
        while j < base.len()
            invariant
                j <= base@.len(),
                base_dv == base.deep_view(),
                base_dv.len() == base@.len(),
                ({
                    let sp = second_pass(base_dv, doc.index@, j as int);
                    resolved.deep_view() =~= sp.0 && kids.deep_view() =~= sp.1
                }),
            decreases base@.len() - j,
        {
            let ghost sp_pre = second_pass(base_dv, doc.index@, j as int);
            let it = base[j].duplicate();
            let ghost kids_pre = kids.deep_view();
            let mut it2 = resolve_children_exec(it, &doc.index, &mut kids);
            sort_item_lists(&mut it2);
            let ghost rmodel = resolved_item(base_dv[j as int], doc.index@);
            proof {
                assert(it2@ == sorted_lists(rmodel.0));
                assert(kids.deep_view() =~= kids_pre + rmodel.1);
            }
            resolved.push(it2);
            proof {
                assert(resolved.deep_view() =~= sp_pre.0.push(sorted_lists(rmodel.0)));
                assert(kids.deep_view() =~= sp_pre.1 + rmodel.1);
            }
            j = j + 1;
        }
        merge_kids(&mut resolved, kids);
        let g = ItemGraph { root_id: doc.root, name: pkg_name, items: resolved };
        proof {
            assert(g@ =~= (GraphModel {
                root_id: doc.root,
                name: t.1,
                items: graph_items(*doc, t.0, t.1),
            }));
        }
        Ok(g)
    }

    /// The ids of every item carrying exactly the given path, in arena
    /// order; a path can be ambiguous across inherent and trait scopes.
    pub fn ids_at_path(&self, path: &str) -> (r: Vec<u32>)
        ensures
            r@ =~= ids_with_path(self@.items, path@),
    {
        let mut out: Vec<u32> = Vec::new();
        let mut i: usize = 0;
        while i < self.items.len()
            invariant
                i <= self.items@.len(),
                self@.items.len() == self.items@.len(),
                out@ =~= ids_with_path(self@.items.take(i as int), path@),
            decreases self.items@.len() - i,
        {
            proof {
                assert(self@.items.take(i + 1 as int).drop_last() =~= self@.items.take(i as int));
            }
            if crate::strutil::str_eq(self.items[i].path.as_str(), path) {
                out.push(self.items[i].id);
            }
            i = i + 1;
        }
        proof {
            assert(self@.items.take(self.items@.len() as int) =~= self@.items);
        }
        out
    }
}

/// The ids of the items carrying exactly the given path, in order.
pub open spec fn ids_with_path(items: Seq<ItemModel>, path: Seq<char>) -> Seq<u32>
    decreases items.len(),
{
    if items.len() == 0 {
        Seq::empty()
    } else {
        let prev = ids_with_path(items.drop_last(), path);
        if items.last().path == path {
            prev.push(items.last().id)
        } else {
            prev
        }
    }
}

/// Law: building the index is deterministic. Two results of building from
/// the same document for the same package carry identical content: the
/// same root, name, and, item for item, the same paths, search keys,
/// kinds, documentation, and child lists.
pub proof fn lemma_build_deterministic(
    doc: &Document,
    package: Option<&str>,
    expected_format_version: u32,
    g1: ItemGraph,
    g2: ItemGraph,
)
    requires
        call_ensures(
            ItemGraph::from_document,
            (doc, package, expected_format_version),
            Ok(g1),
        ),
        call_ensures(
            ItemGraph::from_document,
            (doc, package, expected_format_version),
            Ok(g2),
        ),
    ensures
        g1@ == g2@,
{
}

} // verus!
