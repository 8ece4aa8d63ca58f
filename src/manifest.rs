use vstd::prelude::*;

use crate::table::{
    find, lemma_find_key_present, lemma_find_last, lemma_find_push, lemma_find_some, lemma_find_take,
    to_map,
};

verus! {

/// The key of one installed binary: `(group, name, version)`.
#[derive(Debug)]
pub struct BinaryIdentifier {
    pub group: String,
    pub name: String,
    pub version: String,
}

pub ghost struct IdentifierModel {
    pub group: Seq<char>,
    pub name: Seq<char>,
    pub version: Seq<char>,
}

impl View for BinaryIdentifier {
    type V = IdentifierModel;

    open spec fn view(&self) -> IdentifierModel {
        IdentifierModel { group: self.group@, name: self.name@, version: self.version@ }
    }
}

impl Clone for BinaryIdentifier {
    fn clone(&self) -> (r: Self)
        ensures
            r@ == self@,
    {
        BinaryIdentifier {
            group: self.group.clone(),
            name: self.name.clone(),
            version: self.version.clone(),
        }
    }
}

/// In a consistent manifest every install source and every default leads to
/// an installed binary.
pub proof fn lemma_references_installed(m: ManifestModel)
    requires
        m.consistent(),
    ensures
        forall|u: Seq<char>| #[trigger] m.urls.contains_key(u) ==> m.binary_for_url(u) is Some,
        forall|n: Seq<char>| #[trigger]
            m.global_versions.contains_key(n) ==> m.global_binary(n) is Some,
{
}

/// One installed binary.
#[derive(Debug)]
pub struct BinaryManifestItem {
    pub name: String,
    pub version: String,
    pub group: String,
    /// Path of the installed executable.
    pub file_name: String,
}

pub ghost struct ItemModel {
    pub name: Seq<char>,
    pub version: Seq<char>,
    pub group: Seq<char>,
    pub file_name: Seq<char>,
}

impl ItemModel {
    pub open spec fn id(self) -> IdentifierModel {
        IdentifierModel { group: self.group, name: self.name, version: self.version }
    }
}

impl View for BinaryManifestItem {
    type V = ItemModel;

    open spec fn view(&self) -> ItemModel {
        ItemModel {
            name: self.name@,
            version: self.version@,
            group: self.group@,
            file_name: self.file_name@,
        }
    }
}

impl Clone for BinaryManifestItem {
    fn clone(&self) -> (r: Self)
        ensures
            r@ == self@,
    {
        BinaryManifestItem {
            name: self.name.clone(),
            version: self.version.clone(),
            group: self.group.clone(),
            file_name: self.file_name.clone(),
        }
    }
}

impl BinaryManifestItem {
    pub fn get_identifier(&self) -> (r: BinaryIdentifier)
        ensures
            r@ == self@.id(),
    {
        BinaryIdentifier {
            group: self.group.clone(),
            name: self.name.clone(),
            version: self.version.clone(),
        }
    }
}

fn same_identifier(a: &BinaryIdentifier, b: &BinaryIdentifier) -> (r: bool)
    ensures
        r == (a@ == b@),
{
    a.group == b.group && a.name == b.name && a.version == b.version
}

/// A name (an install source or a command name) together with an identifier.
#[derive(Debug)]
pub struct Entry {
    pub key: String,
    pub identifier: BinaryIdentifier,
}

impl Clone for Entry {
    fn clone(&self) -> (r: Self)
        ensures
            r.key@ == self.key@,
            r.identifier@ == self.identifier@,
    {
        Entry { key: self.key.clone(), identifier: self.identifier.clone() }
    }
}

pub open spec fn entries_seq(v: Seq<Entry>) -> Seq<(Seq<char>, IdentifierModel)> {
    Seq::new(v.len(), |i: int| (v[i].key@, v[i].identifier@))
}

pub open spec fn items_seq(v: Seq<BinaryManifestItem>) -> Seq<(IdentifierModel, ItemModel)> {
    Seq::new(v.len(), |i: int| (v[i]@.id(), v[i]@))
}

pub ghost struct ManifestModel {
    /// Install source to the identifier it resolves to.
    pub urls: Map<Seq<char>, IdentifierModel>,
    /// The installed binaries.
    pub binaries: Map<IdentifierModel, ItemModel>,
    /// Command name to the binary used by default.
    pub global_versions: Map<Seq<char>, IdentifierModel>,
}

impl ManifestModel {
    /// Every identifier that a source or a global selection refers to is installed,
    /// and each binary is stored under its own identifier.
    pub open spec fn consistent(self) -> bool {
        &&& forall|u: Seq<char>| #[trigger]
            self.urls.contains_key(u) ==> self.binaries.contains_key(self.urls[u])
        &&& forall|n: Seq<char>| #[trigger]
            self.global_versions.contains_key(n) ==> self.binaries.contains_key(
                self.global_versions[n],
            )
        &&& forall|id: IdentifierModel| #[trigger]
            self.binaries.contains_key(id) ==> self.binaries[id].id() == id
    }

    /// The binary selected by default for a command name, if any.
    pub open spec fn global_binary(self, name: Seq<char>) -> Option<ItemModel> {
        if self.global_versions.contains_key(name) && self.binaries.contains_key(
            self.global_versions[name],
        ) {
            Some(self.binaries[self.global_versions[name]])
        } else {
            None
        }
    }

    /// The binary that an install source currently resolves to, if it is installed.
    pub open spec fn binary_for_url(self, url: Seq<char>) -> Option<ItemModel> {
        if self.urls.contains_key(url) && self.binaries.contains_key(self.urls[url]) {
            Some(self.binaries[self.urls[url]])
        } else {
            None
        }
    }

    /// Whether some command name selects this identifier by default.
    pub open spec fn is_global(self, id: IdentifierModel) -> bool {
        exists|n: Seq<char>| #[trigger]
            self.global_versions.contains_key(n) && self.global_versions[n] == id
    }

    /// The installed binaries that a command name has.
    pub open spec fn with_name(self, name: Seq<char>) -> Set<ItemModel> {
        Set::new(
            |b: ItemModel| self.binaries.contains_key(b.id()) && self.binaries[b.id()] == b
                && b.name == name,
        )
    }

    /// The manifest after recording a binary installed from `url`.
    pub open spec fn with_binary(self, url: Seq<char>, item: ItemModel) -> ManifestModel {
        ManifestModel {
            urls: self.urls.insert(url, item.id()),
            binaries: self.binaries.insert(item.id(), item),
            global_versions: self.global_versions,
        }
    }

    /// The manifest after selecting `id` as the default binary of `name`.
    pub open spec fn with_global(self, name: Seq<char>, id: IdentifierModel) -> ManifestModel {
        ManifestModel {
            urls: self.urls,
            binaries: self.binaries,
            global_versions: self.global_versions.insert(name, id),
        }
    }

    /// The manifest without an install source.
    pub open spec fn without_url(self, url: Seq<char>) -> ManifestModel {
        ManifestModel {
            urls: self.urls.remove(url),
            binaries: self.binaries,
            global_versions: self.global_versions,
        }
    }

    /// The manifest without a binary: what referred to it goes with it.
    pub open spec fn without_binary(self, id: IdentifierModel) -> ManifestModel {
        ManifestModel {
            urls: self.urls.restrict(self.urls.dom().filter(|u: Seq<char>| self.urls[u] != id)),
            binaries: self.binaries.remove(id),
            global_versions: self.global_versions.restrict(
                self.global_versions.dom().filter(|n: Seq<char>| self.global_versions[n] != id),
            ),
        }
    }
}

pub open spec fn id_option(o: Option<BinaryIdentifier>) -> Option<IdentifierModel> {
    match o {
        Some(x) => Some(x@),
        None => None,
    }
}

fn entry_lookup(v: &Vec<Entry>, key: &String) -> (r: Option<BinaryIdentifier>)
    ensures
        id_option(r) == find(entries_seq(v@), key@),
{
    let ghost es = entries_seq(v@);
    let mut i: usize = v.len();
    assert(es.take(i as int) =~= es);
    while i > 0
        invariant
            i <= v.len(),
            es == entries_seq(v@),
            find(es, key@) == find(es.take(i as int), key@),
        decreases i,
    {
        proof {
            lemma_find_take(es, i as int, key@);
        }
        if v[i - 1].key == *key {
            return Some(v[i - 1].identifier.clone());
        }
        i = i - 1;
    }
    assert(es.take(0).len() == 0);
    None
}

fn entries_without_key(v: &Vec<Entry>, key: &String) -> (r: Vec<Entry>)
    ensures
        forall|k: Seq<char>|
            #![trigger find(entries_seq(r@), k)]
            find(entries_seq(r@), k) == if k == key@ {
                None
            } else {
                find(entries_seq(v@), k)
            },
{
    let ghost es = entries_seq(v@);
    let mut r: Vec<Entry> = Vec::new();
    let mut i: usize = 0;
    while i < v.len()
        invariant
            i <= v.len(),
            es == entries_seq(v@),
            forall|k: Seq<char>|
                #![trigger find(entries_seq(r@), k)]
                find(entries_seq(r@), k) == if k == key@ {
                    None
                } else {
                    find(es.take(i as int), k)
                },
        decreases v.len() - i,
    {
        let ghost prev = entries_seq(r@);
        if v[i].key != *key {
            let e = v[i].clone();
            r.push(e);
            assert(entries_seq(r@) =~= prev.push(es[i as int]));
        }
        assert forall|k: Seq<char>| #![trigger find(entries_seq(r@), k)]
            find(entries_seq(r@), k) == if k == key@ {
                None
            } else {
                find(es.take(i + 1), k)
            } by {
            lemma_find_take(es, i + 1, k);
            lemma_find_push(prev, es[i as int], k);
        }
        i = i + 1;
    }
    assert(es.take(v.len() as int) =~= es);
    r
}

/// Keeps the entries whose key does not currently resolve to `id`.
fn entries_without_target(v: &Vec<Entry>, id: &BinaryIdentifier) -> (r: Vec<Entry>)
    ensures
        forall|k: Seq<char>|
            #![trigger find(entries_seq(r@), k)]
            find(entries_seq(r@), k) == if find(entries_seq(v@), k) == Some(id@) {
                None
            } else {
                find(entries_seq(v@), k)
            },
{
    let ghost es = entries_seq(v@);
    let mut r: Vec<Entry> = Vec::new();
    let mut i: usize = 0;
    while i < v.len()
        invariant
            i <= v.len(),
            es == entries_seq(v@),
            forall|k: Seq<char>|
                #![trigger find(entries_seq(r@), k)]
                find(entries_seq(r@), k) == if find(es, k) == Some(id@) {
                    None
                } else {
                    find(es.take(i as int), k)
                },
        decreases v.len() - i,
    {
        let ghost prev = entries_seq(r@);
        let current = entry_lookup(v, &v[i].key);
        let keep = match current {
            Some(c) => !same_identifier(&c, id),
            None => true,
        };
        if keep {
            let e = v[i].clone();
            r.push(e);
            assert(entries_seq(r@) =~= prev.push(es[i as int]));
        }
        assert forall|k: Seq<char>| #![trigger find(entries_seq(r@), k)]
            find(entries_seq(r@), k) == if find(es, k) == Some(id@) {
                None
            } else {
                find(es.take(i + 1), k)
            } by {
            lemma_find_take(es, i + 1, k);
            lemma_find_push(prev, es[i as int], k);
        }
        i = i + 1;
    }
    assert(es.take(v.len() as int) =~= es);
    r
}

fn items_without_id(v: &Vec<BinaryManifestItem>, id: &BinaryIdentifier) -> (r: Vec<
    BinaryManifestItem,
>)
    ensures
        forall|k: IdentifierModel|
            #![trigger find(items_seq(r@), k)]
            find(items_seq(r@), k) == if k == id@ {
                None
            } else {
                find(items_seq(v@), k)
            },
{
    let ghost es = items_seq(v@);
    let mut r: Vec<BinaryManifestItem> = Vec::new();
    let mut i: usize = 0;
    while i < v.len()
        invariant
            i <= v.len(),
            es == items_seq(v@),
            forall|k: IdentifierModel|
                #![trigger find(items_seq(r@), k)]
                find(items_seq(r@), k) == if k == id@ {
                    None
                } else {
                    find(es.take(i as int), k)
                },
        decreases v.len() - i,
    {
        let ghost prev = items_seq(r@);
        let cur = v[i].get_identifier();
        if !same_identifier(&cur, id) {
            let e = v[i].clone();
            r.push(e);
            assert(items_seq(r@) =~= prev.push(es[i as int]));
        }
        assert forall|k: IdentifierModel| #![trigger find(items_seq(r@), k)]
            find(items_seq(r@), k) == if k == id@ {
                None
            } else {
                find(es.take(i + 1), k)
            } by {
            lemma_find_take(es, i + 1, k);
            lemma_find_push(prev, es[i as int], k);
        }
        i = i + 1;
    }
    assert(es.take(v.len() as int) =~= es);
    r
}

/// No later entry holds the key of entry `j`.
pub open spec fn live_at(es: Seq<(IdentifierModel, ItemModel)>, j: int) -> bool {
    forall|m: int| j < m < es.len() ==> es[m].0 != es[j].0
}

/// `b` is the item of an entry before position `i` that no later entry overrides.
pub open spec fn from_live(es: Seq<(IdentifierModel, ItemModel)>, b: ItemModel, i: int) -> bool {
    exists|j: int| 0 <= j < i && live_at(es, j) && b == es[j].1
}

/// The part of a table whose identifiers are installed.
pub open spec fn installed_only<K>(
    t: Map<K, IdentifierModel>,
    binaries: Map<IdentifierModel, ItemModel>,
) -> Map<K, IdentifierModel> {
    t.restrict(t.dom().filter(|k: K| binaries.contains_key(t[k])))
}

/// Entry `i` is a binary with this name and version that no later entry overrides.
pub open spec fn matches_at(
    es: Seq<(IdentifierModel, ItemModel)>,
    name: Seq<char>,
    version: Seq<char>,
    i: int,
) -> bool {
    0 <= i < es.len() && live_at(es, i) && es[i].1.name == name && es[i].1.version == version
}

/// The first binary of the table with this name and version.
pub open spec fn first_match(
    es: Seq<(IdentifierModel, ItemModel)>,
    name: Seq<char>,
    version: Seq<char>,
    b: ItemModel,
) -> bool {
    exists|i: int|
        #![trigger es[i]]
        matches_at(es, name, version, i) && b == es[i].1 && forall|j: int|
            0 <= j < i ==> !matches_at(es, name, version, j)
}

/// The registry of installed binaries, their install sources and the default
/// binary of each command name.
pub struct PluginsManifest {
    urls: Vec<Entry>,
    binaries: Vec<BinaryManifestItem>,
    global_versions: Vec<Entry>,
}

impl View for PluginsManifest {
    type V = ManifestModel;

    closed spec fn view(&self) -> ManifestModel {
        ManifestModel {
            urls: to_map(entries_seq(self.urls@)),
            binaries: to_map(items_seq(self.binaries@)),
            global_versions: to_map(entries_seq(self.global_versions@)),
        }
    }
}

/// Whether no later entry of the table holds the identifier of entry `i`.
fn item_is_live(v: &Vec<BinaryManifestItem>, i: usize) -> (r: bool)
    requires
        i < v.len(),
    ensures
        r == forall|m: int| i < m < v.len() ==> items_seq(v@)[m].0 != items_seq(v@)[i as int].0,
{
    let ghost es = items_seq(v@);
    let id = v[i].get_identifier();
    let mut m: usize = i + 1;
    while m < v.len()
        invariant
            i < m <= v.len(),
            es == items_seq(v@),
            id@ == es[i as int].0,
            forall|j: int| i < j < m ==> es[j].0 != es[i as int].0,
        decreases v.len() - m,
    {
        let other = v[m].get_identifier();
        if same_identifier(&other, &id) {
            assert(es[m as int].0 == es[i as int].0);
            return false;
        }
        m = m + 1;
    }
    true
}

impl PluginsManifest {
    /// The binaries in the order in which they are stored; lookups by name and
    /// version take the first match in this order.
    pub closed spec fn binary_table(self) -> Seq<(IdentifierModel, ItemModel)> {
        items_seq(self.binaries@)
    }

    /// The manifest of a first run: nothing installed.
    pub fn new() -> (r: PluginsManifest)
        ensures
            r@.urls == Map::<Seq<char>, IdentifierModel>::empty(),
            r@.binaries == Map::<IdentifierModel, ItemModel>::empty(),
            r@.global_versions == Map::<Seq<char>, IdentifierModel>::empty(),
            r@.consistent(),
    {
        let r = PluginsManifest { urls: Vec::new(), binaries: Vec::new(), global_versions: Vec::new() };
        assert(entries_seq(r.urls@) =~= Seq::empty());
        assert(entries_seq(r.global_versions@) =~= Seq::empty());
        assert(items_seq(r.binaries@) =~= Seq::empty());
        assert(r@.urls =~= Map::empty());
        assert(r@.binaries =~= Map::empty());
        assert(r@.global_versions =~= Map::empty());
        r
    }

    pub fn get_identifier_from_url(&self, url: &String) -> (r: Option<BinaryIdentifier>)
        ensures
            id_option(r) == (if self@.urls.contains_key(url@) {
                Some(self@.urls[url@])
            } else {
                None
            }),
    {
        entry_lookup(&self.urls, url)
    }

    pub fn get_binary(&self, identifier: &BinaryIdentifier) -> (r: Option<&BinaryManifestItem>)
        ensures
            match r {
                Some(b) => self@.binaries.contains_key(identifier@) && self@.binaries[identifier@]
                    == b@,
                None => !self@.binaries.contains_key(identifier@),
            },
    {
        let ghost es = items_seq(self.binaries@);
        let mut i: usize = self.binaries.len();
        assert(es.take(i as int) =~= es);
        while i > 0
            invariant
                i <= self.binaries.len(),
                es == items_seq(self.binaries@),
                find(es, identifier@) == find(es.take(i as int), identifier@),
            decreases i,
        {
            proof {
                lemma_find_take(es, i as int, identifier@);
            }
            let cur = self.binaries[i - 1].get_identifier();
            if same_identifier(&cur, identifier) {
                return Some(&self.binaries[i - 1]);
            }
            i = i - 1;
        }
        assert(es.take(0).len() == 0);
        None
    }

    /// Every installed binary whose command name is `name`, each once.
    pub fn get_binaries_with_name(&self, name: &String) -> (r: Vec<BinaryManifestItem>)
        ensures
            forall|k: int| 0 <= k < r.len() ==> self@.with_name(name@).contains(#[trigger] r[k]@),
            forall|b: ItemModel| #[trigger]
                self@.with_name(name@).contains(b) ==> exists|k: int|
                    0 <= k < r.len() && r[k]@ == b,
            forall|k1: int, k2: int| 0 <= k1 < k2 < r.len() ==> r[k1]@ != r[k2]@,
    {
        let ghost es = items_seq(self.binaries@);
        let mut r: Vec<BinaryManifestItem> = Vec::new();
        let mut i: usize = 0;
        while i < self.binaries.len()
            invariant
                i <= self.binaries.len(),
                es == items_seq(self.binaries@),
                forall|k: int|
                    0 <= k < r.len() ==> self@.with_name(name@).contains(#[trigger] r[k]@),
                forall|j: int|
                    0 <= j < i && es[j].1.name == name@ && (forall|m: int|
                        j < m < es.len() ==> es[m].0 != es[j].0) ==> exists|k: int|
                        0 <= k < r.len() && r[k]@ == #[trigger] es[j].1,
                forall|k: int| 0 <= k < r.len() ==> #[trigger] from_live(es, r[k]@, i as int),
                forall|k1: int, k2: int| 0 <= k1 < k2 < r.len() ==> r[k1]@ != r[k2]@,
            decreases self.binaries.len() - i,
        {
            let ghost start = r@;
            if self.binaries[i].name == *name && item_is_live(&self.binaries, i) {
                proof {
                    lemma_find_last(es, i as int);
                }
                let ghost prev = r@;
                r.push(self.binaries[i].clone());
                assert(r[prev.len() as int]@ == es[i as int].1);
                assert forall|k: int| 0 <= k < prev.len() implies r[k]@ != es[i as int].1 by {
                    assert(r[k] == prev[k]);
                    assert(from_live(es, prev[k]@, i as int));
                    let j = choose|j: int| 0 <= j < i && live_at(es, j) && prev[k]@ == es[j].1;
                    assert(es[j].1.id() == es[j].0);
                    assert(es[i as int].1.id() == es[i as int].0);
                }
                assert forall|k: int| 0 <= k < r.len() implies #[trigger] from_live(es, r[k]@, i + 1) by {
                    if k < prev.len() {
                        assert(r[k] == prev[k]);
                        assert(from_live(es, prev[k]@, i as int));
                        let j = choose|j: int| 0 <= j < i && live_at(es, j) && prev[k]@ == es[j].1;
                        assert(0 <= j < i + 1 && live_at(es, j) && r[k]@ == es[j].1);
                    } else {
                        assert(r[k]@ == es[i as int].1);
                        assert(live_at(es, i as int));
                    }
                }
                assert forall|j: int|
                    0 <= j < i + 1 && es[j].1.name == name@ && (forall|m: int|
                        j < m < es.len() ==> es[m].0 != es[j].0) implies exists|k: int|
                    0 <= k < r.len() && r[k]@ == #[trigger] es[j].1 by {
                    if j < i {
                        let k = choose|k: int| 0 <= k < prev.len() && prev[k]@ == es[j].1;
                        assert(r[k] == prev[k]);
                    } else {
                        assert(r[prev.len() as int]@ == es[j].1);
                    }
                }
            } else {
                assert forall|k: int| 0 <= k < r.len() implies #[trigger] from_live(es, r[k]@, i + 1) by {
                    assert(from_live(es, r[k]@, i as int));
                    let j = choose|j: int| 0 <= j < i && live_at(es, j) && r[k]@ == es[j].1;
                    assert(0 <= j < i + 1 && live_at(es, j) && r[k]@ == es[j].1);
                }
            }
            i = i + 1;
        }
        assert forall|b: ItemModel| #[trigger]
            self@.with_name(name@).contains(b) implies exists|k: int|
                0 <= k < r.len() && r[k]@ == b by {
            let j = lemma_find_some(es, b.id());
            assert(es[j].1 == b);
        }
        r
    }

    /// An installed binary with this command name and version.
    pub fn get_binary_by_name_and_version(&self, name: &String, version: &String) -> (r: Option<
        &BinaryManifestItem,
    >)
        ensures
            match r {
                Some(b) => self@.with_name(name@).contains(b@) && b@.version == version@
                    && first_match(self.binary_table(), name@, version@, b@),
                None => forall|b: ItemModel| #[trigger]
                    self@.with_name(name@).contains(b) ==> b.version != version@,
            },
    {
        let ghost es = items_seq(self.binaries@);
        let mut i: usize = 0;
        while i < self.binaries.len()
            invariant
                i <= self.binaries.len(),
                es == items_seq(self.binaries@),
                forall|j: int|
                    0 <= j < i && (forall|m: int| j < m < es.len() ==> es[m].0 != es[j].0)
                        ==> #[trigger] es[j].1.name != name@ || es[j].1.version != version@,
            decreases self.binaries.len() - i,
        {
            if self.binaries[i].name == *name && self.binaries[i].version == *version
                && item_is_live(&self.binaries, i) {
                proof {
                    lemma_find_last(es, i as int);
                    assert(matches_at(es, name@, version@, i as int));
                    assert forall|j: int| 0 <= j < i implies !matches_at(es, name@, version@, j) by {
                        if matches_at(es, name@, version@, j) {
                            assert(es[j].1.name != name@ || es[j].1.version != version@);
                        }
                    }
                }
                return Some(&self.binaries[i]);
            }
            i = i + 1;
        }
        assert forall|b: ItemModel| #[trigger]
            self@.with_name(name@).contains(b) implies b.version != version@ by {
            let j = lemma_find_some(es, b.id());
            assert(es[j].1 == b);
        }
        None
    }

    pub fn get_global_binary(&self, name: &String) -> (r: Option<&BinaryManifestItem>)
        ensures
            match r {
                Some(b) => self@.global_binary(name@) == Some(b@),
                None => self@.global_binary(name@) is None,
            },
    {
        match entry_lookup(&self.global_versions, name) {
            Some(id) => self.get_binary(&id),
            None => None,
        }
    }

    pub fn is_global_version(&self, identifier: &BinaryIdentifier) -> (r: bool)
        ensures
            r == self@.is_global(identifier@),
    {
        let ghost es = entries_seq(self.global_versions@);
        let mut i: usize = 0;
        while i < self.global_versions.len()
            invariant
                i <= self.global_versions.len(),
                es == entries_seq(self.global_versions@),
                forall|j: int|
                    0 <= j < i ==> #[trigger] find(es, es[j].0) != Some(identifier@),
            decreases self.global_versions.len() - i,
        {
            let current = entry_lookup(&self.global_versions, &self.global_versions[i].key);
            if let Some(c) = current {
                if same_identifier(&c, identifier) {
                    assert(self@.global_versions.contains_key(es[i as int].0));
                    return true;
                }
            }
            i = i + 1;
        }
        assert forall|n: Seq<char>|
            #[trigger] self@.global_versions.contains_key(n) implies self@.global_versions[n]
            != identifier@ by {
            let j = lemma_find_some(es, n);
            assert(find(es, es[j].0) != Some(identifier@));
        }
        false
    }

    /// Makes `identifier` the default binary of the command `name`.
    pub fn use_global_version(&mut self, name: String, identifier: BinaryIdentifier)
        requires
            old(self)@.consistent(),
            old(self)@.binaries.contains_key(identifier@),
        ensures
            final(self)@ == old(self)@.with_global(name@, identifier@),
            final(self).binary_table() == old(self).binary_table(),
            final(self)@.consistent(),
    {
        let ghost before = self@;
        let ghost before_globals = self.global_versions;
        let mut rest = entries_without_key(&self.global_versions, &name);
        let ghost prev = entries_seq(rest@);
        let e = Entry { key: name, identifier };
        let ghost pair = (e.key@, e.identifier@);
        rest.push(e);
        assert(entries_seq(rest@) =~= prev.push(pair));
        self.global_versions = rest;
        assert forall|k: Seq<char>|
            #[trigger] find(entries_seq(self.global_versions@), k) == if k == pair.0 {
                Some(pair.1)
            } else {
                find(entries_seq(before_globals@), k)
            } by {
            lemma_find_push(prev, pair, k);
        }
        assert(self@.global_versions =~= before.global_versions.insert(pair.0, pair.1));
        assert(self@.urls =~= before.urls);
        assert(self@.binaries =~= before.binaries);
    }

    pub fn remove_url(&mut self, url: &String)
        requires
            old(self)@.consistent(),
        ensures
            final(self)@ == old(self)@.without_url(url@),
            final(self)@.consistent(),
    {
        let ghost before = self@;
        self.urls = entries_without_key(&self.urls, url);
        assert(self@.urls =~= before.urls.remove(url@));
        assert(self@.binaries =~= before.binaries);
        assert(self@.global_versions =~= before.global_versions);
    }

    /// Removes an installed binary, together with the install sources and the
    /// global selections that refer to it.
    pub fn remove_binary(&mut self, identifier: &BinaryIdentifier)
        requires
            old(self)@.consistent(),
        ensures
            final(self)@ == old(self)@.without_binary(identifier@),
            final(self)@.consistent(),
    {
        let ghost before = self@;
        self.binaries = items_without_id(&self.binaries, identifier);
        self.urls = entries_without_target(&self.urls, identifier);
        self.global_versions = entries_without_target(&self.global_versions, identifier);
        let ghost expected = before.without_binary(identifier@);
        assert(self@.urls =~= expected.urls);
        assert(self@.binaries =~= expected.binaries);
        assert(self@.global_versions =~= expected.global_versions);
    }

    /// Records a newly installed binary and the install source it came from.
    pub fn add_binary(&mut self, url: String, item: BinaryManifestItem)
        requires
            old(self)@.consistent(),
        ensures
            final(self)@ == old(self)@.with_binary(url@, item@),
            final(self)@.consistent(),
    {
        let ghost before = self@;
        let ghost old_urls = self.urls;
        let ghost old_bins = self.binaries;
        let id = item.get_identifier();
        let mut bins = items_without_id(&self.binaries, &id);
        let ghost bprev = items_seq(bins@);
        let ghost bpair = (item@.id(), item@);
        bins.push(item);
        assert(items_seq(bins@) =~= bprev.push(bpair));
        assert forall|k: IdentifierModel|
            #[trigger] find(items_seq(bins@), k) == if k == bpair.0 {
                Some(bpair.1)
            } else {
                find(items_seq(old_bins@), k)
            } by {
            lemma_find_push(bprev, bpair, k);
        }
        let mut urls = entries_without_key(&self.urls, &url);
        let ghost uprev = entries_seq(urls@);
        let e = Entry { key: url, identifier: id };
        let ghost upair = (e.key@, e.identifier@);
        urls.push(e);
        assert(entries_seq(urls@) =~= uprev.push(upair));
        assert forall|k: Seq<char>|
            #[trigger] find(entries_seq(urls@), k) == if k == upair.0 {
                Some(upair.1)
            } else {
                find(entries_seq(old_urls@), k)
            } by {
            lemma_find_push(uprev, upair, k);
        }
        self.binaries = bins;
        self.urls = urls;
        assert(self@.binaries =~= before.binaries.insert(bpair.0, bpair.1));
        assert(self@.urls =~= before.urls.insert(upair.0, upair.1));
        assert(self@.global_versions =~= before.global_versions);
    }

    /// The entries of a table whose key leads to an installed binary.
    fn installed_entries(&self, v: &Vec<Entry>) -> (r: Vec<Entry>)
        ensures
            forall|k: Seq<char>|
                #![trigger find(entries_seq(r@), k)]
                find(entries_seq(r@), k) == if find(entries_seq(v@), k) is Some
                    && self@.binaries.contains_key(find(entries_seq(v@), k)->0) {
                    find(entries_seq(v@), k)
                } else {
                    None
                },
    {
        let ghost es = entries_seq(v@);
        let mut r: Vec<Entry> = Vec::new();
        let mut i: usize = 0;
        while i < v.len()
            invariant
                i <= v.len(),
                es == entries_seq(v@),
                forall|k: Seq<char>|
                    #![trigger find(entries_seq(r@), k)]
                    find(entries_seq(r@), k) == if find(es, k) is Some
                        && self@.binaries.contains_key(find(es, k)->0) {
                        find(es.take(i as int), k)
                    } else {
                        None
                    },
            decreases v.len() - i,
        {
            let ghost prev = entries_seq(r@);
            let keep = match entry_lookup(v, &v[i].key) {
                Some(t) => self.get_binary(&t).is_some(),
                None => false,
            };
            if keep {
                let e = v[i].clone();
                r.push(e);
                assert(entries_seq(r@) =~= prev.push(es[i as int]));
            }
            assert forall|k: Seq<char>| #![trigger find(entries_seq(r@), k)]
                find(entries_seq(r@), k) == if find(es, k) is Some
                    && self@.binaries.contains_key(find(es, k)->0) {
                    find(es.take(i + 1), k)
                } else {
                    None
                } by {
                lemma_find_take(es, i + 1, k);
                lemma_find_push(prev, es[i as int], k);
                if k == es[i as int].0 {
                    lemma_find_key_present(es, i as int);
                }
            }
            i = i + 1;
        }
        assert(es.take(v.len() as int) =~= es);
        r
    }

    /// Builds a manifest from stored tables. Sources and defaults that refer
    /// to a binary that is not installed are dropped, so the result is
    /// consistent.
    pub fn from_entries(
        urls: Vec<Entry>,
        binaries: Vec<BinaryManifestItem>,
        global_versions: Vec<Entry>,
    ) -> (r: PluginsManifest)
        ensures
            r@.binaries == to_map(items_seq(binaries@)),
            r@.urls == installed_only(to_map(entries_seq(urls@)), r@.binaries),
            r@.global_versions == installed_only(to_map(entries_seq(global_versions@)), r@.binaries),
            r@.consistent(),
    {
        let mut m = PluginsManifest { urls: Vec::new(), binaries, global_versions: Vec::new() };
        let kept_urls = m.installed_entries(&urls);
        let kept_globals = m.installed_entries(&global_versions);
        let ghost bins = m@.binaries;
        m.urls = kept_urls;
        m.global_versions = kept_globals;
        proof {
            let es = items_seq(m.binaries@);
            assert forall|id: IdentifierModel| #[trigger]
                m@.binaries.contains_key(id) implies m@.binaries[id].id() == id by {
                let j = lemma_find_some(es, id);
                assert(es[j].1.id() == es[j].0);
            }
            assert(m@.binaries == bins);
            assert(m@.urls =~= installed_only(to_map(entries_seq(urls@)), bins));
            assert(m@.global_versions =~= installed_only(to_map(entries_seq(global_versions@)), bins));
        }
        m
    }

    /// The sources table, for storage.
    pub fn url_entries(&self) -> (r: &Vec<Entry>)
        ensures
            to_map(entries_seq(r@)) == self@.urls,
    {
        &self.urls
    }

    /// The installed binaries, for storage.
    pub fn binary_entries(&self) -> (r: &Vec<BinaryManifestItem>)
        ensures
            to_map(items_seq(r@)) == self@.binaries,
    {
        &self.binaries
    }

    /// The defaults table, for storage.
    pub fn global_entries(&self) -> (r: &Vec<Entry>)
        ensures
            to_map(entries_seq(r@)) == self@.global_versions,
    {
        &self.global_versions
    }
}

} // verus!
