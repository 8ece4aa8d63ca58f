use vstd::prelude::*;

use crate::manifest::{first_match, BinaryManifestItem, ItemModel, ManifestModel, PluginsManifest};
use crate::versions::{is_sorted, lemma_sorted_unique, sort_versions, texts};

verus! {

broadcast use vstd::seq_lib::group_to_multiset_ensures;

/// Why no installed binary matched a command name and version.
#[derive(Debug)]
pub enum BinaryLookupError {
    /// No binary with that command name is installed.
    NotInstalled { name: String },
    /// Binaries with that command name are installed, none in that version;
    /// `installed` lists their versions in ascending order.
    VersionNotInstalled { name: String, version: String, installed: Vec<String> },
}

/// Lines joined by a newline and a two-space indent.
pub open spec fn indented_lines(s: Seq<String>) -> Seq<char>
    decreases s.len(),
{
    if s.len() == 0 {
        Seq::empty()
    } else if s.len() == 1 {
        s[0]@
    } else {
        indented_lines(s.drop_last()) + "\n  "@ + s.last()@
    }
}

/// The text shown to the user for a failed lookup.
pub open spec fn failure_message(e: BinaryLookupError) -> Seq<char> {
    match e {
        BinaryLookupError::NotInstalled { name } => "Could not find any installed binaries named '"@
            + name@ + "'"@,
        BinaryLookupError::VersionNotInstalled { name, version, installed } => "Could not find binary '"@
            + name@ + "' with version '"@ + version@ + "'\n\nInstalled versions:\n  "@
            + indented_lines(installed@),
    }
}

impl BinaryLookupError {
    pub fn message(&self) -> (r: String)
        ensures
            r@ == failure_message(*self),
    {
        match self {
            BinaryLookupError::NotInstalled { name } => {
                let mut r = "Could not find any installed binaries named '".to_owned();
                r.append(name.as_str());
                r.append("'");
                r
            },
            BinaryLookupError::VersionNotInstalled { name, version, installed } => {
                let mut r = "Could not find binary '".to_owned();
                r.append(name.as_str());
                r.append("' with version '");
                r.append(version.as_str());
                r.append("'\n\nInstalled versions:\n  ");
                let ghost head = r@;
                let mut i: usize = 0;
                while i < installed.len()
                    invariant
                        i <= installed.len(),
                        r@ == head + indented_lines(installed@.take(i as int)),
                    decreases installed.len() - i,
                {
                    let ghost before = r@;
                    if i > 0 {
                        r.append("\n  ");
                    }
                    r.append(installed[i].as_str());
                    proof {
                        let t = installed@.take(i + 1);
                        assert(t.drop_last() =~= installed@.take(i as int));
                        if i == 0 {
                            assert(installed@.take(0).len() == 0);
                            assert(indented_lines(installed@.take(0)) =~= Seq::<char>::empty());
                        }
                    }
                    i = i + 1;
                }
                assert(installed@.take(installed.len() as int) =~= installed@);
                r
            },
        }
    }
}

/// The versions installed under a command name.
pub open spec fn installed_versions(m: ManifestModel, name: Seq<char>) -> Set<Seq<char>> {
    m.with_name(name).map(|b: ItemModel| b.version)
}

pub open spec fn has_version(m: ManifestModel, name: Seq<char>, version: Seq<char>) -> bool {
    exists|b: ItemModel| #[trigger] m.with_name(name).contains(b) && b.version == version
}

/// `installed` lists the version of each installed binary named `name`, one
/// entry per binary.
pub open spec fn one_per_binary(m: ManifestModel, name: Seq<char>, installed: Seq<String>) -> bool {
    exists|s: Seq<ItemModel>|
        #![trigger s.to_set()]
        s.no_duplicates() && s.to_set() == m.with_name(name) && s.map_values(
            |b: ItemModel| b.version,
        ).to_multiset() == texts(installed).to_multiset()
}

/// `b` is an installed binary with this command name and version.
pub open spec fn is_match(m: ManifestModel, name: Seq<char>, version: Seq<char>, b: ItemModel) -> bool {
    m.with_name(name).contains(b) && b.version == version
}

/// `e` reports correctly that no binary with this name and version is installed.
pub open spec fn describes_failure(
    m: ManifestModel,
    binary_name: Seq<char>,
    version: Seq<char>,
    e: BinaryLookupError,
) -> bool {
    match e {
        BinaryLookupError::NotInstalled { name } => name@ == binary_name && m.with_name(
            binary_name,
        ).is_empty(),
        BinaryLookupError::VersionNotInstalled { name, version: v, installed } => {
            &&& name@ == binary_name
            &&& v@ == version
            &&& !m.with_name(binary_name).is_empty()
            &&& is_sorted(installed@)
            &&& string_views(installed@) == installed_versions(m, binary_name)
            &&& one_per_binary(m, binary_name, installed@)
        },
    }
}

pub open spec fn string_views(s: Seq<String>) -> Set<Seq<char>> {
    Set::new(|v: Seq<char>| exists|k: int| 0 <= k < s.len() && (#[trigger] s[k])@ == v)
}

/// The installed binary with this command name and version, or the reason
/// there is none.
pub fn get_binary_with_name_and_version<'a>(
    plugin_manifest: &'a PluginsManifest,
    binary_name: &String,
    version: &String,
) -> (r: Result<&'a BinaryManifestItem, BinaryLookupError>)
    ensures
        r is Ok <==> has_version(plugin_manifest@, binary_name@, version@),
        match r {
            Ok(b) => is_match(plugin_manifest@, binary_name@, version@, b@) && first_match(
                plugin_manifest.binary_table(),
                binary_name@,
                version@,
                b@,
            ),
            Err(e) => describes_failure(plugin_manifest@, binary_name@, version@, e),
        },
{
    match plugin_manifest.get_binary_by_name_and_version(binary_name, version) {
        Some(b) => Ok(b),
        None => {
            let items = plugin_manifest.get_binaries_with_name(binary_name);
            let ghost set = plugin_manifest@.with_name(binary_name@);
            let mut versions: Vec<String> = Vec::new();
            let mut i: usize = 0;
            while i < items.len()
                invariant
                    i <= items.len(),
                    versions.len() == i,
                    forall|k: int| 0 <= k < i ==> (#[trigger] versions@[k])@ == items@[k]@.version,
                decreases items.len() - i,
            {
                versions.push(items[i].version.clone());
                i = i + 1;
            }
            let ghost unsorted = versions@;
            let sorted = sort_versions(versions);
            proof {
                let seq_items = items@.map_values(|b: BinaryManifestItem| b@);
                assert(seq_items.no_duplicates()) by {
                    assert forall|a: int, c: int|
                        0 <= a < seq_items.len() && 0 <= c < seq_items.len() && a != c implies seq_items[a]
                        != seq_items[c] by {
                        if a < c {
                            assert(items@[a]@ != items@[c]@);
                        } else {
                            assert(items@[c]@ != items@[a]@);
                        }
                    }
                }
                assert forall|b: ItemModel| #[trigger] seq_items.to_set().contains(b) <==> set.contains(b) by {
                    if set.contains(b) {
                        let k = choose|k: int| 0 <= k < items.len() && items@[k]@ == b;
                        assert(seq_items[k] == b);
                    }
                    if seq_items.to_set().contains(b) {
                        let k = choose|k: int| 0 <= k < seq_items.len() && seq_items[k] == b;
                        assert(set.contains(items@[k]@));
                    }
                }
                assert(seq_items.to_set() =~= set);
                assert(seq_items.map_values(|b: ItemModel| b.version) =~= texts(unsorted));
                assert(one_per_binary(plugin_manifest@, binary_name@, sorted@));
            }
            assert forall|v: Seq<char>| string_views(sorted@).contains(v) <==> installed_versions(plugin_manifest@, binary_name@).contains(v) by {
                if string_views(sorted@).contains(v) {
                    let k = choose|k: int| 0 <= k < sorted@.len() && (#[trigger] sorted@[k])@ == v;
                    assert(sorted@.to_multiset().count(sorted@[k]) > 0);
                    assert(unsorted.contains(sorted@[k]));
                    let m = choose|m: int| 0 <= m < unsorted.len() && unsorted[m] == sorted@[k];
                    assert(set.contains(items@[m]@));
                }
                if installed_versions(plugin_manifest@, binary_name@).contains(v) {
                    let b = choose|b: ItemModel| set.contains(b) && b.version == v;
                    let m = choose|m: int| 0 <= m < items.len() && items@[m]@ == b;
                    assert(unsorted[m]@ == v);
                    assert(unsorted.to_multiset().count(unsorted[m]) > 0);
                    assert(sorted@.contains(unsorted[m]));
                }
            }
            assert(string_views(sorted@) =~= installed_versions(plugin_manifest@, binary_name@));
            if sorted.len() == 0 {
                assert forall|b: ItemModel| !set.contains(b) by {
                    if set.contains(b) {
                        assert(installed_versions(plugin_manifest@, binary_name@).contains(b.version));
                    }
                }
                assert(set =~= Set::empty());
                Err(BinaryLookupError::NotInstalled { name: binary_name.clone() })
            } else {
                proof {
                    assert(string_views(sorted@).contains(sorted@[0]@));
                    let v0 = sorted@[0]@;
                    let b = choose|b: ItemModel| set.contains(b) && b.version == v0;
                    assert(set.contains(b));
                }
                Err(
                    BinaryLookupError::VersionNotInstalled {
                        name: binary_name.clone(),
                        version: version.clone(),
                        installed: sorted,
                    },
                )
            }
        },
    }
}

/// Selects the installed binary with this name and version as the default
/// of its command name.
pub fn handle_use_command(
    plugin_manifest: &mut PluginsManifest,
    binary_name: &String,
    version: &String,
) -> (r: Result<(), BinaryLookupError>)
    requires
        old(plugin_manifest)@.consistent(),
    ensures
        final(plugin_manifest)@.consistent(),
        r is Ok <==> has_version(old(plugin_manifest)@, binary_name@, version@),
        match r {
            Ok(_) => final(plugin_manifest).binary_table() == old(plugin_manifest).binary_table()
                && exists|b: ItemModel|
                #[trigger] is_match(old(plugin_manifest)@, binary_name@, version@, b)
                    && first_match(old(plugin_manifest).binary_table(), binary_name@, version@, b)
                    && final(plugin_manifest)@ == old(plugin_manifest)@.with_global(b.name, b.id()),
            Err(e) => final(plugin_manifest)@ == old(plugin_manifest)@ && final(plugin_manifest).binary_table()
                == old(plugin_manifest).binary_table() && describes_failure(
                old(plugin_manifest)@,
                binary_name@,
                version@,
                e,
            ),
        },
{
    let ghost before = plugin_manifest@;
    let (name, identifier) = match get_binary_with_name_and_version(
        plugin_manifest,
        binary_name,
        version,
    ) {
        Ok(binary) => {
            assert(is_match(before, binary_name@, version@, binary@));
            assert(first_match(plugin_manifest.binary_table(), binary_name@, version@, binary@));
            (binary.name.clone(), binary.get_identifier())
        },
        Err(e) => {
            return Err(e);
        },
    };
    plugin_manifest.use_global_version(name, identifier);
    Ok(())
}

/// Whether the binary that an install source names is installed.
pub fn is_url_installed(plugin_manifest: &PluginsManifest, url: &String) -> (r: bool)
    ensures
        r == plugin_manifest@.binary_for_url(url@) is Some,
{
    match plugin_manifest.get_identifier_from_url(url) {
        Some(identifier) => plugin_manifest.get_binary(&identifier).is_some(),
        None => false,
    }
}

/// The manifest once an install source is forgotten ahead of reinstalling it.
pub open spec fn reinstall_cleared(m: ManifestModel, url: Seq<char>) -> ManifestModel {
    if m.urls.contains_key(url) {
        m.without_binary(m.urls[url]).without_url(url)
    } else {
        m
    }
}

/// Whether the binary of an install source was a default before reinstalling.
pub open spec fn reinstall_was_global(m: ManifestModel, url: Seq<char>) -> bool {
    m.urls.contains_key(url) && m.is_global(m.urls[url])
}

/// The manifest once setup has reinstalled `url`: the new binary takes back
/// the default of its command name if the old one had a default.
pub open spec fn reinstall_restored(m: ManifestModel, url: Seq<char>, was_global: bool) -> ManifestModel {
    if was_global && m.binary_for_url(url) is Some {
        m.with_global(m.binary_for_url(url)->0.name, m.binary_for_url(url)->0.id())
    } else {
        m
    }
}

/// First step of installing from a source: forgets what the source installed
/// before. Returns whether that binary was a default.
pub fn begin_reinstall(plugin_manifest: &mut PluginsManifest, url: &String) -> (was_global: bool)
    requires
        old(plugin_manifest)@.consistent(),
    ensures
        final(plugin_manifest)@.consistent(),
        final(plugin_manifest)@ == reinstall_cleared(old(plugin_manifest)@, url@),
        was_global == reinstall_was_global(old(plugin_manifest)@, url@),
{
    match plugin_manifest.get_identifier_from_url(url) {
        Some(identifier) => {
            let is_global_version = plugin_manifest.is_global_version(&identifier);
            plugin_manifest.remove_binary(&identifier);
            plugin_manifest.remove_url(url);
            is_global_version
        },
        None => false,
    }
}

/// Last step of installing from a source, once setup has recorded the new binary.
pub fn finish_reinstall(plugin_manifest: &mut PluginsManifest, url: &String, was_global: bool)
    requires
        old(plugin_manifest)@.consistent(),
    ensures
        final(plugin_manifest)@.consistent(),
        final(plugin_manifest)@ == reinstall_restored(old(plugin_manifest)@, url@, was_global),
{
    if was_global {
        if let Some(identifier) = plugin_manifest.get_identifier_from_url(url) {
            let name = match plugin_manifest.get_binary(&identifier) {
                Some(binary) => binary.name.clone(),
                None => {
                    return;
                },
            };
            plugin_manifest.use_global_version(name, identifier);
        }
    }
}

/// What the file system side of an uninstall has to do.
#[derive(Debug)]
pub struct UninstallPlan {
    pub group: String,
    pub name: String,
    pub version: String,
    /// No other version of the command is left, so its launchers go.
    pub remove_shim: bool,
}

/// Removes the binary with this name and version from the manifest and says
/// what is left to do on disk.
pub fn begin_uninstall(
    plugin_manifest: &mut PluginsManifest,
    binary_name: &String,
    version: &String,
) -> (r: Result<UninstallPlan, BinaryLookupError>)
    requires
        old(plugin_manifest)@.consistent(),
    ensures
        final(plugin_manifest)@.consistent(),
        r is Ok <==> has_version(old(plugin_manifest)@, binary_name@, version@),
        match r {
            Ok(plan) => exists|b: ItemModel|
                #[trigger] is_match(old(plugin_manifest)@, binary_name@, version@, b)
                    && first_match(old(plugin_manifest).binary_table(), binary_name@, version@, b)
                    && final(plugin_manifest)@ == old(plugin_manifest)@.without_binary(b.id())
                    && plan.group@ == b.group && plan.name@ == b.name && plan.version@ == b.version
                    && plan.remove_shim == old(plugin_manifest)@.with_name(binary_name@).remove(
                    b,
                ).is_empty(),
            Err(e) => final(plugin_manifest)@ == old(plugin_manifest)@ && final(plugin_manifest).binary_table()
                == old(plugin_manifest).binary_table() && describes_failure(
                old(plugin_manifest)@,
                binary_name@,
                version@,
                e,
            ),
        },
{
    let ghost before = plugin_manifest@;
    let (group, name, vers, identifier) = match get_binary_with_name_and_version(
        plugin_manifest,
        binary_name,
        version,
    ) {
        Ok(binary) => {
            assert(is_match(before, binary_name@, version@, binary@));
            assert(first_match(plugin_manifest.binary_table(), binary_name@, version@, binary@));
            (binary.group.clone(), binary.name.clone(), binary.version.clone(), binary.get_identifier())
        },
        Err(e) => {
            return Err(e);
        },
    };
    let ghost b = ItemModel {
        name: name@,
        version: vers@,
        group: group@,
        file_name: before.binaries[identifier@].file_name,
    };
    assert(before.binaries[identifier@] == b);
    plugin_manifest.remove_binary(&identifier);
    let remaining = plugin_manifest.get_binaries_with_name(&name);
    proof {
        lemma_with_name_without(before, b, name@);
        if remaining.len() > 0 {
            assert(plugin_manifest@.with_name(name@).contains(remaining[0]@));
        }
    }
    let remove_shim = remaining.len() == 0;
    Ok(UninstallPlan { group, name, version: vers, remove_shim })
}

proof fn lemma_with_name_without(m: ManifestModel, b: ItemModel, name: Seq<char>)
    requires
        m.consistent(),
        m.binaries.contains_key(b.id()),
        m.binaries[b.id()] == b,
    ensures
        m.without_binary(b.id()).with_name(name) == m.with_name(name).remove(b),
{
    assert(m.without_binary(b.id()).with_name(name) =~= m.with_name(name).remove(b));
}

/// Whether to remove the next ancestor of a removed version directory: the
/// cascade climbs at most two levels (name directory, then group directory)
/// and stops at the first directory that is not empty.
pub fn should_remove_parent(levels_removed: usize, dir_is_empty: bool) -> (r: bool)
    ensures
        r == (levels_removed < 2 && dir_is_empty),
{
    levels_removed < 2 && dir_is_empty
}

/// Installing a source and then installing it again from the same source,
/// with setup producing the same binary, leaves that binary installed once
/// under its identifier, the source resolving to it, and the binary still a
/// default if it was one before the reinstall.
pub proof fn lemma_reinstall_idempotent(m: ManifestModel, url: Seq<char>, item: ItemModel)
    ensures
        ({
            let first = m.with_binary(url, item);
            let was_global = reinstall_was_global(first, url);
            let second = reinstall_restored(
                reinstall_cleared(first, url).with_binary(url, item),
                url,
                was_global,
            );
            &&& second.binaries == first.binaries
            &&& second.binaries.contains_key(item.id())
            &&& second.binaries[item.id()] == item
            &&& second.urls.contains_key(url)
            &&& second.urls[url] == item.id()
            &&& first.is_global(item.id()) ==> second.is_global(item.id())
        }),
{
    let first = m.with_binary(url, item);
    let was_global = reinstall_was_global(first, url);
    let third = reinstall_cleared(first, url).with_binary(url, item);
    let second = reinstall_restored(third, url, was_global);
    assert(third.binaries =~= first.binaries);
    assert(third.binary_for_url(url) == Some(item));
    if first.is_global(item.id()) {
        assert(second.global_versions.contains_key(item.name));
        assert(second.global_versions[item.name] == item.id());
    }
}

/// Uninstalling the only installed version of a command removes its
/// launchers; uninstalling one of two or more keeps them.
pub proof fn lemma_shim_removed_with_last_version(m: ManifestModel, name: Seq<char>, b: ItemModel)
    requires
        m.with_name(name).contains(b),
    ensures
        m.with_name(name).remove(b).is_empty() <==> m.with_name(name) == set![b],
{
    if m.with_name(name).remove(b).is_empty() {
        assert(m.with_name(name) =~= set![b]) by {
            assert forall|x: ItemModel| m.with_name(name).contains(x) implies x == b by {
                if x != b {
                    assert(m.with_name(name).remove(b).contains(x));
                }
            }
        }
    } else {
        let x = m.with_name(name).remove(b).choose();
        assert(m.with_name(name).remove(b).contains(x));
        assert(!set![b].contains(x));
    }
}

proof fn lemma_map_multiset(a: Seq<ItemModel>, b: Seq<ItemModel>)
    requires
        a.to_multiset() == b.to_multiset(),
    ensures
        a.map_values(|x: ItemModel| x.version).to_multiset() == b.map_values(
            |x: ItemModel| x.version,
        ).to_multiset(),
    decreases a.len(),
{
    let fa = a.map_values(|x: ItemModel| x.version);
    let fb = b.map_values(|x: ItemModel| x.version);
    assert(a.len() == a.to_multiset().len() && b.len() == b.to_multiset().len());
    if a.len() > 0 {
        assert(a.to_multiset().count(a[0]) > 0);
        assert(b.contains(a[0]));
        let k = choose|k: int| 0 <= k < b.len() && b[k] == a[0];
        assert(a.remove(0).to_multiset() == b.remove(k).to_multiset());
        lemma_map_multiset(a.remove(0), b.remove(k));
        assert(a.remove(0).map_values(|x: ItemModel| x.version) =~= fa.remove(0));
        assert(b.remove(k).map_values(|x: ItemModel| x.version) =~= fb.remove(k));
        let v = a[0].version;
        assert(fa[0] == v && fb[k] == v);
        assert(fa.to_multiset().remove(v) == fb.to_multiset().remove(v));
        assert(fa.to_multiset().count(v) > 0);
        assert(fb.to_multiset().count(v) > 0);
        assert(fa.to_multiset() =~= fb.to_multiset()) by {
            assert forall|w: Seq<char>| fa.to_multiset().count(w) == fb.to_multiset().count(w) by {
                assert(fa.to_multiset().remove(v).count(w) == fb.to_multiset().remove(v).count(w));
            }
        }
    } else {
        assert(fa =~= fb);
    }
}

proof fn lemma_same_set_same_multiset(a: Seq<ItemModel>, b: Seq<ItemModel>)
    requires
        a.no_duplicates(),
        b.no_duplicates(),
        a.to_set() == b.to_set(),
    ensures
        a.to_multiset() == b.to_multiset(),
{
    a.lemma_multiset_has_no_duplicates();
    b.lemma_multiset_has_no_duplicates();
    assert forall|x: ItemModel| a.to_multiset().count(x) == b.to_multiset().count(x) by {
        if a.contains(x) {
            assert(a.to_set().contains(x));
            assert(b.to_set().contains(x));
        } else if b.contains(x) {
            assert(b.to_set().contains(x));
            assert(a.to_set().contains(x));
        }
    }
    assert(a.to_multiset() =~= b.to_multiset());
}

/// The failure of a lookup is fixed by the manifest, the name and the
/// version: any two errors that describe it carry the same message.
pub proof fn lemma_failure_determined(
    m: ManifestModel,
    name: Seq<char>,
    version: Seq<char>,
    e1: BinaryLookupError,
    e2: BinaryLookupError,
)
    requires
        describes_failure(m, name, version, e1),
        describes_failure(m, name, version, e2),
    ensures
        failure_message(e1) == failure_message(e2),
{
    if let BinaryLookupError::VersionNotInstalled { installed: i1, .. } = e1 {
        if let BinaryLookupError::VersionNotInstalled { installed: i2, .. } = e2 {
            let s1 = choose|s: Seq<ItemModel>|
                #![trigger s.to_set()]
                s.no_duplicates() && s.to_set() == m.with_name(name) && s.map_values(
                    |b: ItemModel| b.version,
                ).to_multiset() == texts(i1@).to_multiset();
            let s2 = choose|s: Seq<ItemModel>|
                #![trigger s.to_set()]
                s.no_duplicates() && s.to_set() == m.with_name(name) && s.map_values(
                    |b: ItemModel| b.version,
                ).to_multiset() == texts(i2@).to_multiset();
            lemma_same_set_same_multiset(s1, s2);
            lemma_map_multiset(s1, s2);
            lemma_sorted_unique(i1@, i2@);
            lemma_indented_lines_texts(i1@, i2@);
        }
    }
}

proof fn lemma_indented_lines_texts(a: Seq<String>, b: Seq<String>)
    requires
        texts(a) == texts(b),
    ensures
        indented_lines(a) == indented_lines(b),
    decreases a.len(),
{
    assert(a.len() == texts(a).len() && b.len() == texts(b).len());
    if a.len() > 0 {
        assert(texts(a.drop_first()) =~= texts(a).drop_first());
        assert(texts(a.drop_last()) =~= texts(a).drop_last());
        assert(texts(b.drop_last()) =~= texts(b).drop_last());
        assert(texts(a)[a.len() - 1] == texts(b)[a.len() - 1]);
        assert(texts(a)[0] == texts(b)[0]);
        lemma_indented_lines_texts(a.drop_last(), b.drop_last());
    }
}

} // verus!
