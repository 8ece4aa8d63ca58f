use vstd::prelude::*;
use vstd::string::StringExecFns;

use crate::manifest::{ItemModel, ManifestModel, PluginsManifest};

verus! {

/// The first source from position `i` on whose installed binary has the
/// command name `name`.
pub open spec fn project_pin(m: ManifestModel, urls: Seq<String>, name: Seq<char>, i: int) -> Option<
    ItemModel,
>
    decreases urls.len() - i,
{
    if i < 0 || i >= urls.len() {
        None
    } else if m.binary_for_url(urls[i]@) is Some && m.binary_for_url(urls[i]@)->0.name == name {
        m.binary_for_url(urls[i]@)
    } else {
        project_pin(m, urls, name, i + 1)
    }
}

/// Some source of the project has no installed binary.
pub open spec fn has_uninstalled(m: ManifestModel, urls: Seq<String>) -> bool {
    exists|i: int| 0 <= i < urls.len() && (#[trigger] m.binary_for_url(urls[i]@)) is None
}

/// The binary that runs for `name`: the project's pin, else the global default.
pub open spec fn resolved(m: ManifestModel, config: Option<Seq<String>>, name: Seq<char>) -> Option<
    ItemModel,
> {
    match config {
        Some(urls) => match project_pin(m, urls, name, 0) {
            Some(b) => Some(b),
            None => m.global_binary(name),
        },
        None => m.global_binary(name),
    }
}

/// Whether resolution warns that project binaries are not installed.
pub open spec fn warns(m: ManifestModel, config: Option<Seq<String>>, name: Seq<char>) -> bool {
    match config {
        Some(urls) => project_pin(m, urls, name, 0) is None && has_uninstalled(m, urls),
        None => false,
    }
}

pub open spec fn config_view(c: Option<&Vec<String>>) -> Option<Seq<String>> {
    match c {
        Some(v) => Some(v@),
        None => None,
    }
}

/// The outcome of resolving a command name.
#[derive(Debug)]
pub struct Resolution {
    /// The executable to run, or `None` when no binary is found.
    pub executable_path: Option<String>,
    /// Set when no project binary matched while some were not installed.
    pub warn_uninstalled: bool,
}

/// Resolves a command name against the project's sources (when a config file
/// was found) and the global defaults.
pub fn resolve_binary(
    plugin_manifest: &PluginsManifest,
    config_binaries: Option<&Vec<String>>,
    binary_name: &String,
) -> (r: Resolution)
    ensures
        match resolved(plugin_manifest@, config_view(config_binaries), binary_name@) {
            Some(b) => r.executable_path is Some && r.executable_path->0@ == b.file_name,
            None => r.executable_path is None,
        },
        r.warn_uninstalled == warns(
            plugin_manifest@,
            config_view(config_binaries),
            binary_name@,
        ),
{
    let ghost m = plugin_manifest@;
    let mut pinned: Option<String> = None;
    let mut had_uninstalled_binary = false;
    if let Some(urls) = config_binaries {
        let mut i: usize = 0;
        while i < urls.len()
            invariant_except_break
                pinned is None,
                had_uninstalled_binary == exists|j: int|
                    0 <= j < i && (#[trigger] m.binary_for_url(urls@[j]@)) is None,
            invariant
                i <= urls.len(),
                m == plugin_manifest@,
                project_pin(m, urls@, binary_name@, 0) == project_pin(m, urls@, binary_name@, i as int),
            ensures
                match project_pin(m, urls@, binary_name@, 0) {
                    Some(b) => pinned is Some && pinned->0@ == b.file_name,
                    None => pinned is None && had_uninstalled_binary == has_uninstalled(m, urls@),
                },
            decreases urls.len() - i,
        {
            let mut found = false;
            match plugin_manifest.get_identifier_from_url(&urls[i]) {
                Some(identifier) => match plugin_manifest.get_binary(&identifier) {
                    Some(item) => {
                        if item.name == *binary_name {
                            pinned = Some(item.file_name.clone());
                            found = true;
                        }
                    },
                    None => {
                        had_uninstalled_binary = true;
                    },
                },
                None => {
                    had_uninstalled_binary = true;
                },
            }
            if found {
                break;
            }
            i = i + 1;
        }
    }
    let warn_uninstalled = pinned.is_none() && had_uninstalled_binary;
    let executable_path = match pinned {
        Some(path) => Some(path),
        None => match plugin_manifest.get_global_binary(binary_name) {
            Some(item) => Some(item.file_name.clone()),
            None => None,
        },
    };
    Resolution { executable_path, warn_uninstalled }
}

/// The error shown when no binary resolves for a command name.
pub fn not_found_message(binary_name: &String) -> (r: String)
    ensures
        r@ == "Could not find binary '"@ + binary_name@ + "'"@,
{
    let mut r = "Could not find binary '".to_owned();
    r.append(binary_name.as_str());
    r.append("'");
    r
}

/// A project pin wins over the global default: when the first source of the
/// project whose installed binary has the command name is at position `i`,
/// resolving from inside the project yields that binary, whatever the global
/// default; resolving with no project yields the global default.
pub proof fn lemma_pin_over_global(m: ManifestModel, urls: Seq<String>, name: Seq<char>, i: int)
    requires
        0 <= i < urls.len(),
        m.binary_for_url(urls[i]@) is Some,
        m.binary_for_url(urls[i]@)->0.name == name,
        forall|j: int|
            0 <= j < i ==> (#[trigger] m.binary_for_url(urls[j]@)) is None || m.binary_for_url(
                urls[j]@,
            )->0.name != name,
    ensures
        resolved(m, Some(urls), name) == m.binary_for_url(urls[i]@),
        resolved(m, None, name) == m.global_binary(name),
{
    lemma_pin_from(m, urls, name, i, 0);
}

proof fn lemma_pin_from(m: ManifestModel, urls: Seq<String>, name: Seq<char>, i: int, k: int)
    requires
        0 <= k <= i < urls.len(),
        m.binary_for_url(urls[i]@) is Some,
        m.binary_for_url(urls[i]@)->0.name == name,
        forall|j: int|
            0 <= j < i ==> (#[trigger] m.binary_for_url(urls[j]@)) is None || m.binary_for_url(
                urls[j]@,
            )->0.name != name,
    ensures
        project_pin(m, urls, name, k) == m.binary_for_url(urls[i]@),
    decreases i - k,
{
    if k < i {
        lemma_pin_from(m, urls, name, i, k + 1);
    }
}

} // verus!
