use vstd::prelude::*;

verus! {

/// A directory path as the sequence of its component names.
pub open spec fn path_view(p: Seq<String>) -> Seq<Seq<char>> {
    p.map_values(|s: String| s@)
}

/// The ancestor of `cwd` (itself included) that is `depth` components deep.
pub open spec fn ancestor(cwd: Seq<String>, depth: int) -> Seq<Seq<char>> {
    path_view(cwd.take(depth))
}

/// Whether the directory `depth` components deep on the way to `cwd` holds a
/// configuration file.
pub open spec fn has_config(cwd: Seq<String>, config_dirs: Seq<Vec<String>>, depth: int) -> bool {
    exists|k: int| 0 <= k < config_dirs.len() && path_view(config_dirs[k]@) == ancestor(cwd, depth)
}

fn same_path(a: &Vec<String>, b: &Vec<String>, len: usize) -> (r: bool)
    requires
        len <= b.len(),
    ensures
        r == (path_view(a@) == path_view(b@.take(len as int))),
{
    if a.len() != len {
        assert(path_view(a@).len() != path_view(b@.take(len as int)).len());
        return false;
    }
    let mut i: usize = 0;
    while i < len
        invariant
            i <= len,
            len == a.len(),
            len <= b.len(),
            forall|j: int| 0 <= j < i ==> a@[j]@ == b@[j]@,
        decreases len - i,
    {
        if a[i] != b[i] {
            assert(path_view(a@)[i as int] != path_view(b@.take(len as int))[i as int]);
            return false;
        }
        i = i + 1;
    }
    assert(path_view(a@) =~= path_view(b@.take(len as int)));
    true
}

/// Finds the directory whose configuration file applies to `cwd`: the nearest
/// one, searching from `cwd` up to the root. `config_dirs` lists the
/// directories that hold a configuration file; the result is the depth of the
/// chosen ancestor.
pub fn find_config_dir(cwd: &Vec<String>, config_dirs: &Vec<Vec<String>>) -> (r: Option<usize>)
    ensures
        match r {
            Some(d) => d <= cwd.len() && has_config(cwd@, config_dirs@, d as int) && forall|e: int|
                d < e <= cwd.len() ==> !#[trigger] has_config(cwd@, config_dirs@, e),
            None => forall|e: int| 0 <= e <= cwd.len() ==> !#[trigger] has_config(cwd@, config_dirs@, e),
        },
{
    let mut depth: usize = cwd.len();
    loop
        invariant
            depth <= cwd.len(),
            forall|e: int| depth < e <= cwd.len() ==> !#[trigger] has_config(cwd@, config_dirs@, e),
        decreases depth,
    {
        let mut k: usize = 0;
        while k < config_dirs.len()
            invariant
                k <= config_dirs.len(),
                depth <= cwd.len(),
                forall|e: int| depth < e <= cwd.len() ==> !#[trigger] has_config(cwd@, config_dirs@, e),
                forall|j: int| 0 <= j < k ==> path_view(#[trigger] config_dirs@[j]@) != ancestor(cwd@, depth as int),
            decreases config_dirs.len() - k,
        {
            if same_path(&config_dirs[k], cwd, depth) {
                assert(path_view(config_dirs@[k as int]@) == ancestor(cwd@, depth as int));
                return Some(depth);
            }
            k = k + 1;
        }
        assert(!has_config(cwd@, config_dirs@, depth as int));
        if depth == 0 {
            return None;
        }
        depth = depth - 1;
    }
}

} // verus!
