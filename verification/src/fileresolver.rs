use vstd::prelude::*;

verus! {

/// The path that joining `rel` onto `base` gives (the platform's path rules,
/// as `std::path::Path::join` applies them).
pub uninterp spec fn path_join(base: Seq<char>, rel: Seq<char>) -> Seq<char>;

/// Calls `std::path::Path::join`. Trusted: its result is `path_join` of the
/// two paths, which depends on nothing else; the text is converted one for one,
/// both inputs being UTF-8.
#[verifier::external_body]
fn join_path(base: &str, rel: &str) -> (res: String)
    ensures
        res@ == path_join(base@, rel@),
{
    std::path::Path::new(base).join(rel).to_string_lossy().into_owned()
}

/// Calls `std::path::Path::exists`. Nothing is stated of the result: it
/// depends on what is on disk at the time of the call.
#[verifier::external_body]
fn path_exists(path: &str) -> (res: bool) {
    std::path::Path::new(path).exists()
}

/// `answer` is what asking the disk whether `path` exists can give: a call of
/// `path_exists` on that path.
pub closed spec fn asked_disk(path: Seq<char>, answer: bool) -> bool {
    exists|p: &str| p@ == path && call_ensures(path_exists, (p,), answer)
}

/// What resolving `value` gives when `exists[j]` tells whether `value` joined
/// onto search path `j` exists, for the search paths from `i` on: the first
/// joined path that exists, or `value` itself when none does.
pub open spec fn resolve_from_index(paths: Seq<Seq<char>>, value: Seq<char>, exists: Seq<bool>, i: int) -> Seq<char>
    decreases paths.len() - i,
{
    if i < 0 || i >= paths.len() {
        value
    } else if i < exists.len() && exists[i] {
        path_join(paths[i], value)
    } else {
        resolve_from_index(paths, value, exists, i + 1)
    }
}

/// With no search path, or when the file exists under none of them,
/// resolving gives the value back unchanged.
pub proof fn lemma_resolve_unfound(paths: Seq<Seq<char>>, value: Seq<char>, exists: Seq<bool>, i: int)
    requires
        0 <= i,
        forall|j: int| i <= j < exists.len() ==> !#[trigger] exists[j],
    ensures
        resolve_from_index(paths, value, exists, i) == value,
    decreases paths.len() - i,
{
    if i < paths.len() {
        lemma_resolve_unfound(paths, value, exists, i + 1);
    }
}

/// Resolving gives `value` joined onto the first search path under which it
/// exists: if it exists under path `k` and under none before, that is the result.
pub proof fn lemma_resolve_first_found(paths: Seq<Seq<char>>, value: Seq<char>, exists: Seq<bool>, k: int)
    requires
        0 <= k < paths.len(),
        k < exists.len(),
        exists[k],
        forall|j: int| 0 <= j < k ==> !#[trigger] exists[j],
    ensures
        resolve_from_index(paths, value, exists, 0) == path_join(paths[k], value),
{
    lemma_resolve_skip(paths, value, exists, 0, k);
}

proof fn lemma_resolve_skip(paths: Seq<Seq<char>>, value: Seq<char>, exists: Seq<bool>, i: int, k: int)
    requires
        0 <= i <= k < paths.len(),
        forall|j: int| i <= j < k ==> !#[trigger] exists[j],
    ensures
        resolve_from_index(paths, value, exists, i) == resolve_from_index(paths, value, exists, k),
    decreases k - i,
{
    if i < k {
        lemma_resolve_skip(paths, value, exists, i + 1, k);
    }
}

/// Looks for a file or directory in a list of search paths, in order.
pub struct FileResolver {
    paths: Vec<String>,
}

impl FileResolver {
    /// The search paths, in order.
    pub closed spec fn spec_paths(&self) -> Seq<Seq<char>> {
        self.paths@.map_values(|p: String| p@)
    }

    /// A resolver whose only search path is `current_dir`.
    pub fn new(current_dir: &str) -> (res: Self)
        ensures
            res.spec_paths() == seq![current_dir@],
    {
        let mut paths: Vec<String> = Vec::new();
        paths.push(current_dir.to_owned());
        let res = Self { paths };
        proof {
            assert(res.spec_paths() =~= seq![current_dir@]);
        }
        res
    }

    /// Adds `path` at the end of the search paths.
    pub fn append(&mut self, path: &str)
        ensures
            final(self).spec_paths() == old(self).spec_paths().push(path@),
    {
        self.paths.push(path.to_owned());
        proof {
            assert(self.spec_paths() =~= old(self).spec_paths().push(path@));
        }
    }

    /// The search paths, in order.
    pub fn paths(&self) -> (res: &Vec<String>)
        ensures
            res@.map_values(|p: String| p@) == self.spec_paths(),
    {
        &self.paths
    }

    /// `value` joined onto search path `i`: the path whose existence is asked
    /// of the disk for that search path.
    pub fn candidate(&self, i: usize, value: &str) -> (res: String)
        requires
            i < self.spec_paths().len(),
        ensures
            res@ == path_join(self.spec_paths()[i as int], value@),
    {
        join_path(self.paths[i].as_str(), value)
    }

    /// `value` joined onto the first search path under which it exists, or
    /// `value` itself when it exists under none. The search paths are tried in
    /// order: the disk is asked of each candidate path (`candidate`) until one
    /// exists, and of nothing else. The answers `exists` it gave decide the
    /// result as `resolve_from` does.
    pub fn resolve(&self, value: &str) -> (res: String)
        ensures
            exists|exists: Seq<bool>| #![trigger resolve_from_index(self.spec_paths(), value@, exists, 0)] {
                &&& exists.len() <= self.spec_paths().len()
                &&& forall|k: int| 0 <= k < exists.len() - 1 ==> !#[trigger] exists[k]
                &&& exists.len() < self.spec_paths().len() ==> exists.len() >= 1 && exists.last()
                &&& forall|k: int| 0 <= k < exists.len() ==> asked_disk(
                    path_join(self.spec_paths()[k], value@),
                    #[trigger] exists[k],
                )
                &&& res@ == resolve_from_index(self.spec_paths(), value@, exists, 0)
            },
    {
        let n = self.paths.len();
        let mut exists: Vec<bool> = Vec::new();
        let mut i: usize = 0;
        while i < n
            invariant_except_break
                exists@.len() == i,
                i <= n,
                forall|k: int| 0 <= k < i ==> !#[trigger] exists@[k],
            invariant
                n == self.paths@.len(),
                n == self.spec_paths().len(),
                exists@.len() <= n,
                forall|k: int| 0 <= k < exists@.len() - 1 ==> !#[trigger] exists@[k],
                forall|k: int| 0 <= k < exists@.len() ==> asked_disk(
                    path_join(self.spec_paths()[k], value@),
                    #[trigger] exists@[k],
                ),
            ensures
                exists@.len() < n ==> exists@.len() >= 1 && exists@.last(),
            decreases n - i,
        {
            let combined = self.candidate(i, value);
            let found = path_exists(combined.as_str());
            exists.push(found);
            proof {
                assert(exists@[i as int] == found);
            }
            if found {
                break;
            }
            i = i + 1;
        }
        let res = self.resolve_from(value, &exists);
        proof {
            assert(res@ == resolve_from_index(self.spec_paths(), value@, exists@, 0));
        }
        res
    }

    /// `value` joined onto the first search path `j` for which `exists[j]`
    /// holds, or `value` itself when there is none.
    pub fn resolve_from(&self, value: &str, exists: &Vec<bool>) -> (res: String)
        ensures
            res@ == resolve_from_index(self.spec_paths(), value@, exists@, 0),
    {
        let n = self.paths.len();
        let ghost paths = self.spec_paths();
        let mut i: usize = 0;
        while i < n
            invariant
                n == paths.len(),
                paths == self.spec_paths(),
                0 <= i <= n,
                resolve_from_index(paths, value@, exists@, 0) == resolve_from_index(paths, value@, exists@, i as int),
            decreases n - i,
        {
            if i < exists.len() && exists[i] {
                return join_path(self.paths[i].as_str(), value);
            }
            i = i + 1;
        }
        value.to_owned()
    }
}

} // verus!
