//! The borders of the workspace, and the files that are never touched.

use crate::text::outside::{ascii, lowercase, to_lowercase};
use crate::text::search::{ascii_lower_spec, ends_with, starts_with};
use crate::text::{chars_of, copy_list, same, string_of, texts};
use vstd::prelude::*;

verus! {

/// An absolute path: its components, by which paths are compared, the name of the
/// file, and how it is shown.
#[derive(Debug)]
pub struct FsPath {
    pub parts: Vec<String>,
    /// The last component; nothing where there is none.
    pub name: String,
    pub display: String,
}

#[verifier::ext_equal]
pub struct PathView {
    pub parts: Seq<Seq<char>>,
    pub name: Seq<char>,
    pub display: Seq<char>,
}

impl View for FsPath {
    type V = PathView;

    open spec fn view(&self) -> PathView {
        PathView { parts: texts(self.parts@), name: self.name@, display: self.display@ }
    }
}

/// Whether a component names no file but a step: to the same directory, or to the
/// one above.
pub open spec fn is_step(part: Seq<char>) -> bool {
    part == "."@ || part == ".."@
}

impl PathView {
    /// Whether this path is `root` or lies below it: what follows `root` are names
    /// alone, so that no step leads out of it again.
    pub open spec fn below(self, root: PathView) -> bool {
        &&& root.parts.is_prefix_of(self.parts)
        &&& forall|i: int|
            root.parts.len() <= i < self.parts.len() ==> !is_step(#[trigger] self.parts[i])
    }
}

pub open spec fn path_views(v: Seq<FsPath>) -> Seq<PathView> {
    v.map_values(|p: FsPath| p@)
}

impl FsPath {
    pub fn copy(&self) -> (r: FsPath)
        ensures
            r@ == self@,
    {
        FsPath {
            parts: copy_list(&self.parts),
            name: self.name.clone(),
            display: self.display.clone(),
        }
    }

    /// Whether the components of this path begin with those of `root`.
    pub fn starts_with(&self, root: &FsPath) -> (r: bool)
        ensures
            r == root@.parts.is_prefix_of(self@.parts),
    {
        if root.parts.len() > self.parts.len() {
            return false;
        }
        let mut i: usize = 0;
        while i < root.parts.len()
            invariant
                i <= root.parts@.len() <= self.parts@.len(),
                forall|k: int| 0 <= k < i ==> root@.parts[k] == self@.parts[k],
            decreases root.parts@.len() - i,
        {
            if !same(root.parts[i].as_str(), self.parts[i].as_str()) {
                assert(root@.parts[i as int] != self@.parts[i as int]);
                return false;
            }
            i += 1;
        }
        assert(root@.parts =~= self@.parts.take(root@.parts.len() as int));
        true
    }

    /// Whether this path is `root` or lies below it.
    pub fn lies_below(&self, root: &FsPath) -> (r: bool)
        ensures
            r == self@.below(root@),
    {
        if !self.starts_with(root) {
            return false;
        }
        let mut i: usize = root.parts.len();
        while i < self.parts.len()
            invariant
                root.parts@.len() <= i <= self.parts@.len(),
                forall|k: int|
                    root.parts@.len() <= k < i ==> !is_step(#[trigger] self@.parts[k]),
            decreases self.parts@.len() - i,
        {
            if same(self.parts[i].as_str(), ".") || same(self.parts[i].as_str(), "..") {
                assert(is_step(self@.parts[i as int]));
                return false;
            }
            i += 1;
        }
        true
    }

    /// Whether this is the same path as another.
    pub fn same_as(&self, other: &FsPath) -> (r: bool)
        ensures
            r == (self@.parts == other@.parts),
    {
        let r = self.parts.len() == other.parts.len() && self.starts_with(other);
        proof {
            let whole = self@.parts.subrange(0, self@.parts.len() as int);
            assert(whole =~= self@.parts);
        }
        r
    }
}

/// The rules on paths.
#[derive(Debug)]
pub struct FsPolicy {
    pub workspace_root: FsPath,
    /// What may be written besides the workspace.
    pub extra_writable: Vec<FsPath>,
    /// The names of files that are never read or written: a name, a star and an
    /// ending, or a beginning and a star.
    pub sensitive: Vec<String>,
}

#[verifier::ext_equal]
pub struct PolicyView {
    pub root: PathView,
    pub extra: Seq<PathView>,
    pub sensitive: Seq<Seq<char>>,
}

impl View for FsPolicy {
    type V = PolicyView;

    open spec fn view(&self) -> PolicyView {
        PolicyView {
            root: self.workspace_root@,
            extra: path_views(self.extra_writable@),
            sensitive: texts(self.sensitive@),
        }
    }
}

/// The names that are never touched unless a policy says otherwise.
pub open spec fn default_sensitive() -> Seq<Seq<char>> {
    seq![
        ".env"@,
        "*.key"@,
        "id_rsa"@,
        "id_rsa.pub"@,
        "id_ed25519"@,
        "id_ed25519.pub"@,
        "*.pem"@,
        "id_rsa*"@,
    ]
}

impl PolicyView {
    /// Whether a path lies in the workspace or in what may be written besides.
    pub open spec fn within(self, p: PathView) -> bool {
        p.below(self.root) || exists|i: int|
            0 <= i < self.extra.len() && p.below(#[trigger] self.extra[i])
    }

    /// Whether a path names a file that is never touched.
    pub open spec fn is_sensitive(self, p: PathView) -> bool {
        exists|i: int|
            0 <= i < self.sensitive.len() && pattern_matches(
                #[trigger] self.sensitive[i],
                lowercase(p.name),
            )
    }
}

/// Whether a name matches a pattern.
pub open spec fn pattern_matches(pattern: Seq<char>, name: Seq<char>) -> bool {
    if pattern.len() > 0 && pattern[0] == '*' {
        pattern.skip(1).is_suffix_of(name)
    } else if pattern.len() > 0 && pattern.last() == '*' {
        pattern.drop_last().is_prefix_of(name)
    } else {
        pattern == name
    }
}

fn matches_pattern(pattern: &str, name: &str) -> (r: bool)
    ensures
        r == pattern_matches(pattern@, name@),
{
    let v = chars_of(pattern);
    let n: usize = v.len();
    if n > 0 && v[0] == '*' {
        let rest = string_of(&v, 1, n);
        assert(rest@ =~= pattern@.skip(1));
        ends_with(name, rest.as_str())
    } else if n > 0 && v[n - 1] == '*' {
        let rest = string_of(&v, 0, n - 1);
        assert(rest@ =~= pattern@.drop_last());
        starts_with(name, rest.as_str())
    } else {
        same(pattern, name)
    }
}

impl FsPolicy {
    /// The policy for a workspace.
    pub fn new(workspace_root: FsPath) -> (r: FsPolicy)
        ensures
            r@ == (PolicyView {
                root: workspace_root@,
                extra: Seq::empty(),
                sensitive: default_sensitive(),
            }),
    {
        let mut sensitive: Vec<String> = Vec::new();
        sensitive.push(".env".to_string());
        sensitive.push("*.key".to_string());
        sensitive.push("id_rsa".to_string());
        sensitive.push("id_rsa.pub".to_string());
        sensitive.push("id_ed25519".to_string());
        sensitive.push("id_ed25519.pub".to_string());
        sensitive.push("*.pem".to_string());
        sensitive.push("id_rsa*".to_string());
        assert(texts(sensitive@) =~= default_sensitive());
        let r = FsPolicy { workspace_root, extra_writable: Vec::new(), sensitive };
        assert(r@.extra =~= Seq::<PathView>::empty());
        r
    }

    pub fn within_writable_roots(&self, normalized: &FsPath) -> (r: bool)
        ensures
            r == self@.within(normalized@),
    {
        if normalized.lies_below(&self.workspace_root) {
            return true;
        }
        let mut i: usize = 0;
        while i < self.extra_writable.len()
            invariant
                i <= self.extra_writable@.len(),
                !normalized@.below(self@.root),
                forall|k: int| 0 <= k < i ==> !normalized@.below(#[trigger] self@.extra[k]),
            decreases self.extra_writable@.len() - i,
        {
            assert(self@.extra[i as int] == self.extra_writable@[i as int]@);
            if normalized.lies_below(&self.extra_writable[i]) {
                return true;
            }
            i += 1;
        }
        false
    }

    pub fn is_sensitive(&self, normalized: &FsPath) -> (r: bool)
        ensures
            r == self@.is_sensitive(normalized@),
            ascii(normalized@.name) ==> (r <==> exists|i: int|
                0 <= i < self@.sensitive.len() && pattern_matches(
                    #[trigger] self@.sensitive[i],
                    ascii_lower_spec(normalized@.name),
                )),
    {
        let name = to_lowercase(normalized.name.as_str());
        let mut i: usize = 0;
        while i < self.sensitive.len()
            invariant
                i <= self.sensitive@.len(),
                name@ == lowercase(normalized@.name),
                ascii(normalized@.name) ==> name@ == ascii_lower_spec(normalized@.name),
                forall|k: int|
                    0 <= k < i ==> !pattern_matches(#[trigger] self@.sensitive[k], name@),
            decreases self.sensitive@.len() - i,
        {
            assert(self@.sensitive[i as int] == self.sensitive@[i as int]@);
            if matches_pattern(self.sensitive[i].as_str(), name.as_str()) {
                return true;
            }
            i += 1;
        }
        false
    }
}

}  // verus!
