//! Workspace-path helpers: making a path relative to the workspace root,
//! and the heuristics that classify a URI as standard-library code.

use vstd::prelude::*;
use vstd::string::StrSliceExecFns;
use vstd::string::StringExecFns;
use crate::strutil::match_at;
use crate::strutil::contains_seq;
use crate::strutil::ends_with_seq;
use crate::strutil::starts_with_seq;
use crate::strutil::contains_sub;
use crate::strutil::ends_with;
use crate::strutil::matches_at;
use crate::strutil::str_eq;

verus! {

/// The path made relative to `root`: the root prefix (with its following
/// separator) is stripped; a path outside the root is returned unchanged.
pub open spec fn rel_path_spec(p: Seq<char>, root: Seq<char>) -> Seq<char> {
    if p == root {
        Seq::empty()
    } else if starts_with_seq(p, root.push('/')) {
        p.skip(root.len() as int + 1)
    } else {
        p
    }
}

pub fn relative_path(path: &str, root: &str) -> (r: String)
    ensures
        r@ == rel_path_spec(path@, root@),
{
    let n: usize = path.unicode_len();
    let m: usize = root.unicode_len();
    if str_eq(path, root) {
        return String::new();
    }
    if m < n {
        if matches_at(path, root, 0) && path.get_char(m) == '/' {
            proof {
                let pre = root@.push('/');
                assert forall|k: int| 0 <= k < pre.len() implies path@[k] == pre[k] by {
                    if k < m {
                        assert(path@.subrange(0, m as int)[k] == path@[k]);
                    }
                }
                assert(path@.subrange(0, m + 1) =~= pre);
            }
            let rest = path.substring_char(m + 1, n);
            assert(rest@ =~= path@.skip(m + 1));
            return String::from_str(rest);
        }
        proof {
            if starts_with_seq(path@, root@.push('/')) {
                assert(path@.subrange(0, m + 1) == root@.push('/'));
                assert forall|k: int| 0 <= k < m implies path@[k] == root@[k] by {
                    assert(path@.subrange(0, m + 1)[k] == path@[k]);
                }
                assert(path@.subrange(0, m as int) =~= root@);
                assert(path@.subrange(0, m + 1)[m as int] == path@[m as int]);
                assert(path@[m as int] == '/');
            }
        }
    }
    assert(!starts_with_seq(path@, root@.push('/')));
    String::from_str(path)
}

/// `j` is where the final path segment of `u` begins: just after the last
/// separator, or the start of the string when there is none.
pub open spec fn basename_start(u: Seq<char>, j: int) -> bool {
    &&& 0 <= j <= u.len()
    &&& (j == 0 || u[j - 1] == '/')
    &&& forall|k: int| j <= k < u.len() ==> u[k] != '/'
}

/// The URI points at standard-library or vendored-toolchain code rather
/// than at the workspace: typeshed stubs, Go toolchain sources, TypeScript
/// `lib.*.d.ts` declarations, or the Rust sysroot sources.
pub open spec fn is_stdlib_spec(u: Seq<char>) -> bool {
    ||| contains_seq(u, "/typeshed-fallback/stdlib/"@)
    ||| contains_seq(u, "/typeshed/stdlib/"@)
    ||| (contains_seq(u, "/libexec/src/"@) && !contains_seq(u, "/mod/"@))
    ||| (ends_with_seq(u, ".d.ts"@) && exists|j: int|
        basename_start(u, j) && match_at(u, "lib."@, j))
    ||| contains_seq(u, "/rustlib/src/rust/library/"@)
}

fn basename_start_idx(s: &str) -> (j: usize)
    ensures
        basename_start(s@, j as int),
{
    let n: usize = s.unicode_len();
    let mut k: usize = n;
    while k > 0
        invariant
            k <= n,
            n == s@.len(),
            forall|t: int| k <= t < n ==> s@[t] != '/',
        decreases k,
    {
        if s.get_char(k - 1) == '/' {
            return k;
        }
        k -= 1;
    }
    0
}

proof fn lemma_basename_start_unique(u: Seq<char>, j1: int, j2: int)
    requires
        basename_start(u, j1),
        basename_start(u, j2),
    ensures
        j1 == j2,
{
    if j1 < j2 {
        assert(u[j2 - 1] == '/');
        assert(j1 <= j2 - 1 < u.len());
    } else if j2 < j1 {
        assert(u[j1 - 1] == '/');
        assert(j2 <= j1 - 1 < u.len());
    }
}

/// Tests whether a URI should be treated as non-workspace code.
pub fn is_stdlib_path(uri: &str) -> (r: bool)
    ensures
        r == is_stdlib_spec(uri@),
{
    if contains_sub(uri, "/typeshed-fallback/stdlib/") {
        return true;
    }
    if contains_sub(uri, "/typeshed/stdlib/") {
        return true;
    }
    if contains_sub(uri, "/libexec/src/") && !contains_sub(uri, "/mod/") {
        return true;
    }
    if contains_sub(uri, "/rustlib/src/rust/library/") {
        return true;
    }
    if ends_with(uri, ".d.ts") {
        proof {
            reveal_strlit("lib.");
        }
        let n: usize = uri.unicode_len();
        let j = basename_start_idx(uri);
        if n - j >= 4 {
            if matches_at(uri, "lib.", j) {
                return true;
            }
        }
        proof {
            assert forall|j2: int| basename_start(uri@, j2) implies !match_at(
                uri@,
                "lib."@,
                j2,
            ) by {
                lemma_basename_start_unique(uri@, j2, j as int);
            }
        }
        return false;
    }
    false
}

} // verus!
