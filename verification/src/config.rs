//! Daemon file locations under the user's home directory, and the
//! search for a workspace root by marker files.
//!
//! Reading the environment and probing the filesystem happen outside;
//! the path arithmetic and the search order are decided here.

use vstd::prelude::*;
use vstd::string::StrSliceExecFns;
use vstd::string::StringExecFns;

verus! {

fn join2(base: &str, rest: &str) -> (r: String)
    ensures
        r@ == base@ + rest@,
{
    let mut r = String::from_str(base);
    r.append(rest);
    r
}

/// `<home>/.config/leta`
pub fn get_config_dir(home: &str) -> (r: String)
    ensures
        r@ == home@ + "/.config/leta"@,
{
    join2(home, "/.config/leta")
}

/// `<home>/.config/leta/config.toml`
pub fn get_config_path(home: &str) -> (r: String)
    ensures
        r@ == home@ + "/.config/leta"@ + "/config.toml"@,
{
    let d = get_config_dir(home);
    let mut r = d;
    r.append("/config.toml");
    r
}

/// `<home>/.cache/leta`
pub fn get_cache_dir(home: &str) -> (r: String)
    ensures
        r@ == home@ + "/.cache/leta"@,
{
    join2(home, "/.cache/leta")
}

/// `<home>/.cache/leta/log`
pub fn get_log_dir(home: &str) -> (r: String)
    ensures
        r@ == home@ + "/.cache/leta"@ + "/log"@,
{
    let mut r = get_cache_dir(home);
    r.append("/log");
    r
}

/// `<home>/.cache/leta/daemon.sock`
pub fn get_socket_path(home: &str) -> (r: String)
    ensures
        r@ == home@ + "/.cache/leta"@ + "/daemon.sock"@,
{
    let mut r = get_cache_dir(home);
    r.append("/daemon.sock");
    r
}

/// `<home>/.cache/leta/daemon.pid`
pub fn get_pid_path(home: &str) -> (r: String)
    ensures
        r@ == home@ + "/.cache/leta"@ + "/daemon.pid"@,
{
    let mut r = get_cache_dir(home);
    r.append("/daemon.pid");
    r
}

/// The marker files that identify a workspace root, in probe order.
pub fn workspace_markers() -> (m: Vec<String>)
    ensures
        m@.len() == 12,
        m@[0]@ == ".git"@,
        m@[1]@ == "pyproject.toml"@,
        m@[2]@ == "setup.py"@,
        m@[3]@ == "package.json"@,
        m@[4]@ == "Cargo.toml"@,
        m@[5]@ == "go.mod"@,
        m@[6]@ == "pom.xml"@,
        m@[7]@ == "build.gradle"@,
        m@[8]@ == "Gemfile"@,
        m@[9]@ == "composer.json"@,
        m@[10]@ == "mix.exs"@,
        m@[11]@ == "dune-project"@,
{
    let mut m: Vec<String> = Vec::new();
    m.push(String::from_str(".git"));
    m.push(String::from_str("pyproject.toml"));
    m.push(String::from_str("setup.py"));
    m.push(String::from_str("package.json"));
    m.push(String::from_str("Cargo.toml"));
    m.push(String::from_str("go.mod"));
    m.push(String::from_str("pom.xml"));
    m.push(String::from_str("build.gradle"));
    m.push(String::from_str("Gemfile"));
    m.push(String::from_str("composer.json"));
    m.push(String::from_str("mix.exs"));
    m.push(String::from_str("dune-project"));
    m
}

/// The parent of a normalized path: the text before the last separator
/// (`/` for a child of the root, the empty string for a bare name);
/// the root itself and the empty path have none.
pub open spec fn parent_spec(d: Seq<char>) -> Option<Seq<char>> {
    if d.len() == 0 || d == seq!['/'] {
        None
    } else if exists|j: int| 0 <= j < d.len() && d[j] == '/' {
        let j = last_slash(d);
        if j == 0 {
            Some(seq!['/'])
        } else {
            Some(d.take(j))
        }
    } else {
        Some(Seq::empty())
    }
}

/// The largest index holding a separator.
pub open spec fn last_slash(d: Seq<char>) -> int {
    choose|j: int| 0 <= j < d.len() && d[j] == '/' && forall|k: int| j < k < d.len() ==> d[k] != '/'
}

fn find_last_slash(d: &str) -> (r: Option<usize>)
    ensures
        match r {
            Some(j) => j < d@.len() && d@[j as int] == '/' && (forall|k: int|
                j < k < d@.len() ==> d@[k] != '/') && j == last_slash(d@),
            None => forall|j: int| 0 <= j < d@.len() ==> d@[j] != '/',
        },
{
    let n: usize = d.unicode_len();
    let mut k: usize = n;
    while k > 0
        invariant
            k <= n,
            n == d@.len(),
            forall|t: int| k <= t < n ==> d@[t] != '/',
        decreases k,
    {
        if d.get_char(k - 1) == '/' {
            proof {
                let j0 = last_slash(d@);
                assert(0 <= k - 1 < d@.len() && d@[k - 1] == '/' && forall|t: int|
                    k - 1 < t < d@.len() ==> d@[t] != '/');
                assert(d@[j0] == '/' && forall|t: int| j0 < t < d@.len() ==> d@[t] != '/');
                if j0 < k - 1 {
                    assert(d@[k - 1] != '/');
                }
                if j0 > k - 1 {
                    assert(d@[j0] != '/');
                }
            }
            return Some(k - 1);
        }
        k -= 1;
    }
    None
}

/// Computes the parent directory of a normalized path.
pub fn parent_dir(d: &str) -> (r: Option<String>)
    ensures
        match r {
            Some(p) => parent_spec(d@) matches Some(q) && p@ == q,
            None => parent_spec(d@) is None,
        },
{
    proof {
        reveal_strlit("/");
    }
    let n: usize = d.unicode_len();
    if n == 0 {
        return None;
    }
    if n == 1 && d.get_char(0) == '/' {
        proof {
            assert(d@ =~= seq!['/']);
        }
        return None;
    }
    proof {
        assert(d@ != seq!['/']) by {
            if d@ == seq!['/'] {
                assert(d@.len() == 1 && d@[0] == '/');
            }
        }
    }
    match find_last_slash(d) {
        Some(j) => {
            if j == 0 {
                let r = String::from_str("/");
                proof {
                    assert(r@ =~= seq!['/']);
                }
                Some(r)
            } else {
                let p = d.substring_char(0, j);
                proof {
                    assert(p@ =~= d@.take(j as int));
                }
                Some(String::from_str(p))
            }
        },
        None => {
            let r = String::new();
            proof {
                assert(r@ =~= Seq::<char>::empty());
            }
            Some(r)
        },
    }
}

/// The file the search should probe for a marker in a directory.
pub open spec fn probe_candidate(d: Seq<char>, m: Seq<char>) -> Seq<char> {
    if d.len() == 0 {
        m
    } else if d == seq!['/'] {
        d + m
    } else {
        d + "/"@ + m
    }
}

/// The search for a workspace root: starting at a directory, probe each
/// marker name in order; on a hit the current directory is the root; when
/// all markers miss, move to the parent; a path with no parent left ends
/// the search empty-handed.
///
/// The filesystem probes happen outside: the search names one candidate
/// file at a time and is told whether it exists.
pub struct RootSearch {
    dir: String,
    marker_idx: usize,
    markers: Vec<String>,
    outcome: Option<Option<String>>,
}

impl RootSearch {
    pub closed spec fn done(&self) -> bool {
        self.outcome is Some
    }

    pub closed spec fn found(&self) -> Option<Seq<char>> {
        match self.outcome {
            Some(Some(p)) => Some(p@),
            _ => None,
        }
    }

    pub closed spec fn current_dir(&self) -> Seq<char> {
        self.dir@
    }

    /// The marker name the next probe will test.
    pub closed spec fn current_marker(&self) -> Seq<char> {
        self.markers@[self.marker_idx as int]@
    }

    /// Which marker of the probe order is next.
    pub closed spec fn marker_index(&self) -> int {
        self.marker_idx as int
    }

    pub closed spec fn wf(&self) -> bool {
        &&& self.markers@.len() == 12
        &&& (!self.done() ==> self.marker_idx < 12)
    }

    pub fn new(path: &str) -> (s: RootSearch)
        ensures
            s.wf(),
            !s.done(),
            s.current_dir() == path@,
    {
        RootSearch {
            dir: String::from_str(path),
            marker_idx: 0,
            markers: workspace_markers(),
            outcome: None,
        }
    }

    pub fn is_done(&self) -> (b: bool)
        ensures
            b == self.done(),
    {
        self.outcome.is_some()
    }

    /// The candidate file to probe next: the current directory joined
    /// with the current marker name. The root directory and the empty
    /// (relative) directory get no extra separator.
    pub fn next_probe(&self) -> (p: String)
        requires
            self.wf(),
            !self.done(),
        ensures
            p@ == probe_candidate(self.current_dir(), self.current_marker()),
    {
        proof {
            reveal_strlit("/");
        }
        let n: usize = self.dir.as_str().unicode_len();
        if n == 0 {
            let p = String::from_str(self.markers[self.marker_idx].as_str());
            return p;
        }
        if n == 1 && self.dir.as_str().get_char(0) == '/' {
            proof {
                assert(self.dir@ =~= seq!['/']);
            }
            let mut p = String::from_str("/");
            p.append(self.markers[self.marker_idx].as_str());
            proof {
                assert(p@ =~= seq!['/'] + self.current_marker());
            }
            return p;
        }
        proof {
            assert(self.dir@ != seq!['/']) by {
                if self.dir@ == seq!['/'] {
                    assert(self.dir@.len() == 1 && self.dir@[0] == '/');
                }
            }
        }
        let mut p = String::from_str(self.dir.as_str());
        p.append("/");
        p.append(self.markers[self.marker_idx].as_str());
        p
    }

    /// Feeds the probe's answer. A hit ends the search at the current
    /// directory; on a miss the next marker is tried in the same
    /// directory; after the last marker misses, the search climbs to
    /// the parent, or ends empty-handed at a directory with none.
    pub fn on_probe(&mut self, exists: bool)
        requires
            old(self).wf(),
            !old(self).done(),
        ensures
            final(self).wf(),
            exists ==> final(self).done() && final(self).found() == Some(
                old(self).current_dir(),
            ),
            !exists ==> final(self).found() is None,
            !exists && old(self).marker_index() + 1 < 12 ==> {
                &&& !final(self).done()
                &&& final(self).current_dir() == old(self).current_dir()
                &&& final(self).marker_index() == old(self).marker_index() + 1
            },
            !exists && old(self).marker_index() + 1 == 12 ==> (match parent_spec(
                old(self).current_dir(),
            ) {
                Some(p) => {
                    &&& !final(self).done()
                    &&& final(self).current_dir() == p
                    &&& final(self).marker_index() == 0
                },
                None => final(self).done() && final(self).found() is None,
            }),
    {
        if exists {
            let root = String::from_str(self.dir.as_str());
            self.outcome = Some(Some(root));
            return;
        }
        if self.marker_idx + 1 < self.markers.len() {
            self.marker_idx = self.marker_idx + 1;
            return;
        }
        match parent_dir(self.dir.as_str()) {
            Some(parent) => {
                self.dir = parent;
                self.marker_idx = 0;
            },
            None => {
                self.outcome = Some(None);
            },
        }
    }

    pub fn take_result(self) -> (r: Option<String>)
        requires
            self.wf(),
            self.done(),
        ensures
            match r {
                Some(p) => self.found() == Some(p@),
                None => self.found() is None,
            },
    {
        match self.outcome {
            Some(r) => r,
            None => vstd::pervasive::unreached(),
        }
    }
}

} // verus!
