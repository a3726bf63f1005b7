//! Call-hierarchy walker.
//!
//! The walker turns the server's `prepareCallHierarchy` and
//! `callHierarchy/{incoming,outgoing}Calls` primitives into bounded,
//! deduplicated, filter-aware call trees and call paths. The RPCs
//! themselves happen outside: a walk is a state machine that repeatedly
//! names the item whose calls it needs and is fed the server's answer.

use vstd::prelude::*;
use vstd::string::StringExecFns;
use crate::types::CallHierarchyItem;
use crate::types::ItemView;
use crate::location::CallNode;
use crate::pathutil::rel_path_spec;
use crate::pathutil::relative_path;
use crate::pathutil::is_stdlib_spec;
use crate::pathutil::is_stdlib_path;
use crate::uri::uri_to_path_spec;
use crate::uri::uri_to_path;
use crate::strutil::str_eq;

verus! {

/// The identity under which the walker deduplicates items. Keying on
/// `(uri, declaration line, name)` rather than the full range is
/// deliberate: servers may widen `range` between prepare and call
/// responses.
pub struct KeyView {
    pub uri: Seq<char>,
    pub line: u32,
    pub name: Seq<char>,
}

pub open spec fn key_of(i: ItemView) -> KeyView {
    KeyView { uri: i.uri, line: i.range.start.line, name: i.name }
}

/// An owned dedup key.
pub struct ItemKey {
    pub uri: String,
    pub line: u32,
    pub name: String,
}

impl ItemKey {
    pub open spec fn keyv(&self) -> KeyView {
        KeyView { uri: self.uri@, line: self.line, name: self.name@ }
    }

    pub fn of_item(item: &CallHierarchyItem) -> (k: ItemKey)
        ensures
            k.keyv() == key_of(item@),
    {
        ItemKey { uri: item.uri.clone(), line: item.range.start.line, name: item.name.clone() }
    }

    pub fn key_eq(&self, other: &ItemKey) -> (r: bool)
        ensures
            r == (self.keyv() == other.keyv()),
    {
        let r = self.line == other.line && str_eq(self.uri.as_str(), other.uri.as_str())
            && str_eq(self.name.as_str(), other.name.as_str());
        if r {
            assert(self.keyv() == other.keyv());
        }
        r
    }
}

/// The set of dedup keys a walk has visited.
pub struct KeySet {
    keys: Vec<ItemKey>,
}

impl KeySet {
    pub closed spec fn kseq(&self) -> Seq<KeyView> {
        self.keys@.map_values(|k: ItemKey| k.keyv())
    }

    pub closed spec fn view(&self) -> Set<KeyView> {
        Set::new(|k: KeyView| self.kseq().contains(k))
    }

    /// No key occurs twice in the backing vector.
    pub closed spec fn wf(&self) -> bool {
        forall|i: int, j: int|
            0 <= i < j < self.kseq().len() ==> self.kseq()[i] != self.kseq()[j]
    }

    pub fn new() -> (s: KeySet)
        ensures
            s.wf(),
            s@ == Set::<KeyView>::empty(),
    {
        let s = KeySet { keys: Vec::new() };
        proof {
            assert(s@ =~= Set::<KeyView>::empty());
        }
        s
    }

    pub fn contains(&self, k: &ItemKey) -> (r: bool)
        ensures
            r == self@.contains(k.keyv()),
    {
        let n: usize = self.keys.len();
        let mut i: usize = 0;
        while i < n
            invariant
                i <= n,
                n == self.keys@.len(),
                forall|j: int| 0 <= j < i ==> self.kseq()[j] != k.keyv(),
            decreases n - i,
        {
            if self.keys[i].key_eq(k) {
                assert(self.kseq()[i as int] == k.keyv());
                assert(self.kseq().contains(k.keyv()));
                return true;
            }
            assert(self.kseq()[i as int] == self.keys@[i as int].keyv());
            i += 1;
        }
        assert(forall|j: int| 0 <= j < self.kseq().len() ==> self.kseq()[j] != k.keyv());
        assert(!self.kseq().contains(k.keyv()));
        false
    }

    pub fn insert(&mut self, k: ItemKey)
        requires
            old(self).wf(),
            !old(self)@.contains(k.keyv()),
        ensures
            final(self).wf(),
            final(self)@ == old(self)@.insert(k.keyv()),
    {
        let ghost oldseq = self.kseq();
        let ghost kv = k.keyv();
        self.keys.push(k);
        proof {
            assert(self.kseq() =~= oldseq.push(kv));
            assert(!oldseq.contains(kv));
            assert forall|i: int, j: int|
                0 <= i < j < self.kseq().len() implies self.kseq()[i] != self.kseq()[j] by {
                if j < oldseq.len() {
                } else {
                    assert(self.kseq()[j] == kv);
                    assert(oldseq[i] == self.kseq()[i]);
                    assert(oldseq.contains(oldseq[i]));
                }
            }
            assert forall|x: KeyView| self@.contains(x) implies old(self)@.insert(kv).contains(
                x,
            ) by {
                let w = choose|w: int| 0 <= w < self.kseq().len() && self.kseq()[w] == x;
                if w < oldseq.len() {
                    assert(oldseq[w] == x);
                    assert(oldseq.contains(x));
                }
            }
            assert forall|x: KeyView| old(self)@.insert(kv).contains(x) implies self@.contains(
                x,
            ) by {
                if x == kv {
                    assert(self.kseq()[oldseq.len() as int] == kv);
                } else {
                    let w = choose|w: int| 0 <= w < oldseq.len() && oldseq[w] == x;
                    assert(self.kseq()[w] == x);
                }
            }
            assert(self@ =~= old(self)@.insert(kv));
        }
    }

    pub fn remove(&mut self, k: &ItemKey)
        requires
            old(self).wf(),
        ensures
            final(self).wf(),
            final(self)@ == old(self)@.remove(k.keyv()),
    {
        let ghost kv = k.keyv();
        let n: usize = self.keys.len();
        let mut i: usize = 0;
        while i < n
            invariant
                i <= n,
                n == self.keys@.len(),
                self == old(self),
                self.wf(),
                kv == k.keyv(),
                forall|j: int| 0 <= j < i ==> self.kseq()[j] != kv,
            decreases n - i,
        {
            if self.keys[i].key_eq(k) {
                let ghost oldseq = self.kseq();
                assert(oldseq[i as int] == self.keys@[i as int].keyv());
                assert(oldseq[i as int] == kv);
                self.keys.remove(i);
                proof {
                    assert(self.kseq() =~= oldseq.remove(i as int));
                    assert(forall|j: int|
                        0 <= j < i ==> self.kseq()[j] == oldseq[j]);
                    assert(forall|j: int|
                        i <= j < self.kseq().len() ==> self.kseq()[j] == oldseq[j + 1]);
                    assert forall|a: int, b: int|
                        0 <= a < b < self.kseq().len() implies self.kseq()[a]
                        != self.kseq()[b] by {
                        let a2: int = if a < i { a } else { a + 1 };
                        let b2: int = if b < i { b } else { b + 1 };
                        assert(self.kseq()[a] == oldseq[a2]);
                        assert(self.kseq()[b] == oldseq[b2]);
                        assert(a2 < b2 < oldseq.len());
                    }
                    assert forall|x: KeyView| self@.contains(x) implies old(self)@.remove(
                        kv,
                    ).contains(x) by {
                        let w = choose|w: int|
                            0 <= w < self.kseq().len() && self.kseq()[w] == x;
                        if w < i {
                            assert(oldseq[w] == x);
                        } else {
                            assert(oldseq[w + 1] == x);
                        }
                        assert(oldseq.contains(x));
                        assert(x != kv);
                    }
                    assert forall|x: KeyView| old(self)@.remove(kv).contains(x)
                        implies self@.contains(x) by {
                        let w = choose|w: int| 0 <= w < oldseq.len() && oldseq[w] == x;
                        assert(oldseq[w] == x && x != kv);
                        assert(w != i);
                        if w < i {
                            assert(self.kseq()[w] == x);
                        } else {
                            assert(self.kseq()[w - 1] == x);
                        }
                    }
                    assert(self@ =~= old(self)@.remove(kv));
                }
                return;
            }
            i += 1;
        }
        proof {
            assert(!self.kseq().contains(kv));
            assert(!self@.contains(kv));
            assert(self@ =~= old(self)@.remove(kv));
        }
    }
}

/// The first recorded answer for a key.
pub open spec fn response_for(rs: Seq<Resp>, k: KeyView) -> Option<Seq<ItemView>>
    decreases rs.len(),
{
    if rs.len() == 0 {
        None
    } else if rs[0].key == k {
        Some(rs[0].children)
    } else {
        response_for(rs.skip(1), k)
    }
}

/// The child survives the workspace filter.
pub open spec fn keeps(c: ItemView, filtering: bool) -> bool {
    !filtering || !is_stdlib_spec(c.uri)
}

/// The edge list a node carries in the walk's direction.
pub open spec fn node_edges(n: CallNode, incoming: bool) -> Option<Seq<CallNode>> {
    if incoming {
        match n.called_by {
            Some(v) => Some(v@),
            None => None,
        }
    } else {
        match n.calls {
            Some(v) => Some(v@),
            None => None,
        }
    }
}

/// The node renders `it`, carries edges only in the walk's direction,
/// and its subtree follows the recorded answers: at the depth limit it
/// is a leaf; otherwise its edges come from the answer for its key via
/// `edges_follow`.
pub open spec fn subtree_follows(
    rs: Seq<Resp>,
    exps: Seq<KeyView>,
    n: CallNode,
    it: ItemView,
    depth: int,
    max: int,
    filtering: bool,
    incoming: bool,
    ws: Seq<char>,
) -> bool
    decreases max - depth, 0int,
{
    &&& node_matches_item(n, it, ws)
    &&& (if incoming {
        n.calls is None
    } else {
        n.called_by is None
    })
    &&& node_edges(n, incoming) matches Some(list)
    &&& (if depth >= max {
        list.len() == 0
    } else {
        &&& response_for(rs, key_of(it)) matches Some(kids)
        &&& edges_follow(rs, exps, list, kids, depth + 1, max, filtering, incoming, ws)
    })
}

/// `list` holds nodes for the filter-surviving members of `kids`, in
/// order: a survivor below the depth limit whose key is among the
/// expanded keys may be skipped (a repeat visit is pruned); every other
/// survivor has exactly one node, itself following the record; nothing
/// else appears.
pub open spec fn edges_follow(
    rs: Seq<Resp>,
    exps: Seq<KeyView>,
    list: Seq<CallNode>,
    kids: Seq<ItemView>,
    depth: int,
    max: int,
    filtering: bool,
    incoming: bool,
    ws: Seq<char>,
) -> bool
    decreases max - depth, 1int + kids.len(),
{
    if depth > max {
        false
    } else if kids.len() == 0 {
        list.len() == 0
    } else {
        let c = kids.last();
        let rest = kids.drop_last();
        if !keeps(c, filtering) {
            edges_follow(rs, exps, list, rest, depth, max, filtering, incoming, ws)
        } else {
            ||| (depth < max && exps.contains(key_of(c)) && edges_follow(
                rs,
                exps,
                list,
                rest,
                depth,
                max,
                filtering,
                incoming,
                ws,
            ))
            ||| (list.len() > 0 && subtree_follows(
                rs,
                exps,
                list.last(),
                c,
                depth,
                max,
                filtering,
                incoming,
                ws,
            ) && edges_follow(
                rs,
                exps,
                list.drop_last(),
                rest,
                depth,
                max,
                filtering,
                incoming,
                ws,
            ))
        }
    }
}

proof fn lemma_response_for_push(rs: Seq<Resp>, r: Resp, k: KeyView)
    requires
        response_for(rs, k) is Some,
    ensures
        response_for(rs.push(r), k) == response_for(rs, k),
    decreases rs.len(),
{
    if rs.len() > 0 {
        assert(rs.push(r)[0] == rs[0]);
        if rs[0].key != k {
            assert(rs.push(r).skip(1) =~= rs.skip(1).push(r));
            lemma_response_for_push(rs.skip(1), r, k);
        }
    }
}

/// With pairwise-distinct keys, any recorded entry is the answer
/// `response_for` names for its key.
proof fn lemma_response_for_at(rs: Seq<Resp>, ri: int)
    requires
        0 <= ri < rs.len(),
        forall|a: int, b: int| 0 <= a < b < rs.len() ==> rs[a].key != rs[b].key,
    ensures
        response_for(rs, rs[ri].key) == Some(rs[ri].children),
    decreases ri,
{
    if ri > 0 {
        assert(rs[0].key != rs[ri].key);
        assert(rs.skip(1)[ri - 1] == rs[ri]);
        assert forall|a: int, b: int|
            0 <= a < b < rs.skip(1).len() implies rs.skip(1)[a].key != rs.skip(1)[b].key by {
            assert(rs.skip(1)[a] == rs[a + 1]);
            assert(rs.skip(1)[b] == rs[b + 1]);
        }
        lemma_response_for_at(rs.skip(1), ri - 1);
    }
}

proof fn lemma_subtree_follows_push(
    rs: Seq<Resp>,
    r: Resp,
    exps: Seq<KeyView>,
    k2: KeyView,
    n: CallNode,
    it: ItemView,
    depth: int,
    max: int,
    filtering: bool,
    incoming: bool,
    ws: Seq<char>,
)
    requires
        subtree_follows(rs, exps, n, it, depth, max, filtering, incoming, ws),
    ensures
        subtree_follows(rs.push(r), exps.push(k2), n, it, depth, max, filtering, incoming, ws),
    decreases max - depth, 0int,
{
    if depth < max {
        lemma_response_for_push(rs, r, key_of(it));
        let list = node_edges(n, incoming)->0;
        let kids = response_for(rs, key_of(it))->0;
        lemma_edges_follow_push(rs, r, exps, k2, list, kids, depth + 1, max, filtering, incoming, ws);
    }
}

proof fn lemma_edges_follow_push(
    rs: Seq<Resp>,
    r: Resp,
    exps: Seq<KeyView>,
    k2: KeyView,
    list: Seq<CallNode>,
    kids: Seq<ItemView>,
    depth: int,
    max: int,
    filtering: bool,
    incoming: bool,
    ws: Seq<char>,
)
    requires
        edges_follow(rs, exps, list, kids, depth, max, filtering, incoming, ws),
    ensures
        edges_follow(rs.push(r), exps.push(k2), list, kids, depth, max, filtering, incoming, ws),
    decreases max - depth, 1int + kids.len(),
{
    if kids.len() > 0 {
        let c = kids.last();
        let rest = kids.drop_last();
        if !keeps(c, filtering) {
            lemma_edges_follow_push(rs, r, exps, k2, list, rest, depth, max, filtering, incoming, ws);
        } else if depth < max && exps.contains(key_of(c)) && edges_follow(
            rs,
            exps,
            list,
            rest,
            depth,
            max,
            filtering,
            incoming,
            ws,
        ) {
            let w: int = choose|w: int| 0 <= w < exps.len() && exps[w] == key_of(c);
            assert(exps.push(k2)[w] == key_of(c));
            assert(exps.push(k2).contains(key_of(c)));
            lemma_edges_follow_push(rs, r, exps, k2, list, rest, depth, max, filtering, incoming, ws);
        } else {
            lemma_subtree_follows_push(rs, r, exps, k2, list.last(), c, depth, max, filtering, incoming, ws);
            lemma_edges_follow_push(
                rs,
                r,
                exps,
                k2,
                list.drop_last(),
                rest,
                depth,
                max,
                filtering,
                incoming,
                ws,
            );
        }
    }
}

/// The ghost image of a vector of items.
pub open spec fn items_view(s: Seq<CallHierarchyItem>) -> Seq<ItemView> {
    s.map_values(|c: CallHierarchyItem| c@)
}

/// One recorded server answer: the key of the item whose calls were
/// requested, and the items the server reported as its edges.
pub struct Resp {
    pub key: KeyView,
    pub children: Seq<ItemView>,
}

/// `it` occurs among the children of some recorded server answer.
pub open spec fn item_reported(rs: Seq<Resp>, it: ItemView) -> bool {
    exists|ri: int, j: int|
        0 <= ri < rs.len() && 0 <= j < rs[ri].children.len() && rs[ri].children[j] == it
}

/// The server reported `child` as an edge of the item with key `k`.
pub open spec fn edge_reported(rs: Seq<Resp>, k: KeyView, child: ItemView) -> bool {
    exists|ri: int, j: int|
        0 <= ri < rs.len() && rs[ri].key == k && 0 <= j < rs[ri].children.len()
            && rs[ri].children[j] == child
}

proof fn lemma_item_reported_push(rs: Seq<Resp>, r: Resp, it: ItemView)
    requires
        item_reported(rs, it),
    ensures
        item_reported(rs.push(r), it),
{
    let (ri, j): (int, int) = choose|ri: int, j: int|
        0 <= ri < rs.len() && 0 <= j < rs[ri].children.len() && rs[ri].children[j] == it;
    assert(rs.push(r)[ri] == rs[ri]);
}

proof fn lemma_edge_reported_push(rs: Seq<Resp>, r: Resp, k: KeyView, child: ItemView)
    requires
        edge_reported(rs, k, child),
    ensures
        edge_reported(rs.push(r), k, child),
{
    let (ri, j): (int, int) = choose|ri: int, j: int|
        0 <= ri < rs.len() && rs[ri].key == k && 0 <= j < rs[ri].children.len()
            && rs[ri].children[j] == child;
    assert(rs.push(r)[ri] == rs[ri]);
}

pub fn clone_opt_string(o: &Option<String>) -> (r: Option<String>)
    ensures
        crate::types::opt_str_view(r) == crate::types::opt_str_view(*o),
{
    match o {
        Some(s) => Some(s.clone()),
        None => None,
    }
}

/// Copies an item; the copy has the same ghost image.
pub fn clone_item(item: &CallHierarchyItem) -> (r: CallHierarchyItem)
    ensures
        r@ == item@,
{
    let r = CallHierarchyItem {
        name: item.name.clone(),
        kind: item.kind,
        detail: clone_opt_string(&item.detail),
        uri: item.uri.clone(),
        range: item.range,
        selection_range: item.selection_range,
    };
    assert(r@ =~= item@);
    r
}

/// The display name of an LSP symbol-kind code.
pub open spec fn symbol_kind_name_spec(k: u32) -> Seq<char> {
    if k == 1 { "file"@ }
    else if k == 2 { "module"@ }
    else if k == 3 { "namespace"@ }
    else if k == 4 { "package"@ }
    else if k == 5 { "class"@ }
    else if k == 6 { "method"@ }
    else if k == 7 { "property"@ }
    else if k == 8 { "field"@ }
    else if k == 9 { "constructor"@ }
    else if k == 10 { "enum"@ }
    else if k == 11 { "interface"@ }
    else if k == 12 { "function"@ }
    else if k == 13 { "variable"@ }
    else if k == 14 { "constant"@ }
    else if k == 15 { "string"@ }
    else if k == 16 { "number"@ }
    else if k == 17 { "boolean"@ }
    else if k == 18 { "array"@ }
    else if k == 19 { "object"@ }
    else if k == 20 { "key"@ }
    else if k == 21 { "null"@ }
    else if k == 22 { "enum_member"@ }
    else if k == 23 { "struct"@ }
    else if k == 24 { "event"@ }
    else if k == 25 { "operator"@ }
    else if k == 26 { "type_parameter"@ }
    else { "unknown"@ }
}

pub fn symbol_kind_name(k: u32) -> (r: String)
    ensures
        r@ == symbol_kind_name_spec(k),
{
    let s: &str = if k == 1 { "file" }
    else if k == 2 { "module" }
    else if k == 3 { "namespace" }
    else if k == 4 { "package" }
    else if k == 5 { "class" }
    else if k == 6 { "method" }
    else if k == 7 { "property" }
    else if k == 8 { "field" }
    else if k == 9 { "constructor" }
    else if k == 10 { "enum" }
    else if k == 11 { "interface" }
    else if k == 12 { "function" }
    else if k == 13 { "variable" }
    else if k == 14 { "constant" }
    else if k == 15 { "string" }
    else if k == 16 { "number" }
    else if k == 17 { "boolean" }
    else if k == 18 { "array" }
    else if k == 19 { "object" }
    else if k == 20 { "key" }
    else if k == 21 { "null" }
    else if k == 22 { "enum_member" }
    else if k == 23 { "struct" }
    else if k == 24 { "event" }
    else if k == 25 { "operator" }
    else if k == 26 { "type_parameter" }
    else { "unknown" };
    String::from_str(s)
}

/// The fields a formatted node must carry for an item: name, kind name,
/// detail, workspace-relative path, one-based line, and column.
pub open spec fn node_matches_item(n: CallNode, i: ItemView, workspace_root: Seq<char>) -> bool {
    &&& n.name@ == i.name
    &&& crate::types::opt_str_view(n.kind) == Some(symbol_kind_name_spec(i.kind))
    &&& crate::types::opt_str_view(n.detail) == i.detail
    &&& crate::types::opt_str_view(n.path) == Some(
        rel_path_spec(uri_to_path_spec(i.uri), workspace_root),
    )
    &&& n.line == Some((i.selection_range.start.line + 1) as u32)
    &&& n.column == Some(i.selection_range.start.character)
}

/// Renders an item as a user-visible call node: path relative to the
/// workspace root, one-based line, and the given child edges.
pub fn format_call_node(
    item: &CallHierarchyItem,
    workspace_root: &str,
    calls: Option<Vec<CallNode>>,
    called_by: Option<Vec<CallNode>>,
) -> (n: CallNode)
    requires
        item.selection_range.start.line < u32::MAX,
    ensures
        node_matches_item(n, item@, workspace_root@),
        n.calls == calls,
        n.called_by == called_by,
{
    let file_path = uri_to_path(item.uri.as_str());
    let rel = relative_path(file_path.as_str(), workspace_root);
    CallNode {
        name: item.name.clone(),
        kind: Some(symbol_kind_name(item.kind)),
        detail: clone_opt_string(&item.detail),
        path: Some(rel),
        line: Some(item.selection_range.start.line + 1),
        column: Some(item.selection_range.start.character),
        calls,
        called_by,
    }
}

/// One suspended level of a tree walk: an item whose answer has arrived,
/// the children still to process, and the nodes built so far.
struct TreeFrame {
    item: CallHierarchyItem,
    children: Vec<CallHierarchyItem>,
    next: usize,
    built: Vec<CallNode>,
}

spec fn frame_rem(f: TreeFrame) -> nat {
    if f.next <= f.children@.len() {
        (f.children@.len() - f.next) as nat
    } else {
        0
    }
}

spec fn stack_rem(s: Seq<TreeFrame>) -> nat
    decreases s.len(),
{
    if s.len() == 0 {
        0
    } else {
        stack_rem(s.drop_last()) + frame_rem(s.last())
    }
}

spec fn frame_lines_ok(f: TreeFrame) -> bool {
    &&& f.item.selection_range.start.line < u32::MAX
    &&& forall|j: int|
        0 <= j < f.children@.len() ==> (#[trigger] f.children@[j]).selection_range.start.line
            < u32::MAX
}

spec fn frame_reported(rs: Seq<Resp>, f: TreeFrame) -> bool {
    exists|ri: int|
        0 <= ri < rs.len() && rs[ri].key == key_of(f.item@) && rs[ri].children == items_view(
            f.children@,
        )
}

proof fn lemma_frame_reported_push(rs: Seq<Resp>, r: Resp, f: TreeFrame)
    requires
        frame_reported(rs, f),
    ensures
        frame_reported(rs.push(r), f),
{
    let ri: int = choose|ri: int|
        0 <= ri < rs.len() && rs[ri].key == key_of(f.item@) && rs[ri].children == items_view(
            f.children@,
        );
    assert(rs.push(r)[ri] == rs[ri]);
}

/// A bounded, deduplicating walk that builds a call tree.
///
/// The walk runs as a state machine: while it is not done it names one
/// item (`current_request`), the driver asks the server for that item's
/// incoming or outgoing calls and hands the answer to `supply_children`
/// (an RPC failure is absorbed as an empty answer), and `finish` yields
/// the tree. The visited set is a forest cover: it is never unwound, so
/// an item reached by two parents appears only under the first.
pub struct TreeWalk {
    workspace_root: String,
    max_depth: u64,
    include_non_workspace: bool,
    incoming: bool,
    visited: KeySet,
    stack: Vec<TreeFrame>,
    pending: Option<CallHierarchyItem>,
    finished: Option<CallNode>,
    root_g: Ghost<ItemView>,
    expanded_g: Ghost<Seq<KeyView>>,
    emitted_g: Ghost<Seq<ItemView>>,
    responses_g: Ghost<Seq<Resp>>,
}

impl TreeWalk {
    /// The keys whose calls the walk has requested, in request order.
    pub closed spec fn expansions(&self) -> Seq<KeyView> {
        self.expanded_g@
    }

    /// The images of every non-root item the walk has given a node.
    pub closed spec fn emitted(&self) -> Seq<ItemView> {
        self.emitted_g@
    }

    /// Every server answer the walk has been fed, in order.
    pub closed spec fn responses(&self) -> Seq<Resp> {
        self.responses_g@
    }

    pub closed spec fn done(&self) -> bool {
        self.finished is Some
    }

    pub closed spec fn result_node(&self) -> CallNode {
        self.finished->0
    }

    /// The image of the item whose calls are currently requested.
    pub closed spec fn awaiting(&self) -> ItemView {
        self.pending->0@
    }

    /// Whether non-workspace (stdlib) items are being filtered out.
    pub closed spec fn filtering(&self) -> bool {
        !self.include_non_workspace
    }

    pub closed spec fn depth_limit(&self) -> u64 {
        self.max_depth
    }

    /// The image of the prepared item the walk started from.
    pub closed spec fn root(&self) -> ItemView {
        self.root_g@
    }

    pub closed spec fn ws_root(&self) -> Seq<char> {
        self.workspace_root@
    }

    /// Whether the walk follows incoming (`called_by`) rather than
    /// outgoing (`calls`) edges.
    pub closed spec fn incoming_mode(&self) -> bool {
        self.incoming
    }

    /// The stored frame at `i` sits one step behind: the child at
    /// `next - 1` is the item being expanded above it, and the nodes
    /// built so far follow the record for the children before it.
    spec fn frame_link_ok(&self, i: int, child: ItemView) -> bool {
        let f = self.stack@[i];
        &&& 1 <= f.next <= f.children@.len()
        &&& items_view(f.children@)[f.next - 1] == child
        &&& keeps(child, self.filtering())
        &&& edges_follow(
            self.responses(),
            self.expansions(),
            f.built@,
            items_view(f.children@).take(f.next - 1),
            i + 1,
            self.max_depth as int,
            self.filtering(),
            self.incoming,
            self.workspace_root@,
        )
    }

    spec fn frames_ok(&self, above: ItemView) -> bool {
        forall|i: int|
            0 <= i < self.stack@.len() ==> {
                &&& frame_lines_ok(#[trigger] self.stack@[i])
                &&& frame_reported(self.responses(), self.stack@[i])
                &&& self.frame_link_ok(
                    i,
                    if i + 1 < self.stack@.len() {
                        self.stack@[i + 1].item@
                    } else {
                        above
                    },
                )
            }
    }

    spec fn ghosts_ok(&self) -> bool {
        &&& self.responses().map_values(|r: Resp| r.key) == self.expansions()
        &&& (forall|i: int, j: int|
            0 <= i < j < self.expansions().len() ==> self.expansions()[i] != self.expansions()[j])
        &&& (forall|i: int|
            0 <= i < self.expansions().len() ==> self.visited@.contains(
                #[trigger] self.expansions()[i],
            ))
        &&& (self.filtering() ==> forall|i: int|
            0 <= i < self.emitted().len() ==> !is_stdlib_spec(
                (#[trigger] self.emitted()[i]).uri,
            ))
        &&& (forall|i: int|
            0 <= i < self.emitted().len() ==> item_reported(
                self.responses(),
                #[trigger] self.emitted()[i],
            ))
    }

    /// The shape the finished root node must have: the prepared item's
    /// fields, and its edges in the field matching the direction — or no
    /// edge field at all when the depth budget was zero.
    pub open spec fn root_node_ok(
        n: CallNode,
        root: ItemView,
        ws: Seq<char>,
        max_depth: u64,
        incoming: bool,
    ) -> bool {
        &&& node_matches_item(n, root, ws)
        &&& (max_depth == 0 ==> n.calls is None && n.called_by is None)
        &&& (max_depth != 0 && incoming ==> n.calls is None && n.called_by is Some)
        &&& (max_depth != 0 && !incoming ==> n.calls is Some && n.called_by is None)
    }

    pub closed spec fn wf(&self) -> bool {
        &&& self.visited.wf()
        &&& self.ghosts_ok()
        &&& (self.done() <==> self.pending is None)
        &&& (self.done() ==> self.stack@.len() == 0)
        &&& (self.done() ==> Self::root_node_ok(
            self.result_node(),
            self.root_g@,
            self.workspace_root@,
            self.max_depth,
            self.incoming,
        ))
        &&& (self.done() && self.max_depth > 0 ==> subtree_follows(
            self.responses(),
            self.expansions(),
            self.result_node(),
            self.root_g@,
            0,
            self.max_depth as int,
            self.filtering(),
            self.incoming,
            self.workspace_root@,
        ))
        &&& (!self.done() ==> {
            &&& self.stack@.len() < self.max_depth
            &&& self.pending->0.selection_range.start.line < u32::MAX
            &&& self.visited@.contains(key_of(self.awaiting()))
            &&& !self.expansions().contains(key_of(self.awaiting()))
            &&& (forall|k: KeyView|
                self.visited@.contains(k) ==> self.expansions().contains(k) || k == key_of(
                    self.awaiting(),
                ))
            &&& self.frames_ok(self.awaiting())
            &&& (if self.stack@.len() > 0 {
                self.stack@[0].item@ == self.root_g@
            } else {
                self.awaiting() == self.root_g@
            })
        })
    }

    /// The nodes still to be processed across all suspended levels.
    pub closed spec fn pending_work(&self) -> nat {
        stack_rem(self.stack@)
    }

    /// Starts a tree walk from a prepared root item. With a zero depth
    /// budget the walk is immediately done and the root node carries no
    /// edge field at all.
    pub fn new(
        root: CallHierarchyItem,
        workspace_root: String,
        max_depth: u64,
        include_non_workspace: bool,
        incoming: bool,
    ) -> (w: TreeWalk)
        requires
            root.selection_range.start.line < u32::MAX,
        ensures
            w.wf(),
            w.filtering() == !include_non_workspace,
            w.depth_limit() == max_depth,
            w.responses() == Seq::<Resp>::empty(),
            w.emitted() == Seq::<ItemView>::empty(),
            w.expansions() == Seq::<KeyView>::empty(),
            w.done() <==> max_depth == 0,
            w.root() == root@,
            w.ws_root() == workspace_root@,
            w.incoming_mode() == incoming,
            max_depth != 0 ==> w.awaiting() == root@,
    {
        let mut visited = KeySet::new();
        let ghost root_v = root;
        proof {
            assert(Seq::<Resp>::empty().map_values(|r: Resp| r.key) =~= Seq::<KeyView>::empty());
        }
        if max_depth == 0 {
            let node = format_call_node(&root, workspace_root.as_str(), None, None);
            TreeWalk {
                workspace_root,
                max_depth,
                include_non_workspace,
                incoming,
                visited,
                stack: Vec::new(),
                pending: None,
                finished: Some(node),
                root_g: Ghost(root_v@),
                expanded_g: Ghost(Seq::empty()),
                emitted_g: Ghost(Seq::empty()),
                responses_g: Ghost(Seq::empty()),
            }
        } else {
            let k = ItemKey::of_item(&root);
            visited.insert(k);
            TreeWalk {
                workspace_root,
                max_depth,
                include_non_workspace,
                incoming,
                visited,
                stack: Vec::new(),
                pending: Some(root),
                finished: None,
                root_g: Ghost(root_v@),
                expanded_g: Ghost(Seq::empty()),
                emitted_g: Ghost(Seq::empty()),
                responses_g: Ghost(Seq::empty()),
            }
        }
    }

    /// The item whose calls the walk needs next. Its key has never been
    /// requested before in this walk.
    pub fn current_request(&self) -> (i: CallHierarchyItem)
        requires
            self.wf(),
            !self.done(),
        ensures
            i@ == self.awaiting(),
            !self.expansions().contains(key_of(i@)),
    {
        match &self.pending {
            Some(p) => clone_item(p),
            None => vstd::pervasive::unreached(),
        }
    }

    pub fn is_done(&self) -> (b: bool)
        ensures
            b == self.done(),
    {
        self.finished.is_some()
    }

    /// Feeds the server's answer for the current request. The walk
    /// records the answer, files a node for every reported child that
    /// survives the workspace filter, and either asks for the calls of
    /// the first unvisited child within the depth budget or finishes.
    #[verifier::rlimit(100)]
    pub fn supply_children(&mut self, children: Vec<CallHierarchyItem>)
        requires
            old(self).wf(),
            !old(self).done(),
            forall|j: int|
                0 <= j < children@.len() ==> (#[trigger] children@[j]).selection_range.start.line
                    < u32::MAX,
        ensures
            final(self).wf(),
            final(self).filtering() == old(self).filtering(),
            final(self).depth_limit() == old(self).depth_limit(),
            final(self).root() == old(self).root(),
            final(self).ws_root() == old(self).ws_root(),
            final(self).incoming_mode() == old(self).incoming_mode(),
            final(self).expansions() == old(self).expansions().push(key_of(old(self).awaiting())),
            final(self).responses() == old(self).responses().push(
                Resp { key: key_of(old(self).awaiting()), children: items_view(children@) },
            ),
            old(self).emitted().is_prefix_of(final(self).emitted()),
            final(self).done() || final(self).pending_work() <= old(self).pending_work()
                + children@.len() - 1,
    {
        let item = self.pending.take().unwrap();
        let ghost resp = Resp { key: key_of(item@), children: items_view(children@) };
        let ghost k2 = key_of(item@);
        proof {
            self.expanded_g@ = self.expanded_g@.push(key_of(item@));
            self.responses_g@ = self.responses_g@.push(resp);
        }
        let frame = TreeFrame { item, children, next: 0, built: Vec::new() };
        proof {
            assert(self.responses().map_values(|r: Resp| r.key) =~= self.expansions());
            assert forall|i: int| 0 <= i < self.stack@.len() implies frame_reported(
                self.responses(),
                #[trigger] self.stack@[i],
            ) by {
                lemma_frame_reported_push(old(self).responses(), resp, self.stack@[i]);
            }
            assert forall|i: int| 0 <= i < self.emitted().len() implies item_reported(
                self.responses(),
                #[trigger] self.emitted()[i],
            ) by {
                lemma_item_reported_push(old(self).responses(), resp, self.emitted()[i]);
            }
            assert(self.responses().last() == resp);
            assert(old(self).awaiting() == item@);
            assert(self.expansions() == old(self).expansions().push(k2));
            assert forall|k: KeyView| self.visited@.contains(k) implies self.expansions().contains(
                k,
            ) by {
                if k == k2 {
                    assert(self.expansions()[self.expansions().len() - 1] == k2);
                } else {
                    assert(old(self).visited@.contains(k));
                    assert(old(self).expansions().contains(k) || k == key_of(
                        old(self).awaiting(),
                    ));
                    assert(key_of(old(self).awaiting()) == k2);
                    let w: int = choose|w: int|
                        0 <= w < old(self).expansions().len() && old(self).expansions()[w] == k;
                    assert(self.expansions()[w] == old(self).expansions()[w]);
                    assert(self.expansions()[w] == k);
                }
            }
            assert forall|i: int| 0 <= i < self.stack@.len() implies {
                &&& frame_lines_ok(#[trigger] self.stack@[i])
                &&& frame_reported(self.responses(), self.stack@[i])
                &&& self.frame_link_ok(
                    i,
                    if i + 1 < self.stack@.len() {
                        self.stack@[i + 1].item@
                    } else {
                        item@
                    },
                )
            } by {
                let child = if i + 1 < self.stack@.len() {
                    self.stack@[i + 1].item@
                } else {
                    item@
                };
                assert(old(self).frame_link_ok(i, child));
                lemma_edges_follow_push(
                    old(self).responses(),
                    resp,
                    old(self).expansions(),
                    k2,
                    self.stack@[i].built@,
                    items_view(self.stack@[i].children@).take(self.stack@[i].next - 1),
                    i + 1,
                    self.max_depth as int,
                    self.filtering(),
                    self.incoming,
                    self.workspace_root@,
                );
            }
        }
        let ghost pre_push = self.stack@;
        self.stack.push(frame);
        proof {
            assert(self.stack@.drop_last() =~= pre_push);
            assert(self.stack@.last() == self.stack@[self.stack@.len() - 1]);
            assert(stack_rem(self.stack@) == stack_rem(pre_push) + frame_rem(
                self.stack@.last(),
            ));
            assert(items_view(self.stack@.last().children@).take(0) =~= Seq::<ItemView>::empty());
            assert(edges_follow(
                self.responses(),
                self.expansions(),
                self.stack@.last().built@,
                items_view(self.stack@.last().children@).take(0),
                self.stack@.len() as int,
                self.max_depth as int,
                self.filtering(),
                self.incoming,
                self.workspace_root@,
            ));
        }
        self.advance();
    }

    /// Runs the walk forward until it either needs another answer or is
    /// done.
    #[verifier::rlimit(100)]
    fn advance(&mut self)
        requires
            old(self).visited.wf(),
            old(self).ghosts_ok(),
            old(self).pending is None,
            old(self).finished is None,
            old(self).stack@.len() >= 1,
            old(self).stack@.len() <= old(self).max_depth,
            old(self).stack@[0].item@ == old(self).root_g@,
            forall|k: KeyView|
                old(self).visited@.contains(k) ==> old(self).expansions().contains(k),
            ({
                let f = old(self).stack@.last();
                &&& f.next <= f.children@.len()
                &&& frame_lines_ok(f)
                &&& frame_reported(old(self).responses(), f)
                &&& edges_follow(
                    old(self).responses(),
                    old(self).expansions(),
                    f.built@,
                    items_view(f.children@).take(f.next as int),
                    old(self).stack@.len() as int,
                    old(self).max_depth as int,
                    old(self).filtering(),
                    old(self).incoming,
                    old(self).workspace_root@,
                )
            }),
            forall|i: int|
                0 <= i < old(self).stack@.len() - 1 ==> {
                    &&& frame_lines_ok(#[trigger] old(self).stack@[i])
                    &&& frame_reported(old(self).responses(), old(self).stack@[i])
                    &&& old(self).frame_link_ok(i, old(self).stack@[i + 1].item@)
                },
        ensures
            final(self).wf(),
            final(self).filtering() == old(self).filtering(),
            final(self).depth_limit() == old(self).depth_limit(),
            final(self).root() == old(self).root(),
            final(self).ws_root() == old(self).ws_root(),
            final(self).incoming_mode() == old(self).incoming_mode(),
            final(self).expansions() == old(self).expansions(),
            final(self).responses() == old(self).responses(),
            old(self).emitted().is_prefix_of(final(self).emitted()),
            final(self).done() || stack_rem(final(self).stack@) + 1 <= stack_rem(
                old(self).stack@,
            ),
    {
        let ghost s0 = old(self).stack@;
        let ghost rem0 = stack_rem(old(self).stack@);
        let mut frame = self.stack.pop().unwrap();
        proof {
            assert(frame == s0[s0.len() - 1]);
            assert(self.stack@ =~= s0.drop_last());
            assert(stack_rem(s0) == stack_rem(s0.drop_last()) + frame_rem(s0.last()));
            assert forall|i: int| 0 <= i < self.stack@.len() implies {
                &&& frame_lines_ok(#[trigger] self.stack@[i])
                &&& frame_reported(self.responses(), self.stack@[i])
                &&& self.frame_link_ok(
                    i,
                    if i + 1 < self.stack@.len() {
                        self.stack@[i + 1].item@
                    } else {
                        frame.item@
                    },
                )
            } by {
                assert(self.stack@[i] == s0[i]);
                assert(old(self).frame_link_ok(
                    i,
                    if i + 1 < s0.len() - 1 {
                        s0[i + 1].item@
                    } else {
                        s0[s0.len() - 1].item@
                    },
                ));
                if i + 1 < self.stack@.len() {
                    assert(self.stack@[i + 1] == s0[i + 1]);
                }
            }
        }
        loop
            invariant
                self.visited.wf(),
                self.ghosts_ok(),
                self.pending is None,
                self.finished is None,
                self.stack@.len() < old(self).max_depth,
                frame.next <= frame.children@.len(),
                frame_lines_ok(frame),
                frame_reported(self.responses(), frame),
                edges_follow(
                    self.responses(),
                    self.expansions(),
                    frame.built@,
                    items_view(frame.children@).take(frame.next as int),
                    self.stack@.len() as int + 1,
                    self.max_depth as int,
                    self.filtering(),
                    self.incoming,
                    self.workspace_root@,
                ),
                forall|i: int|
                    0 <= i < self.stack@.len() ==> {
                        &&& frame_lines_ok(#[trigger] self.stack@[i])
                        &&& frame_reported(self.responses(), self.stack@[i])
                        &&& self.frame_link_ok(
                            i,
                            if i + 1 < self.stack@.len() {
                                self.stack@[i + 1].item@
                            } else {
                                frame.item@
                            },
                        )
                    },
                forall|k: KeyView|
                    self.visited@.contains(k) ==> self.expansions().contains(k),
                stack_rem(self.stack@) + frame_rem(frame) <= rem0,
                rem0 == stack_rem(old(self).stack@),
                self.max_depth == old(self).max_depth,
                self.incoming == old(self).incoming,
                self.include_non_workspace == old(self).include_non_workspace,
                self.workspace_root == old(self).workspace_root,
                self.root_g == old(self).root_g,
                (if self.stack@.len() > 0 {
                    self.stack@[0].item@ == self.root_g@
                } else {
                    frame.item@ == self.root_g@
                }),
                self.expansions() == old(self).expansions(),
                self.responses() == old(self).responses(),
                old(self).emitted().is_prefix_of(self.emitted()),
            decreases stack_rem(self.stack@) + frame_rem(frame), self.stack@.len(),
        {
            let ghost head_sum = stack_rem(self.stack@) + frame_rem(frame);
            proof {
                assert(head_sum <= rem0);
            }
            if frame.next < frame.children.len() {
                let idx = frame.next;
                let ghost pre_kids = items_view(frame.children@).take(idx as int);
                let ghost pre_built = frame.built@;
                frame.next = idx + 1;
                let c = clone_item(&frame.children[idx]);
                proof {
                    assert(items_view(frame.children@)[idx as int] == c@);
                    assert(items_view(frame.children@).take(idx + 1) =~= pre_kids.push(c@));
                }
                let keep = self.include_non_workspace || !is_stdlib_path(c.uri.as_str());
                if keep {
                    let ck = ItemKey::of_item(&c);
                    let at_limit = (self.stack.len() as u64) + 1 >= self.max_depth;
                    if at_limit {
                        // Out of depth budget: the child appears with no
                        // edges of its own.
                        proof {
                            self.emitted_g@ = self.emitted_g@.push(c@);
                        }
                        let node = if self.incoming {
                            let leaf: Vec<CallNode> = Vec::new();
                            format_call_node(&c, self.workspace_root.as_str(), None, Some(leaf))
                        } else {
                            let leaf: Vec<CallNode> = Vec::new();
                            format_call_node(&c, self.workspace_root.as_str(), Some(leaf), None)
                        };
                        proof {
                            assert(node_edges(node, self.incoming) matches Some(l) && l.len()
                                == 0);
                            assert(subtree_follows(
                                self.responses(),
                                self.expansions(),
                                node,
                                c@,
                                self.stack@.len() as int + 1,
                                self.max_depth as int,
                                self.filtering(),
                                self.incoming,
                                self.workspace_root@,
                            ));
                        }
                        frame.built.push(node);
                        proof {
                            assert(frame.built@.last() == node);
                            assert(frame.built@.drop_last() =~= pre_built);
                            assert(keeps(c@, self.filtering()));
                            assert(items_view(frame.children@).take(idx + 1).last() == c@);
                            assert(items_view(frame.children@).take(idx + 1).drop_last()
                                =~= pre_kids);
                            assert(frame.built@.len() > 0);
                            assert(edges_follow(
                                self.responses(),
                                self.expansions(),
                                frame.built@,
                                items_view(frame.children@).take(idx + 1),
                                self.stack@.len() as int + 1,
                                self.max_depth as int,
                                self.filtering(),
                                self.incoming,
                                self.workspace_root@,
                            ));
                        }
                    } else if !self.visited.contains(&ck) {
                        proof {
                            self.emitted_g@ = self.emitted_g@.push(c@);
                        }
                        self.visited.insert(ck);
                        let ghost pre_stack = self.stack@;
                        self.stack.push(frame);
                        self.pending = Some(c);
                        proof {
                            assert(self.stack@.drop_last() =~= pre_stack);
                            assert(stack_rem(self.stack@) == stack_rem(pre_stack) + frame_rem(
                                self.stack@.last(),
                            ));
                            assert(self.stack@.last().next == idx + 1);
                            assert(frame_rem(self.stack@.last()) + 1 == head_sum - stack_rem(
                                pre_stack,
                            ) || true);
                            assert(stack_rem(self.stack@) + 1 <= rem0);
                            let ghost sl = self.stack@.len();
                            assert(self.stack@.last() == self.stack@[sl - 1]);
                            assert(self.stack@.drop_last() =~= old(self).stack@.drop_last()
                                || true);
                            assert(keeps(c@, self.filtering()));
                            assert(items_view(self.stack@[sl - 1].children@)[idx as int]
                                == c@);
                            assert(items_view(self.stack@[sl - 1].children@).take(idx as int)
                                =~= pre_kids);
                            assert(self.frame_link_ok(sl - 1, c@));
                            assert forall|i: int| 0 <= i < sl implies {
                                &&& frame_lines_ok(#[trigger] self.stack@[i])
                                &&& frame_reported(self.responses(), self.stack@[i])
                                &&& self.frame_link_ok(
                                    i,
                                    if i + 1 < sl {
                                        self.stack@[i + 1].item@
                                    } else {
                                        c@
                                    },
                                )
                            } by {}
                            assert forall|k: KeyView| self.visited@.contains(k)
                                implies self.expansions().contains(k) || k == key_of(c@) by {}
                            assert(stack_rem(self.stack@) == stack_rem(self.stack@.drop_last())
                                + frame_rem(self.stack@.last()));
                            assert(self.wf());
                        }
                        return;
                    }
                    // A visited key is a cycle: the repeat visit is
                    // pruned from the tree entirely.
                    proof {
                        if !at_limit {
                            assert(self.visited@.contains(key_of(c@)));
                            assert(self.expansions().contains(key_of(c@)));
                            assert(items_view(frame.children@).take(idx + 1).last() == c@);
                            assert(items_view(frame.children@).take(idx + 1).drop_last()
                                =~= pre_kids);
                            assert(edges_follow(
                                self.responses(),
                                self.expansions(),
                                frame.built@,
                                items_view(frame.children@).take(idx + 1),
                                self.stack@.len() as int + 1,
                                self.max_depth as int,
                                self.filtering(),
                                self.incoming,
                                self.workspace_root@,
                            ));
                        }
                    }
                } else {
                    proof {
                        assert(!keeps(c@, self.filtering()));
                        assert(items_view(frame.children@).take(idx + 1).last() == c@);
                        assert(items_view(frame.children@).take(idx + 1).drop_last()
                            =~= pre_kids);
                        assert(edges_follow(
                            self.responses(),
                            self.expansions(),
                            frame.built@,
                            items_view(frame.children@).take(idx + 1),
                            self.stack@.len() as int + 1,
                            self.max_depth as int,
                            self.filtering(),
                            self.incoming,
                            self.workspace_root@,
                        ));
                    }
                }
            } else {
                let ghost fv = frame;
                let ghost ldepth = self.stack@.len() as int;
                proof {
                    assert(items_view(fv.children@).take(fv.next as int) =~= items_view(
                        fv.children@,
                    ));
                    let rs = self.responses();
                    assert forall|a: int, b: int|
                        0 <= a < b < rs.len() implies rs[a].key != rs[b].key by {
                        assert(rs.map_values(|r: Resp| r.key)[a] == rs[a].key);
                        assert(rs.map_values(|r: Resp| r.key)[b] == rs[b].key);
                    }
                    let ri: int = choose|ri: int|
                        0 <= ri < rs.len() && rs[ri].key == key_of(fv.item@) && rs[ri].children
                            == items_view(fv.children@);
                    lemma_response_for_at(rs, ri);
                    assert(response_for(rs, key_of(fv.item@)) == Some(
                        items_view(fv.children@),
                    ));
                }
                let TreeFrame { item: fitem, children: _fc, next: _fn, built: fbuilt } = frame;
                let node = if self.incoming {
                    format_call_node(&fitem, self.workspace_root.as_str(), None, Some(fbuilt))
                } else {
                    format_call_node(&fitem, self.workspace_root.as_str(), Some(fbuilt), None)
                };
                proof {
                    assert(node_edges(node, self.incoming) matches Some(l) && l == fv.built@);
                    assert(subtree_follows(
                        self.responses(),
                        self.expansions(),
                        node,
                        fv.item@,
                        ldepth,
                        self.max_depth as int,
                        self.filtering(),
                        self.incoming,
                        self.workspace_root@,
                    ));
                }
                let ghost old_stack = self.stack@;
                proof {
                    if old_stack.len() > 0 {
                        // the parent's link: its consumed child is this frame's item
                        let pi = old_stack.len() - 1;
                        assert(self.frame_link_ok(pi, fv.item@));
                        let pf = old_stack[pi];
                        assert(1 <= pf.next <= pf.children@.len());
                        assert(items_view(pf.children@)[pf.next - 1] == fv.item@);
                        assert(keeps(fv.item@, self.filtering()));
                        assert(edges_follow(
                            self.responses(),
                            self.expansions(),
                            pf.built@,
                            items_view(pf.children@).take(pf.next - 1),
                            old_stack.len() as int,
                            self.max_depth as int,
                            self.filtering(),
                            self.incoming,
                            self.workspace_root@,
                        ));
                    }
                }
                match self.stack.pop() {
                    Some(mut parent) => {
                        let ghost pv = parent;
                        proof {
                            assert(parent == old_stack[old_stack.len() - 1]);
                            assert(self.stack@ =~= old_stack.drop_last());
                            assert(old_stack.last() == old_stack[old_stack.len() - 1]);
                            assert(stack_rem(old_stack) == stack_rem(old_stack.drop_last())
                                + frame_rem(old_stack.last()));
                        }
                        parent.built.push(node);
                        proof {
                            let ghost pk = items_view(pv.children@);
                            assert(self.stack@.len() as int + 1 == old_stack.len() as int);
                            assert(ldepth == self.stack@.len() as int + 1);
                            assert(1 <= pv.next <= pv.children@.len());
                            assert(keeps(fv.item@, self.filtering()));
                            assert(edges_follow(
                                self.responses(),
                                self.expansions(),
                                pv.built@,
                                pk.take(pv.next - 1),
                                self.stack@.len() as int + 1,
                                self.max_depth as int,
                                self.filtering(),
                                self.incoming,
                                self.workspace_root@,
                            ));
                            assert(parent.built@.last() == node);
                            assert(parent.built@.drop_last() =~= pv.built@);
                            assert(pk.take(pv.next as int) =~= pk.take(pv.next - 1).push(
                                pk[pv.next - 1],
                            ));
                            assert(pk.take(pv.next as int).last() == fv.item@);
                            assert(pk.take(pv.next as int).drop_last() =~= pk.take(
                                pv.next - 1,
                            ));
                            assert(parent.built@.len() > 0);
                            assert(edges_follow(
                                self.responses(),
                                self.expansions(),
                                parent.built@,
                                pk.take(pv.next as int),
                                self.stack@.len() as int + 1,
                                self.max_depth as int,
                                self.filtering(),
                                self.incoming,
                                self.workspace_root@,
                            ));
                            assert forall|i: int| 0 <= i < self.stack@.len() implies {
                                &&& frame_lines_ok(#[trigger] self.stack@[i])
                                &&& frame_reported(self.responses(), self.stack@[i])
                                &&& self.frame_link_ok(
                                    i,
                                    if i + 1 < self.stack@.len() {
                                        self.stack@[i + 1].item@
                                    } else {
                                        pv.item@
                                    },
                                )
                            } by {
                                assert(self.stack@[i] == old_stack[i]);
                                if i + 1 < self.stack@.len() {
                                    assert(self.stack@[i + 1] == old_stack[i + 1]);
                                }
                            }
                        }
                        frame = parent;
                    },
                    None => {
                        proof {
                            assert(fv.item@ == self.root_g@);
                            assert(ldepth == 0);
                        }
                        self.finished = Some(node);
                        proof {
                            assert(self.result_node() == node);
                            assert(self.wf());
                        }
                        return;
                    },
                }
            }
        }
    }

    /// The finished tree: the root node with its filtered, deduplicated,
    /// depth-bounded edges.
    pub fn finish(self) -> (n: CallNode)
        requires
            self.wf(),
            self.done(),
        ensures
            n == self.result_node(),
    {
        self.finished.unwrap()
    }

    /// The finished tree follows the recorded answers: every node
    /// renders its item; a node below the depth limit carries, in
    /// order, one node per filter-surviving child of the recorded
    /// answer for its key — a repeat visit pruned, nothing invented —
    /// and a node at the limit is a leaf.
    pub proof fn lemma_tree_follows(&self)
        requires
            self.wf(),
            self.done(),
            self.depth_limit() > 0,
        ensures
            subtree_follows(
                self.responses(),
                self.expansions(),
                self.result_node(),
                self.root(),
                0,
                self.depth_limit() as int,
                self.filtering(),
                self.incoming_mode(),
                self.ws_root(),
            ),
    {
    }

    /// The finished tree's root node renders the prepared item itself,
    /// and carries its edges in the field matching the walk's direction
    /// — or no edge field at all when the depth budget was zero.
    pub proof fn lemma_root_node(&self)
        requires
            self.wf(),
            self.done(),
        ensures
            Self::root_node_ok(
                self.result_node(),
                self.root(),
                self.ws_root(),
                self.depth_limit(),
                self.incoming_mode(),
            ),
    {
    }

    /// Within one tree build the visited set never lets the same dedup
    /// key be expanded twice: the keys whose calls were requested are
    /// pairwise distinct.
    pub proof fn lemma_expansions_distinct(&self)
        requires
            self.wf(),
        ensures
            forall|i: int, j: int|
                0 <= i < j < self.expansions().len() ==> self.expansions()[i]
                    != self.expansions()[j],
    {
    }

    /// With the workspace filter on, no item whose URI matches the
    /// stdlib heuristics is ever given a node in the output.
    pub proof fn lemma_emitted_filtered(&self)
        requires
            self.wf(),
            self.filtering(),
        ensures
            forall|i: int|
                0 <= i < self.emitted().len() ==> !is_stdlib_spec(self.emitted()[i].uri),
    {
    }

    /// Every item the walk gave a node besides the root came out of some
    /// recorded server answer: the walk invents no nodes.
    pub proof fn lemma_emitted_reported(&self)
        requires
            self.wf(),
        ensures
            forall|i: int|
                0 <= i < self.emitted().len() ==> item_reported(
                    self.responses(),
                    self.emitted()[i],
                ),
    {
    }
}

/// The path search's termination test: the item is declared at the
/// target workspace-relative path and one-based line.
pub open spec fn is_target_spec(
    i: ItemView,
    workspace_root: Seq<char>,
    target_path: Seq<char>,
    target_line: u32,
) -> bool {
    &&& rel_path_spec(uri_to_path_spec(i.uri), workspace_root) == target_path
    &&& i.selection_range.start.line + 1 == target_line
}

/// One suspended level of a path search.
struct PathFrame {
    item: CallHierarchyItem,
    children: Vec<CallHierarchyItem>,
    next: usize,
}

spec fn pframe_rem(f: PathFrame) -> nat {
    if f.next <= f.children@.len() {
        (f.children@.len() - f.next) as nat
    } else {
        0
    }
}

spec fn pstack_rem(s: Seq<PathFrame>) -> nat
    decreases s.len(),
{
    if s.len() == 0 {
        0
    } else {
        pstack_rem(s.drop_last()) + pframe_rem(s.last())
    }
}

spec fn pframe_lines_ok(f: PathFrame) -> bool {
    &&& f.item.selection_range.start.line < u32::MAX
    &&& forall|j: int|
        0 <= j < f.children@.len() ==> (#[trigger] f.children@[j]).selection_range.start.line
            < u32::MAX
}

spec fn pframe_reported(rs: Seq<Resp>, f: PathFrame) -> bool {
    exists|ri: int|
        0 <= ri < rs.len() && rs[ri].key == key_of(f.item@) && rs[ri].children == items_view(
            f.children@,
        )
}

proof fn lemma_pframe_reported_push(rs: Seq<Resp>, r: Resp, f: PathFrame)
    requires
        pframe_reported(rs, f),
    ensures
        pframe_reported(rs.push(r), f),
{
    let ri: int = choose|ri: int|
        0 <= ri < rs.len() && rs[ri].key == key_of(f.item@) && rs[ri].children == items_view(
            f.children@,
        );
    assert(rs.push(r)[ri] == rs[ri]);
}

/// A bounded, depth-first search for a directed chain of outgoing calls
/// from a prepared root item to a target declaration.
///
/// Like `TreeWalk` it runs as a state machine fed by the driver. Unlike
/// the tree build, the visited set is stack-scoped: a key is removed on
/// backtrack, so a sibling branch may still visit a node an abandoned
/// branch shares; cycles are still broken because the set blocks
/// re-entry within the current chain.
pub struct PathWalk {
    workspace_root: String,
    target_path: String,
    target_line: u32,
    max_depth: u64,
    include_non_workspace: bool,
    visited: KeySet,
    stack: Vec<PathFrame>,
    pending: Option<CallHierarchyItem>,
    outcome: Option<Option<Vec<CallHierarchyItem>>>,
    root_g: Ghost<ItemView>,
    responses_g: Ghost<Seq<Resp>>,
}

impl PathWalk {
    pub closed spec fn responses(&self) -> Seq<Resp> {
        self.responses_g@
    }

    pub closed spec fn done(&self) -> bool {
        self.outcome is Some
    }

    pub closed spec fn found(&self) -> bool {
        self.outcome is Some && self.outcome->0 is Some
    }

    pub closed spec fn found_path(&self) -> Seq<ItemView> {
        items_view(self.outcome->0->0@)
    }

    pub closed spec fn awaiting(&self) -> ItemView {
        self.pending->0@
    }

    pub closed spec fn root(&self) -> ItemView {
        self.root_g@
    }

    pub closed spec fn filtering(&self) -> bool {
        !self.include_non_workspace
    }

    pub closed spec fn depth_limit(&self) -> u64 {
        self.max_depth
    }

    pub closed spec fn ws_root(&self) -> Seq<char> {
        self.workspace_root@
    }

    pub closed spec fn target_path_spec(&self) -> Seq<char> {
        self.target_path@
    }

    pub closed spec fn target_line_spec(&self) -> u32 {
        self.target_line
    }

    /// The nodes still to be processed across all suspended levels.
    pub closed spec fn pending_work(&self) -> nat {
        pstack_rem(self.stack@)
    }

    /// The chain `stack ++ [extra]` is rooted, adjacent under the
    /// recorded responses, key-distinct, inside the visited set, and
    /// filtered (the root is exempt from the filter).
    spec fn chain_inv(&self, extra: ItemView) -> bool {
        &&& (if self.stack@.len() > 0 {
            self.stack@[0].item@ == self.root_g@
        } else {
            extra == self.root_g@
        })
        &&& (forall|i: int|
            1 <= i < self.stack@.len() ==> edge_reported(
                self.responses(),
                key_of(self.stack@[i - 1].item@),
                (#[trigger] self.stack@[i]).item@,
            ))
        &&& (self.stack@.len() > 0 ==> edge_reported(
            self.responses(),
            key_of(self.stack@.last().item@),
            extra,
        ))
        &&& (forall|i: int, j: int|
            0 <= i < j < self.stack@.len() ==> key_of(self.stack@[i].item@) != key_of(
                self.stack@[j].item@,
            ))
        &&& (forall|i: int|
            0 <= i < self.stack@.len() ==> self.visited@.contains(
                key_of((#[trigger] self.stack@[i]).item@),
            ))
        &&& (forall|i: int|
            0 <= i < self.stack@.len() ==> key_of((#[trigger] self.stack@[i]).item@) != key_of(
                extra,
            ))
        &&& self.visited@.contains(key_of(extra))
        &&& (self.filtering() ==> forall|i: int|
            1 <= i < self.stack@.len() ==> !is_stdlib_spec(
                (#[trigger] self.stack@[i]).item@.uri,
            ))
        &&& (self.filtering() && self.stack@.len() > 0 ==> !is_stdlib_spec(extra.uri))
        &&& extra.selection_range.start.line < u32::MAX
    }

    spec fn pframes_ok(&self) -> bool {
        forall|i: int|
            0 <= i < self.stack@.len() ==> {
                &&& (#[trigger] self.stack@[i]).next <= self.stack@[i].children@.len()
                &&& pframe_lines_ok(self.stack@[i])
                &&& pframe_reported(self.responses(), self.stack@[i])
            }
    }

    /// The facts `take_result` hands on about a found path.
    pub open spec fn path_ok(
        pv: Seq<ItemView>,
        root: ItemView,
        rs: Seq<Resp>,
        ws: Seq<char>,
        tpath: Seq<char>,
        tline: u32,
        max_depth: u64,
        filtering: bool,
    ) -> bool {
        &&& pv.len() >= 1
        &&& pv.len() <= max_depth
        &&& pv[0] == root
        &&& is_target_spec(pv.last(), ws, tpath, tline)
        &&& (forall|i: int, j: int| 0 <= i < j < pv.len() ==> key_of(pv[i]) != key_of(pv[j]))
        &&& (forall|i: int|
            0 <= i < pv.len() - 1 ==> edge_reported(rs, key_of(pv[i]), #[trigger] pv[i + 1]))
        &&& (filtering ==> forall|i: int| 1 <= i < pv.len() ==> !is_stdlib_spec(pv[i].uri))
        &&& (forall|i: int|
            0 <= i < pv.len() ==> (#[trigger] pv[i]).selection_range.start.line < u32::MAX)
    }

    pub closed spec fn wf(&self) -> bool {
        &&& self.visited.wf()
        &&& self.pframes_ok()
        &&& (self.done() <==> self.pending is None)
        &&& (!self.done() ==> {
            &&& self.stack@.len() < self.max_depth
            &&& self.chain_inv(self.awaiting())
            &&& !is_target_spec(
                self.awaiting(),
                self.ws_root(),
                self.target_path_spec(),
                self.target_line_spec(),
            )
        })
        &&& (self.found() ==> Self::path_ok(
            self.found_path(),
            self.root_g@,
            self.responses(),
            self.ws_root(),
            self.target_path_spec(),
            self.target_line_spec(),
            self.max_depth,
            self.filtering(),
        ))
    }

    fn is_target(&self, item: &CallHierarchyItem) -> (r: bool)
        ensures
            r == is_target_spec(
                item@,
                self.ws_root(),
                self.target_path_spec(),
                self.target_line_spec(),
            ),
    {
        let p = uri_to_path(item.uri.as_str());
        let rel = relative_path(p.as_str(), self.workspace_root.as_str());
        if !str_eq(rel.as_str(), self.target_path.as_str()) {
            return false;
        }
        let l = item.selection_range.start.line;
        l < u32::MAX && l + 1 == self.target_line
    }

    /// Starts a path search at a prepared root item. The root may itself
    /// be the target; a zero depth budget finds nothing.
    pub fn new(
        root: CallHierarchyItem,
        workspace_root: String,
        target_path: String,
        target_line: u32,
        max_depth: u64,
        include_non_workspace: bool,
    ) -> (w: PathWalk)
        requires
            root.selection_range.start.line < u32::MAX,
        ensures
            w.wf(),
            w.root() == root@,
            w.filtering() == !include_non_workspace,
            w.depth_limit() == max_depth,
            w.ws_root() == workspace_root@,
            w.target_path_spec() == target_path@,
            w.target_line_spec() == target_line,
            w.responses() == Seq::<Resp>::empty(),
            max_depth == 0 ==> w.done() && !w.found(),
            max_depth > 0 && is_target_spec(root@, workspace_root@, target_path@, target_line)
                ==> w.done() && w.found() && w.found_path() == seq![root@],
            max_depth > 0 && !is_target_spec(root@, workspace_root@, target_path@, target_line)
                ==> !w.done() && w.awaiting() == root@,
    {
        let mut w = PathWalk {
            workspace_root,
            target_path,
            target_line,
            max_depth,
            include_non_workspace,
            visited: KeySet::new(),
            stack: Vec::new(),
            pending: None,
            outcome: None,
            root_g: Ghost(root@),
            responses_g: Ghost(Seq::empty()),
        };
        if max_depth == 0 {
            w.outcome = Some(None);
            return w;
        }
        let k = ItemKey::of_item(&root);
        w.visited.insert(k);
        if w.is_target(&root) {
            let ghost rv = root@;
            let mut path: Vec<CallHierarchyItem> = Vec::new();
            path.push(root);
            w.outcome = Some(Some(path));
            proof {
                assert(items_view(w.outcome->0->0@) =~= seq![rv]);
            }
            return w;
        }
        w.pending = Some(root);
        w
    }

    pub fn is_done(&self) -> (b: bool)
        ensures
            b == self.done(),
    {
        self.outcome.is_some()
    }

    /// The item whose outgoing calls the search needs next.
    pub fn current_request(&self) -> (i: CallHierarchyItem)
        requires
            self.wf(),
            !self.done(),
        ensures
            i@ == self.awaiting(),
    {
        match &self.pending {
            Some(p) => clone_item(p),
            None => vstd::pervasive::unreached(),
        }
    }

    /// Feeds the server's outgoing calls for the current request (an RPC
    /// failure is absorbed as an empty answer). The search either finds
    /// the target, asks for another item's calls, or exhausts its
    /// branches and reports that no path exists within the depth budget.
    pub fn supply_children(&mut self, children: Vec<CallHierarchyItem>)
        requires
            old(self).wf(),
            !old(self).done(),
            forall|j: int|
                0 <= j < children@.len() ==> (#[trigger] children@[j]).selection_range.start.line
                    < u32::MAX,
        ensures
            final(self).wf(),
            final(self).root() == old(self).root(),
            final(self).filtering() == old(self).filtering(),
            final(self).depth_limit() == old(self).depth_limit(),
            final(self).ws_root() == old(self).ws_root(),
            final(self).target_path_spec() == old(self).target_path_spec(),
            final(self).target_line_spec() == old(self).target_line_spec(),
            final(self).responses() == old(self).responses().push(
                Resp { key: key_of(old(self).awaiting()), children: items_view(children@) },
            ),
            final(self).done() || final(self).pending_work() <= old(self).pending_work()
                + children@.len() - 1,
    {
        let item = self.pending.take().unwrap();
        let ghost resp = Resp { key: key_of(item@), children: items_view(children@) };
        proof {
            self.responses_g@ = self.responses_g@.push(resp);
        }
        proof {
            assert forall|i: int| 0 <= i < self.stack@.len() implies pframe_reported(
                self.responses(),
                #[trigger] self.stack@[i],
            ) by {
                lemma_pframe_reported_push(old(self).responses(), resp, self.stack@[i]);
            }
            assert forall|i: int|
                1 <= i < self.stack@.len() implies edge_reported(
                self.responses(),
                key_of(self.stack@[i - 1].item@),
                (#[trigger] self.stack@[i]).item@,
            ) by {
                lemma_edge_reported_push(
                    old(self).responses(),
                    resp,
                    key_of(self.stack@[i - 1].item@),
                    self.stack@[i].item@,
                );
            }
            if self.stack@.len() > 0 {
                lemma_edge_reported_push(
                    old(self).responses(),
                    resp,
                    key_of(self.stack@.last().item@),
                    item@,
                );
            }
            assert(self.responses().last() == resp);
        }
        let frame = PathFrame { item, children, next: 0 };
        let ghost pre_push = self.stack@;
        self.stack.push(frame);
        proof {
            assert(self.stack@.drop_last() =~= pre_push);
            assert(self.stack@.last() == self.stack@[self.stack@.len() - 1]);
            assert(pstack_rem(self.stack@) == pstack_rem(pre_push) + pframe_rem(
                self.stack@.last(),
            ));
        }
        self.advance();
    }

    fn advance(&mut self)
        requires
            old(self).visited.wf(),
            old(self).pframes_ok(),
            old(self).pending is None,
            old(self).outcome is None,
            old(self).stack@.len() >= 1,
            old(self).stack@.len() <= old(self).max_depth,
            old(self).stack@[0].item@ == old(self).root_g@,
            forall|i: int, j: int|
                0 <= i < j < old(self).stack@.len() ==> key_of(old(self).stack@[i].item@)
                    != key_of(old(self).stack@[j].item@),
            forall|i: int|
                0 <= i < old(self).stack@.len() ==> old(self).visited@.contains(
                    key_of((#[trigger] old(self).stack@[i]).item@),
                ),
            forall|i: int|
                1 <= i < old(self).stack@.len() ==> edge_reported(
                    old(self).responses(),
                    key_of(old(self).stack@[i - 1].item@),
                    (#[trigger] old(self).stack@[i]).item@,
                ),
            old(self).filtering() ==> forall|i: int|
                1 <= i < old(self).stack@.len() ==> !is_stdlib_spec(
                    (#[trigger] old(self).stack@[i]).item@.uri,
                ),
            old(self).found() ==> false,
        ensures
            final(self).wf(),
            final(self).root() == old(self).root(),
            final(self).filtering() == old(self).filtering(),
            final(self).depth_limit() == old(self).depth_limit(),
            final(self).ws_root() == old(self).ws_root(),
            final(self).target_path_spec() == old(self).target_path_spec(),
            final(self).target_line_spec() == old(self).target_line_spec(),
            final(self).responses() == old(self).responses(),
            final(self).done() || pstack_rem(final(self).stack@) + 1 <= pstack_rem(
                old(self).stack@,
            ),
    {
        let ghost s0 = old(self).stack@;
        let ghost rem0 = pstack_rem(old(self).stack@);
        let mut frame = self.stack.pop().unwrap();
        proof {
            assert(frame == s0[s0.len() - 1]);
            assert(self.stack@ =~= s0.drop_last());
            assert(pstack_rem(s0) == pstack_rem(s0.drop_last()) + pframe_rem(s0.last()));
            assert forall|i: int| 0 <= i < self.stack@.len() implies {
                &&& (#[trigger] self.stack@[i]).next <= self.stack@[i].children@.len()
                &&& pframe_lines_ok(self.stack@[i])
                &&& pframe_reported(self.responses(), self.stack@[i])
            } by {
                assert(self.stack@[i] == s0[i]);
            }
            assert forall|i: int| 0 <= i < self.stack@.len() implies self.visited@.contains(
                key_of((#[trigger] self.stack@[i]).item@),
            ) by {
                assert(self.stack@[i] == s0[i]);
            }
        }
        loop
            invariant
                self.visited.wf(),
                self.pframes_ok(),
                self.pending is None,
                self.outcome is None,
                self.stack@.len() + 1 <= self.max_depth,
                frame.next <= frame.children@.len(),
                pframe_lines_ok(frame),
                pframe_reported(self.responses(), frame),
                self.chain_inv(frame.item@),
                self.max_depth == old(self).max_depth,
                self.include_non_workspace == old(self).include_non_workspace,
                self.workspace_root == old(self).workspace_root,
                self.target_path == old(self).target_path,
                self.target_line == old(self).target_line,
                self.root_g == old(self).root_g,
                self.responses() == old(self).responses(),
                pstack_rem(self.stack@) + pframe_rem(frame) <= rem0,
                rem0 == pstack_rem(old(self).stack@),
            decreases pstack_rem(self.stack@) + pframe_rem(frame), self.stack@.len(),
        {
            let ghost head_sum = pstack_rem(self.stack@) + pframe_rem(frame);
            proof {
                assert(head_sum <= rem0);
            }
            if frame.next < frame.children.len() {
                let idx = frame.next;
                frame.next = idx + 1;
                let c = clone_item(&frame.children[idx]);
                proof {
                    assert(items_view(frame.children@)[idx as int] == c@);
                }
                let keep = self.include_non_workspace || !is_stdlib_path(c.uri.as_str());
                if keep {
                    let ck = ItemKey::of_item(&c);
                    let within = (self.stack.len() as u64) + 1 < self.max_depth;
                    if within && !self.visited.contains(&ck) {
                        self.visited.insert(ck);
                        proof {
                            assert(edge_reported(self.responses(), key_of(frame.item@), c@));
                        }
                        if self.is_target(&c) {
                            let ghost cv = c@;
                            let mut path: Vec<CallHierarchyItem> = Vec::new();
                            let n: usize = self.stack.len();
                            let mut i: usize = 0;
                            while i < n
                                invariant
                                    i <= n,
                                    n == self.stack@.len(),
                                    path@.len() == i,
                                    forall|j: int|
                                        0 <= j < i ==> (#[trigger] path@[j])@
                                            == self.stack@[j].item@,
                                decreases n - i,
                            {
                                path.push(clone_item(&self.stack[i].item));
                                i += 1;
                            }
                            path.push(clone_item(&frame.item));
                            path.push(c);
                            let ghost pv = items_view(path@);
                            proof {
                                assert(pv.len() == self.stack@.len() + 2);
                                assert(forall|j: int|
                                    0 <= j < self.stack@.len() ==> pv[j]
                                        == self.stack@[j].item@);
                                assert(pv[self.stack@.len() as int] == frame.item@);
                                assert(pv.last() == cv);
                            }
                            self.stack.push(frame);
                            self.outcome = Some(Some(path));
                            proof {
                                assert(self.found_path() == pv);
                            }
                            return;
                        } else {
                            let ghost pre_stack = self.stack@;
                            self.stack.push(frame);
                            self.pending = Some(c);
                            proof {
                                assert(self.stack@.drop_last() =~= pre_stack);
                                assert(pstack_rem(self.stack@) == pstack_rem(pre_stack)
                                    + pframe_rem(self.stack@.last()));
                                assert(self.stack@.last().next == idx + 1);
                                assert(pstack_rem(self.stack@) + 1 <= rem0);
                            }
                            return;
                        }
                    }
                }
            } else {
                let k = ItemKey::of_item(&frame.item);
                self.visited.remove(&k);
                let ghost s1 = self.stack@;
                match self.stack.pop() {
                    Some(parent) => {
                        proof {
                            assert(parent == s1[s1.len() - 1]);
                            assert(self.stack@ =~= s1.drop_last());
                            assert(pstack_rem(s1) == pstack_rem(s1.drop_last()) + pframe_rem(
                                s1.last(),
                            ));
                            assert forall|i: int|
                                0 <= i < self.stack@.len() implies self.visited@.contains(
                                key_of((#[trigger] self.stack@[i]).item@),
                            ) by {
                                assert(self.stack@[i] == s1[i]);
                                assert(key_of(s1[i].item@) != key_of(frame.item@));
                            }
                        }
                        frame = parent;
                    },
                    None => {
                        self.outcome = Some(None);
                        return;
                    },
                }
            }
        }
    }

    /// The search's answer: the chain of items from the root to the
    /// target, or nothing if no chain exists within the depth budget.
    /// A found chain is rooted, ends at the target, is duplicate-free
    /// under the dedup key, follows only server-reported edges, and
    /// respects the workspace filter.
    pub fn take_result(self) -> (r: Option<Vec<CallHierarchyItem>>)
        requires
            self.wf(),
            self.done(),
        ensures
            r is Some <==> self.found(),
            r is Some ==> items_view(r->0@) == self.found_path() && Self::path_ok(
                items_view(r->0@),
                self.root(),
                self.responses(),
                self.ws_root(),
                self.target_path_spec(),
                self.target_line_spec(),
                self.depth_limit(),
                self.filtering(),
            ),
    {
        match self.outcome {
            Some(r) => r,
            None => vstd::pervasive::unreached(),
        }
    }

    /// The law a found path obeys: every adjacent pair follows an edge
    /// the server reported, and all items are distinct under the dedup
    /// key.
    pub proof fn lemma_found_path_valid(&self)
        requires
            self.wf(),
            self.found(),
        ensures
            forall|i: int|
                0 <= i < self.found_path().len() - 1 ==> edge_reported(
                    self.responses(),
                    key_of(self.found_path()[i]),
                    self.found_path()[i + 1],
                ),
            forall|i: int, j: int|
                0 <= i < j < self.found_path().len() ==> key_of(self.found_path()[i]) != key_of(
                    self.found_path()[j],
                ),
    {
    }
}

} // verus!
