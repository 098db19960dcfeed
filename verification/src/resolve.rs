//! Lookup resolver: turn an id, name, or path into a single id.
//!
//! A query value may be an id (full UUID or its first block; detected when
//! the value is all hex digits and dashes with at least 8 hex digits, and a
//! miss is then an error with no name fallback), a name (case-insensitive
//! whole-segment match against the last component of a node's path), or a
//! `/`-separated path (matching when the query segments are a suffix of the
//! node's path). Name and path matching run in tiers: exact whole-segment
//! matches first; only when there are none, the last query segment may match
//! as a prefix of the corresponding node segment. Ambiguity and misses are
//! usage errors with a table of candidates.
use vstd::prelude::*;
use crate::error::CliError;
use crate::textops::{
    eq_ignore_ascii_case, eq_ignore_case, find_char, has_prefix, head_before, head_before_char, join,
    join_seqs, lemma_first_index_of, lower_seq, starts_with, to_lower, to_owned, trim, trim_seq,
    views, first_index_of, trim_end, trim_end_seq, push_char, push_decimal, decimal, debug_str,
    debug_quoted,
};

verus! {

/// The level of an org-tree node.
#[derive(Debug, Clone, Copy, PartialEq, Eq, Structural)]
pub enum NodeKind {
    Department,
    SubDepartment,
    Position,
    Category,
}

/// The label of a node kind as shown in tables.
pub open spec fn kind_label(k: NodeKind) -> Seq<char> {
    match k {
        NodeKind::Department => "department"@,
        NodeKind::SubDepartment => "sub_department"@,
        NodeKind::Position => "position"@,
        NodeKind::Category => "category"@,
    }
}

impl NodeKind {
    /// The label of this kind.
    pub fn label(self) -> (r: &'static str)
        ensures
            r@ == kind_label(self),
    {
        match self {
            NodeKind::Department => "department",
            NodeKind::SubDepartment => "sub_department",
            NodeKind::Position => "position",
            NodeKind::Category => "category",
        }
    }
}

/// A node of the org tree (or of the flat category list) that a query can name.
#[derive(Debug)]
pub struct TreeNode {
    pub id: String,
    pub path: Vec<String>,
    pub kind: NodeKind,
}

/// The mathematical value of a tree node.
pub struct NodeView {
    pub id: Seq<char>,
    pub path: Seq<Seq<char>>,
    pub kind: NodeKind,
}

impl View for TreeNode {
    type V = NodeView;

    open spec fn view(&self) -> NodeView {
        NodeView { id: self.id@, path: views(self.path@), kind: self.kind }
    }
}

/// The views of a sequence of nodes.
pub open spec fn node_views(s: Seq<TreeNode>) -> Seq<NodeView> {
    s.map_values(|n: TreeNode| n@)
}

/// A path shown as its segments joined by ` / `.
pub open spec fn display_path_spec(path: Seq<Seq<char>>) -> Seq<char> {
    join_seqs(path, " / "@)
}

/// The first dash-separated block of an id.
pub open spec fn short_id_spec(id: Seq<char>) -> Seq<char> {
    head_before(id, '-')
}

impl TreeNode {
    /// The path joined with ` / `.
    pub fn display_path(&self) -> (r: String)
        ensures
            r@ == display_path_spec(self@.path),
    {
        join(&self.path, " / ")
    }

    /// The first dash-separated block of the id.
    fn short_id(&self) -> (r: &str)
        ensures
            r@ == short_id_spec(self@.id),
    {
        head_before_char(self.id.as_str(), '-')
    }
}

// ---------------------------------------------------------------------------
// Query classification
// ---------------------------------------------------------------------------

/// An ASCII hexadecimal digit.
pub open spec fn is_hex(c: char) -> bool {
    ('0' <= c && c <= '9') || ('a' <= c && c <= 'f') || ('A' <= c && c <= 'F')
}

/// The number of hex digits in `s`.
pub open spec fn hex_count(s: Seq<char>) -> nat
    decreases s.len(),
{
    if s.len() == 0 {
        0
    } else {
        hex_count(s.drop_last()) + if is_hex(s.last()) { 1nat } else { 0nat }
    }
}

/// Looks like a UUID or a short id: only hex digits and dashes, at least 8 hex digits.
pub open spec fn looks_like_id_spec(s: Seq<char>) -> bool {
    hex_count(s) >= 8 && forall|i: int| 0 <= i < s.len() ==> is_hex(#[trigger] s[i]) || s[i] == '-'
}

/// A node id answers a requested id, in full or by its first block, ignoring ASCII case.
pub open spec fn id_matches_spec(full: Seq<char>, requested: Seq<char>) -> bool {
    eq_ignore_case(full, requested) || eq_ignore_case(short_id_spec(full), requested)
}

fn is_hex_char(c: char) -> (r: bool)
    ensures
        r == is_hex(c),
{
    ('0' <= c && c <= '9') || ('a' <= c && c <= 'f') || ('A' <= c && c <= 'F')
}

pub fn looks_like_id(s: &str) -> (r: bool)
    ensures
        r == looks_like_id_spec(s@),
{
    let n = s.unicode_len();
    let mut count: usize = 0;
    let mut all_ok = true;
    let mut i: usize = 0;
    while i < n
        invariant
            n == s@.len(),
            i <= n,
            count == hex_count(s@.subrange(0, i as int)),
            count <= i,
            all_ok == forall|j: int| 0 <= j < i ==> is_hex(#[trigger] s@[j]) || s@[j] == '-',
        decreases n - i,
    {
        let c = s.get_char(i);
        let h = is_hex_char(c);
        if h {
            count = count + 1;
        }
        if !h && c != '-' {
            all_ok = false;
        }
        i = i + 1;
        proof {
            assert(s@.subrange(0, i as int).drop_last() =~= s@.subrange(0, i - 1));
        }
    }
    proof {
        assert(s@.subrange(0, n as int) =~= s@);
    }
    count >= 8 && all_ok
}

fn id_matches(full: &str, requested: &str) -> (r: bool)
    ensures
        r == id_matches_spec(full@, requested@),
{
    let short = head_before_char(full, '-');
    eq_ignore_ascii_case(full, requested) || eq_ignore_ascii_case(short, requested)
}

// ---------------------------------------------------------------------------
// Query splitting and path matching
// ---------------------------------------------------------------------------

/// `s.split(sep)`: the pieces between separators, including empty ones.
pub open spec fn split_on(s: Seq<char>, sep: char) -> Seq<Seq<char>>
    decreases s.len(),
{
    match first_index_of(s, sep) {
        Some(i) => {
            if 0 <= i < s.len() {
                seq![s.subrange(0, i)] + split_on(s.subrange(i + 1, s.len() as int), sep)
            } else {
                seq![s]
            }
        },
        None => seq![s],
    }
}

/// Each piece trimmed, empty pieces dropped.
pub open spec fn clean_segments(parts: Seq<Seq<char>>) -> Seq<Seq<char>>
    decreases parts.len(),
{
    if parts.len() == 0 {
        Seq::empty()
    } else {
        let t = trim_seq(parts[0]);
        let rest = clean_segments(parts.drop_first());
        if t.len() == 0 {
            rest
        } else {
            seq![t] + rest
        }
    }
}

/// The segments of a query: split on `/`, trimmed, empty ones dropped.
pub open spec fn split_query_spec(q: Seq<char>) -> Seq<Seq<char>> {
    clean_segments(split_on(q, '/'))
}

fn push_clean(out: &mut Vec<String>, piece: &str)
    ensures
        views(final(out)@) == views(old(out)@) + clean_segments(seq![piece@]),
{
    let t = trim(piece);
    proof {
        assert(seq![piece@].drop_first() =~= Seq::<Seq<char>>::empty());
        assert(clean_segments(Seq::<Seq<char>>::empty()) =~= Seq::<Seq<char>>::empty());
    }
    if t.unicode_len() > 0 {
        out.push(to_owned(t));
        proof {
            assert(views(out@) =~= views(old(out)@) + seq![t@]);
        }
    } else {
        proof {
            assert(views(out@) =~= views(old(out)@) + Seq::<Seq<char>>::empty());
        }
    }
}

proof fn lemma_clean_segments_concat(a: Seq<Seq<char>>, b: Seq<Seq<char>>)
    ensures
        clean_segments(a + b) == clean_segments(a) + clean_segments(b),
    decreases a.len(),
{
    if a.len() == 0 {
        assert(a + b =~= b);
    } else {
        assert((a + b).drop_first() =~= a.drop_first() + b);
        lemma_clean_segments_concat(a.drop_first(), b);
        assert((a + b)[0] == a[0]);
    }
}

fn split_query(query: &str) -> (r: Vec<String>)
    ensures
        views(r@) == split_query_spec(query@),
{
    let mut out: Vec<String> = Vec::new();
    let mut rest: &str = query;
    loop
        invariant
            views(out@) + clean_segments(split_on(rest@, '/')) == split_query_spec(query@),
        decreases rest@.len(),
    {
        let ghost before = out@;
        match find_char(rest, '/') {
            Some(i) => {
                proof {
                    lemma_first_index_of(rest@, '/');
                }
                let n = rest.unicode_len();
                let head = rest.substring_char(0, i);
                let tail = rest.substring_char(i + 1, n);
                proof {
                    assert(split_on(rest@, '/') == seq![head@] + split_on(tail@, '/'));
                    lemma_clean_segments_concat(seq![head@], split_on(tail@, '/'));
                }
                push_clean(&mut out, head);
                proof {
                    assert(views(out@) + clean_segments(split_on(tail@, '/')) =~= views(before)
                        + clean_segments(split_on(rest@, '/')));
                }
                rest = tail;
            },
            None => {
                proof {
                    assert(split_on(rest@, '/') == seq![rest@]);
                }
                push_clean(&mut out, rest);
                return out;
            },
        }
    }
}

/// The query segments equal, ignoring ASCII case, the last segments of the path.
pub open spec fn suffix_matches(path: Seq<Seq<char>>, q: Seq<Seq<char>>) -> bool {
    &&& 0 < q.len() <= path.len()
    &&& forall|j: int|
        0 <= j < q.len() ==> eq_ignore_case(#[trigger] path[path.len() - q.len() + j], q[j])
}

/// Like `suffix_matches`, but the last query segment need only be a prefix
/// (ignoring ASCII case) of the corresponding path segment.
pub open spec fn suffix_matches_last_prefix(path: Seq<Seq<char>>, q: Seq<Seq<char>>) -> bool {
    &&& 0 < q.len() <= path.len()
    &&& forall|j: int|
        0 <= j < q.len() - 1 ==> eq_ignore_case(#[trigger] path[path.len() - q.len() + j], q[j])
    &&& has_prefix(lower_seq(path.last()), lower_seq(q.last()))
}

fn path_suffix_matches(node_path: &Vec<String>, query: &Vec<String>) -> (r: bool)
    ensures
        r == suffix_matches(views(node_path@), views(query@)),
{
    let ql = query.len();
    let pl = node_path.len();
    if ql == 0 || ql > pl {
        return false;
    }
    let start = pl - ql;
    let mut j: usize = 0;
    while j < ql
        invariant
            ql == query@.len(),
            pl == node_path@.len(),
            0 < ql <= pl,
            start == pl - ql,
            j <= ql,
            forall|k: int|
                0 <= k < j ==> eq_ignore_case(
                    #[trigger] views(node_path@)[pl - ql + k],
                    views(query@)[k],
                ),
        decreases ql - j,
    {
        if !eq_ignore_ascii_case(node_path[start + j].as_str(), query[j].as_str()) {
            proof {
                assert(views(node_path@)[pl - ql + j] == node_path@[start + j]@);
                assert(views(query@)[j as int] == query@[j as int]@);
            }
            return false;
        }
        j = j + 1;
    }
    true
}

fn path_suffix_matches_with_last_prefix(node_path: &Vec<String>, query: &Vec<String>) -> (r: bool)
    ensures
        r == suffix_matches_last_prefix(views(node_path@), views(query@)),
{
    let ql = query.len();
    let pl = node_path.len();
    if ql == 0 || ql > pl {
        return false;
    }
    let start = pl - ql;
    let mut j: usize = 0;
    while j + 1 < ql
        invariant
            ql == query@.len(),
            pl == node_path@.len(),
            0 < ql <= pl,
            start == pl - ql,
            j < ql,
            forall|k: int|
                0 <= k < j ==> eq_ignore_case(
                    #[trigger] views(node_path@)[pl - ql + k],
                    views(query@)[k],
                ),
        decreases ql - j,
    {
        if !eq_ignore_ascii_case(node_path[start + j].as_str(), query[j].as_str()) {
            proof {
                assert(views(node_path@)[pl - ql + j] == node_path@[start + j]@);
                assert(views(query@)[j as int] == query@[j as int]@);
            }
            return false;
        }
        j = j + 1;
    }
    let last_n = to_lower(node_path[pl - 1].as_str());
    let last_q = to_lower(query[ql - 1].as_str());
    starts_with(last_n.as_str(), last_q.as_str())
}


// ---------------------------------------------------------------------------
// Messages
// ---------------------------------------------------------------------------

/// `n` spaces.
pub open spec fn spaces(n: nat) -> Seq<char> {
    Seq::new(n, |i: int| ' ')
}

/// `s` left-aligned in a field at least `w` characters wide (`{:w}`).
pub open spec fn pad_to(s: Seq<char>, w: nat) -> Seq<char> {
    if s.len() >= w {
        s
    } else {
        s + spaces((w - s.len()) as nat)
    }
}

/// One table line describing a node.
pub open spec fn node_line(n: NodeView) -> Seq<char> {
    "  "@ + pad_to(short_id_spec(n.id), 8) + "  "@ + pad_to(kind_label(n.kind), 14) + "  "@
        + display_path_spec(n.path) + "\n"@
}

/// The table lines for a sequence of nodes.
pub open spec fn node_lines(ns: Seq<NodeView>) -> Seq<char>
    decreases ns.len(),
{
    if ns.len() == 0 {
        Seq::empty()
    } else {
        node_lines(ns.drop_last()) + node_line(ns.last())
    }
}

/// The error for a query that matches several nodes.
pub open spec fn ambiguous_message(q: Seq<char>, ns: Seq<NodeView>) -> Seq<char> {
    trim_end_seq(
        debug_str(q) + " matches "@ + decimal(ns.len()) + " nodes \u{2014} disambiguate with id or full path:\n"@
            + node_lines(ns),
    )
}

/// The error for an id-like query that names no node.
pub open spec fn id_miss_message(q: Seq<char>) -> Seq<char> {
    "no node with id "@ + debug_str(q) + " (treated as id because it looks like a UUID)"@
}

fn push_padded(out: &mut String, s: &str, w: usize)
    ensures
        final(out)@ == old(out)@ + pad_to(s@, w as nat),
{
    out.append(s);
    let n = s.unicode_len();
    let mut k: usize = n;
    while k < w
        invariant
            n == s@.len(),
            n <= k,
            k <= w || k == n,
            out@ == old(out)@ + s@ + spaces((k - n) as nat),
        decreases w - k,
    {
        push_char(out, ' ');
        k = k + 1;
        proof {
            assert(spaces((k - n) as nat) =~= spaces((k - 1 - n) as nat).push(' '));
        }
    }
    proof {
        if n >= w {
            assert(spaces(0) =~= Seq::<char>::empty());
            assert(out@ =~= old(out)@ + s@);
        } else {
            assert(out@ =~= old(out)@ + (s@ + spaces((w - n) as nat)));
        }
    }
}

fn push_node_line(out: &mut String, n: &TreeNode)
    ensures
        final(out)@ == old(out)@ + node_line(n@),
{
    out.append("  ");
    push_padded(out, n.short_id(), 8);
    out.append("  ");
    push_padded(out, n.kind.label(), 14);
    out.append("  ");
    let p = n.display_path();
    out.append(p.as_str());
    out.append("\n");
    proof {
        assert(out@ =~= old(out)@ + node_line(n@));
    }
}

/// The views of the nodes at the given indices.
pub open spec fn at_indices(tree: Seq<NodeView>, idx: Seq<usize>) -> Seq<NodeView> {
    idx.map_values(|i: usize| tree[i as int])
}

fn push_node_lines(out: &mut String, tree: &[TreeNode], idx: &Vec<usize>)
    requires
        forall|k: int| 0 <= k < idx@.len() ==> #[trigger] idx@[k] < tree@.len(),
    ensures
        final(out)@ == old(out)@ + node_lines(at_indices(node_views(tree@), idx@)),
{
    let n = idx.len();
    let mut k: usize = 0;
    while k < n
        invariant
            n == idx@.len(),
            k <= n,
            forall|j: int| 0 <= j < idx@.len() ==> #[trigger] idx@[j] < tree@.len(),
            out@ == old(out)@ + node_lines(at_indices(node_views(tree@), idx@.subrange(0, k as int))),
        decreases n - k,
    {
        push_node_line(out, &tree[idx[k]]);
        k = k + 1;
        proof {
            let a = at_indices(node_views(tree@), idx@.subrange(0, k as int));
            assert(a.drop_last() =~= at_indices(node_views(tree@), idx@.subrange(0, k - 1)));
            assert(a.last() == tree@[idx@[k - 1] as int]@);
        }
    }
    proof {
        assert(idx@.subrange(0, n as int) =~= idx@);
    }
}

fn render_ambiguous(query: &str, tree: &[TreeNode], idx: &Vec<usize>) -> (r: String)
    requires
        forall|k: int| 0 <= k < idx@.len() ==> #[trigger] idx@[k] < tree@.len(),
    ensures
        r@ == ambiguous_message(query@, at_indices(node_views(tree@), idx@)),
{
    let mut s = debug_quoted(query);
    s.append(" matches ");
    push_decimal(&mut s, idx.len() as u64);
    s.append(" nodes \u{2014} disambiguate with id or full path:\n");
    push_node_lines(&mut s, tree, idx);
    let t = trim_end(s.as_str());
    to_owned(t)
}

// ---------------------------------------------------------------------------
// Suggestions for misses
// ---------------------------------------------------------------------------

/// The similarity score of two strings, as the IEEE-754 bit pattern of the
/// Jaro-Winkler similarity that `strsim::jaro_winkler` computes.
pub uninterp spec fn jaro_winkler_bits(a: Seq<char>, b: Seq<char>) -> u64;

/// Jaro-Winkler similarity of `a` and `b`, as the bit pattern of the `f64`.
///
/// Trusted: calls `strsim::jaro_winkler` and converts its result with
/// `f64::to_bits`. The contract only names the result. The similarity lies in
/// `[0, 1]` by the crate's source, and for non-negative floats the order of
/// bit patterns is the numeric order, which is how the library compares and
/// thresholds scores.
#[verifier::external_body]
fn jaro_winkler_score(a: &str, b: &str) -> (r: u64)
    ensures
        r == jaro_winkler_bits(a@, b@),
{
    strsim::jaro_winkler(a, b).to_bits()
}

/// The bit pattern of the similarity 0.7, the least score worth suggesting.
pub const SUGGEST_THRESHOLD: u64 = 0x3FE6_6666_6666_6666u64;

/// The last path segment, or nothing for an empty path.
pub open spec fn last_or_empty(path: Seq<Seq<char>>) -> Seq<char> {
    if path.len() == 0 {
        Seq::empty()
    } else {
        path.last()
    }
}

/// The larger of two scores.
pub open spec fn max_u64(a: u64, b: u64) -> u64 {
    if a >= b {
        a
    } else {
        b
    }
}

/// A node's score against a lower-cased query: the better of the scores
/// against its lower-cased full path and its lower-cased last segment.
pub open spec fn node_score(ql: Seq<char>, n: NodeView) -> u64 {
    max_u64(
        jaro_winkler_bits(ql, lower_seq(display_path_spec(n.path))),
        jaro_winkler_bits(ql, lower_seq(last_or_empty(n.path))),
    )
}

/// The scores of all nodes against a query.
pub open spec fn scores_spec(q: Seq<char>, tree: Seq<NodeView>) -> Seq<u64> {
    Seq::new(tree.len(), |i: int| node_score(lower_seq(q), tree[i]))
}

/// The (score, index) pairs whose score reaches the threshold, in index order.
pub open spec fn candidates(scores: Seq<u64>) -> Seq<(u64, int)> {
    candidates_upto(scores, scores.len() as int)
}

/// The pairs among the first `i` scores that reach the threshold, in index order.
pub open spec fn candidates_upto(scores: Seq<u64>, i: int) -> Seq<(u64, int)>
    decreases i,
{
    if i <= 0 {
        Seq::empty()
    } else {
        let prev = candidates_upto(scores, i - 1);
        if scores[i - 1] >= SUGGEST_THRESHOLD {
            prev.push((scores[i - 1], i - 1))
        } else {
            prev
        }
    }
}

/// Insert `x` before the first element with a strictly smaller score.
pub open spec fn insert_desc(x: (u64, int), s: Seq<(u64, int)>) -> Seq<(u64, int)>
    decreases s.len(),
{
    if s.len() == 0 {
        seq![x]
    } else if x.0 > s[0].0 {
        seq![x] + s
    } else {
        seq![s[0]] + insert_desc(x, s.drop_first())
    }
}

/// Stable sort by descending score (ties keep their order).
pub open spec fn sort_desc(s: Seq<(u64, int)>) -> Seq<(u64, int)>
    decreases s.len(),
{
    if s.len() == 0 {
        s
    } else {
        insert_desc(s.last(), sort_desc(s.drop_last()))
    }
}

/// Keep the first pair for each node id, dropping ids already in `seen`.
pub open spec fn dedup_ids(s: Seq<(u64, int)>, ids: Seq<Seq<char>>, seen: Set<Seq<char>>) -> Seq<
    (u64, int),
>
    decreases s.len(),
{
    if s.len() == 0 {
        s
    } else {
        let id = ids[s[0].1];
        if seen.contains(id) {
            dedup_ids(s.drop_first(), ids, seen)
        } else {
            seq![s[0]] + dedup_ids(s.drop_first(), ids, seen.insert(id))
        }
    }
}

/// At most the first three elements.
pub open spec fn first_three<A>(s: Seq<A>) -> Seq<A> {
    if s.len() <= 3 {
        s
    } else {
        s.take(3)
    }
}

/// The ids of the nodes.
pub open spec fn ids_of(tree: Seq<NodeView>) -> Seq<Seq<char>> {
    tree.map_values(|n: NodeView| n.id)
}

/// The indices of the nodes to suggest: best scores first, at least the
/// threshold, one per id, at most three.
pub open spec fn suggestion_indices(ids: Seq<Seq<char>>, scores: Seq<u64>) -> Seq<int> {
    first_three(dedup_ids(sort_desc(candidates(scores)), ids, Set::empty())).map_values(
        |p: (u64, int)| p.1,
    )
}

/// The error for a query that matches nothing.
pub open spec fn no_match_message(q: Seq<char>, tree: Seq<NodeView>) -> Seq<char> {
    let idx = suggestion_indices(ids_of(tree), scores_spec(q, tree));
    if idx.len() == 0 {
        "no match for "@ + debug_str(q)
    } else {
        trim_end_seq(
            "no match for "@ + debug_str(q) + ". Did you mean:\n"@ + node_lines(
                idx.map_values(|i: int| tree[i]),
            ),
        )
    }
}

/// The exec pairs as spec pairs.
pub open spec fn pairs(v: Seq<(u64, usize)>) -> Seq<(u64, int)> {
    v.map_values(|p: (u64, usize)| (p.0, p.1 as int))
}

proof fn lemma_insert_desc_at(x: (u64, int), s: Seq<(u64, int)>, p: int)
    requires
        0 <= p <= s.len(),
        forall|j: int| 0 <= j < p ==> (#[trigger] s[j]).0 >= x.0,
        p == s.len() || s[p].0 < x.0,
    ensures
        insert_desc(x, s) == s.insert(p, x),
    decreases p,
{
    if s.len() == 0 {
        assert(s.insert(p, x) =~= seq![x]);
    } else if p == 0 {
        assert(s.insert(p, x) =~= seq![x] + s);
    } else {
        let t = s.drop_first();
        assert forall|j: int| 0 <= j < p - 1 implies (#[trigger] t[j]).0 >= x.0 by {
            assert(t[j] == s[j + 1]);
        }
        lemma_insert_desc_at(x, t, p - 1);
        assert(s.insert(p, x) =~= seq![s[0]] + t.insert(p - 1, x));
    }
}

fn insert_sorted(v: &mut Vec<(u64, usize)>, x: (u64, usize)) -> (p: usize)
    ensures
        pairs(final(v)@) == insert_desc((x.0, x.1 as int), pairs(old(v)@)),
        p <= old(v)@.len(),
        final(v)@ == old(v)@.insert(p as int, x),
{
    let n = v.len();
    let mut p: usize = 0;
    while p < n && v[p].0 >= x.0
        invariant
            n == v@.len(),
            p <= n,
            forall|j: int| 0 <= j < p ==> (#[trigger] v@[j]).0 >= x.0,
        decreases n - p,
    {
        p = p + 1;
    }
    let ghost old_v = v@;
    v.insert(p, x);
    proof {
        let xs = (x.0, x.1 as int);
        assert forall|j: int| 0 <= j < p implies (#[trigger] pairs(old_v)[j]).0 >= xs.0 by {}
        lemma_insert_desc_at(xs, pairs(old_v), p as int);
        assert(pairs(v@) =~= pairs(old_v).insert(p as int, xs));
        assert(v@ == old_v.insert(p as int, x));
    }
    p
}

/// Ranks the nodes to suggest for a query that matched nothing, given each
/// node's similarity score: the indices of at most three nodes, best score
/// first (ties in tree order), each score at least the threshold, and each id
/// only once.
pub fn rank_suggestions(tree: &[TreeNode], scores: &Vec<u64>) -> (r: Vec<usize>)
    requires
        scores@.len() == tree@.len(),
    ensures
        r@.map_values(|i: usize| i as int) == suggestion_indices(ids_of(node_views(tree@)), scores@),
        forall|k: int| 0 <= k < r@.len() ==> #[trigger] r@[k] < tree@.len(),
{
    let n = scores.len();
    let ghost ids = ids_of(node_views(tree@));
    // (score, index) pairs at or above the threshold, in index order.
    let mut cands: Vec<(u64, usize)> = Vec::new();
    let mut i: usize = 0;
    while i < n
        invariant
            n == scores@.len(),
            n == tree@.len(),
            i <= n,
            pairs(cands@) == candidates_upto(scores@, i as int),
            forall|k: int| 0 <= k < cands@.len() ==> (#[trigger] cands@[k]).1 < n,
        decreases n - i,
    {
        let ghost before = cands@;
        if scores[i] >= SUGGEST_THRESHOLD {
            cands.push((scores[i], i));
        }
        i = i + 1;
        proof {
            if scores@[i - 1] >= SUGGEST_THRESHOLD {
                assert(pairs(cands@) =~= pairs(before).push((scores@[i - 1], (i - 1) as int)));
            } else {
                assert(pairs(cands@) =~= pairs(before));
            }
        }
    }
    // Stable insertion sort, best score first.
    let m = cands.len();
    let mut sorted: Vec<(u64, usize)> = Vec::new();
    let mut j: usize = 0;
    while j < m
        invariant
            m == cands@.len(),
            j <= m,
            pairs(sorted@) == sort_desc(pairs(cands@).subrange(0, j as int)),
            forall|k: int| 0 <= k < cands@.len() ==> (#[trigger] cands@[k]).1 < n,
            forall|k: int| 0 <= k < sorted@.len() ==> (#[trigger] sorted@[k]).1 < n,
        decreases m - j,
    {
        let ghost before = sorted@;
        let p = insert_sorted(&mut sorted, cands[j]);
        j = j + 1;
        proof {
            let pre = pairs(cands@).subrange(0, j as int);
            assert(pre.drop_last() =~= pairs(cands@).subrange(0, j - 1));
            assert(pre.last() == (cands@[j - 1].0, cands@[j - 1].1 as int));
            assert forall|k: int| 0 <= k < sorted@.len() implies (#[trigger] sorted@[k]).1 < n by {
                if k < p {
                    assert(sorted@[k] == before[k]);
                } else if k > p {
                    assert(sorted@[k] == before[k - 1]);
                }
            }
        }
    }
    proof {
        assert(pairs(cands@).subrange(0, m as int) =~= pairs(cands@));
    }
    // One entry per id, first (best) occurrence kept.
    let s = sorted.len();
    let mut out: Vec<(u64, usize)> = Vec::new();
    let ghost mut seen: Set<Seq<char>> = Set::empty();
    let mut k: usize = 0;
    proof {
        assert(pairs(sorted@).subrange(0, s as int) =~= pairs(sorted@));
        assert(pairs(out@) =~= Seq::<(u64, int)>::empty());
        assert(pairs(out@) + pairs(sorted@) =~= pairs(sorted@));
    }
    while k < s
        invariant
            s == sorted@.len(),
            k <= s,
            n == tree@.len(),
            ids == ids_of(node_views(tree@)),
            forall|q: int| 0 <= q < sorted@.len() ==> (#[trigger] sorted@[q]).1 < n,
            forall|q: int| 0 <= q < out@.len() ==> (#[trigger] out@[q]).1 < n,
            forall|id: Seq<char>|
                seen.contains(id) <==> exists|q: int|
                    0 <= q < out@.len() && #[trigger] ids[out@[q].1 as int] == id,
            pairs(out@) + dedup_ids(pairs(sorted@).subrange(k as int, s as int), ids, seen)
                == dedup_ids(pairs(sorted@), ids, Set::empty()),
        decreases s - k,
    {
        let x = sorted[k];
        assert(x.1 < n);
        let mut dup = false;
        let mut q: usize = 0;
        while q < out.len()
            invariant
                n == tree@.len(),
                x.1 < n,
                q <= out@.len(),
                forall|t: int| 0 <= t < out@.len() ==> (#[trigger] out@[t]).1 < n,
                dup == exists|t: int|
                    0 <= t < q && #[trigger] ids[out@[t].1 as int] == ids[x.1 as int],
                ids == ids_of(node_views(tree@)),
            decreases out@.len() - q,
        {
            proof {
                assert(ids[out@[q as int].1 as int] == tree@[out@[q as int].1 as int].id@);
                assert(ids[x.1 as int] == tree@[x.1 as int].id@);
            }
            if tree[out[q].1].id == tree[x.1].id {
                dup = true;
            }
            q = q + 1;
        }
        let ghost rest = pairs(sorted@).subrange(k as int, s as int);
        proof {
            assert(rest[0] == (x.0, x.1 as int));
            assert(rest.drop_first() =~= pairs(sorted@).subrange(k + 1, s as int));
            assert(seen.contains(ids[x.1 as int]) == dup);
        }
        if !dup {
            let ghost before = out@;
            out.push(x);
            proof {
                let old_seen = seen;
                let xid = ids[x.1 as int];
                seen = seen.insert(xid);
                assert(pairs(out@) =~= pairs(before) + seq![rest[0]]);
                assert(out@[before.len() as int] == x);
                assert forall|id: Seq<char>| seen.contains(id) implies exists|t: int|
                    0 <= t < out@.len() && #[trigger] ids[out@[t].1 as int] == id by {
                    if id == xid {
                        assert(ids[out@[before.len() as int].1 as int] == id);
                    } else {
                        assert(old_seen.contains(id));
                        let t = choose|t: int|
                            0 <= t < before.len() && #[trigger] ids[before[t].1 as int] == id;
                        assert(out@[t] == before[t]);
                        assert(ids[out@[t].1 as int] == id);
                    }
                }
                assert forall|id: Seq<char>|
                    (exists|t: int| 0 <= t < out@.len() && #[trigger] ids[out@[t].1 as int] == id)
                    implies seen.contains(id) by {
                    let t = choose|t: int|
                        0 <= t < out@.len() && #[trigger] ids[out@[t].1 as int] == id;
                    if t < before.len() {
                        assert(out@[t] == before[t]);
                        assert(ids[before[t].1 as int] == id);
                        assert(old_seen.contains(id));
                    }
                }
            }
        }
        k = k + 1;
    }
    proof {
        assert(pairs(sorted@).subrange(s as int, s as int) =~= Seq::<(u64, int)>::empty());
        assert(pairs(out@) =~= dedup_ids(pairs(sorted@), ids, Set::empty()));
    }
    // At most three, as indices.
    let mut r: Vec<usize> = Vec::new();
    let lim: usize = if out.len() < 3 { out.len() } else { 3 };
    let mut t: usize = 0;
    while t < lim
        invariant
            lim <= out@.len(),
            lim == if out@.len() < 3 { out@.len() } else { 3 },
            t <= lim,
            r@.len() == t,
            forall|q: int| 0 <= q < t ==> #[trigger] r@[q] == out@[q].1,
            forall|q: int| 0 <= q < out@.len() ==> (#[trigger] out@[q]).1 < n,
            forall|q: int| 0 <= q < r@.len() ==> (#[trigger] r@[q]) < n,
            n == tree@.len(),
        decreases lim - t,
    {
        r.push(out[t].1);
        t = t + 1;
    }
    proof {
        assert(first_three(pairs(out@)) =~= pairs(out@).subrange(0, lim as int));
        assert(r@.map_values(|i: usize| i as int) =~= pairs(out@).subrange(0, lim as int).map_values(
            |p: (u64, int)| p.1,
        ));
    }
    r
}

fn render_no_match(query: &str, tree: &[TreeNode]) -> (r: String)
    ensures
        r@ == no_match_message(query@, node_views(tree@)),
{
    let ql = to_lower(query);
    let n = tree.len();
    let mut scores: Vec<u64> = Vec::new();
    let mut i: usize = 0;
    while i < n
        invariant
            n == tree@.len(),
            i <= n,
            ql@ == lower_seq(query@),
            scores@ == scores_spec(query@, node_views(tree@)).subrange(0, i as int),
        decreases n - i,
    {
        let node = &tree[i];
        let path_lc = to_lower(node.display_path().as_str());
        let np = node.path.len();
        let last_lc = if np == 0 {
            String::new()
        } else {
            to_lower(node.path[np - 1].as_str())
        };
        let s1 = jaro_winkler_score(ql.as_str(), path_lc.as_str());
        let s2 = jaro_winkler_score(ql.as_str(), last_lc.as_str());
        let best = if s1 >= s2 {
            s1
        } else {
            s2
        };
        proof {
            assert(last_lc@ == lower_seq(last_or_empty(node@.path)));
        }
        scores.push(best);
        i = i + 1;
        proof {
            assert(scores@ =~= scores_spec(query@, node_views(tree@)).subrange(0, i as int));
        }
    }
    proof {
        assert(scores@ =~= scores_spec(query@, node_views(tree@)));
    }
    let idx = rank_suggestions(tree, &scores);
    let mut s = to_owned("no match for ");
    let dq = debug_quoted(query);
    s.append(dq.as_str());
    if idx.len() == 0 {
        return s;
    }
    s.append(". Did you mean:\n");
    push_node_lines(&mut s, tree, &idx);
    proof {
        let tv = node_views(tree@);
        let si = suggestion_indices(ids_of(tv), scores_spec(query@, tv));
        assert(si =~= idx@.map_values(|i: usize| i as int));
        assert(at_indices(tv, idx@) =~= si.map_values(|i: int| tv[i]));
    }
    let t = trim_end(s.as_str());
    to_owned(t)
}


// ---------------------------------------------------------------------------
// Resolution
// ---------------------------------------------------------------------------

/// The index of the first node whose id answers `q`.
pub open spec fn first_id_match(tree: Seq<NodeView>, q: Seq<char>) -> Option<int>
    decreases tree.len(),
{
    if tree.len() == 0 {
        None
    } else if id_matches_spec(tree[0].id, q) {
        Some(0)
    } else {
        match first_id_match(tree.drop_first(), q) {
            Some(i) => Some(i + 1),
            None => None,
        }
    }
}

/// A node matches the query segments in the exact tier (`exact`) or in the
/// last-segment-prefix tier.
pub open spec fn tier_match(n: NodeView, segs: Seq<Seq<char>>, exact: bool) -> bool {
    if exact {
        suffix_matches(n.path, segs)
    } else {
        suffix_matches_last_prefix(n.path, segs)
    }
}

/// The nodes that match in a tier, in tree order.
pub open spec fn tier_matches(tree: Seq<NodeView>, segs: Seq<Seq<char>>, exact: bool) -> Seq<
    NodeView,
> {
    tier_matches_upto(tree, segs, exact, tree.len() as int)
}

/// The nodes among the first `i` that match in a tier, in tree order.
pub open spec fn tier_matches_upto(
    tree: Seq<NodeView>,
    segs: Seq<Seq<char>>,
    exact: bool,
    i: int,
) -> Seq<NodeView>
    decreases i,
{
    if i <= 0 {
        Seq::empty()
    } else {
        let prev = tier_matches_upto(tree, segs, exact, i - 1);
        if tier_match(tree[i - 1], segs, exact) {
            prev.push(tree[i - 1])
        } else {
            prev
        }
    }
}

/// What resolving `query` against `tree` gives: the id, or the message of the
/// usage error.
pub open spec fn resolve_spec(query: Seq<char>, tree: Seq<NodeView>) -> Result<
    Seq<char>,
    Seq<char>,
> {
    let q = trim_seq(query);
    if q.len() == 0 {
        Err("empty lookup value"@)
    } else if looks_like_id_spec(q) {
        match first_id_match(tree, q) {
            Some(i) => Ok(tree[i].id),
            None => Err(id_miss_message(q)),
        }
    } else {
        let segs = split_query_spec(q);
        let exact = tier_matches(tree, segs, true);
        if exact.len() == 1 {
            Ok(exact[0].id)
        } else if exact.len() > 1 {
            Err(ambiguous_message(q, exact))
        } else {
            let prefix = tier_matches(tree, segs, false);
            if prefix.len() == 1 {
                Ok(prefix[0].id)
            } else if prefix.len() > 1 {
                Err(ambiguous_message(q, prefix))
            } else {
                Err(no_match_message(q, tree))
            }
        }
    }
}

/// The result of `resolve` agrees with `resolve_spec`, the error being a usage error.
pub open spec fn resolve_result_matches(r: Result<String, CliError>, spec: Result<Seq<char>, Seq<char>>) -> bool {
    match r {
        Ok(id) => spec == Ok::<Seq<char>, Seq<char>>(id@),
        Err(e) => e is Usage && spec == Err::<Seq<char>, Seq<char>>(e->Usage_0@),
    }
}

proof fn lemma_first_id_match(tree: Seq<NodeView>, q: Seq<char>)
    ensures
        match first_id_match(tree, q) {
            Some(i) => 0 <= i < tree.len() && id_matches_spec(tree[i].id, q) && forall|j: int|
                0 <= j < i ==> !id_matches_spec(#[trigger] tree[j].id, q),
            None => forall|j: int| 0 <= j < tree.len() ==> !id_matches_spec(#[trigger] tree[j].id, q),
        },
    decreases tree.len(),
{
    if tree.len() > 0 && !id_matches_spec(tree[0].id, q) {
        lemma_first_id_match(tree.drop_first(), q);
        assert forall|j: int| 0 < j < tree.len() implies tree[j] == tree.drop_first()[j - 1] by {}
    }
}

proof fn lemma_first_id_match_at(tree: Seq<NodeView>, q: Seq<char>, i: int)
    requires
        0 <= i <= tree.len(),
        forall|j: int| 0 <= j < i ==> !id_matches_spec(#[trigger] tree[j].id, q),
        i == tree.len() || id_matches_spec(tree[i].id, q),
    ensures
        first_id_match(tree, q) == if i == tree.len() { None } else { Some(i) },
{
    lemma_first_id_match(tree, q);
    match first_id_match(tree, q) {
        Some(k) => {
            if k < i {
                assert(!id_matches_spec(tree[k].id, q));
            } else if k > i {
                assert(!id_matches_spec(tree[i].id, q));
            }
        },
        None => {
            if i < tree.len() {
                assert(!id_matches_spec(tree[i].id, q));
            }
        },
    }
}

fn collect_tier(tree: &[TreeNode], segs: &Vec<String>, exact: bool) -> (r: Vec<usize>)
    ensures
        at_indices(node_views(tree@), r@) == tier_matches(node_views(tree@), views(segs@), exact),
        forall|k: int| 0 <= k < r@.len() ==> #[trigger] r@[k] < tree@.len(),
{
    let n = tree.len();
    let ghost tv = node_views(tree@);
    let ghost sv = views(segs@);
    let mut r: Vec<usize> = Vec::new();
    let mut i: usize = 0;
    while i < n
        invariant
            n == tree@.len(),
            tv == node_views(tree@),
            sv == views(segs@),
            i <= n,
            at_indices(tv, r@) == tier_matches_upto(tv, sv, exact, i as int),
            forall|k: int| 0 <= k < r@.len() ==> #[trigger] r@[k] < n,
        decreases n - i,
    {
        let ghost before = r@;
        let hit = if exact {
            path_suffix_matches(&tree[i].path, segs)
        } else {
            path_suffix_matches_with_last_prefix(&tree[i].path, segs)
        };
        if hit {
            r.push(i);
        }
        i = i + 1;
        proof {
            assert(tv[i - 1] == tree@[i - 1]@);
            assert(hit == tier_match(tv[i - 1], sv, exact));
            if hit {
                assert(at_indices(tv, r@) =~= at_indices(tv, before).push(tv[i - 1]));
            } else {
                assert(at_indices(tv, r@) =~= at_indices(tv, before));
            }
        }
    }
    r
}

/// Resolves a single query value against `tree`: the matching node's id, or a
/// usage error explaining the ambiguity or the miss.
pub fn resolve(query: &str, tree: &[TreeNode]) -> (r: Result<String, CliError>)
    ensures
        resolve_result_matches(r, resolve_spec(query@, node_views(tree@))),
{
    let q = trim(query);
    if q.unicode_len() == 0 {
        return Err(CliError::Usage(to_owned("empty lookup value")));
    }
    let ghost tv = node_views(tree@);
    if looks_like_id(q) {
        let n = tree.len();
        let mut i: usize = 0;
        while i < n
            invariant
                n == tree@.len(),
                tv == node_views(tree@),
                i <= n,
                q@ == trim_seq(query@),
                q@.len() > 0,
                looks_like_id_spec(q@),
                forall|j: int| 0 <= j < i ==> !id_matches_spec(#[trigger] tv[j].id, q@),
            decreases n - i,
        {
            if id_matches(tree[i].id.as_str(), q) {
                proof {
                    assert(tv[i as int].id == tree@[i as int].id@);
                    lemma_first_id_match_at(tv, q@, i as int);
                }
                return Ok(tree[i].id.clone());
            }
            i = i + 1;
        }
        proof {
            lemma_first_id_match_at(tv, q@, n as int);
        }
        let mut m = to_owned("no node with id ");
        let dq = debug_quoted(q);
        m.append(dq.as_str());
        m.append(" (treated as id because it looks like a UUID)");
        return Err(CliError::Usage(m));
    }
    let segments = split_query(q);
    let exact = collect_tier(tree, &segments, true);
    if exact.len() == 1 {
        return Ok(tree[exact[0]].id.clone());
    }
    if exact.len() > 1 {
        return Err(CliError::Usage(render_ambiguous(q, tree, &exact)));
    }
    let prefix = collect_tier(tree, &segments, false);
    if prefix.len() == 1 {
        return Ok(tree[prefix[0]].id.clone());
    }
    if prefix.len() > 1 {
        return Err(CliError::Usage(render_ambiguous(q, tree, &prefix)));
    }
    Err(CliError::Usage(render_no_match(q, tree)))
}

/// What resolving every query gives: all the ids, or the first failure.
pub open spec fn resolve_all_spec(queries: Seq<Seq<char>>, tree: Seq<NodeView>) -> Result<
    Seq<Seq<char>>,
    Seq<char>,
>
    decreases queries.len(),
{
    if queries.len() == 0 {
        Ok(Seq::empty())
    } else {
        match resolve_spec(queries[0], tree) {
            Err(m) => Err(m),
            Ok(id) => match resolve_all_spec(queries.drop_first(), tree) {
                Ok(rest) => Ok(seq![id] + rest),
                Err(m) => Err(m),
            },
        }
    }
}

proof fn lemma_resolve_all_split(queries: Seq<Seq<char>>, tree: Seq<NodeView>, i: int, done: Seq<Seq<char>>)
    requires
        0 <= i <= queries.len(),
        done.len() == i,
        forall|k: int| 0 <= k < i ==> resolve_spec(#[trigger] queries[k], tree) == Ok::<Seq<char>, Seq<char>>(done[k]),
    ensures
        resolve_all_spec(queries, tree) == match resolve_all_spec(queries.subrange(i, queries.len() as int), tree) {
            Ok(rest) => Ok::<Seq<Seq<char>>, Seq<char>>(done + rest),
            Err(m) => Err(m),
        },
    decreases i,
{
    if i == 0 {
        assert(queries.subrange(0, queries.len() as int) =~= queries);
        assert(forall|rest: Seq<Seq<char>>| done + rest =~= rest);
    } else {
        let t = queries.drop_first();
        assert forall|k: int| 0 <= k < i - 1 implies resolve_spec(#[trigger] t[k], tree)
            == Ok::<Seq<char>, Seq<char>>(done.drop_first()[k]) by {
            assert(t[k] == queries[k + 1]);
        }
        lemma_resolve_all_split(t, tree, i - 1, done.drop_first());
        assert(t.subrange(i - 1, t.len() as int) =~= queries.subrange(i, queries.len() as int));
        assert(resolve_spec(queries[0], tree) == Ok::<Seq<char>, Seq<char>>(done[0]));
        assert(forall|rest: Seq<Seq<char>>| seq![done[0]] + (done.drop_first() + rest) =~= done + rest);
    }
}

/// Resolves every value in `queries`, stopping at the first failure.
pub fn resolve_all(queries: &[String], tree: &[TreeNode]) -> (r: Result<Vec<String>, CliError>)
    ensures
        match r {
            Ok(ids) => resolve_all_spec(views(queries@), node_views(tree@)) == Ok::<
                Seq<Seq<char>>,
                Seq<char>,
            >(views(ids@)),
            Err(e) => e is Usage && resolve_all_spec(views(queries@), node_views(tree@)) == Err::<
                Seq<Seq<char>>,
                Seq<char>,
            >(e->Usage_0@),
        },
{
    let ghost qv = views(queries@);
    let ghost tv = node_views(tree@);
    let n = queries.len();
    let mut out: Vec<String> = Vec::new();
    let mut i: usize = 0;
    while i < n
        invariant
            n == queries@.len(),
            qv == views(queries@),
            tv == node_views(tree@),
            i <= n,
            out@.len() == i,
            forall|k: int| 0 <= k < i ==> resolve_spec(#[trigger] qv[k], tv) == Ok::<Seq<char>, Seq<char>>(views(out@)[k]),
        decreases n - i,
    {
        match resolve(queries[i].as_str(), tree) {
            Ok(id) => {
                let ghost before = out@;
                out.push(id);
                proof {
                    assert forall|k: int| 0 <= k < i + 1 implies resolve_spec(#[trigger] qv[k], tv)
                        == Ok::<Seq<char>, Seq<char>>(views(out@)[k]) by {
                        if k < i {
                            assert(out@[k] == before[k]);
                        }
                    }
                }
            },
            Err(e) => {
                proof {
                    lemma_resolve_all_split(qv, tv, i as int, views(out@));
                    let rest = qv.subrange(i as int, n as int);
                    assert(rest[0] == qv[i as int]);
                }
                return Err(e);
            },
        }
        i = i + 1;
    }
    proof {
        lemma_resolve_all_split(qv, tv, n as int, views(out@));
        assert(qv.subrange(n as int, n as int) =~= Seq::<Seq<char>>::empty());
        assert(views(out@) + Seq::<Seq<char>>::empty() =~= views(out@));
    }
    Ok(out)
}

/// Keep the first node for each id.
pub open spec fn dedupe_spec(s: Seq<NodeView>, seen: Set<Seq<char>>) -> Seq<NodeView>
    decreases s.len(),
{
    if s.len() == 0 {
        s
    } else if seen.contains(s[0].id) {
        dedupe_spec(s.drop_first(), seen)
    } else {
        seq![s[0]] + dedupe_spec(s.drop_first(), seen.insert(s[0].id))
    }
}

/// Drops nodes whose id occurred earlier, keeping the first occurrence.
pub fn dedupe(nodes: Vec<TreeNode>) -> (r: Vec<TreeNode>)
    ensures
        node_views(r@) == dedupe_spec(node_views(nodes@), Set::empty()),
{
    let ghost all = node_views(nodes@);
    let mut rest = nodes;
    let mut out: Vec<TreeNode> = Vec::new();
    let ghost mut seen: Set<Seq<char>> = Set::empty();
    let ghost mut k: int = 0;
    proof {
        assert(node_views(out@) =~= Seq::<NodeView>::empty());
        assert(all.subrange(0, all.len() as int) =~= all);
    }
    while rest.len() > 0
        invariant
            0 <= k <= all.len(),
            node_views(rest@) == all.subrange(k, all.len() as int),
            forall|id: Seq<char>|
                seen.contains(id) <==> exists|t: int| 0 <= t < out@.len() && #[trigger] out@[t]@.id == id,
            node_views(out@) + dedupe_spec(node_views(rest@), seen) == dedupe_spec(all, Set::empty()),
        decreases rest@.len(),
    {
        let ghost rv = node_views(rest@);
        let n = rest.remove(0);
        proof {
            assert(rv[0] == n@);
            assert(node_views(rest@) =~= rv.drop_first());
            assert(rv.drop_first() =~= all.subrange(k + 1, all.len() as int));
            k = k + 1;
        }
        let mut dup = false;
        let mut q: usize = 0;
        while q < out.len()
            invariant
                q <= out@.len(),
                dup == exists|t: int| 0 <= t < q && #[trigger] out@[t]@.id == n@.id,
            decreases out@.len() - q,
        {
            if out[q].id == n.id {
                dup = true;
                assert(out@[q as int]@.id == n@.id);
            }
            q = q + 1;
        }
        if !dup {
            let ghost before = out@;
            let ghost old_seen = seen;
            out.push(n);
            proof {
                seen = seen.insert(rv[0].id);
                assert(node_views(out@) =~= node_views(before) + seq![rv[0]]);
                assert(out@[before.len() as int]@ == rv[0]);
                assert forall|id: Seq<char>| seen.contains(id) implies exists|t: int|
                    0 <= t < out@.len() && #[trigger] out@[t]@.id == id by {
                    if id == rv[0].id {
                        assert(out@[before.len() as int]@.id == id);
                    } else {
                        let t = choose|t: int| 0 <= t < before.len() && #[trigger] before[t]@.id == id;
                        assert(out@[t] == before[t]);
                        assert(out@[t]@.id == id);
                    }
                }
                assert forall|id: Seq<char>|
                    (exists|t: int| 0 <= t < out@.len() && #[trigger] out@[t]@.id == id) implies seen.contains(id) by {
                    let t = choose|t: int| 0 <= t < out@.len() && #[trigger] out@[t]@.id == id;
                    if t < before.len() {
                        assert(out@[t] == before[t]);
                        assert(before[t]@.id == id);
                        assert(old_seen.contains(id));
                    }
                }
            }
        }
    }
    proof {
        assert(node_views(rest@) =~= Seq::<NodeView>::empty());
        assert(node_views(out@) + Seq::<NodeView>::empty() =~= node_views(out@));
    }
    out
}

} // verus!
