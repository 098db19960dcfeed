//! Properties of the library as a whole, each proved over the
//! specifications that the functions' contracts use.
use vstd::prelude::*;
use crate::api::paging::{next_page_spec, MAX_PAGES};
use crate::api::raw::RawServiceItem;
use crate::api::service_songs::{
    dedup_seq, item_song_ids, item_uses, lemma_dedup_seq, listed_song_ids, listed_uses, plan_song_ids,
    plan_uses, use_step,
};
use crate::api::raw::{RawService, RawServicePlan, RawServiceSong};
use crate::auto_flags::{command_path, defaults_target, injection_spec, inject_spec, is_flag, note_spec};
use crate::date_window::{day_number, days_in_month, date_before, duration_parts, duration_start_result, months_before_spec, Date};
use crate::domain::person::opt_view;
use crate::song_filters::{last_used_of, service_day_spec, usage_keeps};
use crate::resolve::{
    first_id_match, id_matches_spec, looks_like_id_spec, resolve_spec, tier_matches,
    tier_matches_upto, dedupe_spec, NodeView, hex_count, is_hex, split_on, clean_segments,
    split_query_spec, tier_match,
};
use crate::textops::{
    lemma_lex_lt_irreflexive, lemma_lex_lt_transitive, lex_lt, lower_seq, trim_seq, lower_char, is_ws, trim_start_seq,
    trim_end_seq, first_index_of, has_prefix,
};
use crate::domain::person::{
    collect_departments_spec, dedup_rows, insert_by_name, people_rows, row_key, rows_of, sort_by_name, KeyedRow,
    RowView,
};
use crate::api::raw::RawPersonRecord;
use crate::roster::{ids_with_email, rows_kept};
use crate::domain::service::{positions_rows, position_rows, roster_positions, VolunteerRow, VolunteerRowView};
use crate::api::raw::RawPosition;
use crate::song_export::{newest_key, KeyRecord};
use crate::usage_report::{insert_by_count, led_only_by, single_leader, sort_by_count};
use crate::song_usage::{SongUsage, UseView};

verus! {

// ---------------------------------------------------------------------------
// Looking nodes up
// ---------------------------------------------------------------------------

proof fn lemma_first_id_match_in_range(tree: Seq<NodeView>, q: Seq<char>)
    ensures
        first_id_match(tree, q) matches Some(i) ==> 0 <= i < tree.len() && id_matches_spec(tree[i].id, q)
            && forall|j: int| 0 <= j < i ==> !id_matches_spec(#[trigger] tree[j].id, q),
    decreases tree.len(),
{
    if tree.len() > 0 && !id_matches_spec(tree[0].id, q) {
        lemma_first_id_match_in_range(tree.drop_first(), q);
        if first_id_match(tree, q) is Some {
            let i = first_id_match(tree, q)->Some_0;
            assert forall|j: int| 0 <= j < i implies !id_matches_spec(#[trigger] tree[j].id, q) by {
                if j > 0 {
                    assert(tree[j] == tree.drop_first()[j - 1]);
                }
            }
        }
    }
}

proof fn lemma_first_id_match_is(tree: Seq<NodeView>, q: Seq<char>, i: int)
    requires
        0 <= i < tree.len(),
        id_matches_spec(tree[i].id, q),
        forall|j: int| 0 <= j < i ==> !id_matches_spec(#[trigger] tree[j].id, q),
    ensures
        first_id_match(tree, q) == Some(i),
    decreases i,
{
    if i > 0 {
        let t = tree.drop_first();
        assert(!id_matches_spec(tree[0].id, q));
        assert forall|j: int| 0 <= j < i - 1 implies !id_matches_spec(#[trigger] t[j].id, q) by {
            assert(t[j] == tree[j + 1]);
        }
        lemma_first_id_match_is(t, q, i - 1);
    }
}

proof fn lemma_tier_matches_in_tree(tree: Seq<NodeView>, segs: Seq<Seq<char>>, exact: bool, i: int)
    requires
        0 <= i <= tree.len(),
    ensures
        forall|k: int| 0 <= k < tier_matches_upto(tree, segs, exact, i).len() ==> exists|j: int|
            0 <= j < i && tree[j] == #[trigger] tier_matches_upto(tree, segs, exact, i)[k],
    decreases i,
{
    if i > 0 {
        lemma_tier_matches_in_tree(tree, segs, exact, i - 1);
        let prev = tier_matches_upto(tree, segs, exact, i - 1);
        assert forall|k: int| 0 <= k < tier_matches_upto(tree, segs, exact, i).len() implies exists|j: int|
            0 <= j < i && tree[j] == #[trigger] tier_matches_upto(tree, segs, exact, i)[k] by {
            if k < prev.len() {
                assert(tier_matches_upto(tree, segs, exact, i)[k] == prev[k]);
                let j = choose|j: int| 0 <= j < i - 1 && tree[j] == #[trigger] prev[k];
                assert(tree[j] == tier_matches_upto(tree, segs, exact, i)[k]);
            } else {
                assert(tree[i - 1] == tier_matches_upto(tree, segs, exact, i)[k]);
            }
        }
    }
}

/// A lookup that succeeds names a node of the tree: the id it gives is the
/// id of one of the nodes.
pub proof fn law_resolved_id_names_a_node(query: Seq<char>, tree: Seq<NodeView>)
    ensures
        resolve_spec(query, tree) matches Ok(id) ==> exists|i: int| 0 <= i < tree.len() && tree[i].id == id,
{
    let q = trim_seq(query);
    lemma_first_id_match_in_range(tree, q);
    let segs = crate::resolve::split_query_spec(q);
    lemma_tier_matches_in_tree(tree, segs, true, tree.len() as int);
    lemma_tier_matches_in_tree(tree, segs, false, tree.len() as int);
    if resolve_spec(query, tree) is Ok {
        if q.len() > 0 && !looks_like_id_spec(q) {
            let exact = tier_matches(tree, segs, true);
            let prefix = tier_matches(tree, segs, false);
            if exact.len() == 1 {
                let j = choose|j: int| 0 <= j < tree.len() && tree[j] == #[trigger] tier_matches_upto(tree, segs, true, tree.len() as int)[0];
                assert(tree[j].id == exact[0].id);
            } else if exact.len() == 0 && prefix.len() == 1 {
                let j = choose|j: int| 0 <= j < tree.len() && tree[j] == #[trigger] tier_matches_upto(tree, segs, false, tree.len() as int)[0];
                assert(tree[j].id == prefix[0].id);
            }
        }
    }
}

proof fn lemma_hex_count_le_len(s: Seq<char>)
    ensures
        hex_count(s) <= s.len(),
    decreases s.len(),
{
    if s.len() > 0 {
        lemma_hex_count_le_len(s.drop_last());
    }
}

/// A query that looks like an id is answered by the first node whose id it
/// names (in full or by its first block, ignoring case); paths are then not
/// consulted.
pub proof fn law_id_lookup_takes_first_named_node(query: Seq<char>, tree: Seq<NodeView>, i: int)
    requires
        looks_like_id_spec(trim_seq(query)),
        0 <= i < tree.len(),
        id_matches_spec(tree[i].id, trim_seq(query)),
        forall|j: int| 0 <= j < i ==> !id_matches_spec(#[trigger] tree[j].id, trim_seq(query)),
    ensures
        resolve_spec(query, tree) == Ok::<Seq<char>, Seq<char>>(tree[i].id),
{
    lemma_hex_count_le_len(trim_seq(query));
    lemma_first_id_match_is(tree, trim_seq(query), i);
}

proof fn lemma_first_id_match_same(tree: Seq<NodeView>, a: Seq<char>, b: Seq<char>)
    requires
        lower_seq(a) == lower_seq(b),
    ensures
        first_id_match(tree, a) == first_id_match(tree, b),
    decreases tree.len(),
{
    if tree.len() > 0 {
        lemma_first_id_match_same(tree.drop_first(), a, b);
    }
}

/// Id lookups ignore ASCII case: two id-like queries that differ only in
/// case, once trimmed, resolve to the same node.
pub proof fn law_id_lookup_ignores_case(a: Seq<char>, b: Seq<char>, tree: Seq<NodeView>)
    requires
        looks_like_id_spec(trim_seq(a)),
        looks_like_id_spec(trim_seq(b)),
        lower_seq(trim_seq(a)) == lower_seq(trim_seq(b)),
    ensures
        resolve_spec(a, tree) is Ok ==> resolve_spec(a, tree) == resolve_spec(b, tree),
{
    lemma_hex_count_le_len(trim_seq(a));
    lemma_hex_count_le_len(trim_seq(b));
    lemma_first_id_match_same(tree, trim_seq(a), trim_seq(b));
}

/// Two lists of texts that differ at most in the ASCII case of their letters.
pub open spec fn same_up_to_case(a: Seq<Seq<char>>, b: Seq<Seq<char>>) -> bool {
    a.len() == b.len() && forall|j: int| 0 <= j < a.len() ==> lower_seq(#[trigger] a[j]) == lower_seq(b[j])
}

proof fn lemma_lower_char_same_class(x: char, y: char)
    requires
        lower_char(x) == lower_char(y),
    ensures
        is_ws(x) == is_ws(y),
        (x == '/') == (y == '/'),
        (x == '-') == (y == '-'),
        is_hex(x) == is_hex(y),
{
}

proof fn lemma_lower_seq_index(a: Seq<char>, b: Seq<char>)
    requires
        lower_seq(a) == lower_seq(b),
    ensures
        a.len() == b.len(),
        forall|i: int| 0 <= i < a.len() ==> lower_char(#[trigger] a[i]) == lower_char(b[i]),
{
    assert(lower_seq(a).len() == a.len());
    assert(lower_seq(b).len() == b.len());
    assert forall|i: int| 0 <= i < a.len() implies lower_char(#[trigger] a[i]) == lower_char(b[i]) by {
        assert(lower_seq(a)[i] == lower_seq(b)[i]);
        assert(lower_seq(a)[i] == lower_char(a[i]));
        assert(lower_seq(b)[i] == lower_char(b[i]));
    }
}

proof fn lemma_lower_seq_sub(a: Seq<char>, b: Seq<char>, i: int, j: int)
    requires
        lower_seq(a) == lower_seq(b),
        0 <= i <= j <= a.len(),
    ensures
        lower_seq(a.subrange(i, j)) == lower_seq(b.subrange(i, j)),
{
    lemma_lower_seq_index(a, b);
    assert(lower_seq(a.subrange(i, j)) =~= lower_seq(b.subrange(i, j)));
}

proof fn lemma_trim_start_case(a: Seq<char>, b: Seq<char>)
    requires
        lower_seq(a) == lower_seq(b),
    ensures
        lower_seq(trim_start_seq(a)) == lower_seq(trim_start_seq(b)),
    decreases a.len(),
{
    lemma_lower_seq_index(a, b);
    if a.len() > 0 {
        lemma_lower_char_same_class(a[0], b[0]);
        if is_ws(a[0]) {
            lemma_lower_seq_sub(a, b, 1, a.len() as int);
            assert(a.drop_first() == a.subrange(1, a.len() as int));
            assert(b.drop_first() == b.subrange(1, b.len() as int));
            lemma_trim_start_case(a.drop_first(), b.drop_first());
        }
    }
}

proof fn lemma_trim_end_case(a: Seq<char>, b: Seq<char>)
    requires
        lower_seq(a) == lower_seq(b),
    ensures
        lower_seq(trim_end_seq(a)) == lower_seq(trim_end_seq(b)),
    decreases a.len(),
{
    lemma_lower_seq_index(a, b);
    if a.len() > 0 {
        lemma_lower_char_same_class(a.last(), b.last());
        if is_ws(a.last()) {
            lemma_lower_seq_sub(a, b, 0, a.len() - 1);
            assert(a.drop_last() == a.subrange(0, a.len() - 1));
            assert(b.drop_last() == b.subrange(0, b.len() - 1));
            lemma_trim_end_case(a.drop_last(), b.drop_last());
        }
    }
}

proof fn lemma_trim_case(a: Seq<char>, b: Seq<char>)
    requires
        lower_seq(a) == lower_seq(b),
    ensures
        lower_seq(trim_seq(a)) == lower_seq(trim_seq(b)),
{
    lemma_trim_start_case(a, b);
    lemma_trim_end_case(trim_start_seq(a), trim_start_seq(b));
}

proof fn lemma_hex_count_case(a: Seq<char>, b: Seq<char>)
    requires
        lower_seq(a) == lower_seq(b),
    ensures
        hex_count(a) == hex_count(b),
        looks_like_id_spec(a) == looks_like_id_spec(b),
    decreases a.len(),
{
    lemma_lower_seq_index(a, b);
    if a.len() > 0 {
        lemma_lower_char_same_class(a.last(), b.last());
        lemma_lower_seq_sub(a, b, 0, a.len() - 1);
        assert(a.drop_last() == a.subrange(0, a.len() - 1));
        assert(b.drop_last() == b.subrange(0, b.len() - 1));
        lemma_hex_count_case(a.drop_last(), b.drop_last());
    }
    if forall|i: int| 0 <= i < a.len() ==> is_hex(#[trigger] a[i]) || a[i] == '-' {
        assert forall|i: int| 0 <= i < b.len() implies is_hex(#[trigger] b[i]) || b[i] == '-' by {
            lemma_lower_char_same_class(a[i], b[i]);
        }
    }
    if forall|i: int| 0 <= i < b.len() ==> is_hex(#[trigger] b[i]) || b[i] == '-' {
        assert forall|i: int| 0 <= i < a.len() implies is_hex(#[trigger] a[i]) || a[i] == '-' by {
            lemma_lower_char_same_class(a[i], b[i]);
        }
    }
}

proof fn lemma_first_slash_case(a: Seq<char>, b: Seq<char>)
    requires
        lower_seq(a) == lower_seq(b),
    ensures
        first_index_of(a, '/') == first_index_of(b, '/'),
    decreases a.len(),
{
    lemma_lower_seq_index(a, b);
    if a.len() > 0 {
        lemma_lower_char_same_class(a[0], b[0]);
        lemma_lower_seq_sub(a, b, 1, a.len() as int);
        assert(a.drop_first() == a.subrange(1, a.len() as int));
        assert(b.drop_first() == b.subrange(1, b.len() as int));
        lemma_first_slash_case(a.drop_first(), b.drop_first());
    }
}

proof fn lemma_split_case(a: Seq<char>, b: Seq<char>)
    requires
        lower_seq(a) == lower_seq(b),
    ensures
        same_up_to_case(split_on(a, '/'), split_on(b, '/')),
    decreases a.len(),
{
    lemma_lower_seq_index(a, b);
    lemma_first_slash_case(a, b);
    match first_index_of(a, '/') {
        Some(i) => {
            if 0 <= i < a.len() {
                lemma_lower_seq_sub(a, b, 0, i);
                lemma_lower_seq_sub(a, b, i + 1, a.len() as int);
                lemma_split_case(a.subrange(i + 1, a.len() as int), b.subrange(i + 1, b.len() as int));
                let ra = split_on(a.subrange(i + 1, a.len() as int), '/');
                let rb = split_on(b.subrange(i + 1, b.len() as int), '/');
                let sa = seq![a.subrange(0, i)] + ra;
                let sb = seq![b.subrange(0, i)] + rb;
                assert forall|j: int| 0 <= j < sa.len() implies lower_seq(#[trigger] sa[j]) == lower_seq(sb[j]) by {
                    if j > 0 {
                        assert(sa[j] == ra[j - 1]);
                        assert(sb[j] == rb[j - 1]);
                    }
                }
            }
        },
        None => {},
    }
}

proof fn lemma_clean_case(a: Seq<Seq<char>>, b: Seq<Seq<char>>)
    requires
        same_up_to_case(a, b),
    ensures
        same_up_to_case(clean_segments(a), clean_segments(b)),
    decreases a.len(),
{
    if a.len() > 0 {
        assert(lower_seq(a[0]) == lower_seq(b[0]));
        lemma_trim_case(a[0], b[0]);
        lemma_lower_seq_index(trim_seq(a[0]), trim_seq(b[0]));
        assert(same_up_to_case(a.drop_first(), b.drop_first())) by {
            assert forall|j: int| 0 <= j < a.len() - 1 implies lower_seq(#[trigger] a.drop_first()[j])
                == lower_seq(b.drop_first()[j]) by {
                assert(lower_seq(a[j + 1]) == lower_seq(b[j + 1]));
            }
        }
        lemma_clean_case(a.drop_first(), b.drop_first());
        let ra = clean_segments(a.drop_first());
        let rb = clean_segments(b.drop_first());
        if trim_seq(a[0]).len() > 0 {
            let sa = seq![trim_seq(a[0])] + ra;
            let sb = seq![trim_seq(b[0])] + rb;
            assert forall|j: int| 0 <= j < sa.len() implies lower_seq(#[trigger] sa[j]) == lower_seq(sb[j]) by {
                if j > 0 {
                    assert(sa[j] == ra[j - 1]);
                    assert(sb[j] == rb[j - 1]);
                }
            }
        }
    }
}

proof fn lemma_tier_match_case(n: NodeView, a: Seq<Seq<char>>, b: Seq<Seq<char>>, exact: bool)
    requires
        same_up_to_case(a, b),
    ensures
        tier_match(n, a, exact) == tier_match(n, b, exact),
{
    let p = n.path;
    if a.len() > 0 {
        assert(lower_seq(a[a.len() - 1]) == lower_seq(b[b.len() - 1]));
        assert(a.last() == a[a.len() - 1]);
        assert(b.last() == b[b.len() - 1]);
    }
    assert forall|j: int| 0 <= j < a.len() implies eq_ignore_case_at(p, a, j) == eq_ignore_case_at(p, b, j) by {
        assert(lower_seq(a[j]) == lower_seq(b[j]));
    }
    if exact {
        assert(crate::resolve::suffix_matches(p, a) == crate::resolve::suffix_matches(p, b)) by {
            if crate::resolve::suffix_matches(p, a) {
                assert forall|j: int| 0 <= j < b.len() implies crate::textops::eq_ignore_case(
                    #[trigger] p[p.len() - b.len() + j],
                    b[j],
                ) by {
                    assert(eq_ignore_case_at(p, a, j));
                }
            }
            if crate::resolve::suffix_matches(p, b) {
                assert forall|j: int| 0 <= j < a.len() implies crate::textops::eq_ignore_case(
                    #[trigger] p[p.len() - a.len() + j],
                    a[j],
                ) by {
                    assert(eq_ignore_case_at(p, b, j));
                }
            }
        }
    } else {
        assert(crate::resolve::suffix_matches_last_prefix(p, a)
            == crate::resolve::suffix_matches_last_prefix(p, b)) by {
            if crate::resolve::suffix_matches_last_prefix(p, a) {
                assert forall|j: int| 0 <= j < b.len() - 1 implies crate::textops::eq_ignore_case(
                    #[trigger] p[p.len() - b.len() + j],
                    b[j],
                ) by {
                    assert(eq_ignore_case_at(p, a, j));
                }
            }
            if crate::resolve::suffix_matches_last_prefix(p, b) {
                assert forall|j: int| 0 <= j < a.len() - 1 implies crate::textops::eq_ignore_case(
                    #[trigger] p[p.len() - a.len() + j],
                    a[j],
                ) by {
                    assert(eq_ignore_case_at(p, b, j));
                }
            }
        }
    }
}

/// The `j`-th query segment equals, ignoring case, its place at the end of `p`.
spec fn eq_ignore_case_at(p: Seq<Seq<char>>, q: Seq<Seq<char>>, j: int) -> bool {
    crate::textops::eq_ignore_case(p[p.len() - q.len() + j], q[j])
}

proof fn lemma_tier_matches_case(tree: Seq<NodeView>, a: Seq<Seq<char>>, b: Seq<Seq<char>>, exact: bool, i: int)
    requires
        same_up_to_case(a, b),
    ensures
        tier_matches_upto(tree, a, exact, i) == tier_matches_upto(tree, b, exact, i),
    decreases i,
{
    if i > 0 {
        lemma_tier_matches_case(tree, a, b, exact, i - 1);
        lemma_tier_match_case(tree[i - 1], a, b, exact);
    }
}

/// Name and path lookups, like id lookups, ignore ASCII case: two queries
/// that differ only in the case of their letters either both resolve, to
/// the same node, or both fail.
pub proof fn law_lookup_ignores_case(a: Seq<char>, b: Seq<char>, tree: Seq<NodeView>)
    requires
        lower_seq(a) == lower_seq(b),
    ensures
        resolve_spec(a, tree) is Ok <==> resolve_spec(b, tree) is Ok,
        resolve_spec(a, tree) is Ok ==> resolve_spec(a, tree) == resolve_spec(b, tree),
{
    let qa = trim_seq(a);
    let qb = trim_seq(b);
    lemma_trim_case(a, b);
    lemma_lower_seq_index(qa, qb);
    lemma_hex_count_case(qa, qb);
    lemma_first_id_match_same(tree, qa, qb);
    lemma_split_case(qa, qb);
    lemma_clean_case(split_on(qa, '/'), split_on(qb, '/'));
    let sa = split_query_spec(qa);
    let sb = split_query_spec(qb);
    lemma_tier_matches_case(tree, sa, sb, true, tree.len() as int);
    lemma_tier_matches_case(tree, sa, sb, false, tree.len() as int);
}

// ---------------------------------------------------------------------------
// Keeping the first of each id
// ---------------------------------------------------------------------------

proof fn lemma_dedupe_spec(s: Seq<NodeView>, seen: Set<Seq<char>>)
    ensures
        forall|k: int| 0 <= k < dedupe_spec(s, seen).len() ==> !seen.contains(#[trigger] dedupe_spec(s, seen)[k].id),
        forall|k: int, l: int| 0 <= k < l < dedupe_spec(s, seen).len() ==> dedupe_spec(s, seen)[k].id
            != dedupe_spec(s, seen)[l].id,
        forall|j: int| 0 <= j < s.len() && !seen.contains(#[trigger] s[j].id) ==> exists|k: int|
            0 <= k < dedupe_spec(s, seen).len() && dedupe_spec(s, seen)[k].id == s[j].id,
    decreases s.len(),
{
    if s.len() > 0 {
        let t = s.drop_first();
        if seen.contains(s[0].id) {
            lemma_dedupe_spec(t, seen);
            assert forall|j: int| 0 <= j < s.len() && !seen.contains(#[trigger] s[j].id) implies exists|k: int|
                0 <= k < dedupe_spec(s, seen).len() && dedupe_spec(s, seen)[k].id == s[j].id by {
                assert(t[j - 1] == s[j]);
            }
        } else {
            let seen2 = seen.insert(s[0].id);
            lemma_dedupe_spec(t, seen2);
            let d = dedupe_spec(s, seen);
            let rest = dedupe_spec(t, seen2);
            assert(d == seq![s[0]] + rest);
            assert forall|k: int| 0 <= k < d.len() implies !seen.contains(#[trigger] d[k].id) by {
                if k > 0 {
                    assert(d[k] == rest[k - 1]);
                }
            }
            assert forall|k: int, l: int| 0 <= k < l < d.len() implies d[k].id != d[l].id by {
                assert(d[l] == rest[l - 1]);
                if k > 0 {
                    assert(d[k] == rest[k - 1]);
                }
            }
            assert forall|j: int| 0 <= j < s.len() && !seen.contains(#[trigger] s[j].id) implies exists|k: int|
                0 <= k < d.len() && d[k].id == s[j].id by {
                if j == 0 || s[j].id == s[0].id {
                    assert(d[0].id == s[j].id);
                } else {
                    assert(t[j - 1] == s[j]);
                    let k = choose|k: int| 0 <= k < rest.len() && rest[k].id == t[j - 1].id;
                    assert(d[k + 1] == rest[k]);
                }
            }
        }
    }
}

/// Deduplicating nodes keeps every id and each id once.
pub proof fn law_dedupe_keeps_each_id_once(s: Seq<NodeView>)
    ensures
        forall|k: int, l: int| 0 <= k < l < dedupe_spec(s, Set::empty()).len() ==> dedupe_spec(s, Set::empty())[k].id
            != dedupe_spec(s, Set::empty())[l].id,
        forall|j: int| 0 <= j < s.len() ==> exists|k: int|
            0 <= k < dedupe_spec(s, Set::empty()).len() && dedupe_spec(s, Set::empty())[k].id == (#[trigger] s[j]).id,
{
    lemma_dedupe_spec(s, Set::empty());
    assert forall|j: int| 0 <= j < s.len() implies exists|k: int|
        0 <= k < dedupe_spec(s, Set::empty()).len() && dedupe_spec(s, Set::empty())[k].id == (#[trigger] s[j]).id by {
        assert(!Set::<Seq<char>>::empty().contains(s[j].id));
    }
}

proof fn lemma_dedupe_distinct_unchanged(s: Seq<NodeView>, seen: Set<Seq<char>>)
    requires
        forall|k: int, l: int| 0 <= k < l < s.len() ==> s[k].id != s[l].id,
        forall|k: int| 0 <= k < s.len() ==> !seen.contains(#[trigger] s[k].id),
    ensures
        dedupe_spec(s, seen) == s,
    decreases s.len(),
{
    if s.len() > 0 {
        let t = s.drop_first();
        let seen2 = seen.insert(s[0].id);
        assert forall|k: int| 0 <= k < t.len() implies !seen2.contains(#[trigger] t[k].id) by {
            assert(t[k] == s[k + 1]);
        }
        assert forall|k: int, l: int| 0 <= k < l < t.len() implies t[k].id != t[l].id by {
            assert(t[k] == s[k + 1]);
            assert(t[l] == s[l + 1]);
        }
        lemma_dedupe_distinct_unchanged(t, seen2);
        assert(seq![s[0]] + t =~= s);
    }
}

/// Deduplicating a list that was already deduplicated changes nothing.
pub proof fn law_dedupe_idempotent(s: Seq<NodeView>)
    ensures
        dedupe_spec(dedupe_spec(s, Set::empty()), Set::empty()) == dedupe_spec(s, Set::empty()),
{
    lemma_dedupe_spec(s, Set::empty());
    lemma_dedupe_distinct_unchanged(dedupe_spec(s, Set::empty()), Set::empty());
}

// ---------------------------------------------------------------------------
// People with an e-mail address
// ---------------------------------------------------------------------------

/// The ids collected from pages of people are each listed once, and are
/// exactly the ids seen before together with those of the records that carry
/// an e-mail address.
pub proof fn law_email_ids_each_once(ids: Seq<Seq<char>>, s: Seq<RawPersonRecord>)
    requires
        forall|k: int, l: int| 0 <= k < l < ids.len() ==> ids[k] != ids[l],
    ensures
        forall|k: int, l: int| 0 <= k < l < ids_with_email(ids, s).len() ==> ids_with_email(ids, s)[k]
            != ids_with_email(ids, s)[l],
        forall|x: Seq<char>| ids_with_email(ids, s).contains(x) <==> (ids.contains(x) || exists|j: int|
            0 <= j < s.len() && (#[trigger] s[j]).email@.len() > 0 && s[j].id@ == x),
    decreases s.len(),
{
    if s.len() > 0 {
        let t = s.drop_last();
        law_email_ids_each_once(ids, t);
        let prev = ids_with_email(ids, t);
        let p = s.last();
        let r = ids_with_email(ids, s);
        if p.email@.len() > 0 && !prev.contains(p.id@) {
            assert(r == prev.push(p.id@));
            assert forall|k: int, l: int| 0 <= k < l < r.len() implies r[k] != r[l] by {
                if l == r.len() - 1 {
                    assert(prev.contains(prev[k]));
                }
            }
        }
        assert forall|x: Seq<char>| r.contains(x) <==> (ids.contains(x) || exists|j: int|
            0 <= j < s.len() && (#[trigger] s[j]).email@.len() > 0 && s[j].id@ == x) by {
            if exists|j: int| 0 <= j < s.len() && (#[trigger] s[j]).email@.len() > 0 && s[j].id@ == x {
                let j = choose|j: int| 0 <= j < s.len() && (#[trigger] s[j]).email@.len() > 0 && s[j].id@ == x;
                if j < s.len() - 1 {
                    assert(t[j] == s[j]);
                } else if !(p.email@.len() > 0 && !prev.contains(p.id@)) {
                    assert(prev.contains(x));
                } else {
                    assert(r[r.len() - 1] == x);
                }
            }
            if exists|j: int| 0 <= j < t.len() && (#[trigger] t[j]).email@.len() > 0 && t[j].id@ == x {
                let j = choose|j: int| 0 <= j < t.len() && (#[trigger] t[j]).email@.len() > 0 && t[j].id@ == x;
                assert(s[j] == t[j]);
            }
            if r.contains(x) && !prev.contains(x) {
                assert(s[s.len() - 1] == p);
            }
            if prev.contains(x) {
                let k = choose|k: int| 0 <= k < prev.len() && prev[k] == x;
                assert(r[k] == x);
            }
        }
    }
}

// ---------------------------------------------------------------------------
// Song export
// ---------------------------------------------------------------------------

/// The key kept for a voice comes from its newest record: no record for
/// that voice was added later, and the key is that of the first record added
/// at that date; with no dated record for the voice, the arrangement's own
/// key stays.
pub proof fn law_newest_key_record_wins(recs: Seq<KeyRecord>, name: Seq<char>, own: Option<Seq<char>>)
    ensures
        forall|i: int| 0 <= i < recs.len() && (#[trigger] recs[i]).name@ == name ==> !lex_lt(
            newest_key(recs, name, own).0,
            recs[i].date_added@,
        ),
        newest_key(recs, name, own).0.len() == 0 ==> newest_key(recs, name, own).1 == own,
        newest_key(recs, name, own).0.len() > 0 ==> exists|j: int|
            0 <= j < recs.len() && (#[trigger] recs[j]).name@ == name && recs[j].date_added@ == newest_key(
                recs,
                name,
                own,
            ).0 && newest_key(recs, name, own).1 == Some(recs[j].starting@) && forall|i: int|
                0 <= i < j && (#[trigger] recs[i]).name@ == name ==> recs[i].date_added@ != recs[j].date_added@,
    decreases recs.len(),
{
    if recs.len() > 0 {
        let t = recs.drop_last();
        law_newest_key_record_wins(t, name, own);
        let p = newest_key(t, name, own);
        let k = recs.last();
        let r = newest_key(recs, name, own);
        if k.name@ == name && lex_lt(p.0, k.date_added@) {
            assert forall|i: int| 0 <= i < recs.len() && (#[trigger] recs[i]).name@ == name implies !lex_lt(
                r.0,
                recs[i].date_added@,
            ) by {
                if i < recs.len() - 1 {
                    assert(t[i] == recs[i]);
                    if lex_lt(r.0, recs[i].date_added@) {
                        lemma_lex_lt_transitive(p.0, r.0, recs[i].date_added@);
                    }
                } else {
                    lemma_lex_lt_irreflexive(r.0);
                }
            }
            let j = recs.len() - 1;
            assert forall|i: int| 0 <= i < j && (#[trigger] recs[i]).name@ == name implies recs[i].date_added@
                != recs[j].date_added@ by {
                assert(t[i] == recs[i]);
            }
            assert(recs[j] == k);
        } else {
            assert forall|i: int| 0 <= i < recs.len() && (#[trigger] recs[i]).name@ == name implies !lex_lt(
                r.0,
                recs[i].date_added@,
            ) by {
                if i < recs.len() - 1 {
                    assert(t[i] == recs[i]);
                }
            }
            if r.0.len() > 0 {
                let j = choose|j: int|
                    0 <= j < t.len() && (#[trigger] t[j]).name@ == name && t[j].date_added@ == p.0 && p.1 == Some(
                        t[j].starting@,
                    ) && forall|i: int| 0 <= i < j && (#[trigger] t[i]).name@ == name ==> t[i].date_added@ != t[j].date_added@;
                assert(recs[j] == t[j]);
                assert forall|i: int| 0 <= i < j && (#[trigger] recs[i]).name@ == name implies recs[i].date_added@
                    != recs[j].date_added@ by {
                    assert(t[i] == recs[i]);
                }
            }
        }
    }
}

// ---------------------------------------------------------------------------
// Songs of a service
// ---------------------------------------------------------------------------

/// The song ids of a service name every song it mentions, each once.
pub proof fn law_song_ids_each_once(stream: Seq<Seq<char>>)
    ensures
        forall|x: Seq<char>| dedup_seq(stream).contains(x) <==> stream.contains(x),
        forall|i: int, j: int| 0 <= i < j < dedup_seq(stream).len() ==> dedup_seq(stream)[i] != dedup_seq(stream)[j],
{
    lemma_dedup_seq(stream);
}

proof fn lemma_contains_concat(a: Seq<Seq<char>>, b: Seq<Seq<char>>, x: Seq<char>)
    ensures
        (a + b).contains(x) <==> a.contains(x) || b.contains(x),
{
    if (a + b).contains(x) {
        let k = choose|k: int| 0 <= k < (a + b).len() && (a + b)[k] == x;
        if k < a.len() {
            assert(a[k] == x);
        } else {
            assert(b[k - a.len()] == x);
        }
    }
    if a.contains(x) {
        let k = choose|k: int| 0 <= k < a.len() && a[k] == x;
        assert((a + b)[k] == x);
    }
    if b.contains(x) {
        let k = choose|k: int| 0 <= k < b.len() && b[k] == x;
        assert((a + b)[k + a.len()] == x);
    }
}

proof fn lemma_use_step_dom(m: Map<Seq<char>, Option<Seq<char>>>, id: Seq<char>, key: Option<Seq<char>>, from_plan: bool, x: Seq<char>)
    ensures
        use_step(m, id, key, from_plan).dom().contains(x) <==> m.dom().contains(x) || (x == id && id.len() > 0),
{
}

proof fn lemma_listed_dom(songs: Seq<RawServiceSong>, x: Seq<char>)
    ensures
        listed_uses(songs).dom().contains(x) <==> x.len() > 0 && listed_song_ids(songs).contains(x),
    decreases songs.len(),
{
    if songs.len() > 0 {
        let init = songs.drop_last();
        lemma_listed_dom(init, x);
        assert(listed_song_ids(songs) =~= listed_song_ids(init) + seq![songs.last().id@]);
        lemma_contains_concat(listed_song_ids(init), seq![songs.last().id@], x);
        assert(seq![songs.last().id@][0] == songs.last().id@);
        lemma_use_step_dom(listed_uses(init), songs.last().id@, crate::domain::person::opt_view(songs.last().arrangement.key), false, x);
    } else {
        assert(listed_song_ids(songs).len() == 0);
    }
}

proof fn lemma_item_dom(m: Map<Seq<char>, Option<Seq<char>>>, items: Seq<RawServiceItem>, x: Seq<char>)
    ensures
        item_uses(m, items).dom().contains(x) <==> m.dom().contains(x) || (x.len() > 0 && item_song_ids(items).contains(x)),
    decreases items.len(),
{
    if items.len() > 0 {
        let init = items.drop_last();
        lemma_item_dom(m, init, x);
        let tail = match items.last().song_id {
            Some(id) => seq![id@],
            None => Seq::<Seq<char>>::empty(),
        };
        lemma_contains_concat(item_song_ids(init), tail, x);
        match items.last().song_id {
            Some(id) => {
                assert(tail[0] == id@);
                lemma_use_step_dom(item_uses(m, init), id@, crate::domain::person::opt_view(items.last().song_key), true, x);
            },
            None => {
                assert(!tail.contains(x));
            },
        }
    } else {
        assert(item_song_ids(items).len() == 0);
    }
}

proof fn lemma_plan_dom(m: Map<Seq<char>, Option<Seq<char>>>, plans: Seq<RawServicePlan>, x: Seq<char>)
    ensures
        plan_uses(m, plans).dom().contains(x) <==> m.dom().contains(x) || (x.len() > 0 && plan_song_ids(plans).contains(x)),
    decreases plans.len(),
{
    if plans.len() > 0 {
        let init = plans.drop_last();
        lemma_plan_dom(m, init, x);
        lemma_item_dom(plan_uses(m, init), plans.last().items.item@, x);
        lemma_contains_concat(plan_song_ids(init), item_song_ids(plans.last().items.item@), x);
    } else {
        assert(plan_song_ids(plans).len() == 0);
    }
}

/// The songs a service uses with their keys are exactly the songs its song
/// ids name, leaving out empty ids.
pub proof fn law_song_uses_match_song_ids(svc: RawService, x: Seq<char>)
    ensures
        svc.song_use_map().dom().contains(x) <==> x.len() > 0 && dedup_seq(svc.song_id_stream()).contains(x),
{
    lemma_listed_dom(svc.songs.song@, x);
    lemma_plan_dom(listed_uses(svc.songs.song@), svc.plans.plan@, x);
    lemma_contains_concat(listed_song_ids(svc.songs.song@), plan_song_ids(svc.plans.plan@), x);
    lemma_dedup_seq(svc.song_id_stream());
}

/// A plan item that names song `id`.
pub open spec fn names_song(item: RawServiceItem, id: Seq<char>) -> bool {
    item.song_id matches Some(s) && s@ == id
}

/// Among plan items, a key given for a song replaces what was recorded for
/// it, and stays unless a later item gives that song another key.
pub proof fn law_last_plan_key_wins(
    m: Map<Seq<char>, Option<Seq<char>>>,
    items: Seq<RawServiceItem>,
    j: int,
    id: Seq<char>,
)
    requires
        0 <= j < items.len(),
        id.len() > 0,
        names_song(items[j], id),
        items[j].song_key is Some,
        forall|k: int| j < k < items.len() && names_song(#[trigger] items[k], id) ==> items[k].song_key is None,
    ensures
        item_uses(m, items).dom().contains(id),
        item_uses(m, items)[id] == opt_view(items[j].song_key),
    decreases items.len(),
{
    if j < items.len() - 1 {
        let init = items.drop_last();
        assert forall|k: int| j < k < init.len() && names_song(#[trigger] init[k], id) implies init[k].song_key is None by {
            assert(init[k] == items[k]);
        }
        assert(init[j] == items[j]);
        law_last_plan_key_wins(m, init, j, id);
    }
}

// ---------------------------------------------------------------------------
// Dates
// ---------------------------------------------------------------------------

/// Going back whole months never lands after the starting day.
pub proof fn law_months_before_not_later(d: Date, months: int)
    requires
        d.is_valid(),
        months >= 0,
    ensures
        months_before_spec(d, months) matches Some(e) ==> !date_before(d, e),
{
    let total = d.year * 12 + (d.month - 1) - months;
    let y = total / 12;
    let m = total % 12 + 1;
    vstd::arithmetic::div_mod::lemma_fundamental_div_mod(total, 12);
    assert(0 <= total % 12 < 12);
    assert(y * 12 + (m - 1) == total);
    if y > d.year {
        assert(y * 12 >= d.year * 12 + 12) by (nonlinear_arith)
            requires
                y > d.year,
        ;
    }
    if y == d.year {
        assert(m <= d.month);
    }
}

/// A look-back of `a` weeks ends on the same day as one of `7 * a` days.
pub proof fn law_weeks_are_seven_days(weeks: Seq<char>, days: Seq<char>, a: u32, today: Date, r: Option<Date>)
    requires
        duration_parts(weeks) == Some(('w', a)),
        7 * a <= u32::MAX,
        duration_parts(days) == Some(('d', (7 * a) as u32)),
    ensures
        duration_start_result(weeks, today, r) == duration_start_result(days, today, r),
{
}

/// A look-back of `a` years ends on the same day as one of `12 * a` months.
pub proof fn law_years_are_twelve_months(years: Seq<char>, months: Seq<char>, a: u32, today: Date, r: Option<Date>)
    requires
        duration_parts(years) == Some(('y', a)),
        12 * a <= u32::MAX,
        duration_parts(months) == Some(('m', (12 * a) as u32)),
    ensures
        duration_start_result(years, today, r) == duration_start_result(months, today, r),
{
}

// ---------------------------------------------------------------------------
// The song-usage report
// ---------------------------------------------------------------------------

/// Every entry has at most as many uses as the ones after it.
pub open spec fn fewest_first(s: Seq<SongUsage>) -> bool {
    forall|i: int, j: int| 0 <= i < j < s.len() ==> (#[trigger] s[i]).uses@.len() <= (#[trigger] s[j]).uses@.len()
}

proof fn lemma_insert_by_count_sorted(x: SongUsage, s: Seq<SongUsage>)
    requires
        fewest_first(s),
    ensures
        fewest_first(insert_by_count(x, s)),
        insert_by_count(x, s).len() == s.len() + 1,
        forall|k: int| 0 <= k < insert_by_count(x, s).len() ==> (#[trigger] insert_by_count(x, s)[k]) == x || s.contains(insert_by_count(x, s)[k]),
    decreases s.len(),
{
    if s.len() > 0 && !(x.uses@.len() < s[0].uses@.len()) {
        let t = s.drop_first();
        assert forall|i: int, j: int| 0 <= i < j < t.len() implies (#[trigger] t[i]).uses@.len() <= (#[trigger] t[j]).uses@.len() by {
            assert(t[i] == s[i + 1] && t[j] == s[j + 1]);
        }
        lemma_insert_by_count_sorted(x, t);
        let r = insert_by_count(x, t);
        assert forall|k: int| 0 <= k < r.len() implies s[0].uses@.len() <= (#[trigger] r[k]).uses@.len() by {
            if r[k] != x {
                let q = choose|q: int| 0 <= q < t.len() && t[q] == r[k];
                assert(t[q] == s[q + 1]);
            }
        }
        let whole = seq![s[0]] + r;
        assert forall|i: int, j: int| 0 <= i < j < whole.len() implies (#[trigger] whole[i]).uses@.len() <= (#[trigger] whole[j]).uses@.len() by {
            if i > 0 {
                assert(whole[i] == r[i - 1] && whole[j] == r[j - 1]);
            } else {
                assert(whole[j] == r[j - 1]);
            }
        }
        assert forall|k: int| 0 <= k < whole.len() implies (#[trigger] whole[k]) == x || s.contains(whole[k]) by {
            if k == 0 {
                assert(s[0] == whole[0]);
            } else {
                assert(whole[k] == r[k - 1]);
                if r[k - 1] != x {
                    let q = choose|q: int| 0 <= q < t.len() && t[q] == r[k - 1];
                    assert(s[q + 1] == whole[k]);
                }
            }
        }
    } else if s.len() > 0 {
        let whole = seq![x] + s;
        assert forall|i: int, j: int| 0 <= i < j < whole.len() implies (#[trigger] whole[i]).uses@.len() <= (#[trigger] whole[j]).uses@.len() by {
            if i > 0 {
                assert(whole[i] == s[i - 1] && whole[j] == s[j - 1]);
            } else {
                assert(whole[j] == s[j - 1]);
            }
        }
        assert forall|k: int| 0 <= k < whole.len() implies (#[trigger] whole[k]) == x || s.contains(whole[k]) by {
            if k > 0 {
                assert(s[k - 1] == whole[k]);
            }
        }
    }
}

/// The report lists songs with the fewest uses first.
pub proof fn law_report_fewest_uses_first(s: Seq<SongUsage>)
    ensures
        fewest_first(sort_by_count(s)),
    decreases s.len(),
{
    if s.len() > 0 {
        law_report_fewest_uses_first(s.drop_last());
        lemma_insert_by_count_sorted(s.last(), sort_by_count(s.drop_last()));
    }
}

// ---------------------------------------------------------------------------
// Paging
// ---------------------------------------------------------------------------

/// Listings are walked one page at a time and never past page `MAX_PAGES`.
pub proof fn law_paging_is_bounded(page: u32, got: u32, per_page: u32, total: u32, collected: u32, page_size: u32)
    ensures
        next_page_spec(page, got, per_page, total, collected, page_size) matches Some(p) ==> p == page + 1
            && p <= MAX_PAGES,
{
}

// ---------------------------------------------------------------------------
// Default flags from the environment
// ---------------------------------------------------------------------------

/// `--no-env` anywhere on the command line turns the defaults off and
/// silences the note: no variable is consulted at all.
pub proof fn law_no_env_disables_defaults(args: Seq<Seq<char>>, k: int)
    requires
        0 <= k < args.len(),
        args[k] == "--no-env"@,
    ensures
        defaults_target(args) is None,
        injection_spec(args) is None,
{
}

/// A flag given after the subcommand path turns the defaults off; what they
/// would have been is still reported, as held back by a manual flag.
pub proof fn law_user_flag_disables_defaults(args: Seq<Seq<char>>, k: int, value: Option<Seq<char>>)
    requires
        command_path(args).1 <= k < args.len(),
        is_flag(args[k]),
        args[k] != "--no-env"@,
    ensures
        injection_spec(args) is None,
        defaults_target(args) matches Some((key, _, manual)) ==> manual && (note_spec(key, value, manual) is Some
            <==> (value matches Some(v) && trim_seq(v).len() > 0)),
{
}

/// Without a manual flag, a note that defaults were applied is given exactly
/// when inserting them lengthens the command line.
pub proof fn law_applied_note_iff_changed(args: Seq<Seq<char>>, at: int, key: Seq<char>, value: Option<Seq<char>>)
    requires
        0 <= at <= args.len(),
    ensures
        note_spec(key, value, false) is Some <==> inject_spec(args, at, value).len() > args.len(),
        note_spec(key, value, false) is None ==> inject_spec(args, at, value) == args,
{
}

/// Inserting defaults keeps the user's arguments, in order, around them.
pub proof fn law_defaults_keep_user_args(args: Seq<Seq<char>>, at: int, value: Option<Seq<char>>)
    requires
        0 <= at <= args.len(),
    ensures
        inject_spec(args, at, value).take(at) == args.take(at),
        inject_spec(args, at, value).skip(inject_spec(args, at, value).len() - (args.len() - at)) == args.skip(at),
{
    let r = inject_spec(args, at, value);
    assert(r.take(at) =~= args.take(at));
    assert(r.skip(r.len() - (args.len() - at)) =~= args.skip(at));
}


// ---------------------------------------------------------------------------
// Departments
// ---------------------------------------------------------------------------

/// No row comes after a row whose name is greater.
pub open spec fn sorted_by_name(s: Seq<RowView>) -> bool {
    forall|i: int, j: int| 0 <= i < j < s.len() ==> !lex_lt((#[trigger] s[j]).name, (#[trigger] s[i]).name)
}

/// No two rows share a key.
pub open spec fn keys_distinct(s: Seq<KeyedRow>) -> bool {
    forall|i: int, j: int| 0 <= i < j < s.len() ==> row_key(#[trigger] s[i]) != row_key(#[trigger] s[j])
}

proof fn lemma_insert_by_name_position(x: RowView, s: Seq<RowView>) -> (p: int)
    ensures
        0 <= p <= s.len(),
        insert_by_name(x, s) == s.insert(p, x),
        forall|j: int| 0 <= j < p ==> !lex_lt(x.name, (#[trigger] s[j]).name),
        p < s.len() ==> lex_lt(x.name, s[p].name),
    decreases s.len(),
{
    if s.len() == 0 {
        assert(s.insert(0, x) =~= seq![x]);
        0
    } else if lex_lt(x.name, s[0].name) {
        assert(s.insert(0, x) =~= seq![x] + s);
        0
    } else {
        let t = s.drop_first();
        let q = lemma_insert_by_name_position(x, t);
        assert(s.insert(q + 1, x) =~= seq![s[0]] + t.insert(q, x));
        assert forall|j: int| 0 <= j < q + 1 implies !lex_lt(x.name, (#[trigger] s[j]).name) by {
            if j > 0 {
                assert(s[j] == t[j - 1]);
            }
        }
        if q < t.len() {
            assert(s[q + 1] == t[q]);
        }
        q + 1
    }
}

proof fn lemma_sort_by_name(s: Seq<RowView>)
    ensures
        sorted_by_name(sort_by_name(s)),
        sort_by_name(s).to_multiset() == s.to_multiset(),
    decreases s.len(),
{
    broadcast use vstd::seq_lib::to_multiset_insert;
    if s.len() > 0 {
        let init = s.drop_last();
        let x = s.last();
        lemma_sort_by_name(init);
        let t = sort_by_name(init);
        let p = lemma_insert_by_name_position(x, t);
        let r = t.insert(p, x);
        assert(init.insert(init.len() as int, x) =~= s);
        assert forall|i: int, j: int| 0 <= i < j < r.len() implies !lex_lt((#[trigger] r[j]).name, (#[trigger] r[i]).name) by {
            if j < p {
                assert(r[i] == t[i] && r[j] == t[j]);
            } else if j == p {
                assert(r[i] == t[i] && r[j] == x);
            } else if i == p {
                assert(r[i] == x && r[j] == t[j - 1]);
                if lex_lt(t[j - 1].name, x.name) {
                    lemma_lex_lt_transitive(t[j - 1].name, x.name, t[p].name);
                    if j - 1 == p {
                        crate::textops::lemma_lex_lt_irreflexive(t[p].name);
                    } else {
                        assert(!lex_lt(t[j - 1].name, t[p].name));
                    }
                }
            } else if i < p {
                assert(r[i] == t[i] && r[j] == t[j - 1]);
            } else {
                assert(r[i] == t[i - 1] && r[j] == t[j - 1]);
            }
        }
    }
}

proof fn lemma_dedup_rows(s: Seq<KeyedRow>, seen: Set<(Seq<char>, Seq<char>)>)
    ensures
        keys_distinct(dedup_rows(s, seen)),
        forall|k: int| 0 <= k < dedup_rows(s, seen).len() ==> !seen.contains(row_key(#[trigger] dedup_rows(s, seen)[k])),
        forall|k: int| 0 <= k < dedup_rows(s, seen).len() ==> s.contains(#[trigger] dedup_rows(s, seen)[k]),
        forall|j: int| 0 <= j < s.len() && !seen.contains(row_key(#[trigger] s[j])) ==> exists|k: int|
            0 <= k < dedup_rows(s, seen).len() && row_key(dedup_rows(s, seen)[k]) == row_key(s[j]),
    decreases s.len(),
{
    if s.len() > 0 {
        let t = s.drop_first();
        if seen.contains(row_key(s[0])) {
            lemma_dedup_rows(t, seen);
            let d = dedup_rows(s, seen);
            assert forall|k: int| 0 <= k < d.len() implies s.contains(#[trigger] d[k]) by {
                let q = choose|q: int| 0 <= q < t.len() && t[q] == d[k];
                assert(s[q + 1] == d[k]);
            }
            assert forall|j: int| 0 <= j < s.len() && !seen.contains(row_key(#[trigger] s[j])) implies exists|k: int|
                0 <= k < d.len() && row_key(d[k]) == row_key(s[j]) by {
                assert(t[j - 1] == s[j]);
            }
        } else {
            let seen2 = seen.insert(row_key(s[0]));
            lemma_dedup_rows(t, seen2);
            let d = dedup_rows(s, seen);
            let rest = dedup_rows(t, seen2);
            assert(d == seq![s[0]] + rest);
            assert forall|k: int| 0 <= k < d.len() implies !seen.contains(row_key(#[trigger] d[k])) by {
                if k > 0 {
                    assert(d[k] == rest[k - 1]);
                }
            }
            assert forall|i: int, j: int| 0 <= i < j < d.len() implies row_key(#[trigger] d[i]) != row_key(#[trigger] d[j]) by {
                assert(d[j] == rest[j - 1]);
                if i > 0 {
                    assert(d[i] == rest[i - 1]);
                }
            }
            assert forall|k: int| 0 <= k < d.len() implies s.contains(#[trigger] d[k]) by {
                if k == 0 {
                    assert(s[0] == d[0]);
                } else {
                    assert(d[k] == rest[k - 1]);
                    let q = choose|q: int| 0 <= q < t.len() && t[q] == rest[k - 1];
                    assert(s[q + 1] == d[k]);
                }
            }
            assert forall|j: int| 0 <= j < s.len() && !seen.contains(row_key(#[trigger] s[j])) implies exists|k: int|
                0 <= k < d.len() && row_key(d[k]) == row_key(s[j]) by {
                if j == 0 || row_key(s[j]) == row_key(s[0]) {
                    assert(row_key(d[0]) == row_key(s[j]));
                } else {
                    assert(t[j - 1] == s[j]);
                    let k = choose|k: int| 0 <= k < rest.len() && row_key(rest[k]) == row_key(t[j - 1]);
                    assert(d[k + 1] == rest[k]);
                }
            }
        }
    }
}

/// The department list is sorted by name, and is made of the collected rows
/// kept once per (department id, sub-department id or empty) key: the kept
/// rows have distinct keys, every key of the people's rows is kept, and the
/// list holds exactly the kept rows.
pub proof fn law_departments_sorted_and_unique(people: Seq<RawPersonRecord>)
    ensures
        sorted_by_name(collect_departments_spec(people)),
        keys_distinct(dedup_rows(people_rows(people), Set::empty())),
        forall|j: int| 0 <= j < people_rows(people).len() ==> exists|k: int|
            0 <= k < dedup_rows(people_rows(people), Set::empty()).len() && row_key(
                dedup_rows(people_rows(people), Set::empty())[k],
            ) == row_key(#[trigger] people_rows(people)[j]),
        collect_departments_spec(people).to_multiset() == rows_of(
            dedup_rows(people_rows(people), Set::empty()),
        ).to_multiset(),
{
    let rows = people_rows(people);
    lemma_dedup_rows(rows, Set::empty());
    lemma_sort_by_name(rows_of(dedup_rows(rows, Set::empty())));
    assert forall|j: int| 0 <= j < rows.len() implies exists|k: int|
        0 <= k < dedup_rows(rows, Set::empty()).len() && row_key(dedup_rows(rows, Set::empty())[k]) == row_key(
            #[trigger] rows[j],
        ) by {
        assert(!Set::<(Seq<char>, Seq<char>)>::empty().contains(row_key(rows[j])));
    }
}

// ---------------------------------------------------------------------------
// The order of days
// ---------------------------------------------------------------------------

proof fn lemma_day_step(y: int, m: int, d: int)
    requires
        1 <= m <= 12,
    ensures
        day_number(y, m, d + 1) == day_number(y, m, d) + 1,
{
}

/// The days of the year counted from March, for a year `r` of a
/// 400-year cycle, up to the start of that year.
spec fn cycle_days(r: int) -> int {
    r * 365 + r / 4 - r / 100
}

proof fn lemma_cycle_step(r: int)
    requires
        1 <= r < 400,
    ensures
        cycle_days(r) - cycle_days(r - 1) == 365 + (if r % 4 == 0 { 1int } else { 0int }) - (if r % 100 == 0 {
            1int
        } else {
            0int
        }),
{
}

proof fn lemma_feb_days(y: int)
    ensures
        day_number(y, 3, 1) == day_number(y, 2, 1) + days_in_month(y, 2),
{
    let q = y / 400;
    let r = y % 400;
    vstd::arithmetic::div_mod::lemma_fundamental_div_mod(y, 400);
    let q1 = (y - 1) / 400;
    let r1 = (y - 1) % 400;
    vstd::arithmetic::div_mod::lemma_fundamental_div_mod(y - 1, 400);
    assert(day_number(y, 3, 1) == q * 146097 + cycle_days(r) - 719468);
    assert(day_number(y, 2, 1) == q1 * 146097 + cycle_days(r1) + 337 - 719468);
    vstd::arithmetic::div_mod::lemma_mod_multiples_vanish(100 * q, r, 4);
    vstd::arithmetic::div_mod::lemma_mod_multiples_vanish(4 * q, r, 100);
    assert(y % 4 == r % 4);
    assert(y % 100 == r % 100);
    if r == 0 {
        assert(q1 == q - 1 && r1 == 399);
        assert(cycle_days(399) == 145731);
    } else {
        assert(q1 == q && r1 == r - 1);
        lemma_cycle_step(r);
    }
}

proof fn lemma_month_step(y: int, m: int)
    requires
        1 <= m < 12,
    ensures
        day_number(y, m + 1, 1) == day_number(y, m, 1) + days_in_month(y, m),
{
    if m == 2 {
        lemma_feb_days(y);
    }
}

proof fn lemma_new_year(y: int)
    ensures
        day_number(y + 1, 1, 1) == day_number(y, 12, 1) + 31,
{
}

proof fn lemma_within_month(y: int, m: int, d: int)
    requires
        1 <= m <= 12,
        1 <= d,
    ensures
        day_number(y, m, d) == day_number(y, m, 1) + d - 1,
    decreases d,
{
    if d > 1 {
        lemma_within_month(y, m, d - 1);
        lemma_day_step(y, m, d - 1);
    }
}

proof fn lemma_month_starts_grow(y: int, m1: int, m2: int)
    requires
        1 <= m1 < m2 <= 12,
    ensures
        day_number(y, m2, 1) >= day_number(y, m1, 1) + days_in_month(y, m1),
    decreases m2 - m1,
{
    lemma_month_step(y, m2 - 1);
    if m1 < m2 - 1 {
        lemma_month_starts_grow(y, m1, m2 - 1);
    }
}

proof fn lemma_year_starts_grow(y1: int, y2: int)
    requires
        y1 < y2,
    ensures
        day_number(y2, 1, 1) >= day_number(y1 + 1, 1, 1),
    decreases y2 - y1,
{
    if y1 + 1 < y2 {
        lemma_year_starts_grow(y1, y2 - 1);
        lemma_new_year(y2 - 1);
        lemma_month_starts_grow(y2 - 1, 1, 12);
    }
}

/// The last day of a month lies before the first day of the next year.
proof fn lemma_before_new_year(y: int, m: int, d: int)
    requires
        1 <= m <= 12,
        1 <= d <= days_in_month(y, m),
    ensures
        day_number(y, m, d) < day_number(y + 1, 1, 1),
{
    lemma_within_month(y, m, d);
    lemma_new_year(y);
    if m < 12 {
        lemma_month_starts_grow(y, m, 12);
    }
}

proof fn lemma_earlier_day_smaller(a: Date, b: Date)
    requires
        a.is_valid(),
        b.is_valid(),
        date_before(a, b),
    ensures
        a.days() < b.days(),
{
    let (ay, am, ad) = (a.year as int, a.month as int, a.day as int);
    let (by, bm, bd) = (b.year as int, b.month as int, b.day as int);
    lemma_within_month(ay, am, ad);
    lemma_within_month(by, bm, bd);
    if ay < by {
        lemma_before_new_year(ay, am, ad);
        lemma_year_starts_grow(ay, by);
        if bm > 1 {
            lemma_month_starts_grow(by, 1, bm);
        }
    } else if am < bm {
        lemma_month_starts_grow(ay, am, bm);
    }
}

/// One day is earlier than another exactly when it comes before it in the
/// calendar, counted in days: for real days, `date_before` is the order of
/// their day numbers.
pub proof fn law_date_order_is_day_order(a: Date, b: Date)
    requires
        a.is_valid(),
        b.is_valid(),
    ensures
        date_before(a, b) <==> a.days() < b.days(),
{
    if date_before(a, b) {
        lemma_earlier_day_smaller(a, b);
    } else if date_before(b, a) {
        lemma_earlier_day_smaller(b, a);
    } else {
        assert(a.year == b.year && a.month == b.month && a.day == b.day);
    }
}

/// The usage filters compare days: `--used-within` keeps a song last used on
/// or after the window's first day, `--not-used-within` keeps one not used
/// since, or never used.
pub proof fn law_usage_filters_compare_days(last: Option<Date>, used_start: Option<Date>, not_used_start: Option<Date>)
    requires
        last matches Some(l) ==> l.is_valid(),
        used_start matches Some(s) ==> s.is_valid(),
        not_used_start matches Some(s) ==> s.is_valid(),
    ensures
        usage_keeps(last, used_start, not_used_start) <==> ((used_start matches Some(s) ==> (last matches Some(l)
            && l.days() >= s.days())) && (not_used_start matches Some(s) ==> (last matches Some(l) ==> l.days()
            < s.days()))),
{
    if let Some(l) = last {
        if let Some(s) = used_start {
            law_date_order_is_day_order(l, s);
        }
        if let Some(s) = not_used_start {
            law_date_order_is_day_order(l, s);
        }
    }
}

/// A song's last use is the latest day of the services that used it: no
/// such service is on a later day, and the day found is one of theirs.
pub proof fn law_last_use_is_latest_day(services: Seq<RawService>, id: Seq<char>)
    requires
        forall|k: int| 0 <= k < services.len() ==> (service_day_spec(#[trigger] services[k].date@) matches Some(d)
            ==> d.is_valid()),
    ensures
        forall|k: int|
            0 <= k < services.len() && (service_day_spec(#[trigger] services[k].date@) matches Some(d))
                && services[k].song_id_stream().contains(id) ==> (last_used_of(services, id) matches Some(l)
                && l.days() >= service_day_spec(services[k].date@)->Some_0.days()),
        last_used_of(services, id) matches Some(l) ==> exists|k: int|
            0 <= k < services.len() && service_day_spec(#[trigger] services[k].date@) == Some(l)
                && services[k].song_id_stream().contains(id),
    decreases services.len(),
{
    if services.len() > 0 {
        let t = services.drop_last();
        assert forall|k: int| 0 <= k < t.len() implies (service_day_spec(#[trigger] t[k].date@) matches Some(d)
            ==> d.is_valid()) by {
            assert(t[k] == services[k]);
        }
        law_last_use_is_latest_day(t, id);
        let prev = last_used_of(t, id);
        let x = services.last();
        let r = last_used_of(services, id);
        assert(services[services.len() - 1] == x);
        match service_day_spec(x.date@) {
            Some(d) => {
                if x.song_id_stream().contains(id) {
                    if let Some(p) = prev {
                        law_date_order_is_day_order(p, d);
                        let k0 = choose|k: int|
                            0 <= k < t.len() && service_day_spec(#[trigger] t[k].date@) == Some(p)
                                && t[k].song_id_stream().contains(id);
                        assert(t[k0] == services[k0]);
                    }
                }
            },
            None => {},
        }
        assert forall|k: int|
            0 <= k < services.len() && (service_day_spec(#[trigger] services[k].date@) matches Some(d))
                && services[k].song_id_stream().contains(id) implies (r matches Some(l) && l.days()
                >= service_day_spec(services[k].date@)->Some_0.days()) by {
            if k < services.len() - 1 {
                assert(t[k] == services[k]);
            }
        }
        if r is Some && r == prev {
            let k0 = choose|k: int|
                0 <= k < t.len() && service_day_spec(#[trigger] t[k].date@) == r && t[k].song_id_stream().contains(id);
            assert(t[k0] == services[k0]);
        }
    }
}

// ---------------------------------------------------------------------------
// Songs led by one person
// ---------------------------------------------------------------------------

/// The distinct leaders named by the uses of a song; a use whose leader is
/// unknown (empty) names none.
pub open spec fn named_leaders(uses: Seq<UseView>) -> Set<Seq<char>> {
    Set::new(|l: Seq<char>| l.len() > 0 && exists|i: int| 0 <= i < uses.len() && #[trigger] uses[i].1 == l)
}

/// A song counts as led by one person exactly when its uses name exactly
/// one distinct leader; uses with no leader do not count against it.
pub proof fn law_single_leader_is_one_named_leader(uses: Seq<UseView>)
    ensures
        single_leader(uses) <==> exists|l: Seq<char>| named_leaders(uses) == set![l],
{
    if single_leader(uses) {
        let l = choose|l: Seq<char>| led_only_by(uses, l);
        assert(named_leaders(uses) =~= set![l]);
    }
    if exists|l: Seq<char>| named_leaders(uses) == set![l] {
        let l = choose|l: Seq<char>| named_leaders(uses) == set![l];
        assert(set![l].contains(l));
        assert(named_leaders(uses).contains(l));
        assert forall|i: int| 0 <= i < uses.len() && (#[trigger] uses[i]).1.len() > 0 implies uses[i].1 == l by {
            assert(named_leaders(uses).contains(uses[i].1));
        }
        assert(led_only_by(uses, l));
    }
}

// ---------------------------------------------------------------------------
// Every roster position is shown
// ---------------------------------------------------------------------------

/// The row shows position `p`: its department, sub-department and position
/// names, and no one named when nobody volunteers for it.
pub open spec fn position_shown(r: VolunteerRowView, p: RawPosition) -> bool {
    &&& r.department == p.department_name@
    &&& r.sub_department == p.sub_department_name@
    &&& r.position == p.position_name@
    &&& p.volunteers.volunteer@.len() == 0 ==> r.name is None
}

/// Some row of `rows` shows position `p`.
pub open spec fn shown_in(rows: Seq<VolunteerRowView>, p: RawPosition) -> bool {
    exists|j: int| 0 <= j < rows.len() && #[trigger] position_shown(rows[j], p)
}

proof fn lemma_each_position_has_a_row(ps: Seq<RawPosition>)
    ensures
        forall|k: int| 0 <= k < ps.len() ==> shown_in(positions_rows(ps), #[trigger] ps[k]),
    decreases ps.len(),
{
    if ps.len() > 0 {
        let t = ps.drop_last();
        lemma_each_position_has_a_row(t);
        let a = positions_rows(t);
        let b = position_rows(ps.last());
        let rows = positions_rows(ps);
        assert(rows == a + b);
        assert forall|k: int| 0 <= k < ps.len() implies shown_in(rows, #[trigger] ps[k]) by {
            if k < ps.len() - 1 {
                assert(t[k] == ps[k]);
                assert(shown_in(a, t[k]));
                let j = choose|j: int| 0 <= j < a.len() && #[trigger] position_shown(a[j], t[k]);
                assert(rows[j] == a[j]);
                assert(position_shown(rows[j], ps[k]));
            } else {
                let p = ps.last();
                assert(b.len() > 0);
                assert(rows[a.len() as int] == b[0]);
                assert(position_shown(rows[a.len() as int], ps[k]));
            }
        }
    }
}

/// Every position of a service's roster is shown: some row carries its
/// department, sub-department and position, and a position that nobody
/// fills still has a row, with no one named.
pub proof fn law_every_position_is_shown(svc: RawService)
    ensures
        forall|k: int|
            0 <= k < roster_positions(svc).len() ==> shown_in(
                positions_rows(roster_positions(svc)),
                #[trigger] roster_positions(svc)[k],
            ),
{
    lemma_each_position_has_a_row(roster_positions(svc));
}

/// Without `--hide-unfilled` and department filters, every roster row is
/// kept, unfilled ones included.
pub proof fn law_rows_all_kept_by_default(rows: Seq<VolunteerRow>)
    ensures
        rows_kept(rows, Seq::empty(), false) == rows,
    decreases rows.len(),
{
    if rows.len() > 0 {
        law_rows_all_kept_by_default(rows.drop_last());
        assert(rows.drop_last().push(rows.last()) =~= rows);
    }
}

// ---------------------------------------------------------------------------
// Name and path lookups: exact, then by the start of the last segment
// ---------------------------------------------------------------------------

/// The path ends with the query segments, ignoring ASCII case.
pub open spec fn ends_with_segments(path: Seq<Seq<char>>, segs: Seq<Seq<char>>) -> bool {
    &&& 0 < segs.len() <= path.len()
    &&& forall|j: int| 0 <= j < segs.len() ==> lower_seq(#[trigger] path[path.len() - segs.len() + j]) == lower_seq(segs[j])
}

/// The path ends with the query segments, ignoring ASCII case, except that
/// the last query segment need only be how the path's last segment starts.
pub open spec fn ends_with_segments_last_started(path: Seq<Seq<char>>, segs: Seq<Seq<char>>) -> bool {
    &&& 0 < segs.len() <= path.len()
    &&& forall|j: int|
        0 <= j < segs.len() - 1 ==> lower_seq(#[trigger] path[path.len() - segs.len() + j]) == lower_seq(segs[j])
    &&& segs.last().len() <= path.last().len()
    &&& forall|c: int| 0 <= c < segs.last().len() ==> lower_char(#[trigger] path.last()[c]) == lower_char(segs.last()[c])
}

proof fn lemma_tiers_are_fits(n: NodeView, segs: Seq<Seq<char>>)
    ensures
        tier_match(n, segs, true) <==> ends_with_segments(n.path, segs),
        tier_match(n, segs, false) <==> ends_with_segments_last_started(n.path, segs),
{
    let p = n.path;
    if 0 < segs.len() <= p.len() {
        let a = lower_seq(p.last());
        let b = lower_seq(segs.last());
        if segs.last().len() <= p.last().len() {
            if has_prefix(a, b) {
                assert forall|c: int| 0 <= c < segs.last().len() implies lower_char(#[trigger] p.last()[c])
                    == lower_char(segs.last()[c]) by {
                    assert(a.subrange(0, b.len() as int)[c] == b[c]);
                }
            }
            if forall|c: int| 0 <= c < segs.last().len() ==> lower_char(#[trigger] p.last()[c]) == lower_char(
                segs.last()[c],
            ) {
                assert(a.subrange(0, b.len() as int) =~= b);
            }
        }
        assert(tier_match(n, segs, true) <==> ends_with_segments(n.path, segs)) by {
            if ends_with_segments(p, segs) {
                assert forall|j: int| 0 <= j < segs.len() implies crate::textops::eq_ignore_case(
                    #[trigger] p[p.len() - segs.len() + j],
                    segs[j],
                ) by {
                    assert(lower_seq(p[p.len() - segs.len() + j]) == lower_seq(segs[j]));
                }
            }
            if tier_match(n, segs, true) {
                assert forall|j: int| 0 <= j < segs.len() implies lower_seq(#[trigger] p[p.len() - segs.len() + j])
                    == lower_seq(segs[j]) by {
                    assert(crate::textops::eq_ignore_case(p[p.len() - segs.len() + j], segs[j]));
                }
            }
        }
        assert(tier_match(n, segs, false) <==> ends_with_segments_last_started(n.path, segs)) by {
            if ends_with_segments_last_started(p, segs) {
                assert forall|j: int| 0 <= j < segs.len() - 1 implies crate::textops::eq_ignore_case(
                    #[trigger] p[p.len() - segs.len() + j],
                    segs[j],
                ) by {
                    assert(lower_seq(p[p.len() - segs.len() + j]) == lower_seq(segs[j]));
                }
            }
            if tier_match(n, segs, false) {
                assert forall|j: int| 0 <= j < segs.len() - 1 implies lower_seq(
                    #[trigger] p[p.len() - segs.len() + j],
                ) == lower_seq(segs[j]) by {
                    assert(crate::textops::eq_ignore_case(p[p.len() - segs.len() + j], segs[j]));
                }
            }
        }
    }
}

#[verifier::spinoff_prover]
proof fn lemma_tier_members_match(tree: Seq<NodeView>, segs: Seq<Seq<char>>, exact: bool, i: int)
    requires
        0 <= i <= tree.len(),
    ensures
        forall|k: int| 0 <= k < tier_matches_upto(tree, segs, exact, i).len() ==> exists|j: int|
            0 <= j < i && tree[j] == #[trigger] tier_matches_upto(tree, segs, exact, i)[k] && tier_match(
                tree[j],
                segs,
                exact,
            ),
    decreases i,
{
    if i > 0 {
        lemma_tier_members_match(tree, segs, exact, i - 1);
        let prev = tier_matches_upto(tree, segs, exact, i - 1);
        let cur = tier_matches_upto(tree, segs, exact, i);
        assert forall|k: int| 0 <= k < cur.len() implies exists|j: int|
            0 <= j < i && tree[j] == #[trigger] cur[k] && tier_match(tree[j], segs, exact) by {
            if k < prev.len() {
                assert(cur[k] == prev[k]);
                let j = choose|j: int| 0 <= j < i - 1 && tree[j] == #[trigger] prev[k] && tier_match(tree[j], segs, exact);
                assert(tree[j] == cur[k]);
            } else {
                assert(tree[i - 1] == cur[k]);
            }
        }
    }
}

proof fn lemma_tier_none(tree: Seq<NodeView>, segs: Seq<Seq<char>>, exact: bool, i: int)
    requires
        0 <= i <= tree.len(),
        forall|k: int| 0 <= k < tree.len() ==> !tier_match(#[trigger] tree[k], segs, exact),
    ensures
        tier_matches_upto(tree, segs, exact, i).len() == 0,
    decreases i,
{
    if i > 0 {
        lemma_tier_none(tree, segs, exact, i - 1);
    }
}

proof fn lemma_tier_single(tree: Seq<NodeView>, segs: Seq<Seq<char>>, exact: bool, i: int, i0: int)
    requires
        0 <= i <= tree.len(),
        0 <= i0 < tree.len(),
        tier_match(tree[i0], segs, exact),
        forall|k: int| 0 <= k < tree.len() && k != i0 ==> !tier_match(#[trigger] tree[k], segs, exact),
    ensures
        tier_matches_upto(tree, segs, exact, i) == (if i0 < i { seq![tree[i0]] } else { Seq::<NodeView>::empty() }),
    decreases i,
{
    if i > 0 {
        lemma_tier_single(tree, segs, exact, i - 1, i0);
        if i - 1 == i0 {
            assert(Seq::<NodeView>::empty().push(tree[i0]) =~= seq![tree[i0]]);
        }
    }
}

/// A name or path that no node matches exactly, but that starts the last
/// segment of exactly one node's path (the earlier segments matching in
/// full), resolves to that node; ASCII case is ignored throughout.
pub proof fn law_unique_start_resolves(query: Seq<char>, tree: Seq<NodeView>, i: int)
    requires
        trim_seq(query).len() > 0,
        !looks_like_id_spec(trim_seq(query)),
        forall|k: int| 0 <= k < tree.len() ==> !ends_with_segments(
            #[trigger] tree[k].path,
            split_query_spec(trim_seq(query)),
        ),
        0 <= i < tree.len(),
        ends_with_segments_last_started(tree[i].path, split_query_spec(trim_seq(query))),
        forall|k: int| 0 <= k < tree.len() && k != i ==> !ends_with_segments_last_started(
            #[trigger] tree[k].path,
            split_query_spec(trim_seq(query)),
        ),
    ensures
        resolve_spec(query, tree) == Ok::<Seq<char>, Seq<char>>(tree[i].id),
{
    let segs = split_query_spec(trim_seq(query));
    assert forall|k: int| 0 <= k < tree.len() implies !tier_match(#[trigger] tree[k], segs, true) by {
        lemma_tiers_are_fits(tree[k], segs);
    }
    assert forall|k: int| 0 <= k < tree.len() && k != i implies !tier_match(#[trigger] tree[k], segs, false) by {
        lemma_tiers_are_fits(tree[k], segs);
    }
    lemma_tiers_are_fits(tree[i], segs);
    lemma_tier_none(tree, segs, true, tree.len() as int);
    lemma_tier_single(tree, segs, false, tree.len() as int, i);
}

/// A name or path lookup that succeeds names a node whose path ends with the
/// query segments, or, failing any such node, one whose last segment starts
/// with the last query segment; ASCII case is ignored throughout.
pub proof fn law_name_lookup_fits(query: Seq<char>, tree: Seq<NodeView>)
    requires
        trim_seq(query).len() > 0,
        !looks_like_id_spec(trim_seq(query)),
    ensures
        resolve_spec(query, tree) matches Ok(id) ==> exists|k: int|
            0 <= k < tree.len() && (#[trigger] tree[k]).id == id && (ends_with_segments(
                tree[k].path,
                split_query_spec(trim_seq(query)),
            ) || ends_with_segments_last_started(tree[k].path, split_query_spec(trim_seq(query)))),
{
    let segs = split_query_spec(trim_seq(query));
    let n = tree.len() as int;
    lemma_tier_members_match(tree, segs, true, n);
    lemma_tier_members_match(tree, segs, false, n);
    if let Ok(id) = resolve_spec(query, tree) {
        let exact = tier_matches(tree, segs, true);
        let ex = if exact.len() == 1 { true } else { false };
        let m = tier_matches(tree, segs, ex);
        assert(m.len() == 1 && m[0].id == id);
        let j = choose|j: int| 0 <= j < n && tree[j] == #[trigger] tier_matches_upto(tree, segs, ex, n)[0] && tier_match(
            tree[j],
            segs,
            ex,
        );
        lemma_tiers_are_fits(tree[j], segs);
        assert(tree[j].id == id);
    }
}

/// A name or path whose segments end the path of exactly one node resolves
/// to that node, whatever other nodes merely start with it; ASCII case is
/// ignored throughout.
pub proof fn law_unique_exact_resolves(query: Seq<char>, tree: Seq<NodeView>, i: int)
    requires
        trim_seq(query).len() > 0,
        !looks_like_id_spec(trim_seq(query)),
        0 <= i < tree.len(),
        ends_with_segments(tree[i].path, split_query_spec(trim_seq(query))),
        forall|k: int| 0 <= k < tree.len() && k != i ==> !ends_with_segments(
            #[trigger] tree[k].path,
            split_query_spec(trim_seq(query)),
        ),
    ensures
        resolve_spec(query, tree) == Ok::<Seq<char>, Seq<char>>(tree[i].id),
{
    let segs = split_query_spec(trim_seq(query));
    assert forall|k: int| 0 <= k < tree.len() && k != i implies !tier_match(#[trigger] tree[k], segs, true) by {
        lemma_tiers_are_fits(tree[k], segs);
    }
    lemma_tiers_are_fits(tree[i], segs);
    lemma_tier_single(tree, segs, true, tree.len() as int, i);
}

/// Row `r` shows volunteer `v` on position `p`.
pub open spec fn volunteer_shown(r: VolunteerRowView, p: RawPosition, v: crate::api::raw::RawVolunteer) -> bool {
    &&& r.department == p.department_name@
    &&& r.sub_department == p.sub_department_name@
    &&& r.position == p.position_name@
    &&& r.person_id == (if v.person.id@.len() == 0 { None } else { Some(v.person.id@) })
    &&& r.name is Some || (v.person.firstname@.len() == 0 && v.person.preferred_name@.len() == 0
        && v.person.lastname@.len() == 0)
}

/// Some row of `rows` shows volunteer `v` on position `p`.
pub open spec fn volunteer_in(rows: Seq<VolunteerRowView>, p: RawPosition, v: crate::api::raw::RawVolunteer) -> bool {
    exists|j: int| 0 <= j < rows.len() && #[trigger] volunteer_shown(rows[j], p, v)
}

proof fn lemma_each_volunteer_has_a_row(ps: Seq<RawPosition>)
    ensures
        forall|k: int, m: int|
            0 <= k < ps.len() && 0 <= m < ps[k].volunteers.volunteer@.len() ==> volunteer_in(
                positions_rows(ps),
                ps[k],
                #[trigger] ps[k].volunteers.volunteer@[m],
            ),
    decreases ps.len(),
{
    if ps.len() > 0 {
        let t = ps.drop_last();
        lemma_each_volunteer_has_a_row(t);
        let a = positions_rows(t);
        let p = ps.last();
        let b = position_rows(p);
        let rows = positions_rows(ps);
        assert(rows == a + b);
        assert forall|k: int, m: int|
            0 <= k < ps.len() && 0 <= m < ps[k].volunteers.volunteer@.len() implies volunteer_in(
                rows,
                ps[k],
                #[trigger] ps[k].volunteers.volunteer@[m],
            ) by {
            let v = ps[k].volunteers.volunteer@[m];
            if k < ps.len() - 1 {
                assert(t[k] == ps[k]);
                assert(t[k].volunteers.volunteer@[m] == v);
                assert(volunteer_in(a, t[k], v));
                let j = choose|j: int| 0 <= j < a.len() && #[trigger] volunteer_shown(a[j], t[k], v);
                assert(rows[j] == a[j]);
                assert(volunteer_shown(rows[j], ps[k], v));
            } else {
                assert(b[m] == crate::domain::service::filled_row(p, v));
                assert(rows[a.len() + m] == b[m]);
                assert(volunteer_shown(rows[a.len() + m], ps[k], v));
            }
        }
    }
}

/// Every volunteer rostered on a service has a row: on their position, with
/// their person id, and with a name unless their record has none.
pub proof fn law_every_volunteer_is_shown(svc: RawService)
    ensures
        forall|k: int, m: int|
            0 <= k < roster_positions(svc).len() && 0 <= m < roster_positions(svc)[k].volunteers.volunteer@.len()
                ==> volunteer_in(
                positions_rows(roster_positions(svc)),
                roster_positions(svc)[k],
                #[trigger] roster_positions(svc)[k].volunteers.volunteer@[m],
            ),
{
    lemma_each_volunteer_has_a_row(roster_positions(svc));
}

} // verus!
