//! Song categories and the id helpers shared by list commands.
use vstd::prelude::*;
use crate::api::raw::RawCategory;
use crate::resolve::{dedupe, dedupe_spec, node_views, NodeKind, NodeView, TreeNode};
use crate::textops::{head_before, head_before_char, str_eq};

verus! {

/// A song category.
#[derive(Debug, Clone, PartialEq, Eq)]
pub struct Category {
    pub id: String,
    pub name: String,
}

impl From<RawCategory> for Category {
    fn from(raw: RawCategory) -> (r: Self) {
        Category { id: raw.id, name: raw.name }
    }
}

impl vstd::std_specs::convert::FromSpecImpl<RawCategory> for Category {
    open spec fn obeys_from_spec() -> bool {
        true
    }

    open spec fn from_spec(raw: RawCategory) -> Self {
        Category { id: raw.id, name: raw.name }
    }
}

/// The resolver nodes for the categories with a non-empty id, in order.
pub open spec fn category_nodes(cats: Seq<Category>) -> Seq<NodeView>
    decreases cats.len(),
{
    if cats.len() == 0 {
        Seq::empty()
    } else {
        let prev = category_nodes(cats.drop_last());
        let c = cats.last();
        if c.id@.len() == 0 {
            prev
        } else {
            prev.push(NodeView { id: c.id@, path: seq![c.name@], kind: NodeKind::Category })
        }
    }
}

/// The categories as resolver nodes: one single-segment path per category
/// with a non-empty id, duplicates (by id) dropped.
pub fn category_tree(cats: &[Category]) -> (r: Vec<TreeNode>)
    ensures
        node_views(r@) == dedupe_spec(category_nodes(cats@), Set::empty()),
{
    let n = cats.len();
    let mut out: Vec<TreeNode> = Vec::new();
    let mut i: usize = 0;
    while i < n
        invariant
            n == cats@.len(),
            i <= n,
            node_views(out@) == category_nodes(cats@.subrange(0, i as int)),
        decreases n - i,
    {
        let ghost before = out@;
        let c = &cats[i];
        if c.id.as_str().unicode_len() > 0 {
            let mut path: Vec<String> = Vec::new();
            path.push(c.name.clone());
            out.push(TreeNode { id: c.id.clone(), path, kind: NodeKind::Category });
            proof {
                assert(crate::textops::views(path@) =~= seq![c.name@]);
            }
        }
        i = i + 1;
        proof {
            assert(cats@.subrange(0, i as int).drop_last() =~= cats@.subrange(0, i - 1));
            assert(node_views(out@) =~= category_nodes(cats@.subrange(0, i as int)));
        }
    }
    proof {
        assert(cats@.subrange(0, n as int) =~= cats@);
    }
    dedupe(out)
}

/// The first dash-separated block of an id (the whole id when it has no dash).
pub fn short_id(id: &str) -> (r: &str)
    ensures
        r@ == head_before(id@, '-'),
{
    head_before_char(id, '-')
}

/// `requested` is the full id or its first block (exact, case-sensitive).
pub open spec fn category_id_matches(full: Seq<char>, requested: Seq<char>) -> bool {
    full == requested || head_before(full, '-') == requested
}

/// Whether `requested` names `full_id`, in full or by its first block.
pub fn id_matches(full_id: &str, requested: &str) -> (r: bool)
    ensures
        r == category_id_matches(full_id@, requested@),
{
    str_eq(full_id, requested) || str_eq(short_id(full_id), requested)
}

} // verus!
