//! Choosing which arrangement of a song a command works on.
use vstd::prelude::*;
use crate::domain::arrangement::Arrangement;
use crate::domain::category::{category_id_matches, id_matches, short_id};
use crate::error::CliError;
use crate::textops::{
    debug_quoted, debug_str, eq_ignore_ascii_case, eq_ignore_case, head_before, join, join_seqs,
    to_owned, views,
};

verus! {

/// The chosen arrangement and the others, in their given order.
#[derive(Debug)]
pub struct Selection<'a> {
    pub chosen: &'a Arrangement,
    pub others: Vec<&'a Arrangement>,
}

/// The index of the first arrangement satisfying the id request.
pub open spec fn first_id_index(arrs: Seq<Arrangement>, id: Seq<char>, from: int) -> Option<int>
    decreases arrs.len() - from,
{
    if from < 0 || from >= arrs.len() {
        None
    } else if category_id_matches(arrs[from].id@, id) {
        Some(from)
    } else {
        first_id_index(arrs, id, from + 1)
    }
}

/// The index of the first arrangement named `Default` (any ASCII case).
pub open spec fn first_default_index(arrs: Seq<Arrangement>, from: int) -> Option<int>
    decreases arrs.len() - from,
{
    if from < 0 || from >= arrs.len() {
        None
    } else if eq_ignore_case(arrs[from].name@, "Default"@) {
        Some(from)
    } else {
        first_default_index(arrs, from + 1)
    }
}

/// The index chosen: the first arrangement the requested id names (full or
/// first block), or without a request the first named `Default`, else the
/// first one.
pub open spec fn chosen_index(arrs: Seq<Arrangement>, requested: Option<Seq<char>>) -> Option<int> {
    match requested {
        Some(id) => first_id_index(arrs, id, 0),
        None => match first_default_index(arrs, 0) {
            Some(i) => Some(i),
            None => Some(0),
        },
    }
}

/// One entry of the list of available arrangements: `short-id (name)`.
pub open spec fn available_entry(a: Arrangement) -> Seq<char> {
    head_before(a.id@, '-') + " ("@ + a.name@ + ")"@
}

/// The usage message for a requested id that names no arrangement.
pub open spec fn not_found_message(id: Seq<char>, arrs: Seq<Arrangement>) -> Seq<char> {
    "arrangement id "@ + debug_str(id) + " not found; available: "@ + join_seqs(
        arrs.map_values(|a: Arrangement| available_entry(a)),
        ", "@,
    )
}

/// The view of an optional string argument.
pub open spec fn opt_str_view(o: Option<&str>) -> Option<Seq<char>> {
    match o {
        Some(s) => Some(s@),
        None => None,
    }
}

proof fn lemma_first_id_index(arrs: Seq<Arrangement>, id: Seq<char>, from: int)
    requires
        0 <= from <= arrs.len(),
    ensures
        match first_id_index(arrs, id, from) {
            Some(i) => from <= i < arrs.len() && category_id_matches(arrs[i].id@, id) && forall|j: int|
                from <= j < i ==> !category_id_matches(#[trigger] arrs[j].id@, id),
            None => forall|j: int| from <= j < arrs.len() ==> !category_id_matches(#[trigger] arrs[j].id@, id),
        },
    decreases arrs.len() - from,
{
    if from < arrs.len() {
        lemma_first_id_index(arrs, id, from + 1);
    }
}

proof fn lemma_first_default_index(arrs: Seq<Arrangement>, from: int)
    requires
        0 <= from <= arrs.len(),
    ensures
        match first_default_index(arrs, from) {
            Some(i) => from <= i < arrs.len(),
            None => true,
        },
    decreases arrs.len() - from,
{
    if from < arrs.len() {
        lemma_first_default_index(arrs, from + 1);
    }
}

/// Picks an arrangement: the one `requested` names by id, or else the one
/// named `Default`, or else the first. Fails when there are none, or when the
/// requested id names none (listing the available ones).
pub fn select<'a>(arrangements: &'a [Arrangement], requested: Option<&str>) -> (r: Result<
    Selection<'a>,
    CliError,
>)
    ensures
        arrangements@.len() == 0 ==> (r matches Err(CliError::NotFound(m)) && m@
            == "song has no arrangements"@),
        arrangements@.len() > 0 ==> match chosen_index(arrangements@, opt_str_view(requested)) {
            Some(i) => (r matches Ok(sel) && 0 <= i < arrangements@.len() && *sel.chosen
                == arrangements@[i] && sel.others@.len() + 1 == arrangements@.len() && forall|j: int|
                0 <= j < sel.others@.len() ==> *(#[trigger] sel.others@[j]) == if j < i {
                    arrangements@[j]
                } else {
                    arrangements@[j + 1]
                }),
            None => (r matches Err(CliError::Usage(m)) && m@ == not_found_message(
                requested.unwrap()@,
                arrangements@,
            )),
        },
{
    let n = arrangements.len();
    if n == 0 {
        return Err(CliError::NotFound(to_owned("song has no arrangements")));
    }
    let chosen_idx: usize = match requested {
        Some(id) => {
            let mut i: usize = 0;
            while i < n && !id_matches(arrangements[i].id.as_str(), id)
                invariant
                    n == arrangements@.len(),
                    i <= n,
                    first_id_index(arrangements@, id@, 0) == first_id_index(
                        arrangements@,
                        id@,
                        i as int,
                    ),
                decreases n - i,
            {
                i = i + 1;
            }
            if i == n {
                let mut entries: Vec<String> = Vec::new();
                let mut k: usize = 0;
                while k < n
                    invariant
                        n == arrangements@.len(),
                        k <= n,
                        views(entries@) == arrangements@.subrange(0, k as int).map_values(
                            |a: Arrangement| available_entry(a),
                        ),
                    decreases n - k,
                {
                    let a = &arrangements[k];
                    let mut e = to_owned(short_id(a.id.as_str()));
                    e.append(" (");
                    e.append(a.name.as_str());
                    e.append(")");
                    let ghost before = entries@;
                    entries.push(e);
                    k = k + 1;
                    proof {
                        let f = |a: Arrangement| available_entry(a);
                        assert(views(entries@) =~= views(before).push(available_entry(arrangements@[k - 1])));
                        assert(arrangements@.subrange(0, k as int).map_values(f) =~= arrangements@.subrange(
                            0,
                            k - 1,
                        ).map_values(f).push(available_entry(arrangements@[k - 1])));
                    }
                }
                proof {
                    assert(arrangements@.subrange(0, n as int) =~= arrangements@);
                }
                let mut m = to_owned("arrangement id ");
                let d = debug_quoted(id);
                m.append(d.as_str());
                m.append(" not found; available: ");
                let list = join(&entries, ", ");
                m.append(list.as_str());
                return Err(CliError::Usage(m));
            }
            proof {
                lemma_first_id_index(arrangements@, id@, i as int);
            }
            i
        },
        None => {
            let mut i: usize = 0;
            while i < n && !eq_ignore_ascii_case(arrangements[i].name.as_str(), "Default")
                invariant
                    n == arrangements@.len(),
                    i <= n,
                    first_default_index(arrangements@, 0) == first_default_index(
                        arrangements@,
                        i as int,
                    ),
                decreases n - i,
            {
                i = i + 1;
            }
            if i == n {
                0
            } else {
                i
            }
        },
    };
    let chosen = &arrangements[chosen_idx];
    let mut others: Vec<&'a Arrangement> = Vec::new();
    let mut k: usize = 0;
    while k < n
        invariant
            n == arrangements@.len(),
            chosen_idx < n,
            k <= n,
            others@.len() == if k <= chosen_idx { k as int } else { k - 1 },
            forall|j: int|
                0 <= j < others@.len() ==> *(#[trigger] others@[j]) == if j < chosen_idx {
                    arrangements@[j]
                } else {
                    arrangements@[j + 1]
                },
        decreases n - k,
    {
        if k != chosen_idx {
            others.push(&arrangements[k]);
        }
        k = k + 1;
    }
    Ok(Selection { chosen, others })
}

} // verus!
