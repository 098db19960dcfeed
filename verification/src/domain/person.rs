//! People and the department list built from them.
use vstd::prelude::*;
use crate::api::raw::{
    display_name_from, display_name_spec, RawPersonDepartment, RawPersonRecord,
    RawPersonSubDepartment,
};
use crate::domain::{none_if_empty, none_if_empty_spec};
use crate::textops::{eq_ignore_ascii_case, eq_ignore_case, lex_lt, lower_seq, str_lt, to_lower, to_owned};

verus! {

/// A person, normalised for listing.
#[derive(Debug, Clone, PartialEq, Eq)]
pub struct Person {
    pub id: String,
    pub name: String,
    pub email: Option<String>,
    pub status: String,
    pub departments: Vec<PersonDepartmentEntry>,
}

/// One (department, sub-department) membership of a person.
#[derive(Debug, Clone, PartialEq, Eq)]
pub struct PersonDepartmentEntry {
    pub department: String,
    pub sub_department: Option<String>,
}

/// The view of an optional string.
pub open spec fn opt_view(o: Option<String>) -> Option<Seq<char>> {
    match o {
        Some(s) => Some(s@),
        None => None,
    }
}

/// An entry matches a filter when its department or sub-department equals
/// it, ignoring ASCII case.
pub open spec fn entry_matches(e: PersonDepartmentEntry, f: Seq<char>) -> bool {
    eq_ignore_case(e.department@, f) || (e.sub_department matches Some(s) && eq_ignore_case(s@, f))
}

/// A person matches the filters when there are none, or when some entry
/// matches some filter.
pub open spec fn matches_department_spec(p: Person, filters: Seq<String>) -> bool {
    filters.len() == 0 || exists|i: int, j: int|
        0 <= i < filters.len() && 0 <= j < p.departments@.len() && entry_matches(
            #[trigger] p.departments@[j],
            #[trigger] filters[i]@,
        )
}

impl Person {
    /// True if any department or sub-department name case-insensitively
    /// matches one of `filters`; empty `filters` matches everyone.
    pub fn matches_department(&self, filters: &[String]) -> (r: bool)
        ensures
            r == matches_department_spec(*self, filters@),
    {
        if filters.len() == 0 {
            return true;
        }
        let nf = filters.len();
        let nd = self.departments.len();
        let mut i: usize = 0;
        while i < nf
            invariant
                nf == filters@.len(),
                nd == self.departments@.len(),
                i <= nf,
                forall|a: int, b: int|
                    0 <= a < i && 0 <= b < nd ==> !entry_matches(
                        #[trigger] self.departments@[b],
                        #[trigger] filters@[a]@,
                    ),
            decreases nf - i,
        {
            let f = filters[i].as_str();
            let mut j: usize = 0;
            while j < nd
                invariant
                    nf == filters@.len(),
                    nd == self.departments@.len(),
                    i < nf,
                    j <= nd,
                    f@ == filters@[i as int]@,
                    forall|b: int| 0 <= b < j ==> !entry_matches(#[trigger] self.departments@[b], f@),
                decreases nd - j,
            {
                let d = &self.departments[j];
                let hit_sub = match &d.sub_department {
                    Some(s) => eq_ignore_ascii_case(s.as_str(), f),
                    None => false,
                };
                if eq_ignore_ascii_case(d.department.as_str(), f) || hit_sub {
                    proof {
                        assert(entry_matches(self.departments@[j as int], filters@[i as int]@));
                    }
                    return true;
                }
                j = j + 1;
            }
            i = i + 1;
        }
        false
    }
}

/// The membership entries of one department: one without sub-department when
/// it has none, else one per sub-department.
pub open spec fn department_entries(d: RawPersonDepartment) -> Seq<(Seq<char>, Option<Seq<char>>)> {
    let subs = d.sub_departments.sub_department@;
    if subs.len() == 0 {
        seq![(d.name@, None)]
    } else {
        subs.map_values(|sd: RawPersonSubDepartment| (d.name@, Some(sd.name@)))
    }
}

/// The membership entries of a list of departments, in order.
pub open spec fn entries_of(ds: Seq<RawPersonDepartment>) -> Seq<(Seq<char>, Option<Seq<char>>)>
    decreases ds.len(),
{
    if ds.len() == 0 {
        Seq::empty()
    } else {
        entries_of(ds.drop_last()) + department_entries(ds.last())
    }
}

/// The view of a membership entry.
pub open spec fn entry_view(e: PersonDepartmentEntry) -> (Seq<char>, Option<Seq<char>>) {
    (e.department@, opt_view(e.sub_department))
}

/// The status of a person: lower-cased, `unknown` when empty.
pub open spec fn person_status_spec(s: Seq<char>) -> Seq<char> {
    if s.len() == 0 {
        "unknown"@
    } else {
        lower_seq(s)
    }
}

/// `p` is the person built from `raw`.
pub open spec fn person_from_raw(p: Person, raw: RawPersonRecord) -> bool {
    &&& p.id == raw.id
    &&& p.name@ == display_name_spec(raw.firstname@, raw.preferred_name@, raw.lastname@)
    &&& p.email == none_if_empty_spec(raw.email)
    &&& p.status@ == person_status_spec(raw.status@)
    &&& p.departments@.map_values(|e: PersonDepartmentEntry| entry_view(e)) == entries_of(
        raw.departments.department@,
    )
}

/// The name shown for a person record.
fn display_name(raw: &RawPersonRecord) -> (r: String)
    ensures
        r@ == display_name_spec(raw.firstname@, raw.preferred_name@, raw.lastname@),
{
    display_name_from(raw.firstname.as_str(), raw.preferred_name.as_str(), raw.lastname.as_str())
}

fn push_department_entries(out: &mut Vec<PersonDepartmentEntry>, d: &RawPersonDepartment)
    ensures
        final(out)@.map_values(|e: PersonDepartmentEntry| entry_view(e)) == old(out)@.map_values(
            |e: PersonDepartmentEntry| entry_view(e),
        ) + department_entries(*d),
{
    let subs = &d.sub_departments.sub_department;
    let ns = subs.len();
    if ns == 0 {
        out.push(PersonDepartmentEntry { department: d.name.clone(), sub_department: None });
        proof {
            assert(out@.map_values(|e: PersonDepartmentEntry| entry_view(e)) =~= old(out)@.map_values(
                |e: PersonDepartmentEntry| entry_view(e),
            ) + department_entries(*d));
        }
        return;
    }
    let mut k: usize = 0;
    while k < ns
        invariant
            ns == subs@.len(),
            ns > 0,
            subs@ == d.sub_departments.sub_department@,
            k <= ns,
            out@.map_values(|e: PersonDepartmentEntry| entry_view(e)) == old(out)@.map_values(
                |e: PersonDepartmentEntry| entry_view(e),
            ) + department_entries(*d).subrange(0, k as int),
        decreases ns - k,
    {
        let ghost before = out@;
        out.push(
            PersonDepartmentEntry {
                department: d.name.clone(),
                sub_department: Some(subs[k].name.clone()),
            },
        );
        k = k + 1;
        proof {
            assert(out@.map_values(|e: PersonDepartmentEntry| entry_view(e)) =~= before.map_values(
                |e: PersonDepartmentEntry| entry_view(e),
            ).push(department_entries(*d)[k - 1]));
            assert(department_entries(*d).subrange(0, k as int) =~= department_entries(*d).subrange(
                0,
                k - 1,
            ).push(department_entries(*d)[k - 1]));
        }
    }
    proof {
        assert(department_entries(*d).subrange(0, ns as int) =~= department_entries(*d));
    }
}

impl From<RawPersonRecord> for Person {
    fn from(raw: RawPersonRecord) -> (r: Self)
        ensures
            person_from_raw(r, raw),
    {
        let name = display_name(&raw);
        let status = if raw.status.as_str().unicode_len() == 0 {
            to_owned("unknown")
        } else {
            to_lower(raw.status.as_str())
        };
        let ds = &raw.departments.department;
        let nd = ds.len();
        let mut departments: Vec<PersonDepartmentEntry> = Vec::new();
        let mut j: usize = 0;
        while j < nd
            invariant
                nd == ds@.len(),
                ds@ == raw.departments.department@,
                j <= nd,
                departments@.map_values(|e: PersonDepartmentEntry| entry_view(e)) == entries_of(
                    ds@.subrange(0, j as int),
                ),
            decreases nd - j,
        {
            push_department_entries(&mut departments, &ds[j]);
            j = j + 1;
            proof {
                assert(ds@.subrange(0, j as int).drop_last() =~= ds@.subrange(0, j - 1));
            }
        }
        proof {
            assert(ds@.subrange(0, nd as int) =~= ds@);
        }
        let RawPersonRecord { id, email, .. } = raw;
        Person { id, name, email: none_if_empty(email), status, departments }
    }
}

impl vstd::std_specs::convert::FromSpecImpl<RawPersonRecord> for Person {
    open spec fn obeys_from_spec() -> bool {
        false
    }

    open spec fn from_spec(raw: RawPersonRecord) -> Self {
        arbitrary()
    }
}

/// One row of the department list: a department (no parent) or a
/// sub-department (with its department's name as parent).
#[derive(Debug, Clone, PartialEq, Eq)]
pub struct DepartmentRow {
    pub id: String,
    pub name: String,
    pub parent: Option<String>,
}

/// The view of a department row.
pub struct RowView {
    pub id: Seq<char>,
    pub name: Seq<char>,
    pub parent: Option<Seq<char>>,
}

/// The views of department rows.
pub open spec fn row_views(rows: Seq<DepartmentRow>) -> Seq<RowView> {
    rows.map_values(|r: DepartmentRow| RowView { id: r.id@, name: r.name@, parent: opt_view(r.parent) })
}

/// A department row together with its key: the department's id and the
/// sub-department's id (empty for the department's own row).
pub struct KeyedRow {
    pub dept: Seq<char>,
    pub sub: Seq<char>,
    pub row: RowView,
}

/// The rows for sub-departments with a non-empty id, under the department
/// with id `dept_id` and name `parent`.
pub open spec fn sub_rows(sds: Seq<RawPersonSubDepartment>, dept_id: Seq<char>, parent: Seq<char>) -> Seq<KeyedRow>
    decreases sds.len(),
{
    if sds.len() == 0 {
        Seq::empty()
    } else {
        let prev = sub_rows(sds.drop_last(), dept_id, parent);
        let sd = sds.last();
        if sd.id@.len() == 0 {
            prev
        } else {
            prev.push(KeyedRow { dept: dept_id, sub: sd.id@, row: RowView { id: sd.id@, name: sd.name@, parent: Some(parent) } })
        }
    }
}

/// The rows for one department: itself (when its id is non-empty), then its
/// sub-departments.
pub open spec fn dept_rows(d: RawPersonDepartment) -> Seq<KeyedRow> {
    let own = if d.id@.len() == 0 {
        Seq::empty()
    } else {
        seq![KeyedRow { dept: d.id@, sub: Seq::empty(), row: RowView { id: d.id@, name: d.name@, parent: None } }]
    };
    own + sub_rows(d.sub_departments.sub_department@, d.id@, d.name@)
}

/// The rows of a list of departments.
pub open spec fn depts_rows(ds: Seq<RawPersonDepartment>) -> Seq<KeyedRow>
    decreases ds.len(),
{
    if ds.len() == 0 {
        Seq::empty()
    } else {
        depts_rows(ds.drop_last()) + dept_rows(ds.last())
    }
}

/// The rows of all people, in encounter order, before de-duplication.
pub open spec fn people_rows(people: Seq<RawPersonRecord>) -> Seq<KeyedRow>
    decreases people.len(),
{
    if people.len() == 0 {
        Seq::empty()
    } else {
        people_rows(people.drop_last()) + depts_rows(people.last().departments.department@)
    }
}

/// The key of a row: (department id, sub-department id or empty).
pub open spec fn row_key(k: KeyedRow) -> (Seq<char>, Seq<char>) {
    (k.dept, k.sub)
}

/// Keep the first row for each key, dropping keys in `seen`.
pub open spec fn dedup_rows(s: Seq<KeyedRow>, seen: Set<(Seq<char>, Seq<char>)>) -> Seq<KeyedRow>
    decreases s.len(),
{
    if s.len() == 0 {
        s
    } else if seen.contains(row_key(s[0])) {
        dedup_rows(s.drop_first(), seen)
    } else {
        seq![s[0]] + dedup_rows(s.drop_first(), seen.insert(row_key(s[0])))
    }
}

/// The rows without their keys.
pub open spec fn rows_of(s: Seq<KeyedRow>) -> Seq<RowView> {
    s.map_values(|k: KeyedRow| k.row)
}

/// Insert `x` before the first row whose name is greater.
pub open spec fn insert_by_name(x: RowView, s: Seq<RowView>) -> Seq<RowView>
    decreases s.len(),
{
    if s.len() == 0 {
        seq![x]
    } else if lex_lt(x.name, s[0].name) {
        seq![x] + s
    } else {
        seq![s[0]] + insert_by_name(x, s.drop_first())
    }
}

/// Stable sort by name.
pub open spec fn sort_by_name(s: Seq<RowView>) -> Seq<RowView>
    decreases s.len(),
{
    if s.len() == 0 {
        s
    } else {
        insert_by_name(s.last(), sort_by_name(s.drop_last()))
    }
}

/// The department list of a set of people: every department and
/// sub-department with a non-empty id, once per (department id,
/// sub-department id or empty) pair (first occurrence), sorted by name.
pub open spec fn collect_departments_spec(people: Seq<RawPersonRecord>) -> Seq<RowView> {
    sort_by_name(rows_of(dedup_rows(people_rows(people), Set::empty())))
}

/// A department row with its key, while the list is collected.
struct KeyedDepartmentRow {
    dept: String,
    sub: String,
    row: DepartmentRow,
}

spec fn keyed_views(s: Seq<KeyedDepartmentRow>) -> Seq<KeyedRow> {
    s.map_values(
        |k: KeyedDepartmentRow|
            KeyedRow {
                dept: k.dept@,
                sub: k.sub@,
                row: RowView { id: k.row.id@, name: k.row.name@, parent: opt_view(k.row.parent) },
            },
    )
}

fn push_dept_rows(out: &mut Vec<KeyedDepartmentRow>, d: &RawPersonDepartment)
    ensures
        keyed_views(final(out)@) == keyed_views(old(out)@) + dept_rows(*d),
{
    if d.id.as_str().unicode_len() > 0 {
        out.push(KeyedDepartmentRow {
            dept: d.id.clone(),
            sub: String::new(),
            row: DepartmentRow { id: d.id.clone(), name: d.name.clone(), parent: None },
        });
    }
    proof {
        assert(keyed_views(out@) =~= keyed_views(old(out)@) + if d.id@.len() == 0 {
            Seq::<KeyedRow>::empty()
        } else {
            seq![KeyedRow { dept: d.id@, sub: Seq::empty(), row: RowView { id: d.id@, name: d.name@, parent: None } }]
        });
    }
    let ghost mid = out@;
    let subs = &d.sub_departments.sub_department;
    let ns = subs.len();
    let mut k: usize = 0;
    while k < ns
        invariant
            ns == subs@.len(),
            subs@ == d.sub_departments.sub_department@,
            k <= ns,
            keyed_views(out@) == keyed_views(mid) + sub_rows(subs@.subrange(0, k as int), d.id@, d.name@),
        decreases ns - k,
    {
        let ghost before = out@;
        let sd = &subs[k];
        if sd.id.as_str().unicode_len() > 0 {
            out.push(KeyedDepartmentRow {
                dept: d.id.clone(),
                sub: sd.id.clone(),
                row: DepartmentRow { id: sd.id.clone(), name: sd.name.clone(), parent: Some(d.name.clone()) },
            });
        }
        k = k + 1;
        proof {
            let pre = subs@.subrange(0, k as int);
            assert(pre.drop_last() =~= subs@.subrange(0, k - 1));
            assert(pre.last() == subs@[k - 1]);
            if sd.id@.len() > 0 {
                assert(keyed_views(out@) =~= keyed_views(before).push(
                    KeyedRow { dept: d.id@, sub: sd.id@, row: RowView { id: sd.id@, name: sd.name@, parent: Some(d.name@) } },
                ));
            } else {
                assert(keyed_views(out@) =~= keyed_views(before));
            }
            assert(keyed_views(out@) =~= keyed_views(mid) + sub_rows(pre, d.id@, d.name@));
        }
    }
    proof {
        assert(subs@.subrange(0, ns as int) =~= subs@);
        assert(keyed_views(out@) =~= keyed_views(old(out)@) + dept_rows(*d));
    }
}

proof fn lemma_insert_by_name_at(x: RowView, s: Seq<RowView>, p: int)
    requires
        0 <= p <= s.len(),
        forall|j: int| 0 <= j < p ==> !lex_lt(x.name, #[trigger] s[j].name),
        p == s.len() || lex_lt(x.name, s[p].name),
    ensures
        insert_by_name(x, s) == s.insert(p, x),
    decreases p,
{
    if s.len() == 0 {
        assert(s.insert(p, x) =~= seq![x]);
    } else if p == 0 {
        assert(s.insert(p, x) =~= seq![x] + s);
    } else {
        let t = s.drop_first();
        assert forall|j: int| 0 <= j < p - 1 implies !lex_lt(x.name, #[trigger] t[j].name) by {
            assert(t[j] == s[j + 1]);
        }
        lemma_insert_by_name_at(x, t, p - 1);
        assert(s.insert(p, x) =~= seq![s[0]] + t.insert(p - 1, x));
    }
}

/// Collects the departments and sub-departments of `people`: one row per
/// (department id, sub-department id or empty) pair with a non-empty own id
/// (first occurrence wins), sorted by name.
pub fn collect_departments(people: &[RawPersonRecord]) -> (r: Vec<DepartmentRow>)
    ensures
        row_views(r@) == collect_departments_spec(people@),
{
    // All rows with their keys, in encounter order.
    let np = people.len();
    let mut all: Vec<KeyedDepartmentRow> = Vec::new();
    let mut i: usize = 0;
    while i < np
        invariant
            np == people@.len(),
            i <= np,
            keyed_views(all@) == people_rows(people@.subrange(0, i as int)),
        decreases np - i,
    {
        let ds = &people[i].departments.department;
        let nd = ds.len();
        let ghost start = all@;
        let mut j: usize = 0;
        while j < nd
            invariant
                nd == ds@.len(),
                ds@ == people@[i as int].departments.department@,
                j <= nd,
                keyed_views(all@) == keyed_views(start) + depts_rows(ds@.subrange(0, j as int)),
            decreases nd - j,
        {
            push_dept_rows(&mut all, &ds[j]);
            j = j + 1;
            proof {
                assert(ds@.subrange(0, j as int).drop_last() =~= ds@.subrange(0, j - 1));
                assert(keyed_views(all@) =~= keyed_views(start) + depts_rows(ds@.subrange(0, j as int)));
            }
        }
        i = i + 1;
        proof {
            assert(ds@.subrange(0, nd as int) =~= ds@);
            assert(people@.subrange(0, i as int).drop_last() =~= people@.subrange(0, i - 1));
        }
    }
    proof {
        assert(people@.subrange(0, np as int) =~= people@);
    }
    // First occurrence of each key.
    let ghost allv = keyed_views(all@);
    let mut rest = all;
    let mut uniq: Vec<KeyedDepartmentRow> = Vec::new();
    let ghost mut seen: Set<(Seq<char>, Seq<char>)> = Set::empty();
    let ghost mut k: int = 0;
    proof {
        assert(keyed_views(uniq@) =~= Seq::<KeyedRow>::empty());
        assert(allv.subrange(0, allv.len() as int) =~= allv);
    }
    while rest.len() > 0
        invariant
            0 <= k <= allv.len(),
            keyed_views(rest@) == allv.subrange(k, allv.len() as int),
            forall|key: (Seq<char>, Seq<char>)|
                seen.contains(key) <==> exists|t: int| 0 <= t < uniq@.len() && (#[trigger] uniq@[t].dept@, uniq@[t].sub@) == key,
            keyed_views(uniq@) + dedup_rows(keyed_views(rest@), seen) == dedup_rows(allv, Set::empty()),
        decreases rest@.len(),
    {
        let ghost rv = keyed_views(rest@);
        let row = rest.remove(0);
        proof {
            assert(rv[0] == KeyedRow { dept: row.dept@, sub: row.sub@, row: RowView { id: row.row.id@, name: row.row.name@, parent: opt_view(row.row.parent) } });
            assert(keyed_views(rest@) =~= rv.drop_first());
            assert(rv.drop_first() =~= allv.subrange(k + 1, allv.len() as int));
            k = k + 1;
        }
        let mut dup = false;
        let mut q: usize = 0;
        while q < uniq.len()
            invariant
                q <= uniq@.len(),
                dup == exists|t: int| 0 <= t < q && (#[trigger] uniq@[t].dept@, uniq@[t].sub@) == (row.dept@, row.sub@),
            decreases uniq@.len() - q,
        {
            if uniq[q].dept == row.dept && uniq[q].sub == row.sub {
                dup = true;
            }
            q = q + 1;
        }
        if !dup {
            let ghost before = uniq@;
            let ghost old_seen = seen;
            uniq.push(row);
            proof {
                seen = seen.insert(row_key(rv[0]));
                assert(keyed_views(uniq@) =~= keyed_views(before) + seq![rv[0]]);
                assert((uniq@[before.len() as int].dept@, uniq@[before.len() as int].sub@) == row_key(rv[0]));
                assert forall|key: (Seq<char>, Seq<char>)| seen.contains(key) implies exists|t: int|
                    0 <= t < uniq@.len() && (#[trigger] uniq@[t].dept@, uniq@[t].sub@) == key by {
                    if key != row_key(rv[0]) {
                        let t = choose|t: int| 0 <= t < before.len() && (#[trigger] before[t].dept@, before[t].sub@) == key;
                        assert(uniq@[t] == before[t]);
                    }
                }
                assert forall|key: (Seq<char>, Seq<char>)|
                    (exists|t: int| 0 <= t < uniq@.len() && (#[trigger] uniq@[t].dept@, uniq@[t].sub@) == key) implies seen.contains(key) by {
                    let t = choose|t: int| 0 <= t < uniq@.len() && (#[trigger] uniq@[t].dept@, uniq@[t].sub@) == key;
                    if t < before.len() {
                        assert(uniq@[t] == before[t]);
                        assert(old_seen.contains(key));
                    }
                }
            }
        }
    }
    proof {
        assert(keyed_views(rest@) =~= Seq::<KeyedRow>::empty());
        assert(keyed_views(uniq@) + Seq::<KeyedRow>::empty() =~= keyed_views(uniq@));
    }
    // The rows without their keys.
    let ghost kv = keyed_views(uniq@);
    let mut keyed = uniq;
    let mut plain: Vec<DepartmentRow> = Vec::new();
    let ghost mut c: int = 0;
    proof {
        assert(kv.subrange(0, kv.len() as int) =~= kv);
        assert(row_views(plain@) =~= rows_of(kv.subrange(0, 0)));
    }
    while keyed.len() > 0
        invariant
            0 <= c <= kv.len(),
            keyed_views(keyed@) == kv.subrange(c, kv.len() as int),
            row_views(plain@) == rows_of(kv.subrange(0, c)),
        decreases keyed@.len(),
    {
        let ghost kvs = keyed_views(keyed@);
        let ghost before = plain@;
        let x = keyed.remove(0);
        plain.push(x.row);
        proof {
            assert(kvs[0].row == RowView { id: x.row.id@, name: x.row.name@, parent: opt_view(x.row.parent) });
            assert(keyed_views(keyed@) =~= kvs.drop_first());
            assert(kvs.drop_first() =~= kv.subrange(c + 1, kv.len() as int));
            assert(kv[c] == kvs[0]);
            assert(rows_of(kv.subrange(0, c + 1)) =~= rows_of(kv.subrange(0, c)).push(kv[c].row));
            assert(row_views(plain@) =~= row_views(before).push(kvs[0].row));
            c = c + 1;
        }
    }
    proof {
        assert(kv.subrange(0, c) =~= kv);
    }
    let uniq = plain;
    // Stable insertion sort by name.
    let ghost uv = row_views(uniq@);
    let mut src = uniq;
    let mut sorted: Vec<DepartmentRow> = Vec::new();
    let ghost mut m: int = 0;
    proof {
        assert(uv.subrange(0, 0) =~= Seq::<RowView>::empty());
        assert(row_views(sorted@) =~= Seq::<RowView>::empty());
        assert(uv.subrange(0, uv.len() as int) =~= uv);
    }
    while src.len() > 0
        invariant
            0 <= m <= uv.len(),
            row_views(src@) == uv.subrange(m, uv.len() as int),
            row_views(sorted@) == sort_by_name(uv.subrange(0, m)),
        decreases src@.len(),
    {
        let ghost sv = row_views(src@);
        let x = src.remove(0);
        let n = sorted.len();
        let mut p: usize = 0;
        while p < n && !str_lt(x.name.as_str(), sorted[p].name.as_str())
            invariant
                n == sorted@.len(),
                p <= n,
                forall|j: int| 0 <= j < p ==> !lex_lt(x.name@, #[trigger] sorted@[j].name@),
            decreases n - p,
        {
            p = p + 1;
        }
        let ghost before = sorted@;
        let ghost xv = RowView { id: x.id@, name: x.name@, parent: opt_view(x.parent) };
        sorted.insert(p, x);
        proof {
            assert(sv[0] == xv);
            assert(row_views(src@) =~= sv.drop_first());
            assert(sv.drop_first() =~= uv.subrange(m + 1, uv.len() as int));
            assert forall|j: int| 0 <= j < p implies !lex_lt(xv.name, #[trigger] row_views(before)[j].name) by {}
            lemma_insert_by_name_at(xv, row_views(before), p as int);
            assert(row_views(sorted@) =~= row_views(before).insert(p as int, xv));
            assert(uv.subrange(0, m + 1).drop_last() =~= uv.subrange(0, m));
            assert(uv.subrange(0, m + 1).last() == xv);
            m = m + 1;
        }
    }
    proof {
        assert(uv.subrange(0, m) =~= uv);
    }
    sorted
}

} // verus!
