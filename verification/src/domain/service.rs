//! Services and the people rostered on them.
use vstd::prelude::*;
use crate::api::raw::{display_name_from, display_name_spec, RawPosition, RawService, RawVolunteer};
use crate::domain::{none_if_empty, none_if_empty_spec};
use crate::domain::person::opt_view;
use crate::textops::{eq_ignore_ascii_case, eq_ignore_case, lower_seq, to_lower, to_owned, trim, trim_seq};

verus! {

/// A service, normalised for listing.
#[derive(Debug, Clone, PartialEq, Eq)]
pub struct Service {
    pub id: String,
    /// Original Elvanto timestamp, "YYYY-MM-DD HH:MM:SS".
    pub date: String,
    pub name: String,
    pub status: String,
    pub service_type: String,
    pub location: Option<String>,
    pub description: Option<String>,
}

/// The first ten characters of a date text (all of it when shorter).
pub open spec fn date_short_spec(date: Seq<char>) -> Seq<char> {
    if date.len() >= 10 {
        date.subrange(0, 10)
    } else {
        date
    }
}

impl Service {
    /// First 10 characters of the date, i.e. "YYYY-MM-DD".
    pub fn date_short(&self) -> (r: &str)
        ensures
            r@ == date_short_spec(self.date@),
    {
        let s = self.date.as_str();
        if s.unicode_len() >= 10 {
            s.substring_char(0, 10)
        } else {
            s
        }
    }
}

/// A status, trimmed and lower-cased, `unknown` when empty.
pub open spec fn normalize_status_spec(s: Seq<char>) -> Seq<char> {
    if trim_seq(s).len() == 0 {
        "unknown"@
    } else {
        lower_seq(trim_seq(s))
    }
}

fn normalize_status(s: &str) -> (r: String)
    ensures
        r@ == normalize_status_spec(s@),
{
    let t = trim(s);
    if t.unicode_len() == 0 {
        to_owned("unknown")
    } else {
        to_lower(t)
    }
}

/// `s` is the service built from `raw`.
pub open spec fn service_from_raw(s: Service, raw: RawService) -> bool {
    &&& s.id == raw.id
    &&& s.date == raw.date
    &&& s.name == raw.name
    &&& s.status@ == normalize_status_spec(raw.status@)
    &&& s.service_type == raw.service_type.name
    &&& s.location == none_if_empty_spec(raw.location.name)
    &&& s.description == none_if_empty_spec(raw.description)
}

impl From<RawService> for Service {
    fn from(raw: RawService) -> (r: Self)
        ensures
            service_from_raw(r, raw),
    {
        let status = normalize_status(raw.status.as_str());
        let RawService { id, date, name, description, service_type, location, .. } = raw;
        Service {
            id,
            date,
            name,
            status,
            service_type: service_type.name,
            location: none_if_empty(location.name),
            description: none_if_empty(description),
        }
    }
}

impl vstd::std_specs::convert::FromSpecImpl<RawService> for Service {
    open spec fn obeys_from_spec() -> bool {
        false
    }

    open spec fn from_spec(raw: RawService) -> Self {
        arbitrary()
    }
}

/// One rostered position on a service, filled by one volunteer or unfilled.
#[derive(Debug, Clone, PartialEq, Eq)]
pub struct VolunteerRow {
    pub department: String,
    pub sub_department: String,
    pub position: String,
    pub person_id: Option<String>,
    pub name: Option<String>,
    pub status: Option<String>,
    pub email: Option<String>,
}

/// The view of a roster row.
pub struct VolunteerRowView {
    pub department: Seq<char>,
    pub sub_department: Seq<char>,
    pub position: Seq<char>,
    pub person_id: Option<Seq<char>>,
    pub name: Option<Seq<char>>,
    pub status: Option<Seq<char>>,
    pub email: Option<Seq<char>>,
}

/// The views of roster rows.
pub open spec fn volunteer_row_views(rows: Seq<VolunteerRow>) -> Seq<VolunteerRowView> {
    rows.map_values(
        |r: VolunteerRow|
            VolunteerRowView {
                department: r.department@,
                sub_department: r.sub_department@,
                position: r.position@,
                person_id: opt_view(r.person_id),
                name: opt_view(r.name),
                status: opt_view(r.status),
                email: opt_view(r.email),
            },
    )
}

/// `None` for the empty sequence.
pub open spec fn none_if_empty_seq(s: Seq<char>) -> Option<Seq<char>> {
    if s.len() == 0 {
        None
    } else {
        Some(s)
    }
}

/// The row for a volunteer on a position.
pub open spec fn filled_row(p: RawPosition, v: RawVolunteer) -> VolunteerRowView {
    VolunteerRowView {
        department: p.department_name@,
        sub_department: p.sub_department_name@,
        position: p.position_name@,
        person_id: none_if_empty_seq(v.person.id@),
        name: none_if_empty_seq(
            display_name_spec(v.person.firstname@, v.person.preferred_name@, v.person.lastname@),
        ),
        status: none_if_empty_seq(lower_seq(v.status@)),
        email: None,
    }
}

/// The row for a position nobody fills.
pub open spec fn unfilled_row(p: RawPosition) -> VolunteerRowView {
    VolunteerRowView {
        department: p.department_name@,
        sub_department: p.sub_department_name@,
        position: p.position_name@,
        person_id: None,
        name: None,
        status: None,
        email: None,
    }
}

/// The rows for one position: one per volunteer, or one unfilled row.
pub open spec fn position_rows(p: RawPosition) -> Seq<VolunteerRowView> {
    let vs = p.volunteers.volunteer@;
    if vs.len() == 0 {
        seq![unfilled_row(p)]
    } else {
        vs.map_values(|v: RawVolunteer| filled_row(p, v))
    }
}

/// The rows for a list of positions.
pub open spec fn positions_rows(ps: Seq<RawPosition>) -> Seq<VolunteerRowView>
    decreases ps.len(),
{
    if ps.len() == 0 {
        Seq::empty()
    } else {
        positions_rows(ps.drop_last()) + position_rows(ps.last())
    }
}

/// All positions of all roster plans, in order.
pub open spec fn roster_positions(svc: RawService) -> Seq<RawPosition> {
    svc.volunteers.plan@.map_values(|pl: crate::api::raw::RawVolunteerPlan| pl.positions.position@).flatten()
}

fn opt_nonempty(s: String) -> (r: Option<String>)
    ensures
        opt_view(r) == none_if_empty_seq(s@),
{
    none_if_empty(s)
}

fn push_position_rows(out: &mut Vec<VolunteerRow>, p: &RawPosition)
    ensures
        volunteer_row_views(final(out)@) == volunteer_row_views(old(out)@) + position_rows(*p),
{
    let vs = &p.volunteers.volunteer;
    let nv = vs.len();
    if nv == 0 {
        out.push(
            VolunteerRow {
                department: p.department_name.clone(),
                sub_department: p.sub_department_name.clone(),
                position: p.position_name.clone(),
                person_id: None,
                name: None,
                status: None,
                email: None,
            },
        );
        proof {
            assert(volunteer_row_views(out@) =~= volunteer_row_views(old(out)@) + position_rows(*p));
        }
        return;
    }
    let mut k: usize = 0;
    while k < nv
        invariant
            nv == vs@.len(),
            nv > 0,
            vs@ == p.volunteers.volunteer@,
            k <= nv,
            volunteer_row_views(out@) == volunteer_row_views(old(out)@) + position_rows(*p).subrange(
                0,
                k as int,
            ),
        decreases nv - k,
    {
        let v = &vs[k];
        let ghost before = out@;
        let name = display_name_from(
            v.person.firstname.as_str(),
            v.person.preferred_name.as_str(),
            v.person.lastname.as_str(),
        );
        out.push(
            VolunteerRow {
                department: p.department_name.clone(),
                sub_department: p.sub_department_name.clone(),
                position: p.position_name.clone(),
                person_id: opt_nonempty(v.person.id.clone()),
                name: opt_nonempty(name),
                status: opt_nonempty(to_lower(v.status.as_str())),
                email: None,
            },
        );
        k = k + 1;
        proof {
            assert(position_rows(*p)[k - 1] == filled_row(*p, vs@[k - 1]));
            assert(volunteer_row_views(out@) =~= volunteer_row_views(before).push(
                filled_row(*p, vs@[k - 1]),
            ));
            assert(position_rows(*p).subrange(0, k as int) =~= position_rows(*p).subrange(
                0,
                k - 1,
            ).push(position_rows(*p)[k - 1]));
        }
    }
    proof {
        assert(position_rows(*p).subrange(0, nv as int) =~= position_rows(*p));
    }
}

/// The roster of a service: for every position of every plan, one row per
/// volunteer or one unfilled row.
pub fn volunteer_rows(svc: &RawService) -> (r: Vec<VolunteerRow>)
    ensures
        volunteer_row_views(r@) == positions_rows(roster_positions(*svc)),
{
    let plans = &svc.volunteers.plan;
    let np = plans.len();
    let ghost nested = plans@.map_values(
        |pl: crate::api::raw::RawVolunteerPlan| pl.positions.position@,
    );
    let mut out: Vec<VolunteerRow> = Vec::new();
    let mut i: usize = 0;
    while i < np
        invariant
            np == plans@.len(),
            plans@ == svc.volunteers.plan@,
            nested == plans@.map_values(|pl: crate::api::raw::RawVolunteerPlan| pl.positions.position@),
            i <= np,
            volunteer_row_views(out@) == positions_rows(nested.subrange(0, i as int).flatten()),
        decreases np - i,
    {
        let ps = &plans[i].positions.position;
        let n = ps.len();
        let ghost start = out@;
        let ghost done = nested.subrange(0, i as int).flatten();
        let mut j: usize = 0;
        while j < n
            invariant
                n == ps@.len(),
                ps@ == nested[i as int],
                j <= n,
                volunteer_row_views(out@) == volunteer_row_views(start) + positions_rows(
                    ps@.subrange(0, j as int),
                ),
            decreases n - j,
        {
            push_position_rows(&mut out, &ps[j]);
            j = j + 1;
            proof {
                assert(ps@.subrange(0, j as int).drop_last() =~= ps@.subrange(0, j - 1));
            }
        }
        proof {
            assert(ps@.subrange(0, n as int) =~= ps@);
            lemma_positions_rows_concat(done, ps@);
            assert(nested.subrange(0, i + 1) =~= nested.subrange(0, i as int).push(ps@));
            lemma_flatten_push(nested.subrange(0, i as int), ps@);
        }
        i = i + 1;
    }
    proof {
        assert(nested.subrange(0, np as int) =~= nested);
    }
    out
}

proof fn lemma_positions_rows_concat(a: Seq<RawPosition>, b: Seq<RawPosition>)
    ensures
        positions_rows(a + b) == positions_rows(a) + positions_rows(b),
    decreases b.len(),
{
    if b.len() == 0 {
        assert(a + b =~= a);
    } else {
        lemma_positions_rows_concat(a, b.drop_last());
        assert((a + b).drop_last() =~= a + b.drop_last());
        assert((a + b).last() == b.last());
    }
}

proof fn lemma_flatten_push(s: Seq<Seq<RawPosition>>, x: Seq<RawPosition>)
    ensures
        s.push(x).flatten() == s.flatten() + x,
    decreases s.len(),
{
    if s.len() == 0 {
        let t = s.push(x);
        assert(t.drop_first() =~= Seq::<Seq<RawPosition>>::empty());
        assert(t.drop_first().flatten() =~= Seq::<RawPosition>::empty());
        assert(t.first() == x);
        assert(t.flatten() == t.first() + t.drop_first().flatten());
        assert(t.flatten() =~= x);
        assert(s.flatten() =~= Seq::<RawPosition>::empty());
        assert(s.flatten() + x =~= x);
    } else {
        lemma_flatten_push(s.drop_first(), x);
        assert(s.push(x).drop_first() =~= s.drop_first().push(x));
    }
}

/// A row matches the filters when there are none, or when its department,
/// sub-department or position equals one of them, ignoring ASCII case.
pub open spec fn row_matches_spec(r: VolunteerRow, filters: Seq<String>) -> bool {
    filters.len() == 0 || exists|i: int|
        0 <= i < filters.len() && (eq_ignore_case(r.department@, #[trigger] filters[i]@)
            || eq_ignore_case(r.sub_department@, filters[i]@) || eq_ignore_case(
            r.position@,
            filters[i]@,
        ))
}

impl VolunteerRow {
    /// Whether somebody fills this position.
    pub fn is_filled(&self) -> (r: bool)
        ensures
            r == self.name.is_some(),
    {
        self.name.is_some()
    }

    /// Whether the row's department, sub-department or position matches one
    /// of `filters` (every row matches no filters).
    pub fn matches_department(&self, filters: &[String]) -> (r: bool)
        ensures
            r == row_matches_spec(*self, filters@),
    {
        let n = filters.len();
        if n == 0 {
            return true;
        }
        let mut i: usize = 0;
        while i < n
            invariant
                n == filters@.len(),
                i <= n,
                forall|k: int|
                    0 <= k < i ==> !(eq_ignore_case(self.department@, #[trigger] filters@[k]@)
                        || eq_ignore_case(self.sub_department@, filters@[k]@) || eq_ignore_case(
                        self.position@,
                        filters@[k]@,
                    )),
            decreases n - i,
        {
            let f = filters[i].as_str();
            if eq_ignore_ascii_case(self.department.as_str(), f) || eq_ignore_ascii_case(
                self.sub_department.as_str(),
                f,
            ) || eq_ignore_ascii_case(self.position.as_str(), f) {
                return true;
            }
            i = i + 1;
        }
        false
    }
}

} // verus!
