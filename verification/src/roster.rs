//! Who is rostered on a service, and who is listed among the people: the
//! filters, the e-mail addresses added on request, and how a short service
//! id is looked up.
use vstd::prelude::*;
use crate::api::raw::{RawPersonRecord, RawService};
use crate::domain::category::{category_id_matches, id_matches};
use crate::domain::person::{matches_department_spec, opt_view, Person};
use crate::domain::service::{row_matches_spec, VolunteerRow};
use crate::error::CliError;
use crate::textops::{
    debug_quoted, debug_str, decimal, lex_lt, push_decimal, str_eq, str_lt, to_owned, views,
};

verus! {

// ---------------------------------------------------------------------------
// Short service ids
// ---------------------------------------------------------------------------

/// Whether an error from looking a service up by id calls for trying the id
/// as a short id: when the service was not found or Elvanto refused the id.
pub fn should_try_short_id(e: &CliError) -> (r: bool)
    ensures
        r == (e is NotFound || e is Api),
{
    match e {
        CliError::NotFound(_) | CliError::Api { .. } => true,
        _ => false,
    }
}

/// The services that `input` names, in full or by the first block of their
/// id.
pub open spec fn services_named(services: Seq<RawService>, input: Seq<char>) -> Seq<RawService>
    decreases services.len(),
{
    if services.len() == 0 {
        services
    } else if category_id_matches(services.last().id@, input) {
        services_named(services.drop_last(), input).push(services.last())
    } else {
        services_named(services.drop_last(), input)
    }
}

/// The message when a short id names several services.
pub open spec fn ambiguous_service_message(input: Seq<char>, n: nat) -> Seq<char> {
    "ambiguous id "@ + debug_str(input) + " matches "@ + decimal(n)
        + " services in the last 6 months; use full id"@
}

/// The id of the one service that `input` names: `None` when none does (the
/// error of the direct lookup then stands), a usage error when several do.
pub fn match_short_service(services: &Vec<RawService>, input: &str) -> (r: Result<Option<String>, CliError>)
    ensures
        ({
            let named = services_named(services@, input@);
            if named.len() == 0 {
                r == Ok::<Option<String>, CliError>(None)
            } else if named.len() == 1 {
                r matches Ok(Some(id)) && id@ == named[0].id@
            } else {
                r matches Err(CliError::Usage(m)) && m@ == ambiguous_service_message(input@, named.len())
            }
        }),
{
    let n = services.len();
    let mut count: usize = 0;
    let mut first: Option<usize> = None;
    let mut k: usize = 0;
    while k < n
        invariant
            n == services@.len(),
            k <= n,
            count == services_named(services@.take(k as int), input@).len(),
            count <= k,
            count == 0 <==> first is None,
            first matches Some(f) ==> f < k && services_named(services@.take(k as int), input@)[0] == services@[f as int],
        decreases n - k,
    {
        proof {
            assert(services@.take(k + 1).drop_last() =~= services@.take(k as int));
        }
        if id_matches(services[k].id.as_str(), input) {
            if first.is_none() {
                first = Some(k);
            }
            count = count + 1;
        }
        k = k + 1;
    }
    proof {
        assert(services@.take(n as int) =~= services@);
    }
    if count == 0 {
        Ok(None)
    } else if count == 1 {
        match first {
            Some(f) => Ok(Some(to_owned(services[f].id.as_str()))),
            None => Ok(None),
        }
    } else {
        let mut m = to_owned("ambiguous id ");
        let q = debug_quoted(input);
        m.append(q.as_str());
        m.append(" matches ");
        push_decimal(&mut m, count as u64);
        m.append(" services in the last 6 months; use full id");
        Err(CliError::Usage(m))
    }
}

// ---------------------------------------------------------------------------
// Roster rows
// ---------------------------------------------------------------------------

/// The rows kept: those matching the department filters, and only filled
/// ones when unfilled positions are hidden.
pub open spec fn rows_kept(rows: Seq<VolunteerRow>, departments: Seq<String>, hide_unfilled: bool) -> Seq<VolunteerRow>
    decreases rows.len(),
{
    if rows.len() == 0 {
        rows
    } else {
        let r = rows_kept(rows.drop_last(), departments, hide_unfilled);
        let x = rows.last();
        if row_matches_spec(x, departments) && (!hide_unfilled || x.name is Some) {
            r.push(x)
        } else {
            r
        }
    }
}

/// The roster rows to show.
pub fn select_rows(rows: Vec<VolunteerRow>, departments: &Vec<String>, hide_unfilled: bool) -> (r: Vec<VolunteerRow>)
    ensures
        r@ == rows_kept(rows@, departments@, hide_unfilled),
{
    let ghost all = rows@;
    let mut src = rows;
    let mut kept: Vec<VolunteerRow> = Vec::new();
    let ghost mut m: int = 0;
    while src.len() > 0
        invariant
            0 <= m <= all.len(),
            src@ == all.subrange(m, all.len() as int),
            kept@ == rows_kept(all.subrange(0, m), departments@, hide_unfilled),
        decreases src@.len(),
    {
        let ghost sv = src@;
        let x = src.remove(0);
        proof {
            assert(sv[0] == x);
            assert(src@ =~= sv.drop_first());
            assert(sv.drop_first() =~= all.subrange(m + 1, all.len() as int));
            assert(all.subrange(0, m + 1).drop_last() =~= all.subrange(0, m));
            assert(all.subrange(0, m + 1).last() == x);
        }
        if x.matches_department(departments.as_slice()) && (!hide_unfilled || x.is_filled()) {
            kept.push(x);
        }
        proof {
            m = m + 1;
        }
    }
    proof {
        assert(all.subrange(0, m) =~= all);
    }
    kept
}

/// The e-mail address on record for a person id: the last person record with
/// that id and a non-empty address.
pub open spec fn email_of(people: Seq<RawPersonRecord>, id: Seq<char>) -> Option<Seq<char>>
    decreases people.len(),
{
    if people.len() == 0 {
        None
    } else if people.last().id@ == id && people.last().email@.len() > 0 {
        Some(people.last().email@)
    } else {
        email_of(people.drop_last(), id)
    }
}

/// The e-mail address on record for a person id.
pub fn lookup_email(people: &Vec<RawPersonRecord>, id: &str) -> (r: Option<String>)
    ensures
        opt_view(r) == email_of(people@, id@),
{
    let n = people.len();
    let mut i = n;
    proof {
        assert(people@.take(n as int) =~= people@);
    }
    while i > 0
        invariant
            n == people@.len(),
            i <= n,
            email_of(people@, id@) == email_of(people@.take(i as int), id@),
        decreases i,
    {
        proof {
            assert(people@.take(i as int).drop_last() =~= people@.take(i - 1));
        }
        if str_eq(people[i - 1].id.as_str(), id) && people[i - 1].email.unicode_len() > 0 {
            return Some(to_owned(people[i - 1].email.as_str()));
        }
        i = i - 1;
    }
    None
}

/// The rows with the e-mail address of each rostered person added.
pub fn attach_emails(rows: Vec<VolunteerRow>, people: &Vec<RawPersonRecord>) -> (r: Vec<VolunteerRow>)
    ensures
        r@.len() == rows@.len(),
        forall|i: int|
            0 <= i < rows@.len() ==> {
                let a = #[trigger] r@[i];
                let b = rows@[i];
                &&& a.department == b.department
                &&& a.sub_department == b.sub_department
                &&& a.position == b.position
                &&& a.person_id == b.person_id
                &&& a.name == b.name
                &&& a.status == b.status
                &&& opt_view(a.email) == match b.person_id {
                    Some(id) => email_of(people@, id@),
                    None => opt_view(b.email),
                }
            },
{
    let ghost all = rows@;
    let mut src = rows;
    let mut out: Vec<VolunteerRow> = Vec::new();
    let ghost mut m: int = 0;
    while src.len() > 0
        invariant
            0 <= m <= all.len(),
            src@ == all.subrange(m, all.len() as int),
            out@.len() == m,
            forall|i: int|
                0 <= i < m ==> {
                    let a = #[trigger] out@[i];
                    let b = all[i];
                    &&& a.department == b.department
                    &&& a.sub_department == b.sub_department
                    &&& a.position == b.position
                    &&& a.person_id == b.person_id
                    &&& a.name == b.name
                    &&& a.status == b.status
                    &&& opt_view(a.email) == match b.person_id {
                        Some(id) => email_of(people@, id@),
                        None => opt_view(b.email),
                    }
                },
        decreases src@.len(),
    {
        let ghost sv = src@;
        let mut x = src.remove(0);
        proof {
            assert(sv[0] == x);
            assert(src@ =~= sv.drop_first());
            assert(sv.drop_first() =~= all.subrange(m + 1, all.len() as int));
            assert(all[m] == x);
        }
        let email = match &x.person_id {
            Some(id) => Some(lookup_email(people, id.as_str())),
            None => None,
        };
        match email {
            Some(e) => {
                x.email = e;
            },
            None => {},
        }
        out.push(x);
        proof {
            m = m + 1;
        }
    }
    out
}

// ---------------------------------------------------------------------------
// People with an e-mail address
// ---------------------------------------------------------------------------

/// The records that carry an e-mail address, in order.
pub open spec fn with_email(s: Seq<RawPersonRecord>) -> Seq<RawPersonRecord>
    decreases s.len(),
{
    if s.len() == 0 {
        s
    } else if s.last().email@.len() > 0 {
        with_email(s.drop_last()).push(s.last())
    } else {
        with_email(s.drop_last())
    }
}

/// `ids` followed by the id of each record of `s` that carries an e-mail
/// address and is not listed yet, in order of first appearance.
pub open spec fn ids_with_email(ids: Seq<Seq<char>>, s: Seq<RawPersonRecord>) -> Seq<Seq<char>>
    decreases s.len(),
{
    if s.len() == 0 {
        ids
    } else {
        let prev = ids_with_email(ids, s.drop_last());
        if s.last().email@.len() > 0 && !prev.contains(s.last().id@) {
            prev.push(s.last().id@)
        } else {
            prev
        }
    }
}

/// Whether `ids` lists `id`.
pub(crate) fn lists_id(ids: &Vec<String>, id: &str) -> (r: bool)
    ensures
        r == views(ids@).contains(id@),
{
    let n = ids.len();
    let mut i: usize = 0;
    while i < n
        invariant
            n == ids@.len(),
            i <= n,
            forall|j: int| 0 <= j < i ==> views(ids@)[j] != id@,
        decreases n - i,
    {
        if str_eq(ids[i].as_str(), id) {
            proof {
                assert(views(ids@)[i as int] == id@);
            }
            return true;
        }
        i = i + 1;
    }
    false
}

/// Keeps the records of a page of people that carry an e-mail address, and
/// adds their ids, each once, to the ids seen so far; the number of those ids
/// is what paging compares with the reported total.
pub fn keep_with_email(page: Vec<RawPersonRecord>, ids: &mut Vec<String>) -> (r: Vec<RawPersonRecord>)
    ensures
        r@ == with_email(page@),
        views(final(ids)@) == ids_with_email(views(old(ids)@), page@),
{
    let ghost all = page@;
    let ghost start = views(ids@);
    let mut src = page;
    let mut kept: Vec<RawPersonRecord> = Vec::new();
    let ghost mut m: int = 0;
    while src.len() > 0
        invariant
            0 <= m <= all.len(),
            src@ == all.subrange(m, all.len() as int),
            kept@ == with_email(all.subrange(0, m)),
            views(ids@) == ids_with_email(start, all.subrange(0, m)),
        decreases src@.len(),
    {
        let ghost sv = src@;
        let x = src.remove(0);
        proof {
            assert(sv[0] == x);
            assert(src@ =~= sv.drop_first());
            assert(sv.drop_first() =~= all.subrange(m + 1, all.len() as int));
            assert(all.subrange(0, m + 1).drop_last() =~= all.subrange(0, m));
            assert(all.subrange(0, m + 1).last() == x);
        }
        if x.email.unicode_len() > 0 {
            if !lists_id(ids, x.id.as_str()) {
                let id = to_owned(x.id.as_str());
                ids.push(id);
                proof {
                    assert(views(ids@) =~= ids_with_email(start, all.subrange(0, m)).push(x.id@));
                }
            }
            kept.push(x);
        }
        proof {
            m = m + 1;
        }
    }
    proof {
        assert(all.subrange(0, m) =~= all);
    }
    kept
}


// ---------------------------------------------------------------------------
// People
// ---------------------------------------------------------------------------

/// The people kept: those matching the department filters, and, for the
/// text listing, only active ones.
pub open spec fn people_kept(people: Seq<Person>, departments: Seq<String>, active_only: bool) -> Seq<Person>
    decreases people.len(),
{
    if people.len() == 0 {
        people
    } else {
        let r = people_kept(people.drop_last(), departments, active_only);
        let x = people.last();
        if matches_department_spec(x, departments) && (!active_only || x.status@ == "active"@) {
            r.push(x)
        } else {
            r
        }
    }
}

/// Insert `x` before the first person whose name is greater.
pub open spec fn insert_person_by_name(x: Person, s: Seq<Person>) -> Seq<Person>
    decreases s.len(),
{
    if s.len() == 0 {
        seq![x]
    } else if lex_lt(x.name@, s[0].name@) {
        seq![x] + s
    } else {
        seq![s[0]] + insert_person_by_name(x, s.drop_first())
    }
}

/// Stable sort of people by name.
pub open spec fn sort_people_by_name(s: Seq<Person>) -> Seq<Person>
    decreases s.len(),
{
    if s.len() == 0 {
        s
    } else {
        insert_person_by_name(s.last(), sort_people_by_name(s.drop_last()))
    }
}

proof fn lemma_insert_person_at(x: Person, s: Seq<Person>, p: int)
    requires
        0 <= p <= s.len(),
        forall|j: int| 0 <= j < p ==> !lex_lt(x.name@, (#[trigger] s[j]).name@),
        p == s.len() || lex_lt(x.name@, s[p].name@),
    ensures
        insert_person_by_name(x, s) == s.insert(p, x),
    decreases p,
{
    if s.len() == 0 {
        assert(s.insert(p, x) =~= seq![x]);
    } else if p == 0 {
        assert(s.insert(p, x) =~= seq![x] + s);
    } else {
        let t = s.drop_first();
        assert forall|j: int| 0 <= j < p - 1 implies !lex_lt(x.name@, (#[trigger] t[j]).name@) by {
            assert(t[j] == s[j + 1]);
        }
        lemma_insert_person_at(x, t, p - 1);
        assert(s.insert(p, x) =~= seq![s[0]] + t.insert(p - 1, x));
    }
}

/// The people to list: those in one of the departments (all when none is
/// given), only active ones unless `include_inactive`, sorted by name (ties
/// keep their order).
pub fn select_people(people: Vec<Person>, departments: &Vec<String>, include_inactive: bool) -> (r: Vec<Person>)
    ensures
        r@ == sort_people_by_name(people_kept(people@, departments@, !include_inactive)),
{
    let ghost all = people@;
    let mut src = people;
    let mut sorted: Vec<Person> = Vec::new();
    let ghost mut m: int = 0;
    while src.len() > 0
        invariant
            0 <= m <= all.len(),
            src@ == all.subrange(m, all.len() as int),
            sorted@ == sort_people_by_name(people_kept(all.subrange(0, m), departments@, !include_inactive)),
        decreases src@.len(),
    {
        let ghost sv = src@;
        let x = src.remove(0);
        proof {
            assert(sv[0] == x);
            assert(src@ =~= sv.drop_first());
            assert(sv.drop_first() =~= all.subrange(m + 1, all.len() as int));
            assert(all.subrange(0, m + 1).drop_last() =~= all.subrange(0, m));
            assert(all.subrange(0, m + 1).last() == x);
        }
        let keep = x.matches_department(departments.as_slice()) && (include_inactive || str_eq(
            x.status.as_str(),
            "active",
        ));
        if keep {
            let n = sorted.len();
            let mut p: usize = 0;
            while p < n && !str_lt(x.name.as_str(), sorted[p].name.as_str())
                invariant
                    n == sorted@.len(),
                    p <= n,
                    forall|j: int| 0 <= j < p ==> !lex_lt(x.name@, (#[trigger] sorted@[j]).name@),
                decreases n - p,
            {
                p = p + 1;
            }
            let ghost before = sorted@;
            let ghost xv = x;
            sorted.insert(p, x);
            proof {
                lemma_insert_person_at(xv, before, p as int);
                let r = people_kept(all.subrange(0, m), departments@, !include_inactive);
                assert(r.push(xv).drop_last() =~= r);
            }
        }
        proof {
            m = m + 1;
        }
    }
    proof {
        assert(all.subrange(0, m) =~= all);
    }
    sorted
}

} // verus!
