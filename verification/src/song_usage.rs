//! How often each song was used on services, and by whom it was led.
use vstd::prelude::*;
use crate::api::raw::{RawService, ServiceSongUse};
use crate::api::service_songs::{lists_map, sorted_by_id};
use crate::domain::person::opt_view;
use crate::domain::service::{
    positions_rows, roster_positions, volunteer_row_views, volunteer_rows, VolunteerRowView,
};
use crate::textops::{
    contains_seq, contains_str, lemma_lex_lt_irreflexive, lemma_lex_lt_total,
    lemma_lex_lt_transitive, lex_lt, str_eq, str_lt, to_owned,
};

verus! {

/// One use of a song on a service: the service's date, its worship leader
/// (empty when unknown) and the key set for the song, if any.
#[derive(Debug, Clone)]
pub struct UseRecord {
    pub date: String,
    pub leader: String,
    pub key: Option<String>,
}

/// The uses of one song, in the order of the services.
#[derive(Debug, Clone)]
pub struct SongUsage {
    pub id: String,
    pub uses: Vec<UseRecord>,
}

/// The view of a use: date, leader, key.
pub type UseView = (Seq<char>, Seq<char>, Option<Seq<char>>);

/// The views of a list of uses.
pub open spec fn use_views(s: Seq<UseRecord>) -> Seq<UseView> {
    s.map_values(|u: UseRecord| (u.date@, u.leader@, opt_view(u.key)))
}

/// What `str::to_lowercase` gives for a text.
pub uninterp spec fn unicode_lower(s: Seq<char>) -> Seq<char>;

/// Lower-cases a text by the Unicode rules.
///
/// Trusted: calls `str::to_lowercase`. The contract names the result
/// (`unicode_lower`); the Unicode case tables are not stated.
#[verifier::external_body]
fn lowercase(s: &str) -> (r: String)
    ensures
        r@ == unicode_lower(s@),
{
    s.to_lowercase()
}

/// A roster row whose position names the worship leader.
pub open spec fn is_leader_row(r: VolunteerRowView) -> bool {
    contains_seq(unicode_lower(r.position), "worship leader"@)
}

/// The name on the first worship-leader row (empty when that row is
/// unfilled or there is none).
pub open spec fn leader_of_rows(rows: Seq<VolunteerRowView>) -> Seq<char>
    decreases rows.len(),
{
    if rows.len() == 0 {
        Seq::empty()
    } else if is_leader_row(rows[0]) {
        match rows[0].name {
            Some(n) => n,
            None => Seq::empty(),
        }
    } else {
        leader_of_rows(rows.drop_first())
    }
}

/// The worship leader of a service.
pub open spec fn worship_leader_spec(svc: RawService) -> Seq<char> {
    leader_of_rows(positions_rows(roster_positions(svc)))
}

/// The name of the person rostered on the first position whose name
/// contains "worship leader" (in any case), or an empty text.
pub fn find_worship_leader(svc: &RawService) -> (r: String)
    ensures
        r@ == worship_leader_spec(*svc),
{
    let rows = volunteer_rows(svc);
    let ghost vs = volunteer_row_views(rows@);
    let n = rows.len();
    let mut i: usize = 0;
    proof {
        assert(vs.skip(0) =~= vs);
    }
    while i < n
        invariant
            n == rows@.len(),
            vs == volunteer_row_views(rows@),
            vs == positions_rows(roster_positions(*svc)),
            i <= n,
            leader_of_rows(vs) == leader_of_rows(vs.skip(i as int)),
        decreases n - i,
    {
        let ghost rest = vs.skip(i as int);
        proof {
            assert(rest[0] == vs[i as int]);
            assert(rest.drop_first() =~= vs.skip(i + 1));
        }
        let lower = lowercase(rows[i].position.as_str());
        if contains_str(lower.as_str(), "worship leader") {
            return match &rows[i].name {
                Some(name) => to_owned(name.as_str()),
                None => String::new(),
            };
        }
        i = i + 1;
    }
    proof {
        assert(vs.skip(n as int).len() == 0);
    }
    String::new()
}

// ---------------------------------------------------------------------------
// Tally
// ---------------------------------------------------------------------------

/// The first ten characters of a service date (all of it when shorter).
pub open spec fn date_prefix(date: Seq<char>) -> Seq<char> {
    if date.len() >= 10 {
        date.subrange(0, 10)
    } else {
        date
    }
}

/// The use of song `id` on service `svc`.
pub open spec fn use_on(svc: RawService, id: Seq<char>) -> UseView {
    (date_prefix(svc.date@), worship_leader_spec(svc), svc.song_use_map()[id])
}

/// The uses of song `id` over a list of services, in order.
pub open spec fn usage_of(services: Seq<RawService>, id: Seq<char>) -> Seq<UseView>
    decreases services.len(),
{
    if services.len() == 0 {
        Seq::empty()
    } else {
        usage_of(services.drop_last(), id) + if services.last().song_use_map().dom().contains(id) {
            seq![use_on(services.last(), id)]
        } else {
            Seq::empty()
        }
    }
}

/// The entries are in strictly increasing order of song id.
pub open spec fn usage_sorted(s: Seq<SongUsage>) -> bool {
    forall|i: int, j: int| 0 <= i < j < s.len() ==> lex_lt(#[trigger] s[i].id@, #[trigger] s[j].id@)
}

/// Some service of the list uses song `id`.
pub open spec fn used_in(services: Seq<RawService>, id: Seq<char>) -> bool {
    exists|k: int| 0 <= k < services.len() && #[trigger] services[k].song_use_map().dom().contains(id)
}

/// The tally of `services`: one entry per song used, by id, each holding
/// that song's uses in service order.
pub open spec fn is_tally(s: Seq<SongUsage>, services: Seq<RawService>) -> bool {
    &&& usage_sorted(s)
    &&& forall|i: int| 0 <= i < s.len() ==> use_views((#[trigger] s[i]).uses@) == usage_of(services, s[i].id@)
        && used_in(services, s[i].id@)
    &&& forall|id: Seq<char>| used_in(services, id) ==> exists|i: int| 0 <= i < s.len() && s[i].id@ == id
}


/// `s` holds, sorted by id, one entry for each id whose `f` is not empty,
/// with the uses `f` gives for it.
pub open spec fn tally_of(s: Seq<SongUsage>, f: spec_fn(Seq<char>) -> Seq<UseView>) -> bool {
    &&& usage_sorted(s)
    &&& forall|i: int| 0 <= i < s.len() ==> use_views((#[trigger] s[i]).uses@) == f(s[i].id@) && f(
        s[i].id@,
    ).len() > 0
    &&& forall|id: Seq<char>| #[trigger] f(id).len() > 0 ==> exists|i: int| 0 <= i < s.len() && s[i].id@ == id
}

/// A song has uses in a list of services exactly when one of them uses it.
pub proof fn lemma_usage_of_nonempty(services: Seq<RawService>, id: Seq<char>)
    ensures
        usage_of(services, id).len() > 0 <==> used_in(services, id),
    decreases services.len(),
{
    if services.len() > 0 {
        let init = services.drop_last();
        lemma_usage_of_nonempty(init, id);
        if used_in(init, id) {
            let k = choose|k: int| 0 <= k < init.len() && #[trigger] init[k].song_use_map().dom().contains(id);
            assert(services[k] == init[k]);
        }
        if used_in(services, id) && !services.last().song_use_map().dom().contains(id) {
            let k = choose|k: int| 0 <= k < services.len() && #[trigger] services[k].song_use_map().dom().contains(id);
            assert(init[k] == services[k]);
        }
        if services.last().song_use_map().dom().contains(id) {
            assert(services[services.len() - 1].song_use_map().dom().contains(id));
        }
    }
}

/// `tally_of` depends only on the values of `f`.
proof fn lemma_tally_of_ext(s: Seq<SongUsage>, f: spec_fn(Seq<char>) -> Seq<UseView>, g: spec_fn(Seq<char>) -> Seq<UseView>)
    requires
        tally_of(s, f),
        forall|x: Seq<char>| #[trigger] f(x) == g(x),
    ensures
        tally_of(s, g),
{
    assert(f =~= g);
}

/// Adds one use of song `id` to the tally.
fn add_use(
    tally: &mut Vec<SongUsage>,
    id: &str,
    rec: UseRecord,
    Ghost(f): Ghost<spec_fn(Seq<char>) -> Seq<UseView>>,
    Ghost(after): Ghost<spec_fn(Seq<char>) -> Seq<UseView>>,
)
    requires
        tally_of(old(tally)@, f),
        forall|x: Seq<char>| #[trigger] after(x) == if x == id@ {
            f(x).push((rec.date@, rec.leader@, opt_view(rec.key)))
        } else {
            f(x)
        },
    ensures
        tally_of(final(tally)@, after),
{
    let ghost rv = (rec.date@, rec.leader@, opt_view(rec.key));
    let ghost g = |x: Seq<char>| if x == id@ { f(x).push(rv) } else { f(x) };
    let n = tally.len();
    let mut p: usize = 0;
    while p < n && str_lt(tally[p].id.as_str(), id)
        invariant
            n == tally@.len(),
            p <= n,
            forall|j: int| 0 <= j < p ==> lex_lt(#[trigger] tally@[j].id@, id@),
        decreases n - p,
    {
        p = p + 1;
    }
    let ghost before = tally@;
    if p < n && str_eq(tally[p].id.as_str(), id) {
        let mut entry = tally.remove(p);
        let ghost old_uses = entry.uses@;
        entry.uses.push(rec);
        proof {
            assert(use_views(entry.uses@) =~= use_views(old_uses).push(rv));
        }
        tally.insert(p, entry);
        proof {
            assert forall|i: int| 0 <= i < tally@.len() implies use_views((#[trigger] tally@[i]).uses@) == g(
                tally@[i].id@,
            ) && g(tally@[i].id@).len() > 0 by {
                if i != p {
                    assert(tally@[i] == before[i]);
                    if before[i].id@ == id@ {
                        if i < p {
                            lemma_lex_lt_irreflexive(id@);
                        } else {
                            lemma_lex_lt_irreflexive(id@);
                        }
                    }
                }
            }
            assert forall|x: Seq<char>| #[trigger] g(x).len() > 0 implies exists|i: int|
                0 <= i < tally@.len() && tally@[i].id@ == x by {
                if x == id@ {
                    assert(tally@[p as int].id@ == x);
                } else {
                    assert(f(x).len() > 0);
                    let i = choose|i: int| 0 <= i < before.len() && before[i].id@ == x;
                    assert(tally@[i] == before[i] || i == p);
                    assert(tally@[i].id@ == x);
                }
            }
            assert forall|i: int, j: int| 0 <= i < j < tally@.len() implies lex_lt(
                #[trigger] tally@[i].id@,
                #[trigger] tally@[j].id@,
            ) by {
                assert(before[i].id@ == tally@[i].id@);
                assert(before[j].id@ == tally@[j].id@);
            }
        }
    } else {
        proof {
            if p < n {
                lemma_lex_lt_total(before[p as int].id@, id@);
            }
            assert forall|i: int| 0 <= i < before.len() implies #[trigger] before[i].id@ != id@ by {
                if i < p {
                    lemma_lex_lt_irreflexive(id@);
                } else if i > p {
                    lemma_lex_lt_transitive(id@, before[p as int].id@, before[i].id@);
                    lemma_lex_lt_irreflexive(id@);
                }
            }
            if f(id@).len() > 0 {
                let i = choose|i: int| 0 <= i < before.len() && before[i].id@ == id@;
                assert(before[i].id@ != id@);
            }
        }
        let mut uses: Vec<UseRecord> = Vec::new();
        uses.push(rec);
        proof {
            assert(use_views(uses@) =~= seq![rv]);
            assert(f(id@) =~= Seq::<UseView>::empty());
            assert(g(id@) =~= seq![rv]);
        }
        tally.insert(p, SongUsage { id: to_owned(id), uses });
        proof {
            assert forall|i: int| 0 <= i < tally@.len() implies use_views((#[trigger] tally@[i]).uses@) == g(
                tally@[i].id@,
            ) && g(tally@[i].id@).len() > 0 by {
                if i < p {
                    assert(tally@[i] == before[i]);
                } else if i > p {
                    assert(tally@[i] == before[i - 1]);
                }
            }
            assert forall|x: Seq<char>| #[trigger] g(x).len() > 0 implies exists|i: int|
                0 <= i < tally@.len() && tally@[i].id@ == x by {
                if x == id@ {
                    assert(tally@[p as int].id@ == x);
                } else {
                    assert(f(x).len() > 0);
                    let i = choose|i: int| 0 <= i < before.len() && before[i].id@ == x;
                    if i < p {
                        assert(tally@[i].id@ == x);
                    } else {
                        assert(tally@[i + 1].id@ == x);
                    }
                }
            }
            assert forall|i: int, j: int| 0 <= i < j < tally@.len() implies lex_lt(
                #[trigger] tally@[i].id@,
                #[trigger] tally@[j].id@,
            ) by {
                if j < p {
                    assert(tally@[i] == before[i] && tally@[j] == before[j]);
                } else if j == p {
                    assert(tally@[i] == before[i]);
                } else if i == p {
                    assert(tally@[j] == before[j - 1]);
                    if j - 1 > p {
                        lemma_lex_lt_transitive(id@, before[p as int].id@, before[j - 1].id@);
                    }
                } else if i < p {
                    assert(tally@[i] == before[i] && tally@[j] == before[j - 1]);
                } else {
                    assert(tally@[i] == before[i - 1] && tally@[j] == before[j - 1]);
                }
            }
        }
    }
    proof {
        lemma_tally_of_ext(tally@, g, after);
    }
}


/// The tally after the services `done`, and then the first `j` uses of
/// service `svc`.
pub open spec fn staged(
    done: Seq<RawService>,
    svc: RawService,
    uses: Seq<ServiceSongUse>,
    j: int,
) -> spec_fn(Seq<char>) -> Seq<UseView> {
    |x: Seq<char>|
        usage_of(done, x) + if exists|jj: int| 0 <= jj < j && #[trigger] uses[jj].id@ == x {
            seq![use_on(svc, x)]
        } else {
            Seq::<UseView>::empty()
        }
}

/// The first ten characters of a date text (all of it when shorter).
fn date_head(date: &str) -> (r: String)
    ensures
        r@ == date_prefix(date@),
{
    if date.unicode_len() >= 10 {
        to_owned(date.substring_char(0, 10))
    } else {
        to_owned(date)
    }
}

/// A copy of an optional text.
fn copy_opt(o: &Option<String>) -> (r: Option<String>)
    ensures
        opt_view(r) == opt_view(*o),
{
    match o {
        Some(s) => Some(to_owned(s.as_str())),
        None => None,
    }
}

/// The uses of each song over `services`: one entry per song id, ordered by
/// id, each listing the date (first ten characters), worship leader and key
/// of every service that used the song, in service order.
pub fn tally_song_usage(services: &Vec<RawService>) -> (r: Vec<SongUsage>)
    ensures
        is_tally(r@, services@),
{
    let mut tally: Vec<SongUsage> = Vec::new();
    let ns = services.len();
    let mut k: usize = 0;
    proof {
        assert(tally_of(tally@, |x: Seq<char>| usage_of(services@.take(0), x))) by {
            assert forall|x: Seq<char>| #[trigger] usage_of(services@.take(0), x).len() == 0 by {
                assert(services@.take(0).len() == 0);
            }
        }
    }
    while k < ns
        invariant
            ns == services@.len(),
            k <= ns,
            tally_of(tally@, |x: Seq<char>| usage_of(services@.take(k as int), x)),
        decreases ns - k,
    {
        let svc = &services[k];
        let leader = find_worship_leader(svc);
        let date = date_head(svc.date.as_str());
        let uses = svc.song_uses();
        let ghost done = services@.take(k as int);
        proof {
            lemma_tally_of_ext(tally@, |x: Seq<char>| usage_of(services@.take(k as int), x), staged(done, *svc, uses@, 0));
        }
        let nu = uses.len();
        let mut j: usize = 0;
        while j < nu
            invariant
                nu == uses@.len(),
                j <= nu,
                sorted_by_id(uses@),
                lists_map(uses@, svc.song_use_map()),
                leader@ == worship_leader_spec(*svc),
                date@ == date_prefix(svc.date@),
                done == services@.take(k as int),
                tally_of(tally@, staged(done, *svc, uses@, j as int)),
            decreases nu - j,
        {
            let rec = UseRecord {
                date: to_owned(date.as_str()),
                leader: to_owned(leader.as_str()),
                key: copy_opt(&uses[j].key),
            };
            let ghost f = staged(done, *svc, uses@, j as int);
            let ghost idj = uses@[j as int].id@;
            let ghost rv = (rec.date@, rec.leader@, opt_view(rec.key));
            proof {
                assert(svc.song_use_map().dom().contains(idj));
                assert(rv == use_on(*svc, idj));
                assert forall|x: Seq<char>| #[trigger] staged(done, *svc, uses@, j + 1)(x) == if x == idj { f(x).push(rv) } else { f(x) } by {
                    if x == idj {
                        assert forall|jj: int| 0 <= jj < j implies #[trigger] uses@[jj].id@ != x by {
                            lemma_lex_lt_irreflexive(x);
                        }
                        assert(uses@[j as int].id@ == x);
                    } else {
                        if exists|jj: int| 0 <= jj < j + 1 && #[trigger] uses@[jj].id@ == x {
                            let jj = choose|jj: int| 0 <= jj < j + 1 && #[trigger] uses@[jj].id@ == x;
                            assert(jj < j);
                        }
                    }
                }
            }
            add_use(&mut tally, uses[j].id.as_str(), rec, Ghost(f), Ghost(staged(done, *svc, uses@, j + 1)));
            j = j + 1;
        }
        proof {
            let next = |x: Seq<char>| usage_of(services@.take(k + 1), x);
            assert(services@.take(k + 1).drop_last() =~= services@.take(k as int));
            assert forall|x: Seq<char>| #[trigger] staged(done, *svc, uses@, nu as int)(x) == next(x) by {
                if svc.song_use_map().dom().contains(x) {
                    let i = choose|i: int| 0 <= i < uses@.len() && uses@[i].id@ == x;
                    assert(uses@[i].id@ == x);
                }
            }
            lemma_tally_of_ext(tally@, staged(done, *svc, uses@, nu as int), next);
        }
        k = k + 1;
    }
    proof {
        assert(services@.take(ns as int) =~= services@);
        let all = |x: Seq<char>| usage_of(services@, x);
        lemma_tally_of_ext(tally@, |x: Seq<char>| usage_of(services@.take(ns as int), x), all);
        assert forall|i: int| 0 <= i < tally@.len() implies use_views((#[trigger] tally@[i]).uses@) == usage_of(
            services@,
            tally@[i].id@,
        ) && used_in(services@, tally@[i].id@) by {
            assert(all(tally@[i].id@) == usage_of(services@, tally@[i].id@));
            lemma_usage_of_nonempty(services@, tally@[i].id@);
        }
        assert forall|id: Seq<char>| used_in(services@, id) implies exists|i: int| 0 <= i < tally@.len() && tally@[i].id@ == id by {
            lemma_usage_of_nonempty(services@, id);
            assert(all(id).len() > 0);
        }
    }
    tally
}

} // verus!
