//! The filters and the order of the song list: by category, by when a song
//! was last used on a service, most recently used first.
use vstd::prelude::*;
use crate::api::raw::{RawService, RawSong};
use crate::api::service_songs::lemma_dedup_seq;
use crate::date_window::{date_before, is_before, parse_ymd, parsed_ymd, Date};
use crate::domain::category::{category_id_matches, id_matches};
use crate::domain::person::opt_view;
use crate::domain::song::SongSummary;
use crate::textops::{lex_lt, str_eq, str_lt, views};

verus! {

// ---------------------------------------------------------------------------
// Categories
// ---------------------------------------------------------------------------

/// One of the song's categories is named by one of the wanted ids (in full
/// or by its first block).
pub open spec fn in_categories(raw: RawSong, wanted: Seq<Seq<char>>) -> bool {
    exists|c: int, w: int|
        0 <= c < raw.categories.category@.len() && 0 <= w < wanted.len() && category_id_matches(
            #[trigger] raw.categories.category@[c].id@,
            #[trigger] wanted[w],
        )
}

/// The songs in one of the wanted categories, in order.
pub open spec fn keep_in_categories(s: Seq<RawSong>, wanted: Seq<Seq<char>>) -> Seq<RawSong>
    decreases s.len(),
{
    if s.len() == 0 {
        s
    } else if in_categories(s.last(), wanted) {
        keep_in_categories(s.drop_last(), wanted).push(s.last())
    } else {
        keep_in_categories(s.drop_last(), wanted)
    }
}

/// Whether one of the song's categories is among the wanted ids.
fn song_in_categories(raw: &RawSong, wanted: &Vec<String>) -> (r: bool)
    ensures
        r == in_categories(*raw, views(wanted@)),
{
    let cats = &raw.categories.category;
    let nc = cats.len();
    let nw = wanted.len();
    let mut c: usize = 0;
    while c < nc
        invariant
            nc == cats@.len(),
            nw == wanted@.len(),
            cats@ == raw.categories.category@,
            c <= nc,
            forall|ci: int, wi: int|
                0 <= ci < c && 0 <= wi < nw ==> !category_id_matches(
                    #[trigger] cats@[ci].id@,
                    #[trigger] views(wanted@)[wi],
                ),
        decreases nc - c,
    {
        let mut w: usize = 0;
        while w < nw
            invariant
                nc == cats@.len(),
                nw == wanted@.len(),
                cats@ == raw.categories.category@,
                c < nc,
                w <= nw,
                forall|ci: int, wi: int|
                    0 <= ci < c && 0 <= wi < nw ==> !category_id_matches(
                        #[trigger] cats@[ci].id@,
                        #[trigger] views(wanted@)[wi],
                    ),
                forall|wi: int| 0 <= wi < w ==> !category_id_matches(cats@[c as int].id@, #[trigger] views(wanted@)[wi]),
            decreases nw - w,
        {
            proof {
                assert(views(wanted@)[w as int] == wanted@[w as int]@);
            }
            if id_matches(cats[c].id.as_str(), wanted[w].as_str()) {
                proof {
                    assert(category_id_matches(raw.categories.category@[c as int].id@, views(wanted@)[w as int]));
                }
                return true;
            }
            w = w + 1;
        }
        c = c + 1;
    }
    false
}

/// The songs in one of the wanted categories (all songs when no category is
/// wanted).
pub fn filter_by_categories(songs: Vec<RawSong>, wanted: &Vec<String>) -> (r: Vec<RawSong>)
    ensures
        wanted@.len() == 0 ==> r@ == songs@,
        wanted@.len() > 0 ==> r@ == keep_in_categories(songs@, views(wanted@)),
{
    if wanted.len() == 0 {
        return songs;
    }
    let ghost all = songs@;
    let mut src = songs;
    let mut kept: Vec<RawSong> = Vec::new();
    let ghost mut m: int = 0;
    while src.len() > 0
        invariant
            0 <= m <= all.len(),
            src@ == all.subrange(m, all.len() as int),
            kept@ == keep_in_categories(all.subrange(0, m), views(wanted@)),
        decreases src@.len(),
    {
        let ghost sv = src@;
        let x = src.remove(0);
        proof {
            assert(sv[0] == x);
            assert(src@ =~= sv.drop_first());
            assert(sv.drop_first() =~= all.subrange(m + 1, all.len() as int));
            assert(all.subrange(0, m + 1).drop_last() =~= all.subrange(0, m));
            assert(all.subrange(0, m + 1).last() == x);
        }
        if song_in_categories(&x, wanted) {
            kept.push(x);
        }
        proof {
            m = m + 1;
        }
    }
    proof {
        assert(all.subrange(0, m) =~= all);
    }
    kept
}

// ---------------------------------------------------------------------------
// Last use
// ---------------------------------------------------------------------------

/// The number of bytes that UTF-8 takes for `c`.
pub open spec fn utf8_len(c: char) -> int {
    if (c as u32) < 0x80 {
        1
    } else if (c as u32) < 0x800 {
        2
    } else if (c as u32) < 0x10000 {
        3
    } else {
        4
    }
}

/// The number of leading characters of `s` that take exactly `n` bytes in
/// UTF-8, or `None` when `s` is shorter or no character boundary falls there.
pub open spec fn chars_in_bytes(s: Seq<char>, n: int) -> Option<int>
    decreases s.len(),
{
    if n < 0 {
        None
    } else if n == 0 {
        Some(0)
    } else if s.len() == 0 {
        None
    } else {
        match chars_in_bytes(s.drop_first(), n - utf8_len(s[0])) {
            Some(k) => Some(k + 1),
            None => None,
        }
    }
}

/// The date part of a service's date text (`get(..10).unwrap_or(..)`): its
/// first ten bytes when they end on a character boundary, else all of it.
pub open spec fn service_date_text(date: Seq<char>) -> Seq<char> {
    match chars_in_bytes(date, 10) {
        Some(k) => date.take(k),
        None => date,
    }
}

/// The day of a service: the date part of its date text read as
/// `YYYY-MM-DD`.
pub open spec fn service_day_spec(date: Seq<char>) -> Option<Date> {
    match parsed_ymd(service_date_text(date)) {
        Some(t) => Some(Date { year: t.0, month: t.1, day: t.2 }),
        None => None,
    }
}

/// The number of bytes that UTF-8 takes for `c`.
fn char_bytes(c: char) -> (r: usize)
    ensures
        r == utf8_len(c),
{
    let v = c as u32;
    if v < 0x80 {
        1
    } else if v < 0x800 {
        2
    } else if v < 0x10000 {
        3
    } else {
        4
    }
}

/// The date part of a service's date text.
fn service_date_head(date: &str) -> (r: &str)
    ensures
        r@ == service_date_text(date@),
{
    let ghost s = date@;
    let n = date.unicode_len();
    let mut i: usize = 0;
    let mut used: usize = 0;
    assert(s.skip(0) =~= s);
    while i < n && used < 10
        invariant
            s == date@,
            n == s.len(),
            i <= n,
            used < 14,
            chars_in_bytes(s, 10) == (match chars_in_bytes(s.skip(i as int), 10 - used) {
                Some(k) => Some(k + i),
                None => None::<int>,
            }),
        decreases n - i,
    {
        let c = date.get_char(i);
        let b = char_bytes(c);
        proof {
            let t = s.skip(i as int);
            assert(t[0] == c);
            assert(t.drop_first() =~= s.skip(i + 1));
        }
        used = used + b;
        i = i + 1;
    }
    if used == 10 {
        date.substring_char(0, i)
    } else {
        proof {
            if used < 10 {
                assert(s.skip(i as int).len() == 0);
            }
        }
        date
    }
}

/// The day of a service, if its date reads as one.
pub fn service_day(date: &str) -> (r: Option<Date>)
    ensures
        r == service_day_spec(date@),
        r matches Some(d) ==> d.is_valid(),
{
    let head = service_date_head(date);
    match parse_ymd(head) {
        Some((year, month, day)) => Some(Date { year, month, day }),
        None => None,
    }
}

/// The latest day on which one of `services` used song `id` (services whose
/// date does not read are skipped).
pub open spec fn last_used_of(services: Seq<RawService>, id: Seq<char>) -> Option<Date>
    decreases services.len(),
{
    if services.len() == 0 {
        None
    } else {
        let prev = last_used_of(services.drop_last(), id);
        match service_day_spec(services.last().date@) {
            Some(d) => if services.last().song_id_stream().contains(id) {
                match prev {
                    Some(p) => if date_before(p, d) { Some(d) } else { Some(p) },
                    None => Some(d),
                }
            } else {
                prev
            },
            None => prev,
        }
    }
}

/// Whether the list holds `id`.
fn holds_id(ids: &Vec<String>, id: &str) -> (r: bool)
    ensures
        r == views(ids@).contains(id@),
{
    let n = ids.len();
    let mut i: usize = 0;
    while i < n
        invariant
            n == ids@.len(),
            i <= n,
            forall|j: int| 0 <= j < i ==> views(ids@)[j] != id@,
        decreases n - i,
    {
        proof {
            assert(views(ids@)[i as int] == ids@[i as int]@);
        }
        if str_eq(ids[i].as_str(), id) {
            return true;
        }
        i = i + 1;
    }
    false
}

/// The latest day on which one of `services` used song `id`.
pub fn last_used_for(id: &str, services: &Vec<RawService>) -> (r: Option<Date>)
    ensures
        r == last_used_of(services@, id@),
{
    let n = services.len();
    let mut last: Option<Date> = None;
    let mut k: usize = 0;
    while k < n
        invariant
            n == services@.len(),
            k <= n,
            last == last_used_of(services@.take(k as int), id@),
        decreases n - k,
    {
        proof {
            assert(services@.take(k + 1).drop_last() =~= services@.take(k as int));
        }
        match service_day(services[k].date.as_str()) {
            Some(d) => {
                let ids = services[k].song_ids();
                proof {
                    lemma_dedup_seq(services@[k as int].song_id_stream());
                }
                if holds_id(&ids, id) {
                    last = match last {
                        Some(p) => if is_before(p, d) { Some(d) } else { Some(p) },
                        None => Some(d),
                    };
                }
            },
            None => {},
        }
        k = k + 1;
    }
    proof {
        assert(services@.take(n as int) =~= services@);
    }
    last
}

/// A song's last use passes the filters: used on or after `used_start`, and
/// not used on or after `not_used_start`.
pub open spec fn usage_keeps(last: Option<Date>, used_start: Option<Date>, not_used_start: Option<Date>) -> bool {
    &&& match used_start {
        Some(s) => last matches Some(l) && !date_before(l, s),
        None => true,
    }
    &&& match not_used_start {
        Some(s) => match last {
            Some(l) => date_before(l, s),
            None => true,
        },
        None => true,
    }
}

/// The songs (with their last use) that pass the filters, in order.
pub open spec fn keep_by_usage_spec(
    s: Seq<(RawSong, Option<Date>)>,
    used_start: Option<Date>,
    not_used_start: Option<Date>,
) -> Seq<(RawSong, Option<Date>)>
    decreases s.len(),
{
    if s.len() == 0 {
        s
    } else if usage_keeps(s.last().1, used_start, not_used_start) {
        keep_by_usage_spec(s.drop_last(), used_start, not_used_start).push(s.last())
    } else {
        keep_by_usage_spec(s.drop_last(), used_start, not_used_start)
    }
}

/// Whether a last use passes the filters.
fn passes_usage(last: Option<Date>, used_start: Option<Date>, not_used_start: Option<Date>) -> (r: bool)
    ensures
        r == usage_keeps(last, used_start, not_used_start),
{
    let used_ok = match used_start {
        Some(s) => match last {
            Some(l) => !is_before(l, s),
            None => false,
        },
        None => true,
    };
    let not_used_ok = match not_used_start {
        Some(s) => match last {
            Some(l) => is_before(l, s),
            None => true,
        },
        None => true,
    };
    used_ok && not_used_ok
}

/// The songs, each with its last use, that pass the usage filters.
pub fn keep_by_usage(
    songs: Vec<(RawSong, Option<Date>)>,
    used_start: Option<Date>,
    not_used_start: Option<Date>,
) -> (r: Vec<(RawSong, Option<Date>)>)
    ensures
        r@ == keep_by_usage_spec(songs@, used_start, not_used_start),
{
    let ghost all = songs@;
    let mut src = songs;
    let mut kept: Vec<(RawSong, Option<Date>)> = Vec::new();
    let ghost mut m: int = 0;
    while src.len() > 0
        invariant
            0 <= m <= all.len(),
            src@ == all.subrange(m, all.len() as int),
            kept@ == keep_by_usage_spec(all.subrange(0, m), used_start, not_used_start),
        decreases src@.len(),
    {
        let ghost sv = src@;
        let x = src.remove(0);
        proof {
            assert(sv[0] == x);
            assert(src@ =~= sv.drop_first());
            assert(sv.drop_first() =~= all.subrange(m + 1, all.len() as int));
            assert(all.subrange(0, m + 1).drop_last() =~= all.subrange(0, m));
            assert(all.subrange(0, m + 1).last() == x);
        }
        if passes_usage(x.1, used_start, not_used_start) {
            kept.push(x);
        }
        proof {
            m = m + 1;
        }
    }
    proof {
        assert(all.subrange(0, m) =~= all);
    }
    kept
}

/// The songs whose status is `active`, in order.
pub open spec fn keep_active_spec(s: Seq<SongSummary>) -> Seq<SongSummary>
    decreases s.len(),
{
    if s.len() == 0 {
        s
    } else if s.last().status@ == "active"@ {
        keep_active_spec(s.drop_last()).push(s.last())
    } else {
        keep_active_spec(s.drop_last())
    }
}

/// The songs whose status is `active`, as the text listing shows them.
pub fn keep_active(songs: Vec<SongSummary>) -> (r: Vec<SongSummary>)
    ensures
        r@ == keep_active_spec(songs@),
{
    let ghost all = songs@;
    let mut src = songs;
    let mut kept: Vec<SongSummary> = Vec::new();
    let ghost mut m: int = 0;
    while src.len() > 0
        invariant
            0 <= m <= all.len(),
            src@ == all.subrange(m, all.len() as int),
            kept@ == keep_active_spec(all.subrange(0, m)),
        decreases src@.len(),
    {
        let ghost sv = src@;
        let x = src.remove(0);
        proof {
            assert(sv[0] == x);
            assert(src@ =~= sv.drop_first());
            assert(sv.drop_first() =~= all.subrange(m + 1, all.len() as int));
            assert(all.subrange(0, m + 1).drop_last() =~= all.subrange(0, m));
            assert(all.subrange(0, m + 1).last() == x);
        }
        if str_eq(x.status.as_str(), "active") {
            kept.push(x);
        }
        proof {
            m = m + 1;
        }
    }
    proof {
        assert(all.subrange(0, m) =~= all);
    }
    kept
}

// ---------------------------------------------------------------------------
// Most recently used first
// ---------------------------------------------------------------------------

/// The order of `Option<String>`: nothing before something, texts by `Ord`.
pub open spec fn opt_text_lt(a: Option<Seq<char>>, b: Option<Seq<char>>) -> bool {
    match (a, b) {
        (None, Some(_)) => true,
        (Some(x), Some(y)) => lex_lt(x, y),
        _ => false,
    }
}

/// Insert `x` before the first song last used earlier than it.
pub open spec fn insert_by_last_used(x: SongSummary, s: Seq<SongSummary>) -> Seq<SongSummary>
    decreases s.len(),
{
    if s.len() == 0 {
        seq![x]
    } else if opt_text_lt(opt_view(s[0].last_used), opt_view(x.last_used)) {
        seq![x] + s
    } else {
        seq![s[0]] + insert_by_last_used(x, s.drop_first())
    }
}

/// Stable sort by last use, most recent first, never-used songs last.
pub open spec fn sort_by_last_used(s: Seq<SongSummary>) -> Seq<SongSummary>
    decreases s.len(),
{
    if s.len() == 0 {
        s
    } else {
        insert_by_last_used(s.last(), sort_by_last_used(s.drop_last()))
    }
}

/// Whether last use `a` comes before last use `b` in text order.
fn opt_text_before(a: &Option<String>, b: &Option<String>) -> (r: bool)
    ensures
        r == opt_text_lt(opt_view(*a), opt_view(*b)),
{
    match (a, b) {
        (None, Some(_)) => true,
        (Some(x), Some(y)) => str_lt(x.as_str(), y.as_str()),
        _ => false,
    }
}

proof fn lemma_insert_by_last_used_at(x: SongSummary, s: Seq<SongSummary>, p: int)
    requires
        0 <= p <= s.len(),
        forall|j: int| 0 <= j < p ==> !opt_text_lt(opt_view((#[trigger] s[j]).last_used), opt_view(x.last_used)),
        p == s.len() || opt_text_lt(opt_view(s[p].last_used), opt_view(x.last_used)),
    ensures
        insert_by_last_used(x, s) == s.insert(p, x),
    decreases p,
{
    if s.len() == 0 {
        assert(s.insert(p, x) =~= seq![x]);
    } else if p == 0 {
        assert(s.insert(p, x) =~= seq![x] + s);
    } else {
        let t = s.drop_first();
        assert forall|j: int| 0 <= j < p - 1 implies !opt_text_lt(opt_view((#[trigger] t[j]).last_used), opt_view(x.last_used)) by {
            assert(t[j] == s[j + 1]);
        }
        lemma_insert_by_last_used_at(x, t, p - 1);
        assert(s.insert(p, x) =~= seq![s[0]] + t.insert(p - 1, x));
    }
}

/// The songs, most recently used first (dates are `YYYY-MM-DD`, so text
/// order is date order); songs never used go to the end; ties keep their
/// order.
pub fn sort_most_recent_first(songs: Vec<SongSummary>) -> (r: Vec<SongSummary>)
    ensures
        r@ == sort_by_last_used(songs@),
{
    let ghost all = songs@;
    let mut src = songs;
    let mut sorted: Vec<SongSummary> = Vec::new();
    let ghost mut m: int = 0;
    while src.len() > 0
        invariant
            0 <= m <= all.len(),
            src@ == all.subrange(m, all.len() as int),
            sorted@ == sort_by_last_used(all.subrange(0, m)),
        decreases src@.len(),
    {
        let ghost sv = src@;
        let x = src.remove(0);
        proof {
            assert(sv[0] == x);
            assert(src@ =~= sv.drop_first());
            assert(sv.drop_first() =~= all.subrange(m + 1, all.len() as int));
            assert(all.subrange(0, m + 1).drop_last() =~= all.subrange(0, m));
            assert(all.subrange(0, m + 1).last() == x);
        }
        let n = sorted.len();
        let mut p: usize = 0;
        while p < n && !opt_text_before(&sorted[p].last_used, &x.last_used)
            invariant
                n == sorted@.len(),
                p <= n,
                forall|j: int| 0 <= j < p ==> !opt_text_lt(opt_view((#[trigger] sorted@[j]).last_used), opt_view(x.last_used)),
            decreases n - p,
        {
            p = p + 1;
        }
        let ghost before = sorted@;
        let ghost xv = x;
        sorted.insert(p, x);
        proof {
            lemma_insert_by_last_used_at(xv, before, p as int);
            m = m + 1;
        }
    }
    proof {
        assert(all.subrange(0, m) =~= all);
    }
    sorted
}

} // verus!
