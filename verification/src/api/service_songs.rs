//! The songs a service uses: those listed beside it and those in its plans.
use vstd::prelude::*;
use crate::api::raw::{RawService, RawServiceItem, RawServicePlan, RawServiceSong, ServiceSongUse};
use crate::domain::person::opt_view;
use crate::textops::{lemma_lex_lt_irreflexive, lemma_lex_lt_total, lemma_lex_lt_transitive, lex_lt, str_eq, str_lt, to_owned, views};

verus! {

// ---------------------------------------------------------------------------
// Song ids
// ---------------------------------------------------------------------------

/// The song ids of plan items, in order (items without a song id give none).
pub open spec fn item_song_ids(items: Seq<RawServiceItem>) -> Seq<Seq<char>>
    decreases items.len(),
{
    if items.len() == 0 {
        Seq::empty()
    } else {
        item_song_ids(items.drop_last()) + match items.last().song_id {
            Some(id) => seq![id@],
            None => Seq::empty(),
        }
    }
}

/// The song ids of all items of all plans, in order.
pub open spec fn plan_song_ids(plans: Seq<RawServicePlan>) -> Seq<Seq<char>>
    decreases plans.len(),
{
    if plans.len() == 0 {
        Seq::empty()
    } else {
        plan_song_ids(plans.drop_last()) + item_song_ids(plans.last().items.item@)
    }
}

/// The ids of the songs listed beside a service.
pub open spec fn listed_song_ids(songs: Seq<RawServiceSong>) -> Seq<Seq<char>> {
    songs.map_values(|s: RawServiceSong| s.id@)
}

/// `s` without repeats, each element kept where it first occurs.
pub open spec fn dedup_seq(s: Seq<Seq<char>>) -> Seq<Seq<char>>
    decreases s.len(),
{
    if s.len() == 0 {
        Seq::empty()
    } else {
        let d = dedup_seq(s.drop_last());
        if d.contains(s.last()) {
            d
        } else {
            d.push(s.last())
        }
    }
}

impl RawService {
    /// Every song id the service mentions, listed songs first, then plan
    /// items, repeats included.
    pub open spec fn song_id_stream(self) -> Seq<Seq<char>> {
        listed_song_ids(self.songs.song@) + plan_song_ids(self.plans.plan@)
    }
}

/// Keeping the first occurrences keeps exactly the elements, once each.
pub proof fn lemma_dedup_seq(s: Seq<Seq<char>>)
    ensures
        forall|x: Seq<char>| dedup_seq(s).contains(x) <==> s.contains(x),
        forall|i: int, j: int| 0 <= i < j < dedup_seq(s).len() ==> dedup_seq(s)[i] != dedup_seq(s)[j],
    decreases s.len(),
{
    if s.len() > 0 {
        lemma_dedup_seq(s.drop_last());
        assert forall|x: Seq<char>| s.contains(x) <==> (s.drop_last().contains(x) || x == s.last()) by {
            if s.contains(x) {
                let k = choose|k: int| 0 <= k < s.len() && s[k] == x;
                if k < s.len() - 1 {
                    assert(s.drop_last()[k] == x);
                }
            }
            if s.drop_last().contains(x) {
                let k = choose|k: int| 0 <= k < s.drop_last().len() && s.drop_last()[k] == x;
                assert(s[k] == x);
            }
            if x == s.last() {
                assert(s[s.len() - 1] == x);
            }
        }
        let d = dedup_seq(s.drop_last());
        if !d.contains(s.last()) {
            assert forall|x: Seq<char>| d.push(s.last()).contains(x) <==> (d.contains(x) || x == s.last()) by {
                if d.push(s.last()).contains(x) {
                    let k = choose|k: int| 0 <= k < d.push(s.last()).len() && d.push(s.last())[k] == x;
                    if k < d.len() {
                        assert(d[k] == x);
                    }
                }
                if d.contains(x) {
                    let k = choose|k: int| 0 <= k < d.len() && d[k] == x;
                    assert(d.push(s.last())[k] == x);
                }
                if x == s.last() {
                    assert(d.push(s.last())[d.len() as int] == x);
                }
            }
            assert forall|i: int, j: int| 0 <= i < j < d.push(s.last()).len() implies d.push(s.last())[i]
                != d.push(s.last())[j] by {
                if j == d.len() {
                    assert(d[i] == d.push(s.last())[i]);
                }
            }
        }
    }
}

/// `out` with `id` added at the end unless it is already there.
fn add_unique(out: &mut Vec<String>, id: &str)
    ensures
        views(final(out)@) == (if views(old(out)@).contains(id@) {
            views(old(out)@)
        } else {
            views(old(out)@).push(id@)
        }),
{
    let n = out.len();
    let mut i: usize = 0;
    while i < n
        invariant
            n == out@.len(),
            i <= n,
            forall|j: int| 0 <= j < i ==> views(out@)[j] != id@,
        decreases n - i,
    {
        proof {
            assert(views(out@)[i as int] == out@[i as int]@);
        }
        if str_eq(out[i].as_str(), id) {
            proof {
                assert(views(out@)[i as int] == id@);
            }
            return;
        }
        i = i + 1;
    }
    let ghost before = views(out@);
    out.push(to_owned(id));
    proof {
        assert(!before.contains(id@));
        assert(views(out@) =~= before.push(id@));
    }
}

/// Adding one more element to a sequence extends its repeat-free form by
/// that element when it is new.
proof fn lemma_dedup_push(s: Seq<Seq<char>>, x: Seq<char>)
    ensures
        dedup_seq(s.push(x)) == (if dedup_seq(s).contains(x) {
            dedup_seq(s)
        } else {
            dedup_seq(s).push(x)
        }),
{
    assert(s.push(x).drop_last() =~= s);
}

impl RawService {
    /// The ids of the songs the service uses, each once, in the order they
    /// first appear: listed songs, then plan items.
    pub fn song_ids(&self) -> (r: Vec<String>)
        ensures
            views(r@) == dedup_seq(self.song_id_stream()),
    {
        let ghost listed = listed_song_ids(self.songs.song@);
        let mut out: Vec<String> = Vec::new();
        let n = self.songs.song.len();
        let mut i: usize = 0;
        while i < n
            invariant
                n == self.songs.song@.len(),
                listed == listed_song_ids(self.songs.song@),
                i <= n,
                views(out@) == dedup_seq(listed.take(i as int)),
            decreases n - i,
        {
            add_unique(&mut out, self.songs.song[i].id.as_str());
            proof {
                assert(listed.take(i + 1) =~= listed.take(i as int).push(listed[i as int]));
                lemma_dedup_push(listed.take(i as int), listed[i as int]);
            }
            i = i + 1;
        }
        proof {
            assert(listed.take(n as int) =~= listed);
        }
        let plans = &self.plans.plan;
        let np = plans.len();
        let mut p: usize = 0;
        while p < np
            invariant
                np == plans@.len(),
                p <= np,
                views(out@) == dedup_seq(listed + plan_song_ids(plans@.take(p as int))),
            decreases np - p,
        {
            let items = &plans[p].items.item;
            let ni = items.len();
            let ghost done = listed + plan_song_ids(plans@.take(p as int));
            let mut q: usize = 0;
            while q < ni
                invariant
                    ni == items@.len(),
                    q <= ni,
                    views(out@) == dedup_seq(done + item_song_ids(items@.take(q as int))),
                decreases ni - q,
            {
                let ghost prev = done + item_song_ids(items@.take(q as int));
                proof {
                    assert(items@.take(q + 1).drop_last() =~= items@.take(q as int));
                }
                match &items[q].song_id {
                    Some(id) => {
                        add_unique(&mut out, id.as_str());
                        proof {
                            assert(done + item_song_ids(items@.take(q + 1)) =~= prev.push(id@));
                            lemma_dedup_push(prev, id@);
                        }
                    },
                    None => {
                        proof {
                            assert(done + item_song_ids(items@.take(q + 1)) =~= prev);
                        }
                    },
                }
                q = q + 1;
            }
            proof {
                assert(items@.take(ni as int) =~= items@);
                assert(plans@.take(p + 1).drop_last() =~= plans@.take(p as int));
                assert(listed + plan_song_ids(plans@.take(p + 1)) =~= done + item_song_ids(items@));
            }
            p = p + 1;
        }
        proof {
            assert(plans@.take(np as int) =~= plans@);
        }
        out
    }
}


// ---------------------------------------------------------------------------
// Song uses with their keys
// ---------------------------------------------------------------------------

/// The key recorded for each song id, after one more occurrence: an empty id
/// changes nothing; a new id is recorded with the occurrence's key; a plan
/// item's key replaces the recorded one when it has a key.
pub open spec fn use_step(
    m: Map<Seq<char>, Option<Seq<char>>>,
    id: Seq<char>,
    key: Option<Seq<char>>,
    from_plan: bool,
) -> Map<Seq<char>, Option<Seq<char>>> {
    if id.len() == 0 {
        m
    } else if !m.dom().contains(id) {
        m.insert(id, key)
    } else if from_plan && key is Some {
        m.insert(id, key)
    } else {
        m
    }
}

/// The keys recorded from the songs listed beside a service.
pub open spec fn listed_uses(songs: Seq<RawServiceSong>) -> Map<Seq<char>, Option<Seq<char>>>
    decreases songs.len(),
{
    if songs.len() == 0 {
        Map::empty()
    } else {
        use_step(listed_uses(songs.drop_last()), songs.last().id@, opt_view(songs.last().arrangement.key), false)
    }
}

/// The keys recorded in `m` once the plan items `items` are taken in turn.
pub open spec fn item_uses(m: Map<Seq<char>, Option<Seq<char>>>, items: Seq<RawServiceItem>) -> Map<
    Seq<char>,
    Option<Seq<char>>,
>
    decreases items.len(),
{
    if items.len() == 0 {
        m
    } else {
        let before = item_uses(m, items.drop_last());
        match items.last().song_id {
            Some(id) => use_step(before, id@, opt_view(items.last().song_key), true),
            None => before,
        }
    }
}

/// The keys recorded in `m` once every item of every plan is taken in turn.
pub open spec fn plan_uses(m: Map<Seq<char>, Option<Seq<char>>>, plans: Seq<RawServicePlan>) -> Map<
    Seq<char>,
    Option<Seq<char>>,
>
    decreases plans.len(),
{
    if plans.len() == 0 {
        m
    } else {
        item_uses(plan_uses(m, plans.drop_last()), plans.last().items.item@)
    }
}

impl RawService {
    /// The key recorded for each song the service uses: listed songs first
    /// (the first listing wins), then plan items (a plan item's key wins).
    pub open spec fn song_use_map(self) -> Map<Seq<char>, Option<Seq<char>>> {
        plan_uses(listed_uses(self.songs.song@), self.plans.plan@)
    }
}

/// The entries are in strictly increasing order of id.
pub open spec fn sorted_by_id(s: Seq<ServiceSongUse>) -> bool {
    forall|i: int, j: int| 0 <= i < j < s.len() ==> lex_lt(#[trigger] s[i].id@, #[trigger] s[j].id@)
}

/// The entries list exactly the ids of `m`, each with its key from `m`.
pub open spec fn lists_map(s: Seq<ServiceSongUse>, m: Map<Seq<char>, Option<Seq<char>>>) -> bool {
    &&& forall|i: int| 0 <= i < s.len() ==> m.dom().contains(#[trigger] s[i].id@) && m[s[i].id@]
        == opt_view(s[i].key)
    &&& forall|id: Seq<char>| #[trigger] m.dom().contains(id) ==> exists|i: int| 0 <= i < s.len() && s[i].id@ == id
}

/// Records one occurrence of a song in the sorted list of uses.
fn record_use(uses: &mut Vec<ServiceSongUse>, id: &str, key: Option<String>, from_plan: bool, Ghost(m): Ghost<Map<Seq<char>, Option<Seq<char>>>>)
    requires
        sorted_by_id(old(uses)@),
        lists_map(old(uses)@, m),
    ensures
        sorted_by_id(final(uses)@),
        lists_map(final(uses)@, use_step(m, id@, opt_view(key), from_plan)),
{
    if id.unicode_len() == 0 {
        return;
    }
    let n = uses.len();
    let mut p: usize = 0;
    while p < n && str_lt(uses[p].id.as_str(), id)
        invariant
            n == uses@.len(),
            p <= n,
            forall|j: int| 0 <= j < p ==> lex_lt(#[trigger] uses@[j].id@, id@),
        decreases n - p,
    {
        p = p + 1;
    }
    if p < n && str_eq(uses[p].id.as_str(), id) {
        if from_plan && key.is_some() {
            let ghost before = uses@;
            let ghost kv = opt_view(key);
            uses.set(p, ServiceSongUse { id: to_owned(id), key });
            proof {
                let m2 = m.insert(id@, kv);
                assert forall|i: int| 0 <= i < uses@.len() implies m2.dom().contains(#[trigger] uses@[i].id@)
                    && m2[uses@[i].id@] == opt_view(uses@[i].key) by {
                    if i != p {
                        assert(uses@[i] == before[i]);
                    }
                }
                assert forall|x: Seq<char>| #[trigger] m2.dom().contains(x) implies exists|i: int|
                    0 <= i < uses@.len() && uses@[i].id@ == x by {
                    if x == id@ {
                        assert(uses@[p as int].id@ == x);
                    } else {
                        let i = choose|i: int| 0 <= i < before.len() && before[i].id@ == x;
                        assert(uses@[i].id@ == x);
                    }
                }
                assert forall|i: int, j: int| 0 <= i < j < uses@.len() implies lex_lt(
                    #[trigger] uses@[i].id@,
                    #[trigger] uses@[j].id@,
                ) by {
                    assert(before[i].id@ == uses@[i].id@);
                    assert(before[j].id@ == uses@[j].id@);
                }
            }
        } else {
            proof {
                assert(m.dom().contains(id@));
            }
        }
    } else {
        let ghost before = uses@;
        let ghost kv = opt_view(key);
        proof {
            // The id is not recorded yet: earlier entries are smaller, and
            // the entry at `p`, if any, is larger, and so are all after it.
            if p < n {
                lemma_lex_lt_total(before[p as int].id@, id@);
            }
            assert forall|i: int| 0 <= i < before.len() implies #[trigger] before[i].id@ != id@ by {
                if i < p {
                    lemma_lex_lt_irreflexive(id@);
                } else if i > p {
                    lemma_lex_lt_transitive(id@, before[p as int].id@, before[i].id@);
                    lemma_lex_lt_irreflexive(id@);
                }
            }
            assert(!m.dom().contains(id@));
        }
        uses.insert(p, ServiceSongUse { id: to_owned(id), key });
        proof {
            let m2 = m.insert(id@, kv);
            assert forall|i: int| 0 <= i < uses@.len() implies m2.dom().contains(#[trigger] uses@[i].id@)
                && m2[uses@[i].id@] == opt_view(uses@[i].key) by {
                if i < p {
                    assert(uses@[i] == before[i]);
                } else if i > p {
                    assert(uses@[i] == before[i - 1]);
                }
            }
            assert forall|x: Seq<char>| #[trigger] m2.dom().contains(x) implies exists|i: int|
                0 <= i < uses@.len() && uses@[i].id@ == x by {
                if x == id@ {
                    assert(uses@[p as int].id@ == x);
                } else {
                    let i = choose|i: int| 0 <= i < before.len() && before[i].id@ == x;
                    if i < p {
                        assert(uses@[i].id@ == x);
                    } else {
                        assert(uses@[i + 1].id@ == x);
                    }
                }
            }
            assert forall|i: int, j: int| 0 <= i < j < uses@.len() implies lex_lt(
                #[trigger] uses@[i].id@,
                #[trigger] uses@[j].id@,
            ) by {
                if j < p {
                    assert(uses@[i] == before[i] && uses@[j] == before[j]);
                } else if j == p {
                    assert(uses@[i] == before[i]);
                } else if i == p {
                    assert(uses@[j] == before[j - 1]);
                    if j - 1 > p {
                        lemma_lex_lt_transitive(id@, before[p as int].id@, before[j - 1].id@);
                    }
                } else if i < p {
                    assert(uses@[i] == before[i] && uses@[j] == before[j - 1]);
                } else {
                    assert(uses@[i] == before[i - 1] && uses@[j] == before[j - 1]);
                }
            }
        }
    }
}

impl RawService {
    /// Song occurrences on this service with the key set for each (if any),
    /// one entry per song id, ordered by id. Merges the service song list
    /// with plan items; plan-item keys win when both are present; empty ids
    /// are skipped.
    pub fn song_uses(&self) -> (r: Vec<ServiceSongUse>)
        ensures
            sorted_by_id(r@),
            lists_map(r@, self.song_use_map()),
    {
        let mut out: Vec<ServiceSongUse> = Vec::new();
        let songs = &self.songs.song;
        let n = songs.len();
        let mut i: usize = 0;
        proof {
            assert(songs@.take(0) =~= Seq::<RawServiceSong>::empty());
        }
        while i < n
            invariant
                n == songs@.len(),
                i <= n,
                sorted_by_id(out@),
                lists_map(out@, listed_uses(songs@.take(i as int))),
            decreases n - i,
        {
            proof {
                assert(songs@.take(i + 1).drop_last() =~= songs@.take(i as int));
            }
            let key = match &songs[i].arrangement.key {
                Some(k) => Some(to_owned(k.as_str())),
                None => None,
            };
            record_use(&mut out, songs[i].id.as_str(), key, false, Ghost(listed_uses(songs@.take(i as int))));
            i = i + 1;
        }
        proof {
            assert(songs@.take(n as int) =~= songs@);
        }
        let ghost start = listed_uses(songs@);
        let plans = &self.plans.plan;
        let np = plans.len();
        let mut p: usize = 0;
        while p < np
            invariant
                np == plans@.len(),
                p <= np,
                sorted_by_id(out@),
                lists_map(out@, plan_uses(start, plans@.take(p as int))),
            decreases np - p,
        {
            let items = &plans[p].items.item;
            let ni = items.len();
            let ghost done = plan_uses(start, plans@.take(p as int));
            let mut q: usize = 0;
            proof {
                assert(items@.take(0) =~= Seq::<RawServiceItem>::empty());
            }
            while q < ni
                invariant
                    ni == items@.len(),
                    q <= ni,
                    sorted_by_id(out@),
                    lists_map(out@, item_uses(done, items@.take(q as int))),
                decreases ni - q,
            {
                proof {
                    assert(items@.take(q + 1).drop_last() =~= items@.take(q as int));
                }
                match &items[q].song_id {
                    Some(id) => {
                        let key = match &items[q].song_key {
                            Some(k) => Some(to_owned(k.as_str())),
                            None => None,
                        };
                        record_use(&mut out, id.as_str(), key, true, Ghost(item_uses(done, items@.take(q as int))));
                    },
                    None => {},
                }
                q = q + 1;
            }
            proof {
                assert(items@.take(ni as int) =~= items@);
                assert(plans@.take(p + 1).drop_last() =~= plans@.take(p as int));
            }
            p = p + 1;
        }
        proof {
            assert(plans@.take(np as int) =~= plans@);
        }
        out
    }
}

} // verus!
