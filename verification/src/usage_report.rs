//! The song-usage report: which songs are listed, in what order, and how the
//! report reads.
use vstd::prelude::*;
use crate::api::raw::RawSong;
use crate::song_usage::{use_views, SongUsage, UseRecord, UseView};
use crate::domain::person::opt_view;
use crate::textops::{decimal, push_decimal, str_eq, to_owned};

verus! {

/// Some use names a leader, and every use that names one names `l`.
pub open spec fn led_only_by(uses: Seq<UseView>, l: Seq<char>) -> bool {
    &&& l.len() > 0
    &&& exists|i: int| 0 <= i < uses.len() && #[trigger] uses[i].1 == l
    &&& forall|i: int| 0 <= i < uses.len() && (#[trigger] uses[i]).1.len() > 0 ==> uses[i].1 == l
}

/// Exactly one distinct (non-empty) leader led the song.
pub open spec fn single_leader(uses: Seq<UseView>) -> bool {
    exists|l: Seq<char>| led_only_by(uses, l)
}

/// A song is listed when it was sung at most `max_uses` times (the count
/// taken as `u32`), or, with `one_leader`, when one person led all its uses.
pub open spec fn reported(uses: Seq<UseView>, max_uses: u32, one_leader: bool) -> bool {
    (uses.len() as u32) <= max_uses || (one_leader && single_leader(uses))
}

/// The entries that are listed, in their order.
pub open spec fn reported_only(s: Seq<SongUsage>, max_uses: u32, one_leader: bool) -> Seq<SongUsage>
    decreases s.len(),
{
    if s.len() == 0 {
        s
    } else {
        let r = reported_only(s.drop_last(), max_uses, one_leader);
        if reported(use_views(s.last().uses@), max_uses, one_leader) {
            r.push(s.last())
        } else {
            r
        }
    }
}

/// Insert `x` before the first entry with more uses.
pub open spec fn insert_by_count(x: SongUsage, s: Seq<SongUsage>) -> Seq<SongUsage>
    decreases s.len(),
{
    if s.len() == 0 {
        seq![x]
    } else if x.uses@.len() < s[0].uses@.len() {
        seq![x] + s
    } else {
        seq![s[0]] + insert_by_count(x, s.drop_first())
    }
}

/// Stable sort by number of uses, fewest first.
pub open spec fn sort_by_count(s: Seq<SongUsage>) -> Seq<SongUsage>
    decreases s.len(),
{
    if s.len() == 0 {
        s
    } else {
        insert_by_count(s.last(), sort_by_count(s.drop_last()))
    }
}

/// Whether exactly one distinct non-empty leader led these uses.
fn has_single_leader(uses: &Vec<UseRecord>) -> (r: bool)
    ensures
        r == single_leader(use_views(uses@)),
{
    let ghost v = use_views(uses@);
    let n = uses.len();
    let mut found: Option<usize> = None;
    let mut i: usize = 0;
    while i < n
        invariant
            n == uses@.len(),
            v == use_views(uses@),
            i <= n,
            match found {
                None => forall|j: int| 0 <= j < i ==> (#[trigger] v[j]).1.len() == 0,
                Some(f) => f < i && v[f as int].1.len() > 0 && forall|j: int|
                    0 <= j < i && (#[trigger] v[j]).1.len() > 0 ==> v[j].1 == v[f as int].1,
            },
        decreases n - i,
    {
        proof {
            assert(v[i as int].1 == uses@[i as int].leader@);
        }
        if uses[i].leader.unicode_len() > 0 {
            match found {
                None => {
                    found = Some(i);
                },
                Some(f) => {
                    proof {
                        assert(v[f as int].1 == uses@[f as int].leader@);
                    }
                    if !str_eq(uses[i].leader.as_str(), uses[f].leader.as_str()) {
                        proof {
                            assert forall|l: Seq<char>| !led_only_by(v, l) by {
                                if led_only_by(v, l) {
                                    assert(v[i as int].1 == l);
                                    assert(v[f as int].1 == l);
                                }
                            }
                        }
                        return false;
                    }
                },
            }
        }
        i = i + 1;
    }
    match found {
        None => {
            proof {
                assert forall|l: Seq<char>| !led_only_by(v, l) by {
                    if led_only_by(v, l) {
                        let k = choose|k: int| 0 <= k < v.len() && #[trigger] v[k].1 == l;
                        assert(v[k].1.len() == 0);
                    }
                }
            }
            false
        },
        Some(f) => {
            proof {
                assert(led_only_by(v, v[f as int].1));
            }
            true
        },
    }
}

proof fn lemma_insert_by_count_at(x: SongUsage, s: Seq<SongUsage>, p: int)
    requires
        0 <= p <= s.len(),
        forall|j: int| 0 <= j < p ==> !(x.uses@.len() < (#[trigger] s[j]).uses@.len()),
        p == s.len() || x.uses@.len() < s[p].uses@.len(),
    ensures
        insert_by_count(x, s) == s.insert(p, x),
    decreases p,
{
    if s.len() == 0 {
        assert(s.insert(p, x) =~= seq![x]);
    } else if p == 0 {
        assert(s.insert(p, x) =~= seq![x] + s);
    } else {
        let t = s.drop_first();
        assert forall|j: int| 0 <= j < p - 1 implies !(x.uses@.len() < (#[trigger] t[j]).uses@.len()) by {
            assert(t[j] == s[j + 1]);
        }
        lemma_insert_by_count_at(x, t, p - 1);
        assert(s.insert(p, x) =~= seq![s[0]] + t.insert(p - 1, x));
    }
}

/// The entries of a tally that the report lists: those sung at most
/// `max_uses` times or (with `one_leader`) led by one person only, fewest
/// uses first, ties kept in tally order.
pub fn select_for_report(usage: Vec<SongUsage>, max_uses: u32, one_leader: bool) -> (r: Vec<SongUsage>)
    ensures
        r@ == sort_by_count(reported_only(usage@, max_uses, one_leader)),
{
    let ghost all = usage@;
    let mut src = usage;
    let mut sorted: Vec<SongUsage> = Vec::new();
    let ghost mut m: int = 0;
    while src.len() > 0
        invariant
            0 <= m <= all.len(),
            src@ == all.subrange(m, all.len() as int),
            sorted@ == sort_by_count(reported_only(all.subrange(0, m), max_uses, one_leader)),
        decreases src@.len(),
    {
        let ghost sv = src@;
        let x = src.remove(0);
        proof {
            assert(sv[0] == x);
            assert(src@ =~= sv.drop_first());
            assert(sv.drop_first() =~= all.subrange(m + 1, all.len() as int));
            assert(all.subrange(0, m + 1).drop_last() =~= all.subrange(0, m));
            assert(all.subrange(0, m + 1).last() == x);
        }
        let keep = (x.uses.len() as u32) <= max_uses || (one_leader && has_single_leader(&x.uses));
        if keep {
            let n = sorted.len();
            let mut p: usize = 0;
            while p < n && !(x.uses.len() < sorted[p].uses.len())
                invariant
                    n == sorted@.len(),
                    p <= n,
                    forall|j: int| 0 <= j < p ==> !(x.uses@.len() < (#[trigger] sorted@[j]).uses@.len()),
                decreases n - p,
            {
                p = p + 1;
            }
            let ghost before = sorted@;
            let ghost xv = x;
            sorted.insert(p, x);
            proof {
                lemma_insert_by_count_at(xv, before, p as int);
                let r = reported_only(all.subrange(0, m), max_uses, one_leader);
                assert(reported_only(all.subrange(0, m + 1), max_uses, one_leader) == r.push(xv));
                assert(r.push(xv).drop_last() =~= r);
            }
        }
        proof {
            m = m + 1;
        }
    }
    proof {
        assert(all.subrange(0, m) =~= all);
    }
    sorted
}


// ---------------------------------------------------------------------------
// Text
// ---------------------------------------------------------------------------

/// The title of the last listed song with this id, if any.
pub open spec fn title_of(songs: Seq<RawSong>, id: Seq<char>) -> Option<Seq<char>>
    decreases songs.len(),
{
    if songs.len() == 0 {
        None
    } else if songs.last().id@ == id {
        Some(songs.last().title@)
    } else {
        title_of(songs.drop_last(), id)
    }
}

/// The artist of the last listed song with this id, if any.
pub open spec fn artist_of(songs: Seq<RawSong>, id: Seq<char>) -> Option<Seq<char>>
    decreases songs.len(),
{
    if songs.len() == 0 {
        None
    } else if songs.last().id@ == id {
        Some(songs.last().artist@)
    } else {
        artist_of(songs.drop_last(), id)
    }
}

/// The title of a song, looked up in the song list (the last entry with the
/// id wins, as in a map built from the list).
pub fn song_title(songs: &Vec<RawSong>, id: &str) -> (r: Option<String>)
    ensures
        opt_view(r) == title_of(songs@, id@),
{
    let n = songs.len();
    let mut i = n;
    proof {
        assert(songs@.take(n as int) =~= songs@);
    }
    while i > 0
        invariant
            n == songs@.len(),
            i <= n,
            title_of(songs@, id@) == title_of(songs@.take(i as int), id@),
        decreases i,
    {
        proof {
            assert(songs@.take(i as int).drop_last() =~= songs@.take(i - 1));
        }
        if str_eq(songs[i - 1].id.as_str(), id) {
            return Some(to_owned(songs[i - 1].title.as_str()));
        }
        i = i - 1;
    }
    None
}

/// The artist of a song, looked up in the song list (the last entry with the
/// id wins).
pub fn song_artist(songs: &Vec<RawSong>, id: &str) -> (r: Option<String>)
    ensures
        opt_view(r) == artist_of(songs@, id@),
{
    let n = songs.len();
    let mut i = n;
    proof {
        assert(songs@.take(n as int) =~= songs@);
    }
    while i > 0
        invariant
            n == songs@.len(),
            i <= n,
            artist_of(songs@, id@) == artist_of(songs@.take(i as int), id@),
        decreases i,
    {
        proof {
            assert(songs@.take(i as int).drop_last() =~= songs@.take(i - 1));
        }
        if str_eq(songs[i - 1].id.as_str(), id) {
            return Some(to_owned(songs[i - 1].artist.as_str()));
        }
        i = i - 1;
    }
    None
}

/// How many times, in words for one and two.
pub open spec fn times_text(n: nat) -> Seq<char> {
    if n == 1 {
        "once"@
    } else if n == 2 {
        "twice"@
    } else {
        decimal(n) + " times"@
    }
}

/// The line for one use: date, leader (or that it is unknown), and the key
/// in brackets when one is set.
pub open spec fn use_line(u: UseView) -> Seq<char> {
    "  "@ + u.0 + " \u{2014} "@ + (if u.1.len() == 0 { "(unknown leader)"@ } else { "Led by "@ + u.1 })
        + match u.2 {
        Some(k) => if k.len() > 0 { " ("@ + k + ")"@ } else { Seq::empty() },
        None => Seq::empty(),
    } + "\n"@
}

/// The lines for a list of uses.
pub open spec fn use_lines(uses: Seq<UseView>) -> Seq<char>
    decreases uses.len(),
{
    if uses.len() == 0 {
        Seq::empty()
    } else {
        use_lines(uses.drop_last()) + use_line(uses.last())
    }
}

/// The block for one song: its title (or `<unknown>`), artist, how often it
/// was sung, one line per use, and a blank line.
pub open spec fn song_block(u: SongUsage, songs: Seq<RawSong>) -> Seq<char> {
    let title = match title_of(songs, u.id@) {
        Some(t) => t,
        None => "<unknown>"@,
    };
    let artist = match artist_of(songs, u.id@) {
        Some(a) => a,
        None => Seq::empty(),
    };
    "\""@ + title + "\""@ + (if artist.len() == 0 { Seq::empty() } else { " by "@ + artist })
        + " \u{2014} sung "@ + times_text(u.uses@.len()) + "\n"@ + use_lines(use_views(u.uses@)) + "\n"@
}

/// The blocks for a list of songs.
pub open spec fn song_blocks(s: Seq<SongUsage>, songs: Seq<RawSong>) -> Seq<char>
    decreases s.len(),
{
    if s.len() == 0 {
        Seq::empty()
    } else {
        song_blocks(s.drop_last(), songs) + song_block(s.last(), songs)
    }
}

/// The heading of the report.
pub open spec fn heading_text(max_uses: u32, one_leader: bool) -> Seq<char> {
    if one_leader {
        "Songs sung \u{2264} "@ + decimal(max_uses as nat) + " times or led by only one person:\n"@
    } else {
        "Songs sung \u{2264} "@ + decimal(max_uses as nat) + " times in the last 12 months:\n"@
    }
}

/// The whole report for the selected entries.
pub open spec fn report_text(selected: Seq<SongUsage>, songs: Seq<RawSong>, max_uses: u32, one_leader: bool) -> Seq<char> {
    if selected.len() == 0 {
        "No songs found matching the criteria.\n"@
    } else {
        heading_text(max_uses, one_leader) + "\n"@ + song_blocks(selected, songs) + decimal(selected.len())
            + " songs total.\n"@
    }
}

fn push_use_line(w: &mut String, u: &UseRecord)
    ensures
        final(w)@ == old(w)@ + use_line((u.date@, u.leader@, opt_view(u.key))),
{
    w.append("  ");
    w.append(u.date.as_str());
    w.append(" \u{2014} ");
    if u.leader.unicode_len() == 0 {
        w.append("(unknown leader)");
    } else {
        w.append("Led by ");
        w.append(u.leader.as_str());
    }
    match &u.key {
        Some(k) => {
            if k.unicode_len() > 0 {
                w.append(" (");
                w.append(k.as_str());
                w.append(")");
            }
        },
        None => {},
    }
    w.append("\n");
}

fn push_times(w: &mut String, n: usize)
    ensures
        final(w)@ == old(w)@ + times_text(n as nat),
{
    if n == 1 {
        w.append("once");
    } else if n == 2 {
        w.append("twice");
    } else {
        push_decimal(w, n as u64);
        w.append(" times");
    }
}

fn push_song_block(w: &mut String, u: &SongUsage, songs: &Vec<RawSong>)
    ensures
        final(w)@ == old(w)@ + song_block(*u, songs@),
{
    let title = match song_title(songs, u.id.as_str()) {
        Some(t) => t,
        None => to_owned("<unknown>"),
    };
    let artist = match song_artist(songs, u.id.as_str()) {
        Some(a) => a,
        None => String::new(),
    };
    w.append("\"");
    w.append(title.as_str());
    w.append("\"");
    if artist.unicode_len() > 0 {
        w.append(" by ");
        w.append(artist.as_str());
    }
    w.append(" \u{2014} sung ");
    push_times(w, u.uses.len());
    w.append("\n");
    let ghost head = w@;
    let n = u.uses.len();
    let mut i: usize = 0;
    while i < n
        invariant
            n == u.uses@.len(),
            i <= n,
            w@ == head + use_lines(use_views(u.uses@.take(i as int))),
        decreases n - i,
    {
        push_use_line(w, &u.uses[i]);
        proof {
            assert(use_views(u.uses@.take(i + 1)).drop_last() =~= use_views(u.uses@.take(i as int)));
        }
        i = i + 1;
    }
    proof {
        assert(u.uses@.take(n as int) =~= u.uses@);
    }
    w.append("\n");
}

/// Writes the song-usage report for the selected entries, looking titles and
/// artists up in `songs`.
pub fn write_usage_report(w: &mut String, selected: &Vec<SongUsage>, songs: &Vec<RawSong>, max_uses: u32, one_leader: bool)
    ensures
        final(w)@ == old(w)@ + report_text(selected@, songs@, max_uses, one_leader),
{
    let n = selected.len();
    if n == 0 {
        w.append("No songs found matching the criteria.\n");
        return;
    }
    w.append("Songs sung \u{2264} ");
    push_decimal(w, max_uses as u64);
    if one_leader {
        w.append(" times or led by only one person:\n");
    } else {
        w.append(" times in the last 12 months:\n");
    }
    w.append("\n");
    let ghost head = w@;
    let mut i: usize = 0;
    while i < n
        invariant
            n == selected@.len(),
            i <= n,
            w@ == head + song_blocks(selected@.take(i as int), songs@),
        decreases n - i,
    {
        push_song_block(w, &selected[i], songs);
        proof {
            assert(selected@.take(i + 1).drop_last() =~= selected@.take(i as int));
        }
        i = i + 1;
    }
    proof {
        assert(selected@.take(n as int) =~= selected@);
    }
    push_decimal(w, n as u64);
    w.append(" songs total.\n");
}


// ---------------------------------------------------------------------------
// Full listing, by title
// ---------------------------------------------------------------------------

/// The title a song is listed under: its title, or `<unknown>`.
pub open spec fn listed_title(songs: Seq<RawSong>, id: Seq<char>) -> Seq<char> {
    match title_of(songs, id) {
        Some(t) => t,
        None => "<unknown>"@,
    }
}

/// Insert `x` before the first entry whose title is greater.
pub open spec fn insert_by_title(x: SongUsage, s: Seq<SongUsage>, songs: Seq<RawSong>) -> Seq<SongUsage>
    decreases s.len(),
{
    if s.len() == 0 {
        seq![x]
    } else if crate::textops::lex_lt(listed_title(songs, x.id@), listed_title(songs, s[0].id@)) {
        seq![x] + s
    } else {
        seq![s[0]] + insert_by_title(x, s.drop_first(), songs)
    }
}

/// Stable sort by listed title.
pub open spec fn sort_by_title(s: Seq<SongUsage>, songs: Seq<RawSong>) -> Seq<SongUsage>
    decreases s.len(),
{
    if s.len() == 0 {
        s
    } else {
        insert_by_title(s.last(), sort_by_title(s.drop_last(), songs), songs)
    }
}

proof fn lemma_insert_by_title_at(x: SongUsage, s: Seq<SongUsage>, songs: Seq<RawSong>, p: int)
    requires
        0 <= p <= s.len(),
        forall|j: int| 0 <= j < p ==> !crate::textops::lex_lt(listed_title(songs, x.id@), listed_title(songs, (#[trigger] s[j]).id@)),
        p == s.len() || crate::textops::lex_lt(listed_title(songs, x.id@), listed_title(songs, s[p].id@)),
    ensures
        insert_by_title(x, s, songs) == s.insert(p, x),
    decreases p,
{
    if s.len() == 0 {
        assert(s.insert(p, x) =~= seq![x]);
    } else if p == 0 {
        assert(s.insert(p, x) =~= seq![x] + s);
    } else {
        let t = s.drop_first();
        assert forall|j: int| 0 <= j < p - 1 implies !crate::textops::lex_lt(listed_title(songs, x.id@), listed_title(songs, (#[trigger] t[j]).id@)) by {
            assert(t[j] == s[j + 1]);
        }
        lemma_insert_by_title_at(x, t, songs, p - 1);
        assert(s.insert(p, x) =~= seq![s[0]] + t.insert(p - 1, x));
    }
}

/// The title a song is listed under.
fn title_for(songs: &Vec<RawSong>, id: &str) -> (r: String)
    ensures
        r@ == listed_title(songs@, id@),
{
    match song_title(songs, id) {
        Some(t) => t,
        None => to_owned("<unknown>"),
    }
}

/// A tally ordered by song title (`<unknown>` for songs not in `songs`),
/// ties kept in tally order, for the full listing.
pub fn order_by_title(usage: Vec<SongUsage>, songs: &Vec<RawSong>) -> (r: Vec<SongUsage>)
    ensures
        r@ == sort_by_title(usage@, songs@),
{
    let ghost all = usage@;
    let mut src = usage;
    let mut sorted: Vec<SongUsage> = Vec::new();
    let mut keys: Vec<String> = Vec::new();
    let ghost mut m: int = 0;
    while src.len() > 0
        invariant
            0 <= m <= all.len(),
            src@ == all.subrange(m, all.len() as int),
            sorted@ == sort_by_title(all.subrange(0, m), songs@),
            keys@.len() == sorted@.len(),
            forall|j: int| 0 <= j < keys@.len() ==> (#[trigger] keys@[j])@ == listed_title(songs@, sorted@[j].id@),
        decreases src@.len(),
    {
        let ghost sv = src@;
        let x = src.remove(0);
        proof {
            assert(sv[0] == x);
            assert(src@ =~= sv.drop_first());
            assert(sv.drop_first() =~= all.subrange(m + 1, all.len() as int));
            assert(all.subrange(0, m + 1).drop_last() =~= all.subrange(0, m));
            assert(all.subrange(0, m + 1).last() == x);
        }
        let key = title_for(songs, x.id.as_str());
        let n = sorted.len();
        let mut p: usize = 0;
        while p < n && !crate::textops::str_lt(key.as_str(), keys[p].as_str())
            invariant
                n == sorted@.len(),
                n == keys@.len(),
                p <= n,
                key@ == listed_title(songs@, x.id@),
                forall|j: int| 0 <= j < keys@.len() ==> (#[trigger] keys@[j])@ == listed_title(songs@, sorted@[j].id@),
                forall|j: int| 0 <= j < p ==> !crate::textops::lex_lt(listed_title(songs@, x.id@), listed_title(songs@, (#[trigger] sorted@[j]).id@)),
            decreases n - p,
        {
            proof {
                assert(keys@[p as int]@ == listed_title(songs@, sorted@[p as int].id@));
            }
            p = p + 1;
        }
        proof {
            if p < n {
                assert(keys@[p as int]@ == listed_title(songs@, sorted@[p as int].id@));
            }
        }
        let ghost before = sorted@;
        let ghost before_keys = keys@;
        let ghost xv = x;
        sorted.insert(p, x);
        keys.insert(p, key);
        proof {
            lemma_insert_by_title_at(xv, before, songs@, p as int);
            assert forall|j: int| 0 <= j < keys@.len() implies (#[trigger] keys@[j])@ == listed_title(songs@, sorted@[j].id@) by {
                if j < p {
                    assert(keys@[j] == before_keys[j] && sorted@[j] == before[j]);
                } else if j > p {
                    assert(keys@[j] == before_keys[j - 1] && sorted@[j] == before[j - 1]);
                }
            }
            m = m + 1;
        }
    }
    proof {
        assert(all.subrange(0, m) =~= all);
    }
    sorted
}

} // verus!
