//! Plain-text rendering of lists and details.
//!
//! Every writer appends to a `String`; the caller prints it.
use vstd::prelude::*;
use crate::cli::IdMode;
use crate::domain::arrangement::{Arrangement, Key};
use crate::domain::category::{short_id, Category};
use crate::domain::person::{DepartmentRow, Person};
use crate::domain::service::{date_short_spec, Service, VolunteerRow};
use crate::domain::song::{SongDetail, SongSummary};
use crate::textops::{
    first_index_of, head_before, join, join_seqs, lemma_first_index_of, to_owned, trim_seq, trim, views,
};

verus! {

/// The id column (with its separator) for `mode`; nothing when hidden.
pub open spec fn id_prefix(id: Seq<char>, mode: IdMode) -> Seq<char> {
    match mode {
        IdMode::Hidden => Seq::empty(),
        IdMode::Long => id + " | "@,
        IdMode::Short => head_before(id, '-') + " | "@,
    }
}

/// An optional text, or `-` when absent.
pub open spec fn or_dash(o: Option<String>) -> Seq<char> {
    match o {
        Some(s) => s@,
        None => "-"@,
    }
}

/// Renders the id column for `mode`: `None` when hidden.
fn id_cell(full_id: &str, mode: IdMode) -> (r: Option<&str>)
    ensures
        match mode {
            IdMode::Hidden => r is None,
            IdMode::Long => r == Some(full_id),
            IdMode::Short => r matches Some(s) && s@ == head_before(full_id@, '-'),
        },
{
    match mode {
        IdMode::Hidden => None,
        IdMode::Long => Some(full_id),
        IdMode::Short => Some(short_id(full_id)),
    }
}

fn push_id_prefix(w: &mut String, full_id: &str, mode: IdMode)
    ensures
        final(w)@ == old(w)@ + id_prefix(full_id@, mode),
{
    match id_cell(full_id, mode) {
        Some(id) => {
            w.append(id);
            w.append(" | ");
        },
        None => {},
    }
    proof {
        assert(w@ =~= old(w)@ + id_prefix(full_id@, mode));
    }
}

fn push_or_dash(w: &mut String, o: &Option<String>)
    ensures
        final(w)@ == old(w)@ + or_dash(*o),
{
    match o {
        Some(s) => w.append(s.as_str()),
        None => w.append("-"),
    }
}

// ---------------------------------------------------------------------------
// Categories
// ---------------------------------------------------------------------------

/// The line for a category.
pub open spec fn category_line(c: Category, mode: IdMode) -> Seq<char> {
    id_prefix(c.id@, mode) + c.name@ + "\n"@
}

/// The lines for a list of categories.
pub open spec fn categories_text(cs: Seq<Category>, mode: IdMode) -> Seq<char>
    decreases cs.len(),
{
    if cs.len() == 0 {
        Seq::empty()
    } else {
        categories_text(cs.drop_last(), mode) + category_line(cs.last(), mode)
    }
}

/// Writes one line per category: `id | name` (or just the name when ids are hidden).
pub fn write_categories(w: &mut String, cats: &[Category], mode: IdMode)
    ensures
        final(w)@ == old(w)@ + categories_text(cats@, mode),
{
    let n = cats.len();
    let mut i: usize = 0;
    while i < n
        invariant
            n == cats@.len(),
            i <= n,
            w@ == old(w)@ + categories_text(cats@.subrange(0, i as int), mode),
        decreases n - i,
    {
        let ghost before = w@;
        let c = &cats[i];
        push_id_prefix(w, c.id.as_str(), mode);
        w.append(c.name.as_str());
        w.append("\n");
        i = i + 1;
        proof {
            assert(cats@.subrange(0, i as int).drop_last() =~= cats@.subrange(0, i - 1));
            assert(w@ =~= old(w)@ + categories_text(cats@.subrange(0, i as int), mode));
        }
    }
    proof {
        assert(cats@.subrange(0, n as int) =~= cats@);
    }
}

// ---------------------------------------------------------------------------
// Songs
// ---------------------------------------------------------------------------

/// An optional column: ` | value` when shown, nothing otherwise.
pub open spec fn opt_col(show: bool, v: Seq<char>) -> Seq<char> {
    if show {
        " | "@ + v
    } else {
        Seq::empty()
    }
}

/// The line for a song in a list.
pub open spec fn song_line(
    s: SongSummary,
    show_album: bool,
    show_ccli: bool,
    mode: IdMode,
    show_last_used: bool,
) -> Seq<char> {
    id_prefix(s.id@, mode) + s.title@ + " | "@ + s.artist@ + opt_col(show_album, s.album@) + opt_col(
        show_ccli,
        s.ccli_number@,
    ) + opt_col(show_last_used, or_dash(s.last_used)) + "\n"@
}

fn push_opt_col(w: &mut String, show: bool, v: &str)
    ensures
        final(w)@ == old(w)@ + opt_col(show, v@),
{
    if show {
        w.append(" | ");
        w.append(v);
        proof {
            assert(w@ =~= old(w)@ + opt_col(show, v@));
        }
    } else {
        proof {
            assert(w@ =~= old(w)@ + opt_col(show, v@));
        }
    }
}

fn or_dash_str(o: &Option<String>) -> (r: &str)
    ensures
        r@ == or_dash(*o),
{
    match o {
        Some(s) => s.as_str(),
        None => "-",
    }
}

/// The lines for a list of songs.
pub open spec fn songs_text(
    ss: Seq<SongSummary>,
    show_album: bool,
    show_ccli: bool,
    mode: IdMode,
    show_last_used: bool,
) -> Seq<char>
    decreases ss.len(),
{
    if ss.len() == 0 {
        Seq::empty()
    } else {
        songs_text(ss.drop_last(), show_album, show_ccli, mode, show_last_used) + song_line(
            ss.last(),
            show_album,
            show_ccli,
            mode,
            show_last_used,
        )
    }
}

/// Writes one line per song: id, title, artist, and the optional album,
/// CCLI-number and last-used columns, separated by ` | `.
pub fn write_songs(
    w: &mut String,
    songs: &[SongSummary],
    show_album: bool,
    show_ccli: bool,
    mode: IdMode,
    show_last_used: bool,
)
    ensures
        final(w)@ == old(w)@ + songs_text(songs@, show_album, show_ccli, mode, show_last_used),
{
    let n = songs.len();
    let mut i: usize = 0;
    while i < n
        invariant
            n == songs@.len(),
            i <= n,
            w@ == old(w)@ + songs_text(
                songs@.subrange(0, i as int),
                show_album,
                show_ccli,
                mode,
                show_last_used,
            ),
        decreases n - i,
    {
        push_song_line(w, &songs[i], show_album, show_ccli, mode, show_last_used);
        i = i + 1;
        proof {
            assert(songs@.subrange(0, i as int).drop_last() =~= songs@.subrange(0, i - 1));
        }
    }
    proof {
        assert(songs@.subrange(0, n as int) =~= songs@);
    }
}

fn push_song_line(
    w: &mut String,
    s: &SongSummary,
    show_album: bool,
    show_ccli: bool,
    mode: IdMode,
    show_last_used: bool,
)
    ensures
        final(w)@ == old(w)@ + song_line(*s, show_album, show_ccli, mode, show_last_used),
{
    push_id_prefix(w, s.id.as_str(), mode);
    w.append(s.title.as_str());
    w.append(" | ");
    w.append(s.artist.as_str());
    push_opt_col(w, show_album, s.album.as_str());
    push_opt_col(w, show_ccli, s.ccli_number.as_str());
    push_opt_col(w, show_last_used, or_dash_str(&s.last_used));
    w.append("\n");
    proof {
        assert(w@ =~= old(w)@ + song_line(*s, show_album, show_ccli, mode, show_last_used));
    }
}

/// A key shown as `starting→ending`, or just the starting key.
pub open spec fn key_text(k: Key) -> Seq<char> {
    match k.ending {
        Some(e) => k.starting@ + "\u{2192}"@ + e@,
        None => k.starting@,
    }
}

/// The keys of an arrangement joined with `, `, or `—` when there are none.
pub open spec fn keys_text(keys: Seq<Key>) -> Seq<char> {
    if keys.len() == 0 {
        "\u{2014}"@
    } else {
        join_seqs(keys.map_values(|k: Key| key_text(k)), ", "@)
    }
}

/// The arrangement lines of a song's text.
pub open spec fn arrangements_text(arrs: Seq<Arrangement>) -> Seq<char>
    decreases arrs.len(),
{
    if arrs.len() == 0 {
        Seq::empty()
    } else {
        arrangements_text(arrs.drop_last()) + "  - "@ + arrs.last().name@ + " ["@ + keys_text(
            arrs.last().keys@,
        ) + "]\n"@
    }
}

fn push_keys(w: &mut String, keys: &Vec<Key>)
    ensures
        final(w)@ == old(w)@ + keys_text(keys@),
{
    let n = keys.len();
    if n == 0 {
        w.append("\u{2014}");
        return;
    }
    let mut parts: Vec<String> = Vec::new();
    let mut i: usize = 0;
    while i < n
        invariant
            n == keys@.len(),
            i <= n,
            views(parts@) == keys@.subrange(0, i as int).map_values(|k: Key| key_text(k)),
        decreases n - i,
    {
        let k = &keys[i];
        let mut t = to_owned(k.starting.as_str());
        match &k.ending {
            Some(e) => {
                t.append("\u{2192}");
                t.append(e.as_str());
            },
            None => {},
        }
        let ghost before = parts@;
        parts.push(t);
        i = i + 1;
        proof {
            let f = |k: Key| key_text(k);
            assert(views(parts@) =~= views(before).push(key_text(keys@[i - 1])));
            assert(keys@.subrange(0, i as int).map_values(f) =~= keys@.subrange(0, i - 1).map_values(
                f,
            ).push(key_text(keys@[i - 1])));
        }
    }
    proof {
        assert(keys@.subrange(0, n as int) =~= keys@);
    }
    let joined = join(&parts, ", ");
    w.append(joined.as_str());
}

fn push_arrangements(w: &mut String, arrs: &Vec<Arrangement>)
    ensures
        final(w)@ == old(w)@ + arrangements_text(arrs@),
{
    let n = arrs.len();
    let mut i: usize = 0;
    while i < n
        invariant
            n == arrs@.len(),
            i <= n,
            w@ == old(w)@ + arrangements_text(arrs@.subrange(0, i as int)),
        decreases n - i,
    {
        let ghost before = w@;
        let a = &arrs[i];
        w.append("  - ");
        w.append(a.name.as_str());
        w.append(" [");
        push_keys(w, &a.keys);
        w.append("]\n");
        i = i + 1;
        proof {
            assert(arrs@.subrange(0, i as int).drop_last() =~= arrs@.subrange(0, i - 1));
            assert(w@ =~= old(w)@ + arrangements_text(arrs@.subrange(0, i as int)));
        }
    }
    proof {
        assert(arrs@.subrange(0, n as int) =~= arrs@);
    }
}

/// The lines of a text as `str::lines` yields them: split at `\n`, with a
/// `\r` before the `\n` removed.
pub open spec fn lines_of(s: Seq<char>) -> Seq<Seq<char>>
    decreases s.len(),
{
    match first_index_of(s, '\n') {
        Some(i) => if 0 <= i < s.len() {
            let line = s.subrange(0, i);
            let line = if line.len() > 0 && line.last() == '\r' {
                line.drop_last()
            } else {
                line
            };
            seq![line] + lines_of(s.subrange(i + 1, s.len() as int))
        } else {
            seq![s]
        },
        None => seq![s],
    }
}

/// The first line with non-whitespace content, or the empty text.
pub open spec fn first_content_line(lines: Seq<Seq<char>>) -> Seq<char>
    decreases lines.len(),
{
    if lines.len() == 0 {
        Seq::empty()
    } else if trim_seq(lines[0]).len() > 0 {
        lines[0]
    } else {
        first_content_line(lines.drop_first())
    }
}

/// The index of the first arrangement with lyrics.
pub open spec fn first_lyrics(arrs: Seq<Arrangement>) -> Option<Seq<char>>
    decreases arrs.len(),
{
    if arrs.len() == 0 {
        None
    } else {
        match arrs[0].lyrics {
            Some(l) => Some(l@),
            None => first_lyrics(arrs.drop_first()),
        }
    }
}

/// The first line of a song: the first non-blank line of the first
/// arrangement that has lyrics, or nothing.
pub open spec fn song_first_line(arrs: Seq<Arrangement>) -> Seq<char> {
    match first_lyrics(arrs) {
        Some(l) => first_content_line(lines_of(l)),
        None => Seq::empty(),
    }
}

fn first_line_of(text: &str) -> (r: String)
    ensures
        r@ == first_content_line(lines_of(text@)),
{
    let mut rest: &str = text;
    loop
        invariant
            first_content_line(lines_of(rest@)) == first_content_line(lines_of(text@)),
        decreases rest@.len(),
    {
        match crate::textops::find_char(rest, '\n') {
            Some(i) => {
                proof {
                    lemma_first_index_of(rest@, '\n');
                }
                let n = rest.unicode_len();
                let mut line = rest.substring_char(0, i);
                let ln = line.unicode_len();
                if ln > 0 && line.get_char(ln - 1) == '\r' {
                    line = line.substring_char(0, ln - 1);
                    proof {
                        assert(line@ =~= rest@.subrange(0, i as int).drop_last());
                    }
                }
                let tail = rest.substring_char(i + 1, n);
                proof {
                    assert(lines_of(rest@) == seq![line@] + lines_of(tail@));
                    assert((seq![line@] + lines_of(tail@))[0] == line@);
                    assert((seq![line@] + lines_of(tail@)).drop_first() =~= lines_of(tail@));
                }
                if trim(line).unicode_len() > 0 {
                    return to_owned(line);
                }
                rest = tail;
            },
            None => {
                proof {
                    assert(lines_of(rest@) == seq![rest@]);
                    assert(seq![rest@].drop_first() =~= Seq::<Seq<char>>::empty());
                    assert(first_content_line(Seq::<Seq<char>>::empty()) == Seq::<char>::empty());
                    assert(seq![rest@][0] == rest@);
                }
                if trim(rest).unicode_len() > 0 {
                    return to_owned(rest);
                }
                return String::new();
            },
        }
    }
}

fn song_first_line_exec(arrs: &Vec<Arrangement>) -> (r: String)
    ensures
        r@ == song_first_line(arrs@),
{
    let n = arrs.len();
    let mut i: usize = 0;
    proof {
        assert(arrs@.subrange(0, n as int) =~= arrs@);
    }
    while i < n
        invariant
            n == arrs@.len(),
            i <= n,
            first_lyrics(arrs@) == first_lyrics(arrs@.subrange(i as int, n as int)),
        decreases n - i,
    {
        proof {
            let t = arrs@.subrange(i as int, n as int);
            assert(t[0] == arrs@[i as int]);
            assert(t.drop_first() =~= arrs@.subrange(i + 1, n as int));
        }
        match &arrs[i].lyrics {
            Some(l) => {
                return first_line_of(l.as_str());
            },
            None => {},
        }
        i = i + 1;
    }
    String::new()
}

/// The curated text of a song.
pub open spec fn song_curated_text(song: SongDetail) -> Seq<char> {
    "Title:       "@ + song.title@ + "\n"@ + "Artist:      "@ + song.artist@ + "\n"@
        + "CCLI number: "@ + song.ccli_number@ + "\n"@ + "Status:      "@ + song.status@ + "\n"@
        + "First line:  "@ + song_first_line(song.arrangements@) + "\n"@ + "Arrangements:\n"@
        + arrangements_text(song.arrangements@)
}

/// Writes the curated view of a song: title, artist, CCLI number, status,
/// first lyric line and the arrangements with their keys.
pub fn write_song_curated(w: &mut String, song: &SongDetail)
    ensures
        final(w)@ == old(w)@ + song_curated_text(*song),
{
    w.append("Title:       ");
    w.append(song.title.as_str());
    w.append("\n");
    w.append("Artist:      ");
    w.append(song.artist.as_str());
    w.append("\n");
    w.append("CCLI number: ");
    w.append(song.ccli_number.as_str());
    w.append("\n");
    w.append("Status:      ");
    w.append(song.status.as_str());
    w.append("\n");
    let first = song_first_line_exec(&song.arrangements);
    w.append("First line:  ");
    w.append(first.as_str());
    w.append("\n");
    w.append("Arrangements:\n");
    push_arrangements(w, &song.arrangements);
    proof {
        assert(w@ =~= old(w)@ + song_curated_text(*song));
    }
}

/// `true` or `false`.
pub open spec fn bool_text(b: bool) -> Seq<char> {
    if b {
        "true"@
    } else {
        "false"@
    }
}

/// An optional labelled line: nothing when absent.
pub open spec fn opt_line(label: Seq<char>, o: Option<String>) -> Seq<char> {
    match o {
        Some(v) => label + v@ + "\n"@,
        None => Seq::empty(),
    }
}

/// The names of categories joined with `, `.
pub open spec fn category_names(cs: Seq<Category>) -> Seq<Seq<char>> {
    cs.map_values(|c: Category| c.name@)
}

/// A labelled line.
pub open spec fn labeled(label: Seq<char>, v: Seq<char>) -> Seq<char> {
    label + v + "\n"@
}

/// The header lines of the full text of a song.
pub open spec fn song_full_header(song: SongDetail) -> Seq<char> {
    labeled("Title:           "@, song.title@) + labeled("Artist:          "@, song.artist@)
        + labeled("Album:           "@, song.album@) + labeled(
        "CCLI number:     "@,
        song.ccli_number@,
    ) + labeled("Status:          "@, song.status@)
}

/// The optional and flag lines of the full text of a song.
pub open spec fn song_full_middle(song: SongDetail) -> Seq<char> {
    opt_line("Sequence:        "@, song.sequence) + opt_line("BPM:             "@, song.bpm)
        + opt_line("Duration:        "@, song.duration) + labeled(
        "Learn:           "@,
        bool_text(song.learn),
    ) + labeled("Allow downloads: "@, bool_text(song.allow_downloads))
}

/// The category and location lines of the full text of a song.
pub open spec fn song_full_lists(song: SongDetail) -> Seq<char> {
    (if song.categories@.len() == 0 {
        Seq::empty()
    } else {
        labeled("Categories:      "@, join_seqs(category_names(song.categories@), ", "@))
    }) + (if song.locations@.len() == 0 {
        Seq::empty()
    } else {
        labeled(
            "Locations:       "@,
            join_seqs(
                song.locations@.map_values(|l: crate::domain::song::Location| l.name@),
                ", "@,
            ),
        )
    })
}

/// The full text of a song.
pub open spec fn song_full_text(song: SongDetail) -> Seq<char> {
    song_full_header(song) + song_full_middle(song) + song_full_lists(song) + opt_line(
        "Notes:           "@,
        song.notes,
    ) + "Arrangements:\n"@ + arrangements_text(song.arrangements@)
}

fn push_labeled(w: &mut String, label: &str, v: &str)
    ensures
        final(w)@ == old(w)@ + labeled(label@, v@),
{
    w.append(label);
    w.append(v);
    w.append("\n");
    proof {
        assert(w@ =~= old(w)@ + labeled(label@, v@));
    }
}

fn push_opt_line(w: &mut String, label: &str, o: &Option<String>)
    ensures
        final(w)@ == old(w)@ + opt_line(label@, *o),
{
    match o {
        Some(v) => {
            w.append(label);
            w.append(v.as_str());
            w.append("\n");
            proof {
                assert(w@ =~= old(w)@ + opt_line(label@, *o));
            }
        },
        None => {
            proof {
                assert(w@ =~= old(w)@ + opt_line(label@, *o));
            }
        },
    }
}

fn bool_str(b: bool) -> (r: &'static str)
    ensures
        r@ == bool_text(b),
{
    if b {
        "true"
    } else {
        "false"
    }
}

fn push_full_header(w: &mut String, song: &SongDetail)
    ensures
        final(w)@ == old(w)@ + song_full_header(*song),
{
    push_labeled(w, "Title:           ", song.title.as_str());
    push_labeled(w, "Artist:          ", song.artist.as_str());
    push_labeled(w, "Album:           ", song.album.as_str());
    push_labeled(w, "CCLI number:     ", song.ccli_number.as_str());
    push_labeled(w, "Status:          ", song.status.as_str());
    proof {
        assert(w@ =~= old(w)@ + song_full_header(*song));
    }
}

fn push_full_middle(w: &mut String, song: &SongDetail)
    ensures
        final(w)@ == old(w)@ + song_full_middle(*song),
{
    push_opt_line(w, "Sequence:        ", &song.sequence);
    push_opt_line(w, "BPM:             ", &song.bpm);
    push_opt_line(w, "Duration:        ", &song.duration);
    push_labeled(w, "Learn:           ", bool_str(song.learn));
    push_labeled(w, "Allow downloads: ", bool_str(song.allow_downloads));
    proof {
        assert(w@ =~= old(w)@ + song_full_middle(*song));
    }
}

fn push_category_line(w: &mut String, cats: &Vec<Category>)
    ensures
        final(w)@ == old(w)@ + if cats@.len() == 0 {
            Seq::<char>::empty()
        } else {
            labeled("Categories:      "@, join_seqs(category_names(cats@), ", "@))
        },
{
    let n = cats.len();
    if n == 0 {
        proof {
            assert(w@ =~= old(w)@ + Seq::<char>::empty());
        }
        return;
    }
    let mut names: Vec<String> = Vec::new();
    let mut i: usize = 0;
    while i < n
        invariant
            n == cats@.len(),
            i <= n,
            views(names@) == category_names(cats@.subrange(0, i as int)),
        decreases n - i,
    {
        let ghost before = names@;
        names.push(cats[i].name.clone());
        i = i + 1;
        proof {
            assert(views(names@) =~= views(before).push(cats@[i - 1].name@));
            assert(category_names(cats@.subrange(0, i as int)) =~= category_names(
                cats@.subrange(0, i - 1),
            ).push(cats@[i - 1].name@));
        }
    }
    proof {
        assert(cats@.subrange(0, n as int) =~= cats@);
    }
    let j = join(&names, ", ");
    push_labeled(w, "Categories:      ", j.as_str());
}

fn push_location_line(w: &mut String, locs: &Vec<crate::domain::song::Location>)
    ensures
        final(w)@ == old(w)@ + if locs@.len() == 0 {
            Seq::<char>::empty()
        } else {
            labeled(
                "Locations:       "@,
                join_seqs(locs@.map_values(|l: crate::domain::song::Location| l.name@), ", "@),
            )
        },
{
    let n = locs.len();
    if n == 0 {
        proof {
            assert(w@ =~= old(w)@ + Seq::<char>::empty());
        }
        return;
    }
    let mut names: Vec<String> = Vec::new();
    let mut i: usize = 0;
    while i < n
        invariant
            n == locs@.len(),
            i <= n,
            views(names@) == locs@.subrange(0, i as int).map_values(
                |l: crate::domain::song::Location| l.name@,
            ),
        decreases n - i,
    {
        let ghost before = names@;
        names.push(locs[i].name.clone());
        i = i + 1;
        proof {
            let f = |l: crate::domain::song::Location| l.name@;
            assert(views(names@) =~= views(before).push(locs@[i - 1].name@));
            assert(locs@.subrange(0, i as int).map_values(f) =~= locs@.subrange(0, i - 1).map_values(
                f,
            ).push(locs@[i - 1].name@));
        }
    }
    proof {
        assert(locs@.subrange(0, n as int) =~= locs@);
    }
    let j = join(&names, ", ");
    push_labeled(w, "Locations:       ", j.as_str());
}

/// Writes every field of a song (except lyrics and charts) and its arrangements.
pub fn write_song_full(w: &mut String, song: &SongDetail)
    ensures
        final(w)@ == old(w)@ + song_full_text(*song),
{
    push_full_header(w, song);
    let ghost a = w@;
    push_full_middle(w, song);
    let ghost b = w@;
    push_category_line(w, &song.categories);
    push_location_line(w, &song.locations);
    let ghost c = w@;
    push_opt_line(w, "Notes:           ", &song.notes);
    w.append("Arrangements:\n");
    push_arrangements(w, &song.arrangements);
    proof {
        assert(c =~= b + song_full_lists(*song));
        assert(w@ =~= old(w)@ + song_full_text(*song));
    }
}

// ---------------------------------------------------------------------------
// Services, people, departments, rosters
// ---------------------------------------------------------------------------

/// The line for a service.
pub open spec fn service_line(s: Service, mode: IdMode) -> Seq<char> {
    id_prefix(s.id@, mode) + date_short_spec(s.date@) + " | "@ + s.name@ + " | "@ + s.service_type@
        + " | "@ + or_dash(s.location) + " | "@ + s.status@ + "\n"@
}

/// The lines for a list of services.
pub open spec fn services_text(ss: Seq<Service>, mode: IdMode) -> Seq<char>
    decreases ss.len(),
{
    if ss.len() == 0 {
        Seq::empty()
    } else {
        services_text(ss.drop_last(), mode) + service_line(ss.last(), mode)
    }
}

/// Writes one line per service: id, date, name, type, location, status.
pub fn write_services(w: &mut String, services: &[Service], mode: IdMode)
    ensures
        final(w)@ == old(w)@ + services_text(services@, mode),
{
    let n = services.len();
    let mut i: usize = 0;
    while i < n
        invariant
            n == services@.len(),
            i <= n,
            w@ == old(w)@ + services_text(services@.subrange(0, i as int), mode),
        decreases n - i,
    {
        let ghost before = w@;
        let s = &services[i];
        push_id_prefix(w, s.id.as_str(), mode);
        w.append(s.date_short());
        w.append(" | ");
        w.append(s.name.as_str());
        w.append(" | ");
        w.append(s.service_type.as_str());
        w.append(" | ");
        push_or_dash(w, &s.location);
        w.append(" | ");
        w.append(s.status.as_str());
        w.append("\n");
        i = i + 1;
        proof {
            assert(services@.subrange(0, i as int).drop_last() =~= services@.subrange(0, i - 1));
            assert(w@ =~= before + service_line(services@[i - 1], mode));
        }
    }
    proof {
        assert(services@.subrange(0, n as int) =~= services@);
    }
}

/// The line for a person.
pub open spec fn person_line(p: Person, mode: IdMode) -> Seq<char> {
    id_prefix(p.id@, mode) + p.name@ + " | "@ + or_dash(p.email) + "\n"@
}

/// The lines for a list of people.
pub open spec fn people_text(ps: Seq<Person>, mode: IdMode) -> Seq<char>
    decreases ps.len(),
{
    if ps.len() == 0 {
        Seq::empty()
    } else {
        people_text(ps.drop_last(), mode) + person_line(ps.last(), mode)
    }
}

/// Writes one line per person: id, name, email (or `-`).
pub fn write_people(w: &mut String, people: &[Person], mode: IdMode)
    ensures
        final(w)@ == old(w)@ + people_text(people@, mode),
{
    let n = people.len();
    let mut i: usize = 0;
    while i < n
        invariant
            n == people@.len(),
            i <= n,
            w@ == old(w)@ + people_text(people@.subrange(0, i as int), mode),
        decreases n - i,
    {
        let ghost before = w@;
        let p = &people[i];
        push_id_prefix(w, p.id.as_str(), mode);
        w.append(p.name.as_str());
        w.append(" | ");
        push_or_dash(w, &p.email);
        w.append("\n");
        i = i + 1;
        proof {
            assert(people@.subrange(0, i as int).drop_last() =~= people@.subrange(0, i - 1));
            assert(w@ =~= before + person_line(people@[i - 1], mode));
        }
    }
    proof {
        assert(people@.subrange(0, n as int) =~= people@);
    }
}

/// The line for a department row, indented under its parent.
pub open spec fn org_line(r: DepartmentRow, mode: IdMode) -> Seq<char> {
    id_prefix(r.id@, mode) + (if r.parent is Some {
        "  "@
    } else {
        Seq::empty()
    }) + r.name@ + "\n"@
}

/// The lines for a list of department rows.
pub open spec fn org_text(rs: Seq<DepartmentRow>, mode: IdMode) -> Seq<char>
    decreases rs.len(),
{
    if rs.len() == 0 {
        Seq::empty()
    } else {
        org_text(rs.drop_last(), mode) + org_line(rs.last(), mode)
    }
}

/// Writes the department list as a tree: sub-departments indented.
pub fn write_org_tree(w: &mut String, rows: &[DepartmentRow], mode: IdMode)
    ensures
        final(w)@ == old(w)@ + org_text(rows@, mode),
{
    let n = rows.len();
    let mut i: usize = 0;
    while i < n
        invariant
            n == rows@.len(),
            i <= n,
            w@ == old(w)@ + org_text(rows@.subrange(0, i as int), mode),
        decreases n - i,
    {
        let ghost before = w@;
        let r = &rows[i];
        push_id_prefix(w, r.id.as_str(), mode);
        if r.parent.is_some() {
            w.append("  ");
        }
        w.append(r.name.as_str());
        w.append("\n");
        i = i + 1;
        proof {
            assert(rows@.subrange(0, i as int).drop_last() =~= rows@.subrange(0, i - 1));
            assert(w@ =~= before + org_line(rows@[i - 1], mode));
        }
    }
    proof {
        assert(rows@.subrange(0, n as int) =~= rows@);
    }
}

/// The id column of a roster row: the person's id per `mode`, or `- | ` for
/// an unfilled row (unless ids are hidden).
pub open spec fn roster_prefix(r: VolunteerRow, mode: IdMode) -> Seq<char> {
    match r.person_id {
        Some(id) => id_prefix(id@, mode),
        None => if mode == IdMode::Hidden {
            Seq::empty()
        } else {
            "- | "@
        },
    }
}

/// The (sub-)department shown for a roster row: the sub-department, or the
/// department when there is none.
pub open spec fn roster_dept(r: VolunteerRow) -> Seq<char> {
    if r.sub_department@.len() == 0 {
        r.department@
    } else {
        r.sub_department@
    }
}

/// The name shown for a roster row.
pub open spec fn roster_name(r: VolunteerRow) -> Seq<char> {
    match r.name {
        Some(n) => n@,
        None => "(unfilled)"@,
    }
}

/// The line for a roster row.
pub open spec fn roster_line(r: VolunteerRow, show_email: bool, mode: IdMode) -> Seq<char> {
    roster_prefix(r, mode) + roster_dept(r) + " | "@ + r.position@ + " | "@ + roster_name(r) + " | "@
        + or_dash(r.status) + opt_col(show_email, or_dash(r.email)) + "\n"@
}

/// The lines for a roster.
pub open spec fn roster_text(rs: Seq<VolunteerRow>, show_email: bool, mode: IdMode) -> Seq<char>
    decreases rs.len(),
{
    if rs.len() == 0 {
        Seq::empty()
    } else {
        roster_text(rs.drop_last(), show_email, mode) + roster_line(rs.last(), show_email, mode)
    }
}

/// Writes one line per roster row: person id, (sub-)department, position,
/// name or `(unfilled)`, status, and optionally the email.
pub fn write_service_people(w: &mut String, rows: &[VolunteerRow], show_email: bool, mode: IdMode)
    ensures
        final(w)@ == old(w)@ + roster_text(rows@, show_email, mode),
{
    let n = rows.len();
    let mut i: usize = 0;
    while i < n
        invariant
            n == rows@.len(),
            i <= n,
            w@ == old(w)@ + roster_text(rows@.subrange(0, i as int), show_email, mode),
        decreases n - i,
    {
        push_roster_line(w, &rows[i], show_email, mode);
        i = i + 1;
        proof {
            assert(rows@.subrange(0, i as int).drop_last() =~= rows@.subrange(0, i - 1));
        }
    }
    proof {
        assert(rows@.subrange(0, n as int) =~= rows@);
    }
}

fn push_roster_prefix(w: &mut String, r: &VolunteerRow, mode: IdMode)
    ensures
        final(w)@ == old(w)@ + roster_prefix(*r, mode),
{
    match &r.person_id {
        Some(pid) => push_id_prefix(w, pid.as_str(), mode),
        None => {
            if mode != IdMode::Hidden {
                w.append("- | ");
            }
            proof {
                assert(w@ =~= old(w)@ + roster_prefix(*r, mode));
            }
        },
    }
}

fn push_roster_line(w: &mut String, r: &VolunteerRow, show_email: bool, mode: IdMode)
    ensures
        final(w)@ == old(w)@ + roster_line(*r, show_email, mode),
{
    push_roster_prefix(w, r, mode);
    let dept = if r.sub_department.as_str().unicode_len() == 0 {
        r.department.as_str()
    } else {
        r.sub_department.as_str()
    };
    let name = match &r.name {
        Some(nm) => nm.as_str(),
        None => "(unfilled)",
    };
    w.append(dept);
    w.append(" | ");
    w.append(r.position.as_str());
    w.append(" | ");
    w.append(name);
    w.append(" | ");
    w.append(or_dash_str(&r.status));
    push_opt_col(w, show_email, or_dash_str(&r.email));
    w.append("\n");
    proof {
        assert(w@ =~= old(w)@ + roster_line(*r, show_email, mode));
    }
}

} // verus!
