//! One export row per arrangement of a song: its keys for male and female
//! voices and every starting key it has been given.
use vstd::prelude::*;
use crate::api::raw::RawSong;
use crate::domain::arrangement::{Arrangement, Key};
use crate::domain::person::opt_view;
use crate::roster::lists_id;
use crate::textops::{join, join_seqs, lex_lt, str_eq, str_lt, to_owned, views};

verus! {

/// A key record of an arrangement as `songs/keys/getAll` lists it: the voice
/// it is for (`Male`, `Female` or another name), its starting key and when it
/// was added (`YYYY-MM-DD HH:MM:SS`).
#[derive(Debug, Clone, Default)]
pub struct KeyRecord {
    pub name: String,
    pub starting: String,
    pub date_added: String,
}

/// A flattened export row: one per arrangement per song.
#[derive(Debug, Clone)]
pub struct ExportRow {
    pub song_id: String,
    pub song_title: String,
    pub song_artist: String,
    pub arrangement_id: String,
    pub arrangement_name: String,
    pub key_male: Option<String>,
    pub key_female: Option<String>,
    /// Starting keys from all key objects, separated by `", "`.
    pub starting_keys: String,
}

/// The key for the voice `name` after reading `recs` in order, with the date
/// of the record it came from: a record for that voice replaces the key when
/// its `date_added` is later (as text) than the date kept so far, which
/// starts empty; `own` is the key before any record.
pub open spec fn newest_key(recs: Seq<KeyRecord>, name: Seq<char>, own: Option<Seq<char>>) -> (
    Seq<char>,
    Option<Seq<char>>,
)
    decreases recs.len(),
{
    if recs.len() == 0 {
        (Seq::empty(), own)
    } else {
        let prev = newest_key(recs.drop_last(), name, own);
        let k = recs.last();
        if k.name@ == name && lex_lt(prev.0, k.date_added@) {
            (k.date_added@, Some(k.starting@))
        } else {
            prev
        }
    }
}

/// `base` followed by the starting key of each record of `recs` not listed
/// yet, in order.
pub open spec fn starting_list(base: Seq<Seq<char>>, recs: Seq<KeyRecord>) -> Seq<Seq<char>>
    decreases recs.len(),
{
    if recs.len() == 0 {
        base
    } else {
        let prev = starting_list(base, recs.drop_last());
        if prev.contains(recs.last().starting@) {
            prev
        } else {
            prev.push(recs.last().starting@)
        }
    }
}

/// The starting keys of an arrangement's own keys, in order.
pub open spec fn own_starting(keys: Seq<Key>) -> Seq<Seq<char>> {
    keys.map_values(|k: Key| k.starting@)
}

/// The export row of arrangement `arr` of `song`, from the arrangement's own
/// male and female keys and the key records listed for it: the newest record
/// for each voice wins, and the starting keys are those of the arrangement's
/// keys followed by each record's starting key not listed yet.
pub fn export_row(
    song: &RawSong,
    arr: &Arrangement,
    own_male: Option<String>,
    own_female: Option<String>,
    records: &Vec<KeyRecord>,
) -> (r: ExportRow)
    ensures
        r.song_id@ == song.id@,
        r.song_title@ == song.title@,
        r.song_artist@ == song.artist@,
        r.arrangement_id@ == arr.id@,
        r.arrangement_name@ == arr.name@,
        opt_view(r.key_male) == newest_key(records@, "Male"@, opt_view(own_male)).1,
        opt_view(r.key_female) == newest_key(records@, "Female"@, opt_view(own_female)).1,
        r.starting_keys@ == join_seqs(starting_list(own_starting(arr.keys@), records@), ", "@),
{
    let ghost om = opt_view(own_male);
    let ghost of = opt_view(own_female);
    let mut all: Vec<String> = Vec::new();
    let nk = arr.keys.len();
    let mut j: usize = 0;
    while j < nk
        invariant
            nk == arr.keys@.len(),
            j <= nk,
            all@.len() == j,
            views(all@) == own_starting(arr.keys@).take(j as int),
        decreases nk - j,
    {
        let ghost before = all@;
        all.push(to_owned(arr.keys[j].starting.as_str()));
        proof {
            let want = own_starting(arr.keys@).take(j + 1);
            assert(own_starting(arr.keys@)[j as int] == arr.keys@[j as int].starting@);
            assert(views(before) == own_starting(arr.keys@).take(j as int));
            assert forall|t: int| 0 <= t < j + 1 implies views(all@)[t] == want[t] by {
                if t < j {
                    assert(all@[t] == before[t]);
                    assert(views(before)[t] == before[t]@);
                }
            }
            assert(views(all@) =~= want);
        }
        j = j + 1;
    }
    proof {
        reveal_strlit("Male");
        reveal_strlit("Female");
        assert("Male"@.len() != "Female"@.len());
        assert(own_starting(arr.keys@).take(nk as int) =~= own_starting(arr.keys@));
        assert(records@.take(0) =~= Seq::<KeyRecord>::empty());
    }
    let mut key_male = own_male;
    let mut key_female = own_female;
    let mut male_added = String::new();
    let mut female_added = String::new();
    let n = records.len();
    let mut i: usize = 0;
    while i < n
        invariant
            n == records@.len(),
            i <= n,
            "Male"@ != "Female"@,
            male_added@ == newest_key(records@.take(i as int), "Male"@, om).0,
            opt_view(key_male) == newest_key(records@.take(i as int), "Male"@, om).1,
            female_added@ == newest_key(records@.take(i as int), "Female"@, of).0,
            opt_view(key_female) == newest_key(records@.take(i as int), "Female"@, of).1,
            views(all@) == starting_list(own_starting(arr.keys@), records@.take(i as int)),
        decreases n - i,
    {
        let k = &records[i];
        proof {
            assert(records@.take(i + 1).drop_last() =~= records@.take(i as int));
            assert(records@.take(i + 1).last() == *k);
        }
        if str_eq(k.name.as_str(), "Male") && str_lt(male_added.as_str(), k.date_added.as_str()) {
            male_added = to_owned(k.date_added.as_str());
            key_male = Some(to_owned(k.starting.as_str()));
        } else if str_eq(k.name.as_str(), "Female") && str_lt(female_added.as_str(), k.date_added.as_str()) {
            female_added = to_owned(k.date_added.as_str());
            key_female = Some(to_owned(k.starting.as_str()));
        }
        if !lists_id(&all, k.starting.as_str()) {
            all.push(to_owned(k.starting.as_str()));
            proof {
                assert(views(all@) =~= starting_list(own_starting(arr.keys@), records@.take(i as int)).push(
                    k.starting@,
                ));
            }
        }
        i = i + 1;
    }
    proof {
        assert(records@.take(n as int) =~= records@);
    }
    ExportRow {
        song_id: to_owned(song.id.as_str()),
        song_title: to_owned(song.title.as_str()),
        song_artist: to_owned(song.artist.as_str()),
        arrangement_id: to_owned(arr.id.as_str()),
        arrangement_name: to_owned(arr.name.as_str()),
        key_male,
        key_female,
        starting_keys: join(&all, ", "),
    }
}

} // verus!
