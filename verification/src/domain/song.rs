//! Songs: the list summary and the full detail.
use vstd::prelude::*;
use crate::api::raw::{
    is_active_status, status_label_spec, truthy, truthy_spec, RawArrangement, RawCategory,
    RawLocation, RawSong, RawSongDetail,
};
use crate::domain::arrangement::{arrangement_from_raw, Arrangement};
use crate::domain::category::Category;
use crate::domain::{none_if_empty, none_if_empty_spec};
use crate::textops::{to_owned, views};

verus! {

/// A song as listed.
#[derive(Debug, Clone, PartialEq, Eq)]
pub struct SongSummary {
    pub id: String,
    pub title: String,
    pub artist: String,
    pub album: String,
    pub ccli_number: String,
    pub status: String,
    pub last_used: Option<String>,
    pub count: Option<usize>,
    pub categories: Vec<String>,
}

/// `s` is the summary built from `raw`.
pub open spec fn summary_from_raw(s: SongSummary, raw: RawSong) -> bool {
    &&& s.id == raw.id
    &&& s.title == raw.title
    &&& s.artist == raw.artist
    &&& s.album == raw.album
    &&& s.ccli_number == raw.number
    &&& s.status@ == status_label_spec(is_active_status(raw.status))
    &&& s.last_used is None
    &&& s.count is None
    &&& views(s.categories@) == raw.categories.category@.map_values(|c: RawCategory| c.name@)
}

impl From<RawSong> for SongSummary {
    fn from(raw: RawSong) -> (r: Self)
        ensures
            summary_from_raw(r, raw),
    {
        let status = to_owned(raw.status_label());
        let cats = &raw.categories.category;
        let n = cats.len();
        let mut categories: Vec<String> = Vec::new();
        let mut i: usize = 0;
        while i < n
            invariant
                n == cats@.len(),
                i <= n,
                views(categories@) == cats@.subrange(0, i as int).map_values(
                    |c: RawCategory| c.name@,
                ),
            decreases n - i,
        {
            let ghost before = categories@;
            categories.push(cats[i].name.clone());
            i = i + 1;
            proof {
                let f = |c: RawCategory| c.name@;
                assert(views(categories@) =~= views(before).push(cats@[i - 1].name@));
                assert(cats@.subrange(0, i as int).map_values(f) =~= cats@.subrange(0, i - 1).map_values(
                    f,
                ).push(cats@[i - 1].name@));
            }
        }
        proof {
            assert(cats@.subrange(0, n as int) =~= cats@);
        }
        let RawSong { id, title, artist, album, number, .. } = raw;
        SongSummary {
            id,
            title,
            artist,
            album,
            ccli_number: number,
            status,
            last_used: None,
            count: None,
            categories,
        }
    }
}

impl vstd::std_specs::convert::FromSpecImpl<RawSong> for SongSummary {
    open spec fn obeys_from_spec() -> bool {
        false
    }

    open spec fn from_spec(raw: RawSong) -> Self {
        arbitrary()
    }
}

/// A location where a song is used.
#[derive(Debug, Clone, PartialEq, Eq)]
pub struct Location {
    pub id: String,
    pub name: String,
}

/// Full details of a song.
#[derive(Debug, Clone, PartialEq, Eq)]
pub struct SongDetail {
    pub id: String,
    pub title: String,
    pub artist: String,
    pub album: String,
    pub ccli_number: String,
    pub status: String,
    pub notes: Option<String>,
    pub sequence: Option<String>,
    pub bpm: Option<String>,
    pub duration: Option<String>,
    pub learn: bool,
    pub allow_downloads: bool,
    pub categories: Vec<Category>,
    pub locations: Vec<Location>,
    pub arrangements: Vec<Arrangement>,
}

/// `d` is the detail built from `raw`.
pub open spec fn detail_from_raw(d: SongDetail, raw: RawSongDetail) -> bool {
    &&& d.id == raw.id
    &&& d.title == raw.title
    &&& d.artist == raw.artist
    &&& d.album == raw.album
    &&& d.ccli_number == raw.number
    &&& d.status@ == status_label_spec(truthy_spec(raw.status))
    &&& d.notes == none_if_empty_spec(raw.notes)
    &&& d.sequence == none_if_empty_spec(raw.sequence)
    &&& d.bpm == none_if_empty_spec(raw.bpm)
    &&& d.duration == none_if_empty_spec(raw.duration)
    &&& d.learn == truthy_spec(raw.learn)
    &&& d.allow_downloads == truthy_spec(raw.allow_downloads)
    &&& d.categories@.len() == raw.categories.category@.len()
    &&& forall|i: int|
        0 <= i < d.categories@.len() ==> (#[trigger] d.categories@[i]).id == raw.categories.category@[i].id
            && d.categories@[i].name == raw.categories.category@[i].name
    &&& d.locations@.len() == raw.locations.location@.len()
    &&& forall|i: int|
        0 <= i < d.locations@.len() ==> (#[trigger] d.locations@[i]).id == raw.locations.location@[i].id
            && d.locations@[i].name == raw.locations.location@[i].name
    &&& d.arrangements@.len() == raw.arrangements.arrangement@.len()
    &&& forall|i: int|
        0 <= i < d.arrangements@.len() ==> arrangement_from_raw(
            #[trigger] d.arrangements@[i],
            raw.arrangements.arrangement@[i],
        )
}

impl From<RawSongDetail> for SongDetail {
    fn from(raw: RawSongDetail) -> (r: Self)
        ensures
            detail_from_raw(r, raw),
    {
        let status = if truthy(&raw.status) {
            to_owned("active")
        } else {
            to_owned("archived")
        };
        let learn = truthy(&raw.learn);
        let allow_downloads = truthy(&raw.allow_downloads);
        let RawSongDetail {
            id,
            title,
            artist,
            album,
            number,
            notes,
            sequence,
            bpm,
            duration,
            categories,
            locations,
            arrangements,
            ..
        } = raw;
        // Categories.
        let mut src_c = categories.category;
        let ghost all_c = src_c@;
        let mut cats: Vec<Category> = Vec::new();
        let ghost mut k: int = 0;
        while src_c.len() > 0
            invariant
                0 <= k <= all_c.len(),
                src_c@ == all_c.subrange(k, all_c.len() as int),
                cats@.len() == k,
                forall|i: int|
                    0 <= i < k ==> (#[trigger] cats@[i]).id == all_c[i].id && cats@[i].name
                        == all_c[i].name,
            decreases src_c@.len(),
        {
            let c: RawCategory = src_c.remove(0);
            cats.push(Category { id: c.id, name: c.name });
            proof {
                k = k + 1;
                assert(src_c@ =~= all_c.subrange(k, all_c.len() as int));
            }
        }
        // Locations.
        let mut src_l = locations.location;
        let ghost all_l = src_l@;
        let mut locs: Vec<Location> = Vec::new();
        let ghost mut m: int = 0;
        while src_l.len() > 0
            invariant
                0 <= m <= all_l.len(),
                src_l@ == all_l.subrange(m, all_l.len() as int),
                locs@.len() == m,
                forall|i: int|
                    0 <= i < m ==> (#[trigger] locs@[i]).id == all_l[i].id && locs@[i].name
                        == all_l[i].name,
            decreases src_l@.len(),
        {
            let l: RawLocation = src_l.remove(0);
            locs.push(Location { id: l.id, name: l.name });
            proof {
                m = m + 1;
                assert(src_l@ =~= all_l.subrange(m, all_l.len() as int));
            }
        }
        // Arrangements.
        let mut src_a = arrangements.arrangement;
        let ghost all_a = src_a@;
        let mut arrs: Vec<Arrangement> = Vec::new();
        let ghost mut q: int = 0;
        while src_a.len() > 0
            invariant
                0 <= q <= all_a.len(),
                src_a@ == all_a.subrange(q, all_a.len() as int),
                arrs@.len() == q,
                forall|i: int| 0 <= i < q ==> arrangement_from_raw(#[trigger] arrs@[i], all_a[i]),
            decreases src_a@.len(),
        {
            let a: RawArrangement = src_a.remove(0);
            arrs.push(Arrangement::from(a));
            proof {
                q = q + 1;
                assert(src_a@ =~= all_a.subrange(q, all_a.len() as int));
            }
        }
        SongDetail {
            id,
            title,
            artist,
            album,
            ccli_number: number,
            status,
            notes: none_if_empty(notes),
            sequence: none_if_empty(sequence),
            bpm: none_if_empty(bpm),
            duration: none_if_empty(duration),
            learn,
            allow_downloads,
            categories: cats,
            locations: locs,
            arrangements: arrs,
        }
    }
}

impl vstd::std_specs::convert::FromSpecImpl<RawSongDetail> for SongDetail {
    open spec fn obeys_from_spec() -> bool {
        false
    }

    open spec fn from_spec(raw: RawSongDetail) -> Self {
        arbitrary()
    }
}

} // verus!
