//! Arrangements of a song and their keys.
use vstd::prelude::*;
use crate::api::raw::{RawArrangement, RawKey};
use crate::domain::{none_if_empty, none_if_empty_spec};

verus! {

/// A key record: the starting key and, when set, the ending key.
#[derive(Debug, Clone, PartialEq, Eq)]
pub struct Key {
    pub id: String,
    pub starting: String,
    pub ending: Option<String>,
}

impl From<RawKey> for Key {
    fn from(raw: RawKey) -> (r: Self) {
        Key { id: raw.id, starting: raw.starting, ending: none_if_empty(raw.ending) }
    }
}

/// The key built from a raw key record: an empty ending key becomes `None`.
pub open spec fn key_from_raw(raw: RawKey) -> Key {
    Key { id: raw.id, starting: raw.starting, ending: none_if_empty_spec(raw.ending) }
}

impl vstd::std_specs::convert::FromSpecImpl<RawKey> for Key {
    open spec fn obeys_from_spec() -> bool {
        true
    }

    open spec fn from_spec(raw: RawKey) -> Self {
        key_from_raw(raw)
    }
}

/// An arrangement of a song, with empty texts normalised to `None`.
#[derive(Debug, Clone, PartialEq, Eq)]
pub struct Arrangement {
    pub id: String,
    pub name: String,
    pub sequence: Option<String>,
    pub bpm: Option<String>,
    pub duration: Option<String>,
    pub keys: Vec<Key>,
    pub lyrics: Option<String>,
    pub chord_chart: Option<String>,
}

/// `a` is the arrangement built from `raw`.
pub open spec fn arrangement_from_raw(a: Arrangement, raw: RawArrangement) -> bool {
    &&& a.id == raw.id
    &&& a.name == raw.name
    &&& a.sequence == none_if_empty_spec(raw.sequence)
    &&& a.bpm == none_if_empty_spec(raw.bpm)
    &&& a.duration == none_if_empty_spec(raw.duration)
    &&& a.keys@.len() == raw.keys.key@.len()
    &&& forall|i: int|
        0 <= i < a.keys@.len() ==> #[trigger] a.keys@[i] == key_from_raw(raw.keys.key@[i])
    &&& a.lyrics == none_if_empty_spec(raw.lyrics)
    &&& a.chord_chart == none_if_empty_spec(raw.chord_pro)
}

impl From<RawArrangement> for Arrangement {
    fn from(raw: RawArrangement) -> (r: Self)
        ensures
            arrangement_from_raw(r, raw),
    {
        let ghost raw0 = raw;
        let RawArrangement { id, name, sequence, bpm, duration, chord_pro, lyrics, keys } = raw;
        let mut src = keys.key;
        let mut out: Vec<Key> = Vec::new();
        let ghost all = src@;
        let ghost mut k: int = 0;
        while src.len() > 0
            invariant
                0 <= k <= all.len(),
                src@ == all.subrange(k, all.len() as int),
                out@.len() == k,
                forall|i: int| 0 <= i < k ==> #[trigger] out@[i] == key_from_raw(all[i]),
            decreases src@.len(),
        {
            let rk = src.remove(0);
            out.push(Key::from(rk));
            proof {
                k = k + 1;
                assert(src@ =~= all.subrange(k, all.len() as int));
            }
        }
        Arrangement {
            id,
            name,
            sequence: none_if_empty(sequence),
            bpm: none_if_empty(bpm),
            duration: none_if_empty(duration),
            keys: out,
            lyrics: none_if_empty(lyrics),
            chord_chart: none_if_empty(chord_pro),
        }
    }
}

impl vstd::std_specs::convert::FromSpecImpl<RawArrangement> for Arrangement {
    open spec fn obeys_from_spec() -> bool {
        false
    }

    open spec fn from_spec(raw: RawArrangement) -> Self {
        arbitrary()
    }
}

} // verus!
