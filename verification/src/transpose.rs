//! Transposition requests for chord charts: a named key or a semitone offset.
use vstd::prelude::*;
use crate::error::CliError;
use crate::textops::{
    eq_ignore_ascii_case, eq_ignore_case, is_digit, contains_char, parse_i32, parse_i32_spec,
    push_char, ascii_upper, upper_char, to_owned, trim, trim_seq, debug_str, debug_quoted,
    lower_seq, str_eq,
};

verus! {

/// A requested transposition.
#[derive(Debug, PartialEq, Eq, Clone)]
pub enum Request {
    /// Transpose to this key (normalised spelling, e.g. `F#`, `Bb`).
    Named(String),
    /// Transpose by this many semitones.
    Offset(i32),
}

/// The mathematical value of a request.
pub enum RequestView {
    Named(Seq<char>),
    Offset(int),
}

impl View for Request {
    type V = RequestView;

    open spec fn view(&self) -> RequestView {
        match self {
            Request::Named(k) => RequestView::Named(k@),
            Request::Offset(n) => RequestView::Offset(*n as int),
        }
    }
}

/// The twelve keys spelled with sharps, from C.
pub open spec fn sharp_key(i: int) -> Seq<char> {
    if i == 0 { "C"@ }
    else if i == 1 { "C#"@ }
    else if i == 2 { "D"@ }
    else if i == 3 { "D#"@ }
    else if i == 4 { "E"@ }
    else if i == 5 { "F"@ }
    else if i == 6 { "F#"@ }
    else if i == 7 { "G"@ }
    else if i == 8 { "G#"@ }
    else if i == 9 { "A"@ }
    else if i == 10 { "A#"@ }
    else { "B"@ }
}

/// The twelve keys spelled with flats, from C.
pub open spec fn flat_key(i: int) -> Seq<char> {
    if i == 0 { "C"@ }
    else if i == 1 { "Db"@ }
    else if i == 2 { "D"@ }
    else if i == 3 { "Eb"@ }
    else if i == 4 { "E"@ }
    else if i == 5 { "F"@ }
    else if i == 6 { "Gb"@ }
    else if i == 7 { "G"@ }
    else if i == 8 { "Ab"@ }
    else if i == 9 { "A"@ }
    else if i == 10 { "Bb"@ }
    else { "B"@ }
}

fn sharp_name(i: usize) -> (r: &'static str)
    requires
        i < 12,
    ensures
        r@ == sharp_key(i as int),
{
    if i == 0 { "C" }
    else if i == 1 { "C#" }
    else if i == 2 { "D" }
    else if i == 3 { "D#" }
    else if i == 4 { "E" }
    else if i == 5 { "F" }
    else if i == 6 { "F#" }
    else if i == 7 { "G" }
    else if i == 8 { "G#" }
    else if i == 9 { "A" }
    else if i == 10 { "A#" }
    else { "B" }
}

fn flat_name(i: usize) -> (r: &'static str)
    requires
        i < 12,
    ensures
        r@ == flat_key(i as int),
{
    if i == 0 { "C" }
    else if i == 1 { "Db" }
    else if i == 2 { "D" }
    else if i == 3 { "Eb" }
    else if i == 4 { "E" }
    else if i == 5 { "F" }
    else if i == 6 { "Gb" }
    else if i == 7 { "G" }
    else if i == 8 { "Ab" }
    else if i == 9 { "A" }
    else if i == 10 { "Bb" }
    else { "B" }
}

/// The first character ASCII upper-cased, the rest unchanged.
pub open spec fn capitalize_spec(s: Seq<char>) -> Seq<char> {
    if s.len() == 0 {
        s
    } else {
        seq![upper_char(s[0])] + s.drop_first()
    }
}

/// `s` is one of the twelve spellings in either table.
pub open spec fn is_key_spelling(s: Seq<char>) -> bool {
    exists|i: int| 0 <= i < 12 && (sharp_key(i) == s || flat_key(i) == s)
}

/// The normalised spelling of a key name, if it is one.
pub open spec fn normalize_key_spec(s: Seq<char>) -> Option<Seq<char>> {
    if is_key_spelling(capitalize_spec(s)) {
        Some(capitalize_spec(s))
    } else {
        None
    }
}

/// The first index in `0..12` at or after `from` whose key in the table
/// (`flat` or sharp) matches `k` ignoring ASCII case.
pub open spec fn table_index_from(k: Seq<char>, flat: bool, from: int) -> Option<int>
    decreases 12 - from,
{
    if from >= 12 || from < 0 {
        None
    } else if eq_ignore_case(if flat { flat_key(from) } else { sharp_key(from) }, k) {
        Some(from)
    } else {
        table_index_from(k, flat, from + 1)
    }
}

/// The pitch index of a key name: its position among the sharp spellings, or
/// else among the flat spellings, ignoring ASCII case.
pub open spec fn key_index_spec(k: Seq<char>) -> Option<int> {
    match table_index_from(k, false, 0) {
        Some(i) => Some(i),
        None => table_index_from(k, true, 0),
    }
}

/// The key `n` semitones from `starting`, spelled with flats when the starting
/// key contains a `b` and with sharps otherwise; `None` for an unknown key.
pub open spec fn offset_key_spec(starting: Seq<char>, n: int) -> Option<Seq<char>> {
    match key_index_spec(starting) {
        Some(base) => {
            let idx = (base + n) % 12;
            if starting.contains('b') {
                Some(flat_key(idx))
            } else {
                Some(sharp_key(idx))
            }
        },
        None => None,
    }
}

/// What `parse` gives: the request, or the message of the usage error.
pub open spec fn parse_spec(input: Seq<char>) -> Result<RequestView, Seq<char>> {
    let t = trim_seq(input);
    if t.len() == 0 {
        Err("--transpose value is empty"@)
    } else if t[0] == '+' || t[0] == '-' || is_digit(t[0]) {
        match parse_i32_spec(t) {
            Some(n) => Ok(RequestView::Offset(n as int)),
            None => Err("invalid transpose offset "@ + debug_str(t)),
        }
    } else {
        match normalize_key_spec(t) {
            Some(k) => Ok(RequestView::Named(k)),
            None => Err("invalid key "@ + debug_str(t)),
        }
    }
}

fn capitalize(s: &str) -> (r: String)
    ensures
        r@ == capitalize_spec(s@),
{
    let n = s.unicode_len();
    if n == 0 {
        return String::new();
    }
    let mut out = String::new();
    push_char(&mut out, ascii_upper(s.get_char(0)));
    out.append(s.substring_char(1, n));
    proof {
        assert(s@.subrange(1, n as int) =~= s@.drop_first());
        assert(out@ =~= seq![upper_char(s@[0])] + s@.drop_first());
    }
    out
}


fn normalize_key(s: &str) -> (r: Option<String>)
    ensures
        match r {
            Some(k) => normalize_key_spec(s@) == Some(k@),
            None => normalize_key_spec(s@) is None,
        },
{
    let upper = capitalize(s);
    let mut i: usize = 0;
    while i < 12
        invariant
            i <= 12,
            upper@ == capitalize_spec(s@),
            forall|j: int| 0 <= j < i ==> sharp_key(j) != upper@ && flat_key(j) != upper@,
        decreases 12 - i,
    {
        if str_eq(sharp_name(i), upper.as_str()) || str_eq(flat_name(i), upper.as_str()) {
            return Some(upper);
        }
        i = i + 1;
    }
    None
}

proof fn lemma_table_index_from(k: Seq<char>, flat: bool, from: int)
    requires
        0 <= from <= 12,
    ensures
        match table_index_from(k, flat, from) {
            Some(i) => from <= i < 12 && eq_ignore_case(if flat { flat_key(i) } else { sharp_key(i) }, k),
            None => forall|j: int| from <= j < 12 ==> !eq_ignore_case(
                if flat { flat_key(j) } else { sharp_key(j) },
                k,
            ),
        },
    decreases 12 - from,
{
    if from < 12 {
        lemma_table_index_from(k, flat, from + 1);
    }
}

fn table_index(k: &str, flat: bool) -> (r: Option<usize>)
    ensures
        match r {
            Some(i) => table_index_from(k@, flat, 0) == Some(i as int) && i < 12,
            None => table_index_from(k@, flat, 0) is None,
        },
{
    let mut i: usize = 0;
    while i < 12
        invariant
            i <= 12,
            table_index_from(k@, flat, 0) == table_index_from(k@, flat, i as int),
        decreases 12 - i,
    {
        let name = if flat { flat_name(i) } else { sharp_name(i) };
        if eq_ignore_ascii_case(name, k) {
            return Some(i);
        }
        i = i + 1;
    }
    None
}

fn key_index(k: &str) -> (r: Option<usize>)
    ensures
        match r {
            Some(i) => key_index_spec(k@) == Some(i as int) && i < 12,
            None => key_index_spec(k@) is None,
        },
{
    match table_index(k, false) {
        Some(i) => Some(i),
        None => table_index(k, true),
    }
}

/// Parses a `--transpose` value: a semitone offset when it starts with `+`,
/// `-` or a digit, otherwise a key name (first letter capitalised).
pub fn parse(input: &str) -> (r: Result<Request, CliError>)
    ensures
        match r {
            Ok(req) => parse_spec(input@) == Ok::<RequestView, Seq<char>>(req@),
            Err(e) => e is Usage && parse_spec(input@) == Err::<RequestView, Seq<char>>(
                e->Usage_0@,
            ),
        },
{
    let trimmed = trim(input);
    if trimmed.unicode_len() == 0 {
        return Err(CliError::Usage(to_owned("--transpose value is empty")));
    }
    let first = trimmed.get_char(0);
    if first == '+' || first == '-' || ('0' <= first && first <= '9') {
        match parse_i32(trimmed) {
            Some(n) => return Ok(Request::Offset(n)),
            None => {
                let mut m = to_owned("invalid transpose offset ");
                let d = debug_quoted(trimmed);
                m.append(d.as_str());
                return Err(CliError::Usage(m));
            },
        }
    }
    match normalize_key(trimmed) {
        Some(k) => Ok(Request::Named(k)),
        None => {
            let mut m = to_owned("invalid key ");
            let d = debug_quoted(trimmed);
            m.append(d.as_str());
            Err(CliError::Usage(m))
        },
    }
}

/// What `resolve` gives: the target key, or the message of the not-found error.
pub open spec fn resolve_spec(req: RequestView, starting: Seq<char>) -> Result<Seq<char>, Seq<char>> {
    match req {
        RequestView::Named(k) => Ok(k),
        RequestView::Offset(n) => match offset_key_spec(starting, n) {
            Some(k) => Ok(k),
            None => Err("cannot transpose: unknown starting key "@ + debug_str(starting)),
        },
    }
}

/// The target key of a request, given the arrangement's starting key.
pub fn resolve(req: &Request, starting: &str) -> (r: Result<String, CliError>)
    ensures
        match r {
            Ok(k) => resolve_spec(req@, starting@) == Ok::<Seq<char>, Seq<char>>(k@),
            Err(e) => e is NotFound && resolve_spec(req@, starting@) == Err::<Seq<char>, Seq<char>>(
                e->NotFound_0@,
            ),
        },
{
    match req {
        Request::Named(k) => Ok(k.clone()),
        Request::Offset(n) => {
            let base = match key_index(starting) {
                Some(b) => b,
                None => {
                    let mut m = to_owned("cannot transpose: unknown starting key ");
                    let d = debug_quoted(starting);
                    m.append(d.as_str());
                    return Err(CliError::NotFound(m));
                },
            };
            let prefer_flats = contains_char(starting, 'b');
            let sum: i64 = (base as i64) + (*n as i64);
            let idx: i64 = ((sum % 12) + 12) % 12;
            proof {
                assert(idx == (base + *n as int) % 12) by (nonlinear_arith)
                    requires
                        sum == base + *n as int,
                        idx == ((sum % 12) + 12) % 12,
                ;
            }
            let i = idx as usize;
            if prefer_flats {
                Ok(to_owned(flat_name(i)))
            } else {
                Ok(to_owned(sharp_name(i)))
            }
        },
    }
}


proof fn lemma_key_index_of_tables(i: int)
    requires
        0 <= i < 12,
    ensures
        key_index_spec(sharp_key(i)) == Some(i),
        key_index_spec(flat_key(i)) == Some(i),
{
    reveal_strlit("C");
    reveal_strlit("C#");
    reveal_strlit("D");
    reveal_strlit("D#");
    reveal_strlit("E");
    reveal_strlit("F");
    reveal_strlit("F#");
    reveal_strlit("G");
    reveal_strlit("G#");
    reveal_strlit("A");
    reveal_strlit("A#");
    reveal_strlit("B");
    reveal_strlit("Db");
    reveal_strlit("Eb");
    reveal_strlit("Gb");
    reveal_strlit("Ab");
    reveal_strlit("Bb");
    reveal_with_fuel(table_index_from, 13);
    let s = sharp_key(i);
    let f = flat_key(i);
    assert forall|j: int| 0 <= j < 12 implies (#[trigger] eq_ignore_case(sharp_key(j), s)) == (j
        == i) by {
        assert(eq_ignore_case(sharp_key(j), s) ==> lower_seq(sharp_key(j)) =~= lower_seq(s));
        if j != i {
            assert(lower_seq(sharp_key(j)) != lower_seq(s)) by {
                if lower_seq(sharp_key(j)).len() == lower_seq(s).len() {
                    assert(lower_seq(sharp_key(j))[0] != lower_seq(s)[0] || lower_seq(
                        sharp_key(j),
                    )[1] != lower_seq(s)[1]);
                }
            }
        }
    }
    assert forall|j: int| 0 <= j < 12 implies (#[trigger] eq_ignore_case(flat_key(j), f)) == (j
        == i) by {
        if j != i {
            assert(lower_seq(flat_key(j)) != lower_seq(f)) by {
                if lower_seq(flat_key(j)).len() == lower_seq(f).len() {
                    assert(lower_seq(flat_key(j))[0] != lower_seq(f)[0] || lower_seq(
                        flat_key(j),
                    )[1] != lower_seq(f)[1]);
                }
            }
        }
    }
    assert forall|j: int| 0 <= j < 12 implies (#[trigger] eq_ignore_case(sharp_key(j), f)) == (j
        == i && sharp_key(i) == flat_key(i)) by {
        if !(j == i && sharp_key(i) == flat_key(i)) {
            assert(lower_seq(sharp_key(j)) != lower_seq(f)) by {
                if lower_seq(sharp_key(j)).len() == lower_seq(f).len() {
                    assert(lower_seq(sharp_key(j))[0] != lower_seq(f)[0] || lower_seq(
                        sharp_key(j),
                    )[1] != lower_seq(f)[1]);
                }
            }
        }
    }
    lemma_table_index_from(s, false, 0);
    lemma_table_index_from(f, false, 0);
    lemma_table_index_from(f, true, 0);
    assert(eq_ignore_case(sharp_key(i), s));
    assert(eq_ignore_case(flat_key(i), f));
    match table_index_from(f, false, 0) {
        Some(k) => {
            assert(eq_ignore_case(sharp_key(k), f));
        },
        None => {},
    }
}


/// Law: transposing a known key by `n` semitones gives a key whose pitch is
/// `n` semitones (modulo an octave) from the starting pitch, whichever
/// spelling is used for the result.
pub proof fn law_offset_moves_by_n_semitones(starting: Seq<char>, n: int)
    requires
        key_index_spec(starting) is Some,
    ensures
        offset_key_spec(starting, n) is Some,
        key_index_spec(offset_key_spec(starting, n).unwrap()) == Some(
            (key_index_spec(starting).unwrap() + n) % 12,
        ),
{
    let b = key_index_spec(starting).unwrap();
    lemma_key_index_of_tables((b + n) % 12);
}

/// Law: offsets that differ by whole octaves give the same key.
pub proof fn law_offset_wraps_every_octave(starting: Seq<char>, n: int, octaves: int)
    ensures
        offset_key_spec(starting, n) == offset_key_spec(starting, n + 12 * octaves),
{
    match key_index_spec(starting) {
        Some(b) => {
            assert((b + n) % 12 == (b + (n + 12 * octaves)) % 12) by (nonlinear_arith);
        },
        None => {},
    }
}

/// Law: transposing up by `n` and then down by `n` returns to the starting pitch.
pub proof fn law_offset_round_trip(starting: Seq<char>, n: int)
    requires
        key_index_spec(starting) is Some,
    ensures
        key_index_spec(
            offset_key_spec(offset_key_spec(starting, n).unwrap(), -n).unwrap(),
        ) == key_index_spec(starting),
{
    let b = key_index_spec(starting).unwrap();
    law_offset_moves_by_n_semitones(starting, n);
    let k = offset_key_spec(starting, n).unwrap();
    law_offset_moves_by_n_semitones(k, -n);
    lemma_table_index_from(starting, false, 0);
    lemma_table_index_from(starting, true, 0);
    assert(0 <= b < 12);
    assert((((b + n) % 12) + -n) % 12 == b) by (nonlinear_arith)
        requires
            0 <= b < 12,
    ;
}

/// Law: for a known starting key, resolving an offset of `n` succeeds;
/// resolving `-n` from that result succeeds and lands on the starting
/// pitch; and an offset of `n + 12` gives the same key as `n`.
pub proof fn law_transpose_round_trip(starting: Seq<char>, n: int)
    requires
        key_index_spec(starting) is Some,
    ensures
        resolve_spec(RequestView::Offset(n), starting) is Ok,
        resolve_spec(
            RequestView::Offset(-n),
            resolve_spec(RequestView::Offset(n), starting)->Ok_0,
        ) is Ok,
        key_index_spec(
            resolve_spec(
                RequestView::Offset(-n),
                resolve_spec(RequestView::Offset(n), starting)->Ok_0,
            )->Ok_0,
        ) == key_index_spec(starting),
        resolve_spec(RequestView::Offset(n + 12), starting) == resolve_spec(RequestView::Offset(n), starting),
{
    law_offset_moves_by_n_semitones(starting, n);
    let k = offset_key_spec(starting, n).unwrap();
    law_offset_moves_by_n_semitones(k, -n);
    law_offset_round_trip(starting, n);
    law_offset_wraps_every_octave(starting, n, 1);
}

/// The pitch class of a natural note letter (lower case), C being 0.
pub open spec fn letter_pitch(c: char) -> Option<int> {
    if c == 'c' { Some(0) }
    else if c == 'd' { Some(2) }
    else if c == 'e' { Some(4) }
    else if c == 'f' { Some(5) }
    else if c == 'g' { Some(7) }
    else if c == 'a' { Some(9) }
    else if c == 'b' { Some(11) }
    else { None }
}

/// The pitch class (0 to 11, C being 0) that a key name denotes by music
/// notation: a note letter, raised a semitone by `#` or lowered by `b`,
/// ignoring ASCII case; `None` for anything else.
pub open spec fn pitch_of(name: Seq<char>) -> Option<int> {
    let s = lower_seq(name);
    if s.len() == 1 {
        letter_pitch(s[0])
    } else if s.len() == 2 {
        match letter_pitch(s[0]) {
            Some(p) => if s[1] == '#' {
                Some((p + 1) % 12)
            } else if s[1] == 'b' {
                Some((p + 11) % 12)
            } else {
                None
            },
            None => None,
        }
    } else {
        None
    }
}

proof fn lemma_lower_seq_items(s: Seq<char>)
    ensures
        lower_seq(s).len() == s.len(),
        forall|i: int| 0 <= i < s.len() ==> lower_seq(s)[i] == crate::textops::lower_char(#[trigger] s[i]),
{
    assert forall|i: int| 0 <= i < s.len() implies lower_seq(s)[i] == crate::textops::lower_char(#[trigger] s[i]) by {
    }
}

/// Law: both spellings tables name, at each index, the pitch class of that
/// index: `sharp_key(i)` and `flat_key(i)` are the same note.
pub proof fn law_tables_name_their_pitch(i: int)
    requires
        0 <= i < 12,
    ensures
        pitch_of(sharp_key(i)) == Some(i),
        pitch_of(flat_key(i)) == Some(i),
{
    reveal_strlit("C");
    reveal_strlit("C#");
    reveal_strlit("D");
    reveal_strlit("D#");
    reveal_strlit("E");
    reveal_strlit("F");
    reveal_strlit("F#");
    reveal_strlit("G");
    reveal_strlit("G#");
    reveal_strlit("A");
    reveal_strlit("A#");
    reveal_strlit("B");
    reveal_strlit("Db");
    reveal_strlit("Eb");
    reveal_strlit("Gb");
    reveal_strlit("Ab");
    reveal_strlit("Bb");
    lemma_lower_seq_items(sharp_key(i));
    lemma_lower_seq_items(flat_key(i));
}

/// Law: the pitch index that a key name is read as is the pitch class the
/// name denotes.
pub proof fn law_key_index_is_pitch(k: Seq<char>)
    ensures
        key_index_spec(k) matches Some(i) ==> pitch_of(k) == Some(i),
{
    lemma_table_index_from(k, false, 0);
    lemma_table_index_from(k, true, 0);
    if let Some(i) = key_index_spec(k) {
        law_tables_name_their_pitch(i);
        let t = if table_index_from(k, false, 0) is Some { sharp_key(i) } else { flat_key(i) };
        assert(lower_seq(t) == lower_seq(k));
    }
}

/// Law: transposing a known key by `n` semitones gives a key name whose
/// pitch class is `n` semitones (modulo an octave) from the starting key's.
pub proof fn law_transpose_moves_pitch(starting: Seq<char>, n: int)
    requires
        key_index_spec(starting) is Some,
    ensures
        pitch_of(starting) is Some,
        resolve_spec(RequestView::Offset(n), starting) matches Ok(k) && pitch_of(k) == Some(
            (pitch_of(starting)->Some_0 + n) % 12,
        ),
{
    law_key_index_is_pitch(starting);
    law_offset_moves_by_n_semitones(starting, n);
    let b = key_index_spec(starting).unwrap();
    let k = offset_key_spec(starting, n).unwrap();
    law_key_index_is_pitch(k);
}

proof fn lemma_table_spellings(i: int)
    requires
        0 <= i < 12,
    ensures
        !flat_key(i).contains('#'),
        !sharp_key(i).contains('b'),
        flat_key(i).len() > 0 && 'A' <= flat_key(i)[0] <= 'G',
        sharp_key(i).len() > 0 && 'A' <= sharp_key(i)[0] <= 'G',
{
    reveal_strlit("C");
    reveal_strlit("C#");
    reveal_strlit("D");
    reveal_strlit("D#");
    reveal_strlit("E");
    reveal_strlit("F");
    reveal_strlit("F#");
    reveal_strlit("G");
    reveal_strlit("G#");
    reveal_strlit("A");
    reveal_strlit("A#");
    reveal_strlit("B");
    reveal_strlit("Db");
    reveal_strlit("Eb");
    reveal_strlit("Gb");
    reveal_strlit("Ab");
    reveal_strlit("Bb");
    let f = flat_key(i);
    let s = sharp_key(i);
    assert(forall|j: int| 0 <= j < f.len() ==> f[j] != '#');
    assert(forall|j: int| 0 <= j < s.len() ==> s[j] != 'b');
}

/// Law: an offset keeps the starting key's way of spelling: a starting key
/// written with a `b` gives a key written with flats (no `#`), any other
/// gives one written with sharps (no `b`); the result is an upper-case note
/// name.
pub proof fn law_transpose_keeps_spelling(starting: Seq<char>, n: int)
    requires
        key_index_spec(starting) is Some,
    ensures
        resolve_spec(RequestView::Offset(n), starting) matches Ok(k) && k.len() > 0 && 'A' <= k[0] <= 'G' && (
        starting.contains('b') ==> !k.contains('#')) && (!starting.contains('b') ==> !k.contains('b')),
{
    let b = key_index_spec(starting).unwrap();
    lemma_table_index_from(starting, false, 0);
    lemma_table_index_from(starting, true, 0);
    assert(0 <= (b + n) % 12 < 12);
    lemma_table_spellings((b + n) % 12);
}

} // verus!
