//! The records Elvanto returns, as plain values.
//!
//! Decoding from JSON happens outside the library; these types hold exactly
//! what the library reads. Where Elvanto sends a loosely typed JSON value,
//! `JsonValue` keeps the part that matters.
use vstd::prelude::*;
use crate::textops::{
    eq_ignore_ascii_case, eq_ignore_case, parse_u32, parse_u32_spec, str_eq, to_owned, trim, trim_seq,
};

verus! {

/// A JSON scalar as far as the library inspects it.
#[derive(Debug, Clone, PartialEq, Default)]
pub enum JsonValue {
    /// `null` or absent.
    #[default]
    Null,
    Bool(bool),
    /// A number, with its value when it is an integer that fits in `i64`.
    Number(Option<i64>),
    String(String),
    /// An array or object.
    Other,
}

/// The count that a numeric text stands for: blank text is zero, other text
/// is read as a `u32` once surrounding whitespace is dropped; `None` when it
/// does not read.
pub open spec fn count_text_spec(s: Seq<char>) -> Option<u32> {
    if trim_seq(s).len() == 0 {
        Some(0)
    } else {
        parse_u32_spec(trim_seq(s))
    }
}

/// Reads a count that Elvanto sent as text (paging totals and sizes).
pub fn count_from_text(s: &str) -> (r: Option<u32>)
    ensures
        r == count_text_spec(s@),
{
    let t = trim(s);
    if t.unicode_len() == 0 {
        Some(0)
    } else {
        parse_u32(t)
    }
}

/// The outer envelope of every answer.
#[derive(Debug, Clone)]
pub struct RawEnvelope {
    pub status: String,
    pub error: Option<ApiError>,
}

/// The error part of an error envelope.
#[derive(Debug, Clone)]
pub struct ApiError {
    pub code: i64,
    pub message: String,
}

/// Answer of `songs/categories/getAll`.
#[derive(Debug, Clone, Default)]
pub struct CategoriesResponse {
    pub categories: CategoryList,
}

/// A list of categories.
#[derive(Debug, Clone, Default)]
pub struct CategoryList {
    pub category: Vec<RawCategory>,
}

/// A song category as Elvanto sends it.
#[derive(Debug, Clone, Default)]
pub struct RawCategory {
    pub id: String,
    pub name: String,
}

/// A song in a song list.
#[derive(Debug, Clone, Default)]
pub struct RawSong {
    pub id: String,
    pub title: String,
    pub artist: String,
    pub album: String,
    /// CCLI number.
    pub number: String,
    /// `"1"` or `1` (or `"active"`) for active songs.
    pub status: JsonValue,
    pub categories: CategoryList,
}

/// `status` marks an active song: the string `"1"`, the string `"active"`
/// (any ASCII case) or the integer 1.
pub open spec fn is_active_status(v: JsonValue) -> bool {
    match v {
        JsonValue::String(s) => s@ == "1"@ || eq_ignore_case(s@, "active"@),
        JsonValue::Number(n) => n == Some(1i64),
        _ => false,
    }
}

/// The status label of a song: `active` or `archived`.
pub open spec fn status_label_spec(active: bool) -> Seq<char> {
    if active {
        "active"@
    } else {
        "archived"@
    }
}


impl RawSong {
    /// Whether the song is active.
    pub fn is_active(&self) -> (r: bool)
        ensures
            r == is_active_status(self.status),
    {
        match &self.status {
            JsonValue::String(s) => str_eq(s.as_str(), "1") || eq_ignore_ascii_case(
                s.as_str(),
                "active",
            ),
            JsonValue::Number(n) => match n {
                Some(v) => *v == 1,
                None => false,
            },
            _ => false,
        }
    }

    /// `active` or `archived`.
    pub fn status_label(&self) -> (r: &'static str)
        ensures
            r@ == status_label_spec(is_active_status(self.status)),
    {
        if self.is_active() {
            "active"
        } else {
            "archived"
        }
    }
}

/// A JSON value read as a flag: `true`, a non-zero integer, or the string
/// `"1"`, `"true"` or `"active"` (the last two in any ASCII case).
pub open spec fn truthy_spec(v: JsonValue) -> bool {
    match v {
        JsonValue::Bool(b) => b,
        JsonValue::Number(n) => match n {
            Some(i) => i != 0,
            None => false,
        },
        JsonValue::String(s) => s@ == "1"@ || eq_ignore_case(s@, "true"@) || eq_ignore_case(
            s@,
            "active"@,
        ),
        _ => false,
    }
}

/// Reads a JSON value as a flag.
pub fn truthy(v: &JsonValue) -> (r: bool)
    ensures
        r == truthy_spec(*v),
{
    match v {
        JsonValue::Bool(b) => *b,
        JsonValue::Number(n) => match n {
            Some(i) => *i != 0,
            None => false,
        },
        JsonValue::String(s) => str_eq(s.as_str(), "1") || eq_ignore_ascii_case(s.as_str(), "true")
            || eq_ignore_ascii_case(s.as_str(), "active"),
        _ => false,
    }
}

/// A list of arrangements.
#[derive(Debug, Clone, Default)]
pub struct ArrangementList {
    pub arrangement: Vec<RawArrangement>,
}

/// An arrangement as Elvanto sends it.
#[derive(Debug, Clone, Default)]
pub struct RawArrangement {
    pub id: String,
    pub name: String,
    pub sequence: String,
    pub bpm: String,
    pub duration: String,
    /// Chord chart text.
    pub chord_pro: String,
    pub lyrics: String,
    pub keys: KeyList,
}

/// A list of keys.
#[derive(Debug, Clone, Default)]
pub struct KeyList {
    pub key: Vec<RawKey>,
}

/// A key record of an arrangement.
#[derive(Debug, Clone, Default)]
pub struct RawKey {
    pub id: String,
    pub starting: String,
    pub ending: String,
}

/// Answer of `songs/arrangements/getAll`.
#[derive(Debug, Clone, Default)]
pub struct ArrangementsResponse {
    pub arrangements: ArrangementList,
}

/// Answer of `songs/arrangements/getInfo`.
#[derive(Debug, Clone, Default)]
pub struct ArrangementInfoResponse {
    pub arrangement: RawArrangement,
}

/// Full details of a song.
#[derive(Debug, Clone, Default)]
pub struct RawSongDetail {
    pub id: String,
    pub title: String,
    pub artist: String,
    pub album: String,
    pub number: String,
    pub status: JsonValue,
    pub notes: String,
    pub sequence: String,
    pub bpm: String,
    pub duration: String,
    pub learn: JsonValue,
    pub allow_downloads: JsonValue,
    pub categories: CategoryList,
    pub locations: LocationList,
    pub arrangements: ArrangementList,
}

/// A list of locations.
#[derive(Debug, Clone, Default)]
pub struct LocationList {
    pub location: Vec<RawLocation>,
}

/// A location.
#[derive(Debug, Clone, Default)]
pub struct RawLocation {
    pub id: String,
    pub name: String,
}

/// The type of a service.
#[derive(Debug, Clone, Default)]
pub struct RawServiceType {
    pub id: String,
    pub name: String,
}

/// The location of a service.
#[derive(Debug, Clone, Default)]
pub struct RawServiceLocation {
    pub id: String,
    pub name: String,
}

/// The songs listed beside a service.
#[derive(Debug, Clone, Default)]
pub struct RawServiceSongList {
    pub song: Vec<RawServiceSong>,
}

/// A song listed beside a service.
#[derive(Debug, Clone, Default)]
pub struct RawServiceSong {
    pub id: String,
    pub arrangement: RawServiceArrangement,
}

/// The arrangement chosen for a service song.
#[derive(Debug, Clone, Default)]
pub struct RawServiceArrangement {
    /// Key set for this arrangement on this service, if any.
    pub key: Option<String>,
}

/// The plans of a service.
#[derive(Debug, Clone, Default)]
pub struct RawServicePlanList {
    pub plan: Vec<RawServicePlan>,
}

/// A plan of a service.
#[derive(Debug, Clone, Default)]
pub struct RawServicePlan {
    pub items: RawServiceItemList,
}

/// The items of a plan.
#[derive(Debug, Clone, Default)]
pub struct RawServiceItemList {
    pub item: Vec<RawServiceItem>,
}

/// A plan item: what the library reads of its `song` value.
#[derive(Debug, Clone, Default)]
pub struct RawServiceItem {
    /// `song.id`, when `song` is an object whose `id` is a string.
    pub song_id: Option<String>,
    /// `song.arrangement.key`, when that is a string.
    pub song_key: Option<String>,
}

/// A service.
#[derive(Debug, Clone, Default)]
pub struct RawService {
    pub id: String,
    pub date: String,
    pub name: String,
    pub description: String,
    pub status: String,
    pub service_type: RawServiceType,
    pub location: RawServiceLocation,
    pub songs: RawServiceSongList,
    pub plans: RawServicePlanList,
    pub volunteers: RawServiceVolunteers,
}

/// A song used on a service, with the key set for it (if recorded).
#[derive(Debug, Clone)]
pub struct ServiceSongUse {
    pub id: String,
    pub key: Option<String>,
}

/// Answer of `people/getAll`.
#[derive(Debug, Clone, Default)]
pub struct PeopleResponse {
    pub people: PeopleList,
}

/// One page of people.
#[derive(Debug, Clone, Default)]
pub struct PeopleList {
    pub page: u32,
    pub per_page: u32,
    pub total: u32,
    pub on_this_page: u32,
    pub person: Vec<RawPersonRecord>,
}

/// A person as Elvanto sends it.
#[derive(Debug, Clone, Default)]
pub struct RawPersonRecord {
    pub id: String,
    pub email: String,
    pub firstname: String,
    pub preferred_name: String,
    pub lastname: String,
    pub status: String,
    pub departments: RawPersonDepartments,
}

/// The departments of a person.
#[derive(Debug, Clone, Default)]
pub struct RawPersonDepartments {
    pub department: Vec<RawPersonDepartment>,
}

/// A department of a person.
#[derive(Debug, Clone, Default)]
pub struct RawPersonDepartment {
    pub id: String,
    pub name: String,
    pub sub_departments: RawPersonSubDepartments,
}

/// The sub-departments of a department.
#[derive(Debug, Clone, Default)]
pub struct RawPersonSubDepartments {
    pub sub_department: Vec<RawPersonSubDepartment>,
}

/// A sub-department.
#[derive(Debug, Clone, Default)]
pub struct RawPersonSubDepartment {
    pub id: String,
    pub name: String,
    pub positions: RawPersonPositions,
}

/// The positions in a sub-department.
#[derive(Debug, Clone, Default)]
pub struct RawPersonPositions {
    pub position: Vec<RawPersonPosition>,
}

/// A position.
#[derive(Debug, Clone, Default)]
pub struct RawPersonPosition {
    pub id: String,
    pub name: String,
}

/// The volunteers rostered on a service.
#[derive(Debug, Clone, Default)]
pub struct RawServiceVolunteers {
    pub plan: Vec<RawVolunteerPlan>,
}

/// The positions of one plan's roster.
#[derive(Debug, Clone, Default)]
pub struct RawVolunteerPlan {
    pub positions: RawPositionList,
}

/// A list of rostered positions.
#[derive(Debug, Clone, Default)]
pub struct RawPositionList {
    pub position: Vec<RawPosition>,
}

/// A rostered position with its volunteers.
#[derive(Debug, Clone, Default)]
pub struct RawPosition {
    pub department_id: String,
    pub department_name: String,
    pub sub_department_id: String,
    pub sub_department_name: String,
    pub position_id: String,
    pub position_name: String,
    pub volunteers: RawVolunteersField,
}

/// The volunteers of a position (empty when Elvanto sends `""`).
#[derive(Debug, Clone, Default)]
pub struct RawVolunteersField {
    pub volunteer: Vec<RawVolunteer>,
}

/// A volunteer.
#[derive(Debug, Clone, Default)]
pub struct RawVolunteer {
    pub person: RawPerson,
    pub status: String,
}

/// A person as named in a roster.
#[derive(Debug, Clone, Default)]
pub struct RawPerson {
    pub id: String,
    pub firstname: String,
    pub lastname: String,
    pub preferred_name: String,
}

/// The name shown for a person: the preferred name (or else the first name)
/// and the last name, separated by a space when both are present.
pub open spec fn display_name_spec(first: Seq<char>, preferred: Seq<char>, last: Seq<char>) -> Seq<
    char,
> {
    let f = if preferred.len() == 0 {
        first
    } else {
        preferred
    };
    if f.len() == 0 {
        last
    } else if last.len() == 0 {
        f
    } else {
        f + " "@ + last
    }
}

/// Builds the display name from its parts.
pub fn display_name_from(first: &str, preferred: &str, last: &str) -> (r: String)
    ensures
        r@ == display_name_spec(first@, preferred@, last@),
{
    let f = if preferred.unicode_len() == 0 {
        first
    } else {
        preferred
    };
    if f.unicode_len() == 0 {
        to_owned(last)
    } else if last.unicode_len() == 0 {
        to_owned(f)
    } else {
        let mut s = to_owned(f);
        s.append(" ");
        s.append(last);
        s
    }
}

impl RawPerson {
    /// The name shown for this person.
    pub fn display_name(&self) -> (r: String)
        ensures
            r@ == display_name_spec(self.firstname@, self.preferred_name@, self.lastname@),
    {
        display_name_from(self.firstname.as_str(), self.preferred_name.as_str(), self.lastname.as_str())
    }
}

} // verus!
