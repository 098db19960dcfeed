//! What the chart and lyrics commands print for the chosen arrangement.
use vstd::prelude::*;
use crate::domain::arrangement::Arrangement;
use crate::error::CliError;
use crate::textops::{debug_quoted, debug_str, join_seqs, to_owned};
use crate::transpose::{parse, parse_spec, resolve, resolve_spec};

verus! {

/// Where the chord chart to print comes from.
#[derive(Debug, Clone, PartialEq, Eq)]
pub enum ChartPlan {
    /// The arrangement's own chart.
    Ready(String),
    /// The chart must be fetched again, transposed to this key.
    Transposed(String),
}

/// `arrangement "<name>" has no <what>`.
pub open spec fn missing_message(name: Seq<char>, what: Seq<char>) -> Seq<char> {
    "arrangement "@ + debug_str(name) + " has no "@ + what
}

fn missing(name: &str, what: &str) -> (r: CliError)
    ensures
        r matches CliError::NotFound(m) && m@ == missing_message(name@, what@),
{
    let mut m = to_owned("arrangement ");
    let q = debug_quoted(name);
    m.append(q.as_str());
    m.append(" has no ");
    m.append(what);
    CliError::NotFound(m)
}

/// Decides where the chart comes from: without a transpose request, the
/// arrangement's chart (an error when it has none); with one, the key to
/// transpose to, worked out from the request and the arrangement's first
/// starting key.
pub fn plan_chart(chosen: &Arrangement, transpose: Option<&str>) -> (r: Result<ChartPlan, CliError>)
    ensures
        match transpose {
            None => match chosen.chord_chart {
                Some(c) => r == Ok::<ChartPlan, CliError>(ChartPlan::Ready(c)),
                None => r matches Err(CliError::NotFound(m)) && m@ == missing_message(chosen.name@, "chord chart"@),
            },
            Some(input) => match parse_spec(input@) {
                Err(m) => r matches Err(CliError::Usage(e)) && e@ == m,
                Ok(req) => if chosen.keys@.len() == 0 {
                    r matches Err(CliError::NotFound(m)) && m@ == missing_message(chosen.name@, "key"@)
                } else {
                    match resolve_spec(req, chosen.keys@[0].starting@) {
                        Ok(t) => r matches Ok(ChartPlan::Transposed(k)) && k@ == t,
                        Err(m) => r matches Err(CliError::NotFound(e)) && e@ == m,
                    }
                },
            },
        },
{
    match transpose {
        None => match &chosen.chord_chart {
            Some(c) => Ok(ChartPlan::Ready(c.clone())),
            None => Err(missing(chosen.name.as_str(), "chord chart")),
        },
        Some(input) => {
            let req = match parse(input) {
                Ok(q) => q,
                Err(e) => return Err(e),
            };
            if chosen.keys.len() == 0 {
                return Err(missing(chosen.name.as_str(), "key"));
            }
            match resolve(&req, chosen.keys[0].starting.as_str()) {
                Ok(t) => Ok(ChartPlan::Transposed(t)),
                Err(e) => Err(e),
            }
        },
    }
}

/// The chart of the arrangement fetched transposed to `target`.
pub fn transposed_chart(fetched: Arrangement, target: &str) -> (r: Result<String, CliError>)
    ensures
        match fetched.chord_chart {
            Some(c) => r == Ok::<String, CliError>(c),
            None => r matches Err(CliError::NotFound(m)) && m@
                == "Elvanto returned no transposed chord chart for "@ + target@,
        },
{
    match fetched.chord_chart {
        Some(c) => Ok(c),
        None => {
            let mut m = to_owned("Elvanto returned no transposed chord chart for ");
            m.append(target);
            Err(CliError::NotFound(m))
        },
    }
}

/// The lyrics of the chosen arrangement; an error when it has none.
pub fn lyrics_of(chosen: &Arrangement) -> (r: Result<String, CliError>)
    ensures
        match chosen.lyrics {
            Some(l) => r == Ok::<String, CliError>(l),
            None => r matches Err(CliError::NotFound(m)) && m@ == missing_message(chosen.name@, "lyrics"@),
        },
{
    match &chosen.lyrics {
        Some(l) => Ok(l.clone()),
        None => Err(missing(chosen.name.as_str(), "lyrics")),
    }
}

/// The names of the arrangements not chosen.
pub open spec fn other_names(others: Seq<&Arrangement>) -> Seq<Seq<char>> {
    others.map_values(|a: &Arrangement| a.name@)
}

/// The note about the other arrangements, shown after the chart or lyrics:
/// nothing when there are none.
pub fn others_note(others: &Vec<&Arrangement>) -> (r: Option<String>)
    ensures
        others@.len() == 0 ==> r is None,
        others@.len() > 0 ==> (r matches Some(n) && n@ == "\n(other arrangements: "@ + join_seqs(
            other_names(others@),
            ", "@,
        ) + ")"@),
{
    if others.len() == 0 {
        return None;
    }
    let mut names: Vec<String> = Vec::new();
    let n = others.len();
    let mut i: usize = 0;
    while i < n
        invariant
            n == others@.len(),
            i <= n,
            crate::textops::views(names@) == other_names(others@.take(i as int)),
        decreases n - i,
    {
        names.push(to_owned(others[i].name.as_str()));
        proof {
            assert(other_names(others@.take(i + 1)) =~= other_names(others@.take(i as int)).push(others@[i as int].name@));
        }
        i = i + 1;
    }
    proof {
        assert(others@.take(n as int) =~= others@);
    }
    let joined = crate::textops::join(&names, ", ");
    let mut s = to_owned("\n(other arrangements: ");
    s.append(joined.as_str());
    s.append(")");
    Some(s)
}

} // verus!
