//! Default flags for a subcommand, taken from an environment variable.
//!
//! For each subcommand path (e.g. `services people`), a variable of the form
//! `ELVANTO_<PATH_JOINED_BY_UNDERSCORE>` (here: `ELVANTO_SERVICES_PEOPLE`)
//! holds shell-tokenised flags that are inserted into argv after the
//! subcommand path, but only if:
//!   * the user did NOT pass `--no-env`, AND
//!   * the user did NOT give any `-`-prefixed flag *after* the subcommand path.
//!
//! Recognised subcommand groups (where the first non-flag token is followed
//! by a second non-flag token forming a two-level path): `auth`, `services`,
//! `songs`. Other tokens form a single-level path.
//!
//! A note reports what happened: that the defaults were applied, or that a
//! manual flag suppressed defaults that would have applied. With `--no-env`
//! there is no note.
use vstd::prelude::*;
use crate::domain::person::opt_view;
use crate::textops::{
    join, join_seqs, str_eq, to_owned, to_upper, trim, trim_seq, upper_seq, views,
};

verus! {

/// A token that starts with `-`.
pub open spec fn is_flag(s: Seq<char>) -> bool {
    s.len() > 0 && s[0] == '-'
}

/// The subcommand groups that take a second path segment.
pub open spec fn is_known_group(s: Seq<char>) -> bool {
    s == "auth"@ || s == "services"@ || s == "songs"@
}

/// The index of the first token at or after `from` that is not a flag.
pub open spec fn first_positional(args: Seq<Seq<char>>, from: int) -> Option<int>
    decreases args.len() - from,
{
    if from < 0 || from >= args.len() {
        None
    } else if !is_flag(args[from]) {
        Some(from)
    } else {
        first_positional(args, from + 1)
    }
}

/// A position found by `first_positional` is in range and holds a non-flag.
proof fn lemma_first_positional(args: Seq<Seq<char>>, from: int)
    ensures
        first_positional(args, from) matches Some(i) ==> from <= i < args.len() && !is_flag(args[i]),
    decreases args.len() - from,
{
    if 0 <= from < args.len() && is_flag(args[from]) {
        lemma_first_positional(args, from + 1);
    }
}

/// The subcommand path of `args` (whose first token is the program name) and
/// the index just after it: the first non-flag token, followed by the next
/// non-flag token when the first is a known group.
pub open spec fn command_path(args: Seq<Seq<char>>) -> (Seq<Seq<char>>, int) {
    match first_positional(args, 1) {
        None => (Seq::empty(), 1),
        Some(i) => if is_known_group(args[i]) {
            match first_positional(args, i + 1) {
                Some(j) => (seq![args[i], args[j]], j + 1),
                None => (seq![args[i]], i + 1),
            }
        } else {
            (seq![args[i]], i + 1)
        },
    }
}

/// The variable that holds the defaults for a subcommand path.
pub open spec fn env_key_for(path: Seq<Seq<char>>) -> Seq<char> {
    "ELVANTO_"@ + upper_seq(join_seqs(path, "_"@))
}

/// The user gave a flag (other than `--no-env`) at or after index `end`.
pub open spec fn has_manual_flag(args: Seq<Seq<char>>, end: int) -> bool {
    exists|k: int| end <= k < args.len() && is_flag(args[k]) && args[k] != "--no-env"@
}

/// Which defaults concern the command line: the variable to read, the index
/// just after the subcommand path, and whether a manual flag follows the
/// path; `None` when `--no-env` is given or there is no subcommand.
pub open spec fn defaults_target(args: Seq<Seq<char>>) -> Option<(Seq<char>, int, bool)> {
    let (path, end) = command_path(args);
    if exists|k: int| 0 <= k < args.len() && args[k] == "--no-env"@ {
        None
    } else if path.len() == 0 {
        None
    } else {
        Some((env_key_for(path), end, has_manual_flag(args, end)))
    }
}

/// Where defaults may go: the variable to read and the index to insert at,
/// or `None` when `--no-env` is given, there is no subcommand, or a flag
/// already follows the subcommand path.
pub open spec fn injection_spec(args: Seq<Seq<char>>) -> Option<(Seq<char>, int)> {
    match defaults_target(args) {
        Some((key, at, false)) => Some((key, at)),
        _ => None,
    }
}

/// What `shlex::split` reads from `text`: its words, or `None` when the
/// quoting is unbalanced.
pub uninterp spec fn shell_words(text: Seq<char>) -> Option<Seq<Seq<char>>>;

/// Splits a text into words as a POSIX shell does.
///
/// Trusted: calls `shlex::split`. The contract names the result
/// (`shell_words`); the quoting rules are not stated.
#[verifier::external_body]
fn split_words(text: &str) -> (r: Option<Vec<String>>)
    ensures
        match r {
            Some(w) => shell_words(text@) == Some(views(w@)),
            None => shell_words(text@) is None,
        },
{
    shlex::split(text)
}

/// `args` with `words` inserted at index `at`.
pub open spec fn spliced(args: Seq<Seq<char>>, at: int, words: Seq<Seq<char>>) -> Seq<Seq<char>> {
    args.take(at) + words + args.skip(at)
}

/// The argument list once the defaults in `env_value` (if any) are inserted
/// at `at`: a missing or blank value, one that does not split, or one without
/// words leaves the arguments as they are.
pub open spec fn inject_spec(args: Seq<Seq<char>>, at: int, env_value: Option<Seq<char>>) -> Seq<Seq<char>> {
    match env_value {
        None => args,
        Some(v) => if trim_seq(v).len() == 0 {
            args
        } else {
            match shell_words(v) {
                Some(w) => if w.len() == 0 { args } else { spliced(args, at, w) },
                None => args,
            }
        },
    }
}

/// Whether a token starts with `-`.
fn flag_token(s: &str) -> (r: bool)
    ensures
        r == is_flag(s@),
{
    s.unicode_len() > 0 && s.get_char(0) == '-'
}

/// Whether a token is one of the known subcommand groups.
fn known_group(s: &str) -> (r: bool)
    ensures
        r == is_known_group(s@),
{
    str_eq(s, "auth") || str_eq(s, "services") || str_eq(s, "songs")
}

/// The index of the first non-flag token at or after `from`.
fn next_positional(args: &Vec<String>, from: usize) -> (r: Option<usize>)
    ensures
        r == (match first_positional(views(args@), from as int) {
            Some(i) => Some(i as usize),
            None => None::<usize>,
        }),
        r matches Some(i) ==> from <= i < args.len(),
{
    let n = args.len();
    let mut i = from;
    while i < n
        invariant
            n == args@.len(),
            from <= i,
            first_positional(views(args@), from as int) == first_positional(views(args@), i as int),
        decreases n - i,
    {
        if !flag_token(args[i].as_str()) {
            return Some(i);
        }
        i = i + 1;
    }
    None
}

/// Which defaults concern `args`: the variable to read, the index just after
/// the subcommand path, and whether a manual flag follows it (see
/// `defaults_target`).
pub fn injection_point(args: &Vec<String>) -> (r: Option<(String, usize, bool)>)
    ensures
        match defaults_target(views(args@)) {
            None => r is None,
            Some((key, at, manual)) => r matches Some(p) && p.0@ == key && p.1 == at && p.2 == manual,
        },
        r matches Some(p) ==> p.1 <= args.len(),
{
    let ghost a = views(args@);
    let n = args.len();
    let mut k: usize = 0;
    while k < n
        invariant
            n == args@.len(),
            a == views(args@),
            k <= n,
            forall|j: int| 0 <= j < k ==> a[j] != "--no-env"@,
        decreases n - k,
    {
        proof {
            assert(a[k as int] == args@[k as int]@);
        }
        if str_eq(args[k].as_str(), "--no-env") {
            return None;
        }
        k = k + 1;
    }
    let mut path: Vec<String> = Vec::new();
    let end: usize;
    match next_positional(args, 1) {
        None => {
            return None;
        },
        Some(i) => {
            proof {
                lemma_first_positional(a, 1);
                assert(a[i as int] == args@[i as int]@);
            }
            path.push(to_owned(args[i].as_str()));
            if known_group(args[i].as_str()) {
                match next_positional(args, i + 1) {
                    Some(j) => {
                        proof {
                            lemma_first_positional(a, i + 1);
                            assert(a[j as int] == args@[j as int]@);
                        }
                        path.push(to_owned(args[j].as_str()));
                        end = j + 1;
                    },
                    None => {
                        end = i + 1;
                    },
                }
            } else {
                end = i + 1;
            }
        },
    }
    proof {
        assert(views(path@) =~= command_path(a).0);
        assert(end == command_path(a).1);
    }
    let mut manual = false;
    let mut m = end;
    while m < n
        invariant
            n == args@.len(),
            a == views(args@),
            end <= m <= n,
            a.len() == n,
            forall|j: int| 0 <= j < n ==> a[j] != "--no-env"@,
            views(path@) == command_path(a).0,
            end == command_path(a).1,
            path@.len() > 0,
            manual == (exists|j: int| end <= j < m && is_flag(a[j]) && a[j] != "--no-env"@),
        decreases n - m,
    {
        proof {
            assert(a[m as int] == args@[m as int]@);
        }
        if flag_token(args[m].as_str()) && !str_eq(args[m].as_str(), "--no-env") {
            manual = true;
        }
        m = m + 1;
    }
    let joined = join(&path, "_");
    let upper = to_upper(joined.as_str());
    let mut key = to_owned("ELVANTO_");
    key.append(upper.as_str());
    Some((key, end, manual))
}

/// Inserts `words` into `args` at `at`; no words, or none at all, leaves
/// `args` as it is.
pub fn splice_words(args: Vec<String>, at: usize, words: Option<Vec<String>>) -> (r: Vec<String>)
    requires
        at <= args.len(),
    ensures
        views(r@) == (match words {
            Some(w) => if w.len() == 0 {
                views(args@)
            } else {
                spliced(views(args@), at as int, views(w@))
            },
            None => views(args@),
        }),
{
    let mut w = match words {
        Some(w) => w,
        None => return args,
    };
    if w.len() == 0 {
        return args;
    }
    let ghost before = args@;
    let ghost wv = w@;
    let mut out = args;
    let mut tail = out.split_off(at);
    out.append(&mut w);
    out.append(&mut tail);
    proof {
        assert(views(out@) =~= spliced(views(before), at as int, views(wv)));
    }
    out
}

/// Inserts the defaults held in `env_value` (if any) into `args` at `at`.
pub fn inject(args: Vec<String>, at: usize, env_value: Option<String>) -> (r: Vec<String>)
    requires
        at <= args.len(),
    ensures
        views(r@) == inject_spec(views(args@), at as int, opt_view(env_value)),
{
    let v = match env_value {
        None => return args,
        Some(v) => v,
    };
    if trim(v.as_str()).unicode_len() == 0 {
        return args;
    }
    let words = split_words(v.as_str());
    splice_words(args, at, words)
}

/// What is reported about the defaults for a command line: whether they
/// were applied or held back by a manual flag, the variable, and its value
/// without surrounding whitespace.
pub struct DefaultsNote {
    pub applied: bool,
    pub key: String,
    pub value: String,
}

/// The plain content of an optional note.
pub open spec fn note_view(n: Option<DefaultsNote>) -> Option<(bool, Seq<char>, Seq<char>)> {
    match n {
        Some(d) => Some((d.applied, d.key@, d.value@)),
        None => None,
    }
}

/// The defaults in `env_value` change the command line: the value is
/// present, not blank, and splits into at least one word.
pub open spec fn injects(env_value: Option<Seq<char>>) -> bool {
    match env_value {
        Some(v) => trim_seq(v).len() > 0 && (match shell_words(v) {
            Some(w) => w.len() > 0,
            None => false,
        }),
        None => false,
    }
}

/// The note for the defaults in `env_value` read from `key`: with a manual
/// flag, a note that they were held back whenever the value is not blank;
/// without one, a note that they were applied whenever they change the
/// command line; otherwise none.
pub open spec fn note_spec(key: Seq<char>, env_value: Option<Seq<char>>, manual: bool) -> Option<(bool, Seq<char>, Seq<char>)> {
    match env_value {
        None => None,
        Some(v) => if manual {
            if trim_seq(v).len() > 0 { Some((false, key, trim_seq(v))) } else { None }
        } else if injects(env_value) {
            Some((true, key, trim_seq(v)))
        } else {
            None
        },
    }
}

/// The line that reports a note.
pub open spec fn note_text(applied: bool, key: Seq<char>, value: Seq<char>) -> Seq<char> {
    if applied {
        "note: applied "@ + key + " defaults: "@ + value
    } else {
        "note: "@ + key + " defaults suppressed by manual flag; would have applied: "@ + value
    }
}

impl DefaultsNote {
    /// The line that reports this note.
    pub fn render(&self) -> (r: String)
        ensures
            r@ == note_text(self.applied, self.key@, self.value@),
    {
        let mut out = to_owned("note: ");
        if self.applied {
            out.append("applied ");
            out.append(self.key.as_str());
            out.append(" defaults: ");
            out.append(self.value.as_str());
        } else {
            out.append(self.key.as_str());
            out.append(" defaults suppressed by manual flag; would have applied: ");
            out.append(self.value.as_str());
        }
        proof {
            reveal_strlit("note: ");
            reveal_strlit("note: applied ");
            reveal_strlit("applied ");
        }
        assert(out@ =~= note_text(self.applied, self.key@, self.value@));
        out
    }
}

/// The command line after the defaults were considered, with the note that
/// reports what happened to them.
pub struct Applied {
    pub argv: Vec<String>,
    pub note: Option<DefaultsNote>,
}

/// Applies the environment defaults for the subcommand in `args` (which
/// includes argv[0]), reading variables through `lookup`. The variable is
/// read only when `--no-env` is absent and there is a subcommand; the
/// arguments change only when no manual flag follows the subcommand path.
pub fn apply<F: Fn(&str) -> Option<String>>(args: Vec<String>, lookup: F) -> (r: Applied)
    requires
        forall|k: &str| call_requires(lookup, (k,)),
    ensures
        match defaults_target(views(args@)) {
            None => r.argv@ == args@ && r.note is None,
            Some((key, at, manual)) => exists|k: &str, v: Option<String>|
                k@ == key && call_ensures(lookup, (k,), v) && (if manual {
                    r.argv@ == args@
                } else {
                    views(r.argv@) == inject_spec(views(args@), at, opt_view(v))
                }) && note_view(r.note) == note_spec(key, opt_view(v), manual),
        },
{
    match injection_point(&args) {
        None => Applied { argv: args, note: None },
        Some((key, at, manual)) => {
            let v = lookup(key.as_str());
            let ghost vv = opt_view(v);
            let shown: Option<String> = match &v {
                Some(s) => {
                    let t = trim(s.as_str());
                    if t.unicode_len() == 0 {
                        None
                    } else {
                        Some(to_owned(t))
                    }
                },
                None => None,
            };
            assert(match vv {
                Some(x) => if trim_seq(x).len() > 0 {
                    shown matches Some(t) && t@ == trim_seq(x)
                } else {
                    shown is None
                },
                None => shown is None,
            });
            if manual {
                let note = match shown {
                    Some(t) => Some(DefaultsNote { applied: false, key, value: t }),
                    None => None,
                };
                Applied { argv: args, note }
            } else {
                let n = args.len();
                let ghost before = views(args@);
                let argv = inject(args, at, v);
                proof {
                    assert(views(argv@).len() == argv@.len());
                    assert(before.len() == n);
                    if injects(vv) {
                        let w = shell_words(vv->Some_0)->Some_0;
                        assert(spliced(before, at as int, w).len() == n + w.len());
                    } else {
                        assert(views(argv@) == before);
                    }
                }
                let note = match shown {
                    Some(t) => if argv.len() > n {
                        Some(DefaultsNote { applied: true, key, value: t })
                    } else {
                        None
                    },
                    None => None,
                };
                Applied { argv, note }
            }
        },
    }
}

} // verus!
