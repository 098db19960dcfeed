//! The command line: the commands and the options each one takes.
//!
//! These are plain values; the program parses the command line into them.
use vstd::prelude::*;

verus! {

/// How the id column is rendered in text-mode list output: `Short` (the
/// default) prints the first dash-separated block, `Long` the full id, and
/// `Hidden` omits the column.
#[derive(Debug, Clone, Copy, PartialEq, Eq, Structural, Default)]
pub enum IdMode {
    #[default]
    Short,
    Long,
    Hidden,
}

/// The whole command line.
#[derive(Debug, Clone)]
pub struct Cli {
    /// Print extra diagnostic information to stderr (credentials redacted).
    pub verbose: bool,
    /// Ignore the `ELVANTO_<SUBCOMMAND>` variables that add default flags.
    pub no_env: bool,
    pub command: Command,
}

/// The command groups.
#[derive(Debug, Clone)]
pub enum Command {
    Auth { command: AuthCommand },
    People { command: PeopleCommand },
    Services { command: ServicesCommand },
    Songs { command: SongsCommand },
}

/// Authentication commands.
#[derive(Debug, Clone)]
pub enum AuthCommand {
    /// Store an API key in the OS keyring.
    Login(AuthLoginArgs),
    /// Remove the API key from the OS keyring.
    Clear,
    /// Show where the key comes from and check it against Elvanto.
    Status,
}

/// Options of `auth login`.
#[derive(Debug, Clone)]
pub struct AuthLoginArgs {
    /// Read the key from one line of stdin instead of prompting.
    pub stdin: bool,
}

/// Song commands.
#[derive(Debug, Clone)]
pub enum SongsCommand {
    Categories(SongsCategoriesArgs),
    List(SongsListArgs),
    Show(SongsShowArgs),
    Chart(SongsChartArgs),
    Lyrics(SongsLyricsArgs),
}

/// Options of `songs categories`.
#[derive(Debug, Clone)]
pub struct SongsCategoriesArgs {
    pub json: bool,
    pub id_mode: IdMode,
}

/// Options of `songs list`.
#[derive(Debug, Clone)]
pub struct SongsListArgs {
    pub json: bool,
    pub album: bool,
    pub ccli: bool,
    /// Categories to keep songs of (full id or first block).
    pub category_ids: Vec<String>,
    pub id_mode: IdMode,
    pub last_used: bool,
    pub count: bool,
    pub used_within: Option<String>,
    pub not_used_within: Option<String>,
}

/// Options of `songs show`.
#[derive(Debug, Clone)]
pub struct SongsShowArgs {
    pub id: String,
    pub json: bool,
    pub full: bool,
    pub files: bool,
}

/// Options of `songs chart`.
#[derive(Debug, Clone)]
pub struct SongsChartArgs {
    pub id: String,
    pub transpose: Option<String>,
    pub arrangement: Option<String>,
}

/// Options of `songs lyrics`.
#[derive(Debug, Clone)]
pub struct SongsLyricsArgs {
    pub id: String,
    pub arrangement: Option<String>,
}

/// Service commands.
#[derive(Debug, Clone)]
pub enum ServicesCommand {
    List(ServicesListArgs),
    People(ServicesPeopleArgs),
    SongUsage(ServicesSongUsageArgs),
}

/// People commands.
#[derive(Debug, Clone)]
pub enum PeopleCommand {
    List(PeopleListArgs),
    Org(PeopleOrgArgs),
}

/// Options of `people list`.
#[derive(Debug, Clone)]
pub struct PeopleListArgs {
    /// Departments to keep people of (name, ignoring case).
    pub department: Vec<String>,
    pub id_mode: IdMode,
    pub json: bool,
}

/// Options of `people org`.
#[derive(Debug, Clone)]
pub struct PeopleOrgArgs {
    pub id_mode: IdMode,
    pub json: bool,
}

/// Options of `services people`.
#[derive(Debug, Clone)]
pub struct ServicesPeopleArgs {
    pub id: String,
    pub hide_unfilled: bool,
    pub department: Vec<String>,
    pub email: bool,
    pub id_mode: IdMode,
    pub json: bool,
}

/// Options of `services song-usage`.
#[derive(Debug, Clone)]
pub struct ServicesSongUsageArgs {
    pub from: Option<String>,
    pub to: Option<String>,
    pub max_uses: u32,
    pub one_leader: bool,
    pub json: bool,
}

/// Options of `services list`.
#[derive(Debug, Clone)]
pub struct ServicesListArgs {
    pub from: Option<String>,
    pub to: Option<String>,
    pub id_mode: IdMode,
    pub json: bool,
}

} // verus!
