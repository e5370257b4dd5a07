//! Which configuration a run uses.
use vstd::prelude::*;

use crate::conf::schema::{legacy_lkm_dir, migrate_legacy_kasumi_lkm_dir, Config, HymoFsConfig};
use crate::defs;
use crate::paths::same_path;
use crate::text::concat_str;

verus! {

/// What reading a configuration file came to.
#[derive(Debug)]
pub enum LoadOutcome {
    /// The file was read and parsed.
    Parsed(Config),
    /// The file does not exist.
    Missing,
    /// Reading or parsing failed, for this reason.
    Failed(String),
}

/// `b` is `a` with the legacy kernel module directory migrated.
pub open spec fn migrated(a: Config, b: Config) -> bool {
    &&& b == (Config { hymofs: HymoFsConfig { lkm_dir: b.hymofs.lkm_dir, ..a.hymofs }, ..a })
    &&& if same_path(a.hymofs.lkm_dir@, legacy_lkm_dir()) {
        b.hymofs.lkm_dir@ == defs::KASUMI_LKM_DIR@
    } else {
        b.hymofs.lkm_dir == a.hymofs.lkm_dir
    }
}

impl Config {
    /// The configuration of a file that may be missing: the parsed one, or
    /// the defaults when there is no file; migrated either way.
    pub fn load_optional_from_file(parsed: Option<Config>) -> (r: Config)
        ensures
            parsed is Some ==> migrated(parsed->0, r),
            parsed is None ==> exists|d: Config| is_defaults(d) && migrated(d, r),
    {
        let mut c = match parsed {
            Some(x) => x,
            None => Config::default(),
        };
        let ghost before = c;
        migrate_legacy_kasumi_lkm_dir(&mut c);
        assert(parsed is None ==> is_defaults(before) && migrated(before, c));
        c
    }
}

/// `d` is the configuration that no file changes: the defaults.
pub open spec fn is_defaults(d: Config) -> bool {
    d.is_default_except_source() && d.mountsource@ == crate::conf::schema::DEFAULT_MOUNT_SOURCE@
}

/// What a run is configured with, given the path named on the command line
/// and what reading the file came to.
pub open spec fn loaded_as(custom_path: Option<Seq<char>>, outcome: LoadOutcome, r: Result<Config, String>) -> bool {
    match custom_path {
        Some(p) => match outcome {
            LoadOutcome::Parsed(c) => (r matches Ok(x) && migrated(c, x)),
            LoadOutcome::Missing => (r matches Ok(x) && exists|d: Config| is_defaults(d) && migrated(d, x)),
            LoadOutcome::Failed(e) => (r matches Err(m) && m@ == "Failed to load config from custom path: "@ + p + ": "@ + e@),
        },
        None => match outcome {
            LoadOutcome::Parsed(c) => (r matches Ok(x) && migrated(c, x)),
            _ => (r matches Ok(x) && is_defaults(x)),
        },
    }
}

/// The configuration a run uses. With a path given on the command line,
/// that file (the defaults when it is missing), and its failure is the
/// run's failure; without one, the default file, and the defaults when it
/// cannot be loaded.
pub fn load_config(custom_path: Option<&str>, outcome: LoadOutcome) -> (r: Result<Config, String>)
    ensures
        loaded_as(match custom_path { Some(p) => Some(p@), None => None }, outcome, r),
{
    match custom_path {
        Some(p) => match outcome {
            LoadOutcome::Parsed(c) => Ok(Config::load_optional_from_file(Some(c))),
            LoadOutcome::Missing => Ok(Config::load_optional_from_file(None)),
            LoadOutcome::Failed(e) => {
                let m = concat_str("Failed to load config from custom path: ", p);
                let m = concat_str(m.as_str(), ": ");
                Err(concat_str(m.as_str(), e.as_str()))
            },
        },
        None => match outcome {
            LoadOutcome::Parsed(c) => Ok(Config::load_optional_from_file(Some(c))),
            _ => Ok(Config::default()),
        },
    }
}

/// A configuration session: the persisted configuration as `load_config`
/// gives it.
pub struct ConfigSession;

impl ConfigSession {
    pub fn load_persisted(custom_path: Option<&str>, outcome: LoadOutcome) -> (r: Result<Config, String>)
        ensures
            loaded_as(match custom_path { Some(p) => Some(p@), None => None }, outcome, r),
    {
        load_config(custom_path, outcome)
    }
}

/// `a` and `b` hold the same configuration: equal in every field, the
/// kernel module directory by its text.
pub open spec fn same_config(a: Config, b: Config) -> bool {
    &&& a == (Config { hymofs: HymoFsConfig { lkm_dir: a.hymofs.lkm_dir, ..b.hymofs }, ..b })
    &&& a.hymofs.lkm_dir@ == b.hymofs.lkm_dir@
}

/// Loading is determined by what reading the file came to: two loads of the
/// same outcome (such as `ConfigSession::load_persisted` and `load_config`)
/// both succeed or both fail, fail with the same message, and from a parsed
/// file give the same configuration.
pub proof fn lemma_loads_agree(
    custom_path: Option<Seq<char>>,
    outcome: LoadOutcome,
    r1: Result<Config, String>,
    r2: Result<Config, String>,
)
    requires
        loaded_as(custom_path, outcome, r1),
        loaded_as(custom_path, outcome, r2),
    ensures
        r1 is Ok <==> r2 is Ok,
        r1 matches Err(a) ==> (r2 matches Err(b) && a@ == b@),
        outcome is Parsed ==> (r1 matches Ok(x1) && r2 matches Ok(x2) && same_config(x1, x2)),
{
    if let LoadOutcome::Parsed(c) = outcome {
        let x1 = r1->Ok_0;
        let x2 = r2->Ok_0;
        if same_path(c.hymofs.lkm_dir@, legacy_lkm_dir()) {
            assert(x1.hymofs.lkm_dir@ == x2.hymofs.lkm_dir@);
        }
    }
}

} // verus!
