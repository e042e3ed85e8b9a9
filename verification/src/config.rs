//! The configuration: the top-level `format` string.
//!
//! Reading the TOML file happens at the program's edge; this module holds
//! where the file is looked for, the baked-in default and how a parsed
//! file overrides it.
//!
//! The file is `$CCLINE_CONFIG` when that is set and not empty, else
//! `config.toml` in the `ccline` directory under `$XDG_CONFIG_HOME` when
//! that is set and not empty, else the same under `$HOME/.config`.
use vstd::prelude::*;

use crate::paths::{chain_alike, is_separator, join_with, joins_alike, lemma_join_chain, path_join};

verus! {

/// The format used when no configuration file sets one: the `basic`
/// template.
pub const DEFAULT_FORMAT: &'static str = "🤖 $model | 💰 $cost | 📈 Session: $session [$session_reset] | 📅 Weekly: $weekly [$weekly_reset] | 🧠 $context_bar$git_branch_sep";

/// The statusline configuration.
#[derive(Debug)]
pub struct Config {
    /// The Starship-style format string.
    pub format: String,
}

impl Default for Config {
    fn default() -> (c: Self)
        ensures
            c.format@ == DEFAULT_FORMAT@,
    {
        Config { format: String::from_str(DEFAULT_FORMAT) }
    }
}

impl Config {
    /// The configuration for a file whose `format` key held `format`
    /// (`None` when the key is absent): the key when present, else the
    /// default format.
    pub fn from_format_field(format: Option<String>) -> (c: Config)
        ensures
            c.format@ == match format {
                Some(f) => f@,
                None => DEFAULT_FORMAT@,
            },
    {
        match format {
            Some(f) => Config { format: f },
            None => Config::default(),
        }
    }
}

/// The directory under the configuration home that holds the file.
pub const CONFIG_DIR: &'static str = "ccline";

/// The name of the configuration file.
pub const CONFIG_FILE: &'static str = "config.toml";

/// The configuration home's directory under `$HOME`.
pub const HOME_CONFIG_DIR: &'static str = ".config";

/// Whether an environment value is set and not empty.
pub open spec fn set_nonempty(v: Option<String>) -> bool {
    v matches Some(s) && s@.len() > 0
}

/// Whether `path` is the configuration file under the configuration home
/// `home`, joined with the separators `s1` and `s2`.
pub open spec fn config_file_at(home: Seq<char>, path: Seq<char>) -> bool {
    exists|s1: char, s2: char|
        is_separator(s1) && is_separator(s2) && #[trigger] join_with(
            join_with(home, CONFIG_DIR@, s1),
            CONFIG_FILE@,
            s2,
        ) == path
}

/// Whether `path` is the configuration file under `home/.config`.
pub open spec fn home_config_file_at(home: Seq<char>, path: Seq<char>) -> bool {
    exists|s0: char|
        is_separator(s0) && #[trigger] config_file_at(join_with(home, HOME_CONFIG_DIR@, s0), path)
}

/// Whether the configuration file path `res` is `path`, named explicitly
/// or not as `explicit` says.
pub open spec fn chosen(res: Option<(String, bool)>, path: Seq<char>, explicit: bool) -> bool {
    res matches Some((p, e)) && p@ == path && e == explicit
}

/// Whether `res` is, not named explicitly, the configuration file under
/// the configuration home `home` (exactly so, but for the separators,
/// where every platform joins `home` and the directory alike).
pub open spec fn found_under(res: Option<(String, bool)>, home: Seq<char>) -> bool {
    res matches Some((p, e)) && !e && (joins_alike(home, CONFIG_DIR@) ==> config_file_at(home, p@))
}

/// Whether `res` is, not named explicitly, the configuration file under
/// `home/.config` (exactly so, but for the separators, where every
/// platform joins `home` and `.config` alike).
pub open spec fn found_under_home(res: Option<(String, bool)>, home: Seq<char>) -> bool {
    res matches Some((p, e)) && !e && (joins_alike(home, HOME_CONFIG_DIR@) ==> home_config_file_at(
        home,
        p@,
    ))
}

/// `config.toml` in the `ccline` directory under `home`.
fn config_file_under(home: &str) -> (res: String)
    ensures
        joins_alike(home@, CONFIG_DIR@) ==> config_file_at(home@, res@),
{
    let dir = path_join(home, CONFIG_DIR);
    let res = path_join(dir.as_str(), CONFIG_FILE);
    proof {
        if joins_alike(home@, CONFIG_DIR@) {
            reveal_strlit("ccline");
            reveal_strlit("config.toml");
            let s1 = choose|s1: char| is_separator(s1) && join_with(home@, CONFIG_DIR@, s1) == dir@;
            assert(!CONFIG_FILE@.contains(':')) by {
                assert forall|i: int| 0 <= i < CONFIG_FILE@.len() implies CONFIG_FILE@[i] != ':' by {}
            }
            assert(chain_alike(home@, CONFIG_DIR@, CONFIG_FILE@));
            lemma_join_chain(home@, CONFIG_DIR@, s1, CONFIG_FILE@);
            let s2 = choose|s2: char| is_separator(s2) && join_with(dir@, CONFIG_FILE@, s2) == res@;
            assert(join_with(join_with(home@, CONFIG_DIR@, s1), CONFIG_FILE@, s2) == res@);
        }
    }
    res
}

/// Where the configuration file is looked for, and whether it was named
/// explicitly (a missing explicit file is worth a warning), given the
/// values of `CCLINE_CONFIG`, `XDG_CONFIG_HOME` and `HOME`: the first when
/// set and not empty; else `config.toml` in the `ccline` directory under
/// the second when set and not empty, else under `.config` in the third;
/// `None` when none of them applies.
pub fn config_file_path(
    explicit: Option<String>,
    xdg_config_home: Option<String>,
    home: Option<String>,
) -> (res: Option<(String, bool)>)
    ensures
        set_nonempty(explicit) ==> chosen(res, explicit->0@, true),
        (!set_nonempty(explicit) && set_nonempty(xdg_config_home)) ==> found_under(
            res,
            xdg_config_home->0@,
        ),
        (!set_nonempty(explicit) && !set_nonempty(xdg_config_home) && home is Some)
            ==> found_under_home(res, home->0@),
        !set_nonempty(explicit) && !set_nonempty(xdg_config_home) && home is None ==> res is None,
{
    if let Some(e) = explicit {
        if e.as_str().unicode_len() > 0 {
            return Some((e, true));
        }
    }
    if let Some(x) = xdg_config_home {
        if x.as_str().unicode_len() > 0 {
            return Some((config_file_under(x.as_str()), false));
        }
    }
    match home {
        Some(h) => {
            let base = path_join(h.as_str(), HOME_CONFIG_DIR);
            let res = config_file_under(base.as_str());
            proof {
                if joins_alike(h@, HOME_CONFIG_DIR@) {
                    reveal_strlit(".config");
                    reveal_strlit("ccline");
                    let s0 = choose|s0: char|
                        is_separator(s0) && join_with(h@, HOME_CONFIG_DIR@, s0) == base@;
                    assert(!CONFIG_DIR@.contains(':')) by {
                        assert forall|i: int| 0 <= i < CONFIG_DIR@.len() implies CONFIG_DIR@[i] != ':' by {}
                    }
                    assert(chain_alike(h@, HOME_CONFIG_DIR@, CONFIG_DIR@));
                    lemma_join_chain(h@, HOME_CONFIG_DIR@, s0, CONFIG_DIR@);
                    assert(config_file_at(join_with(h@, HOME_CONFIG_DIR@, s0), res@));
                }
            }
            Some((res, false))
        },
        None => None,
    }
}

} // verus!
