//! `config`: what a config subcommand does to the saved preferences and
//! what it reports.

use vstd::prelude::*;

use crate::cli::ConfigCmd;
use crate::config::Config;
use crate::error::AppError;
use crate::text::{chars_of, string_of};

verus! {

/// What the caller does after a config subcommand has been decided.
#[derive(Debug)]
pub enum ConfigAction {
    /// Print the config file's path.
    ShowPath,
    /// Print the effective configuration.
    Show,
    /// Save the changed preferences, then print `notice` unless quiet.
    Save { notice: String },
}

/// The action for a view of an action: `0` path, `1` show, `2` save with a
/// notice.
pub open spec fn action_view(a: ConfigAction) -> (u8, Seq<char>) {
    match a {
        ConfigAction::ShowPath => (0, seq![]),
        ConfigAction::Show => (1, seq![]),
        ConfigAction::Save { notice } => (2, notice@),
    }
}

/// What a config subcommand makes of the preferences `c` and what it does,
/// or the usage message explaining why it is refused.
pub open spec fn config_outcome(c: (Option<Seq<char>>, Option<u32>), cmd: ConfigCmd) -> Result<
    ((Option<Seq<char>>, Option<u32>), (u8, Seq<char>)),
    Seq<char>,
> {
    match cmd {
        ConfigCmd::Path => Ok((c, (0, seq![]))),
        ConfigCmd::Show => Ok((c, (1, seq![]))),
        ConfigCmd::SetKey { key, value } => match crate::config::config_set(c, key@, value@) {
            Ok(c2) => Ok((c2, (2, "set "@ + key@))),
            Err(m) => Err(m),
        },
        ConfigCmd::Unset { key } => match crate::config::config_unset(c, key@) {
            Ok((c2, had)) => Ok(
                (
                    c2,
                    (
                        2,
                        if had {
                            "unset "@ + key@
                        } else {
                            key@ + " was not set"@
                        },
                    ),
                ),
            ),
            Err(m) => Err(m),
        },
    }
}

/// Applies a `set` or `unset` to `cfg` and says what to report; `path` and
/// `show` change nothing.
pub fn config_action(cfg: &mut Config, cmd: &ConfigCmd) -> (r: Result<ConfigAction, AppError>)
    ensures
        r matches Ok(a) ==> config_outcome(old(cfg)@, *cmd) == Ok::<
            ((Option<Seq<char>>, Option<u32>), (u8, Seq<char>)),
            Seq<char>,
        >((final(cfg)@, action_view(a))),
        r matches Err(e) ==> e is Usage && config_outcome(old(cfg)@, *cmd) == Err::<
            ((Option<Seq<char>>, Option<u32>), (u8, Seq<char>)),
            Seq<char>,
        >(e.text()) && final(cfg)@ == old(cfg)@,
{
    match cmd {
        ConfigCmd::Path => Ok(ConfigAction::ShowPath),
        ConfigCmd::Show => Ok(ConfigAction::Show),
        ConfigCmd::SetKey { key, value } => {
            crate::config::set(cfg, key.as_str(), value.as_str())?;
            let mut m = chars_of("set ");
            let mut k = chars_of(key.as_str());
            m.append(&mut k);
            Ok(ConfigAction::Save { notice: string_of(&m) })
        },
        ConfigCmd::Unset { key } => {
            let had = crate::config::unset(cfg, key.as_str())?;
            let notice = if had {
                let mut m = chars_of("unset ");
                let mut k = chars_of(key.as_str());
                m.append(&mut k);
                string_of(&m)
            } else {
                let mut m = chars_of(key.as_str());
                let mut t = chars_of(" was not set");
                m.append(&mut t);
                string_of(&m)
            };
            Ok(ConfigAction::Save { notice })
        },
    }
}

} // verus!
