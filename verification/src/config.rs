//! Non-secret preferences: defaults that save typing. The tool has no
//! credentials, so nothing here is ever a secret.

use vstd::prelude::*;

use crate::error::AppError;
use crate::model::opt_view;
use crate::text::{chars_of, eq_str, parse_u32, parse_u32_spec, string_of};
use crate::util::{normalize_query, normalized};

verus! {

/// Saved preferences.
#[derive(Debug)]
pub struct Config {
    /// Default municipality filter for searches, e.g. `JUPITER`.
    pub municipality: Option<String>,
    /// Default `--limit` for searches when the flag is not given.
    pub limit: Option<u32>,
}

impl View for Config {
    type V = (Option<Seq<char>>, Option<u32>);

    open spec fn view(&self) -> (Option<Seq<char>>, Option<u32>) {
        (opt_view(self.municipality), self.limit)
    }
}

impl Default for Config {
    fn default() -> (r: Self)
        ensures
            r@ == (None::<Seq<char>>, None::<u32>),
    {
        Config { municipality: None, limit: None }
    }
}

impl Config {
    /// Nothing is set.
    pub fn is_empty(&self) -> (r: bool)
        ensures
            r == (self.municipality is None && self.limit is None),
    {
        self.municipality.is_none() && self.limit.is_none()
    }
}

/// The saved preferences, given what the store holds: a missing file is not
/// an error, it is the empty configuration.
pub fn load(saved: Option<Config>) -> (r: Config)
    ensures
        saved is None ==> r@ == (None::<Seq<char>>, None::<u32>),
        saved matches Some(c) ==> r@ == c@,
{
    match saved {
        Some(c) => c,
        None => Config::default(),
    }
}

/// The message for a key that is neither `municipality` nor `limit`.
pub open spec fn unknown_key_text(key: Seq<char>) -> Seq<char> {
    "unknown config key `"@ + key + "` (known: municipality, limit)"@
}

/// The message for a limit that is not a whole number.
pub open spec fn bad_limit_text(value: Seq<char>) -> Seq<char> {
    "limit must be a whole number, got `"@ + value + "`"@
}

/// What setting `key` to `value` makes of the preferences `c`, or the usage
/// message explaining why it is refused.
pub open spec fn config_set(
    c: (Option<Seq<char>>, Option<u32>),
    key: Seq<char>,
    value: Seq<char>,
) -> Result<(Option<Seq<char>>, Option<u32>), Seq<char>> {
    if key == "municipality"@ {
        Ok((Some(normalized(value)), c.1))
    } else if key == "limit"@ {
        match parse_u32_spec(value) {
            None => Err(bad_limit_text(value)),
            Some(n) => if n == 0 {
                Err("limit must be at least 1"@)
            } else {
                Ok((c.0, Some(n)))
            },
        }
    } else {
        Err(unknown_key_text(key))
    }
}

/// What clearing `key` makes of the preferences `c`, and whether it had been
/// set; or the usage message for an unknown key.
pub open spec fn config_unset(c: (Option<Seq<char>>, Option<u32>), key: Seq<char>) -> Result<
    ((Option<Seq<char>>, Option<u32>), bool),
    Seq<char>,
> {
    if key == "municipality"@ {
        Ok(((None, c.1), c.0 is Some))
    } else if key == "limit"@ {
        Ok(((c.0, None), c.1 is Some))
    } else {
        Err(unknown_key_text(key))
    }
}

fn unknown_key(key: &str) -> (r: AppError)
    ensures
        r is Usage && r.text() == unknown_key_text(key@),
{
    let mut m = chars_of("unknown config key `");
    let mut k = chars_of(key);
    m.append(&mut k);
    let mut tail = chars_of("` (known: municipality, limit)");
    m.append(&mut tail);
    AppError::Usage(string_of(&m))
}

/// Apply `key=value`, validating both. Refused changes leave `cfg` as it was.
pub fn set(cfg: &mut Config, key: &str, value: &str) -> (r: Result<(), AppError>)
    ensures
        r is Ok ==> config_set(old(cfg)@, key@, value@) == Ok::<
            (Option<Seq<char>>, Option<u32>),
            Seq<char>,
        >(final(cfg)@),
        r matches Err(e) ==> e is Usage && config_set(old(cfg)@, key@, value@) == Err::<
            (Option<Seq<char>>, Option<u32>),
            Seq<char>,
        >(e.text()) && final(cfg)@ == old(cfg)@,
{
    if eq_str(key, "municipality") {
        cfg.municipality = Some(normalize_query(value));
        Ok(())
    } else if eq_str(key, "limit") {
        let digits = chars_of(value);
        match parse_u32(&digits) {
            None => {
                let mut m = chars_of("limit must be a whole number, got `");
                let mut v = chars_of(value);
                m.append(&mut v);
                let mut tail = chars_of("`");
                m.append(&mut tail);
                Err(AppError::Usage(string_of(&m)))
            },
            Some(n) => {
                if n == 0 {
                    Err(AppError::Usage(string_of(&chars_of("limit must be at least 1"))))
                } else {
                    cfg.limit = Some(n);
                    Ok(())
                }
            },
        }
    } else {
        Err(unknown_key(key))
    }
}

/// Clear `key`. Returns `true` if it had been set.
pub fn unset(cfg: &mut Config, key: &str) -> (r: Result<bool, AppError>)
    ensures
        r matches Ok(had) ==> config_unset(old(cfg)@, key@) == Ok::<
            ((Option<Seq<char>>, Option<u32>), bool),
            Seq<char>,
        >((final(cfg)@, had)),
        r matches Err(e) ==> e is Usage && config_unset(old(cfg)@, key@) == Err::<
            ((Option<Seq<char>>, Option<u32>), bool),
            Seq<char>,
        >(e.text()) && final(cfg)@ == old(cfg)@,
{
    if eq_str(key, "municipality") {
        let had = cfg.municipality.is_some();
        cfg.municipality = None;
        Ok(had)
    } else if eq_str(key, "limit") {
        let had = cfg.limit.is_some();
        cfg.limit = None;
        Ok(had)
    } else {
        Err(unknown_key(key))
    }
}

/// A key that was set reads back as set: unsetting it right after reports
/// that it had been set, and clears it.
pub proof fn lemma_unset_after_set(
    c: (Option<Seq<char>>, Option<u32>),
    key: Seq<char>,
    value: Seq<char>,
)
    requires
        config_set(c, key, value) is Ok,
    ensures
        config_unset(config_set(c, key, value)->Ok_0, key) matches Ok((c2, had)) && had && (
        key == "municipality"@ ==> c2.0 is None) && (key == "limit"@ ==> c2.1 is None),
{
    reveal_strlit("municipality");
    reveal_strlit("limit");
    assert("municipality"@.len() != "limit"@.len());
}

/// Unsetting is idempotent: a second unset of the same key changes nothing
/// and reports that it was not set.
pub proof fn lemma_unset_twice(c: (Option<Seq<char>>, Option<u32>), key: Seq<char>)
    requires
        config_unset(c, key) is Ok,
    ensures
        config_unset((config_unset(c, key)->Ok_0).0, key) == Ok::<
            ((Option<Seq<char>>, Option<u32>), bool),
            Seq<char>,
        >(((config_unset(c, key)->Ok_0).0, false)),
{
}

/// Setting one key never disturbs the other.
pub proof fn lemma_set_keeps_other_key(
    c: (Option<Seq<char>>, Option<u32>),
    key: Seq<char>,
    value: Seq<char>,
)
    requires
        config_set(c, key, value) is Ok,
    ensures
        key == "municipality"@ ==> (config_set(c, key, value)->Ok_0).1 == c.1,
        key == "limit"@ ==> (config_set(c, key, value)->Ok_0).0 == c.0,
{
    reveal_strlit("municipality");
    reveal_strlit("limit");
    assert("municipality"@.len() != "limit"@.len());
}

} // verus!
