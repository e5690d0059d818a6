//! The settings of a run: how to reach the panel, and what the node's own
//! configuration file says about its identity and its data.

use vstd::prelude::*;
use crate::text::{chars_of, occurs_at, starts_with, text_of};

verus! {

/// Why the settings cannot be used.
#[derive(Clone, Copy, PartialEq, Eq, Debug)]
pub enum ConfigError {
    /// No API key is set under either of its names.
    ApiKeyMissing,
    /// No panel address is set under either of its names.
    PanelMissing,
    /// The panel address starts with neither `http://` nor `https://`.
    PanelScheme,
    /// The node's UUID has fewer than eight characters.
    BadNodeUuid,
    /// The path of the data directory is empty or blank.
    MissingDataRoot,
}

/// How to reach the panel.
#[derive(Debug, PartialEq, Eq)]
pub struct Connection {
    pub api_key: String,
    /// The panel's address, without a slash at its end.
    pub panel: String,
}

/// What the node's configuration file says, as far as a run needs it.
#[derive(Debug, PartialEq, Eq)]
pub struct NodeConfig {
    pub node_uuid: String,
    /// The directory under which each server's data is stored.
    pub data_root: String,
    /// The id of the group that owns the data, if the file names one.
    pub group: Option<u32>,
}

/// The first of two optional settings that is present.
pub open spec fn first_of(primary: Option<String>, fallback: Option<String>) -> Option<String> {
    match primary {
        Some(v) => Some(v),
        None => fallback,
    }
}

/// A text without the slashes at its end.
pub open spec fn without_trailing_slashes(s: Seq<char>) -> Seq<char>
    decreases s.len(),
{
    if s.len() > 0 && s.last() == '/' {
        without_trailing_slashes(s.drop_last())
    } else {
        s
    }
}

/// Whether an address names one of the two schemes by which a panel is
/// reached.
pub open spec fn has_web_scheme(s: Seq<char>) -> bool {
    occurs_at(s, "http://"@, 0) || occurs_at(s, "https://"@, 0)
}

/// Removes the slashes at the end of a text.
pub fn strip_trailing_slashes(s: &str) -> (r: String)
    ensures
        r@ == without_trailing_slashes(s@),
{
    let v = chars_of(s);
    let mut end: usize = v.len();
    assert(v@.take(end as int) =~= v@);
    while end > 0 && v[end - 1] == '/'
        invariant
            end <= v.len(),
            without_trailing_slashes(v@) == without_trailing_slashes(v@.take(end as int)),
        decreases end,
    {
        assert(v@.take(end as int).drop_last() =~= v@.take(end - 1));
        end -= 1;
    }
    text_of(&v, 0, end)
}

/// The connection that the settings describe. The API key is looked at
/// first, then the panel address, which must name a web scheme and loses
/// the slashes at its end.
pub open spec fn connection_of(
    key: Option<String>,
    key_fallback: Option<String>,
    panel: Option<String>,
    panel_fallback: Option<String>,
) -> Result<(String, Seq<char>), ConfigError> {
    match first_of(key, key_fallback) {
        None => Err(ConfigError::ApiKeyMissing),
        Some(k) => match first_of(panel, panel_fallback) {
            None => Err(ConfigError::PanelMissing),
            Some(p) => if has_web_scheme(p@) {
                Ok((k, without_trailing_slashes(p@)))
            } else {
                Err(ConfigError::PanelScheme)
            },
        },
    }
}

/// Works out how to reach the panel from the settings of the environment,
/// each of which may be given under a primary or a fallback name.
pub fn connection(
    key: Option<String>,
    key_fallback: Option<String>,
    panel: Option<String>,
    panel_fallback: Option<String>,
) -> (r: Result<Connection, ConfigError>)
    ensures
        match connection_of(key, key_fallback, panel, panel_fallback) {
            Ok((k, p)) => r is Ok && r->Ok_0.api_key == k && r->Ok_0.panel@ == p,
            Err(e) => r == Err::<Connection, ConfigError>(e),
        },
{
    let api_key = match key {
        Some(k) => k,
        None => match key_fallback {
            Some(k) => k,
            None => {
                return Err(ConfigError::ApiKeyMissing);
            },
        },
    };
    let address = match panel {
        Some(p) => p,
        None => match panel_fallback {
            Some(p) => p,
            None => {
                return Err(ConfigError::PanelMissing);
            },
        },
    };
    if !(starts_with(address.as_str(), "http://") || starts_with(address.as_str(), "https://")) {
        return Err(ConfigError::PanelScheme);
    }
    Ok(Connection { api_key, panel: strip_trailing_slashes(address.as_str()) })
}

/// A text holds nothing but white space.
pub open spec fn is_blank_text(s: Seq<char>) -> bool {
    forall|i: int| 0 <= i < s.len() ==> crate::text::is_blank(#[trigger] s[i])
}

/// Whether a text holds nothing but white space.
pub fn blank_text(s: &str) -> (r: bool)
    ensures
        r == is_blank_text(s@),
{
    let v = chars_of(s);
    let mut i: usize = 0;
    while i < v.len()
        invariant
            i <= v.len(),
            v@ == s@,
            forall|j: int| 0 <= j < i ==> crate::text::is_blank(#[trigger] s@[j]),
        decreases v.len() - i,
    {
        if !crate::text::blank(v[i]) {
            return false;
        }
        i += 1;
    }
    true
}

/// Checks what the node's configuration file says: the UUID must have at
/// least eight characters, and the data directory must be named.
pub fn node_config(node_uuid: String, data_root: String, group: Option<u32>) -> (r: Result<
    NodeConfig,
    ConfigError,
>)
    ensures
        r == if node_uuid@.len() < 8 {
            Err::<NodeConfig, ConfigError>(ConfigError::BadNodeUuid)
        } else if is_blank_text(data_root@) {
            Err(ConfigError::MissingDataRoot)
        } else {
            Ok(NodeConfig { node_uuid, data_root, group })
        },
{
    if node_uuid.as_str().unicode_len() < 8 {
        Err(ConfigError::BadNodeUuid)
    } else if blank_text(data_root.as_str()) {
        Err(ConfigError::MissingDataRoot)
    } else {
        Ok(NodeConfig { node_uuid, data_root, group })
    }
}

} // verus!
