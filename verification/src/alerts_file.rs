//! The alerts file: append-only JSON lines, sealed in chunks under a total byte budget.
use vstd::prelude::*;

use crate::chunks::{sealed_chunks, Pruner, PrunerView};
use crate::numbers::{setting, setting_or};
use crate::text::{lowered, opt_text, same_text, texts, trimmed};

verus! {

/// Bytes at which the live file is sealed (256 MiB).
pub const DEFAULT_ALERTS_MAX_BYTES: u64 = 268_435_456;

/// Bytes of the live file and all chunks (20 GiB).
pub const DEFAULT_ALERTS_MAX_TOTAL_BYTES: u64 = 21_474_836_480;

/// The least value of either limit.
pub const LEAST_FILE_BYTES: u64 = 1024;

/// Name of a live file whose path has none.
pub const DEFAULT_ALERTS_NAME: &'static str = "alerts.jsonl";

/// Settings of the alerts file.
#[derive(Clone, Debug, PartialEq, Eq)]
pub struct AlertsFileConfig {
    pub path: String,
    /// Bytes at which the live file is sealed. 0 disables.
    pub max_bytes: u64,
    /// Oldest chunks go when the live file and all chunks have more bytes.
    pub max_total_bytes: u64,
    /// Whether sealed chunks are compressed.
    pub gzip_rotated: bool,
}

/// What an [`AlertsFileConfig`] says.
#[verifier::ext_equal]
pub struct AlertsFileView {
    pub path: Seq<char>,
    pub max_bytes: u64,
    pub max_total_bytes: u64,
    pub gzip_rotated: bool,
}

impl View for AlertsFileConfig {
    type V = AlertsFileView;

    open spec fn view(&self) -> AlertsFileView {
        AlertsFileView {
            path: self.path@,
            max_bytes: self.max_bytes,
            max_total_bytes: self.max_total_bytes,
            gzip_rotated: self.gzip_rotated,
        }
    }
}

/// The settings as given: `NOVELTY_ALERTS_MAX_BYTES`, `NOVELTY_ALERTS_MAX_TOTAL_BYTES` and
/// `NOVELTY_ALERTS_GZIP`.
#[derive(Clone, Debug, Default)]
pub struct AlertsFileVars {
    pub max_bytes: Option<String>,
    pub max_total_bytes: Option<String>,
    pub gzip: Option<String>,
}

/// The larger of a number and the least value of a limit.
pub open spec fn at_least_file(n: nat) -> nat {
    if n < LEAST_FILE_BYTES {
        LEAST_FILE_BYTES as nat
    } else {
        n
    }
}

/// Whether a switch that is on by default is on: it is off only where it says no.
pub open spec fn not_off(raw: Option<Seq<char>>) -> bool {
    match raw {
        None => true,
        Some(s) => {
            let t = lowered(trimmed(s));
            !(t == "0"@ || t == "false"@ || t == "no"@ || t == "off"@)
        },
    }
}

/// The larger of a number and the least value of a limit.
pub fn raise_to_least(n: u64) -> (r: u64)
    ensures
        r == at_least_file(n as nat),
{
    if n < LEAST_FILE_BYTES {
        LEAST_FILE_BYTES
    } else {
        n
    }
}

impl AlertsFileConfig {
    /// Reads the settings of the alerts file at `path`. A limit that is no number has its
    /// default, and none is below a kibibyte.
    pub fn from_env(path: String, vars: &AlertsFileVars) -> (r: Self)
        ensures
            r@ == (AlertsFileView {
                path: path@,
                max_bytes: at_least_file(
                    setting_or(
                        opt_text(vars.max_bytes),
                        u64::MAX as nat,
                        DEFAULT_ALERTS_MAX_BYTES as nat,
                    ),
                ) as u64,
                max_total_bytes: at_least_file(
                    setting_or(
                        opt_text(vars.max_total_bytes),
                        u64::MAX as nat,
                        DEFAULT_ALERTS_MAX_TOTAL_BYTES as nat,
                    ),
                ) as u64,
                gzip_rotated: not_off(opt_text(vars.gzip)),
            }),
    {
        let gzip_rotated = match &vars.gzip {
            None => true,
            Some(s) => {
                let t = s.as_str().trim().to_ascii_lowercase();
                let t = t.as_str();
                !(same_text(t, "0") || same_text(t, "false") || same_text(t, "no") || same_text(
                    t,
                    "off",
                ))
            },
        };
        AlertsFileConfig {
            path,
            max_bytes: raise_to_least(
                setting(&vars.max_bytes, u64::MAX, DEFAULT_ALERTS_MAX_BYTES),
            ),
            max_total_bytes: raise_to_least(
                setting(&vars.max_total_bytes, u64::MAX, DEFAULT_ALERTS_MAX_TOTAL_BYTES),
            ),
            gzip_rotated,
        }
    }

    /// Whether the live file is to be sealed, given its size; a file that is not there is
    /// not.
    pub fn rotation_due(&self, live_len: Option<u64>) -> (r: bool)
        ensures
            r == (self@.max_bytes > 0 && live_len is Some && live_len->0 >= self@.max_bytes),
    {
        match live_len {
            Some(n) => self.max_bytes > 0 && n >= self.max_bytes,
            None => false,
        }
    }

    /// The pruner of the sealed chunks of the live file `name`, among the names in its
    /// directory.
    pub fn pruner(&self, name: &str, names: &[String]) -> (r: Pruner)
        ensures
            r@ == (PrunerView {
                budget: self@.max_total_bytes,
                queue: sealed_chunks(name@, texts(names@)),
            }),
    {
        Pruner::new(name, names, self.max_total_bytes)
    }
}

/// A file limit is at least the least one, and otherwise as it is.
pub proof fn law_least_file(n: nat)
    ensures
        n >= 1024 ==> at_least_file(n) == n,
        n < 1024 ==> at_least_file(n) == 1024,
{
}

/// Compression is on unless it is switched off.
pub proof fn law_not_off(s: Seq<char>)
    ensures
        not_off(None),
        not_off(Some(s)) <==> !(lowered(trimmed(s)) == "0"@ || lowered(trimmed(s)) == "false"@
            || lowered(trimmed(s)) == "no"@ || lowered(trimmed(s)) == "off"@),
{
}

} // verus!
