//! The brew adapter: the API domain lives in a process environment
//! variable, not in a file this crate can safely edit.
//!
//! The medium content handed to [`SourceManager::current_url`] is the value
//! of `HOMEBREW_API_DOMAIN`, or the empty string when the variable is
//! absent.  Applying a mirror cannot persist anything to the user's shell
//! profile; [`SourceManager::set_source`] instead returns the exact shell
//! commands the user must run, and counts as handled.  Restoring likewise
//! returns text telling the user what to unset.

use vstd::prelude::*;

use crate::error::MirrorError;
use crate::text::{chars_of, contains_seq, find_first, string_from_chars};
use crate::traits::{RestoreAction, SourceManager};
use crate::types::Mirror;

verus! {

/// Manages the brew API domain setting.
#[derive(Debug)]
pub struct BrewManager;

impl BrewManager {
    pub fn new() -> (r: Self) {
        BrewManager
    }
}

/// The bottle domain suggested alongside a known mirror provider, inferred
/// from the API domain URL.
pub open spec fn brew_bottle_domain(url: Seq<char>) -> Option<Seq<char>> {
    if contains_seq(url, "tuna"@) {
        Some("https://mirrors.tuna.tsinghua.edu.cn/homebrew-bottles"@)
    } else if contains_seq(url, "ustc"@) {
        Some("https://mirrors.ustc.edu.cn/homebrew-bottles"@)
    } else {
        None
    }
}

/// The instructions shown when applying `url`: an export of the API
/// domain, a bottle-domain export for known providers, and a reminder to
/// persist the lines in the shell profile.
pub open spec fn brew_instructions_spec(url: Seq<char>) -> Seq<char> {
    "To apply this mirror, please run the following commands in your terminal:\n\n    export HOMEBREW_API_DOMAIN=\""@
        + url + "\"\n"@ + (match brew_bottle_domain(url) {
        Some(d) => "    export HOMEBREW_BOTTLE_DOMAIN=\""@ + d + "\"\n"@,
        None => Seq::<char>::empty(),
    }) + "\nTo make it permanent, add the above lines to your ~/.zshrc or ~/.bash_profile.\n"@
}

/// The instructions shown when restoring: unset both variables and remove
/// them from the shell profile.
pub open spec fn brew_restore_text() -> Seq<char> {
    "To restore Brew configuration, please unset the environment variables:\n\n    unset HOMEBREW_API_DOMAIN\n    unset HOMEBREW_BOTTLE_DOMAIN\n\nIf you added these to your shell profile (~/.zshrc, ~/.bash_profile, etc.), please remove them manually.\n"@
}

impl SourceManager for BrewManager {
    open spec fn spec_name(&self) -> Seq<char> {
        "brew"@
    }

    open spec fn spec_requires_sudo(&self) -> bool {
        false
    }

    open spec fn spec_config_path(&self) -> Seq<char> {
        "env:HOMEBREW_API_DOMAIN"@
    }

    /// A non-empty variable value is the configured domain; an empty or
    /// absent one means the implicit default.
    open spec fn spec_current(&self, content: Seq<char>) -> Option<Seq<char>> {
        if content.len() > 0 {
            Some(content)
        } else {
            None
        }
    }

    open spec fn spec_current_errs(&self, content: Seq<char>) -> bool {
        false
    }

    open spec fn spec_set_post(&self, content: Seq<char>, url: Seq<char>, out: Seq<char>) -> bool {
        out == brew_instructions_spec(url)
    }

    open spec fn spec_set_errs(&self, content: Seq<char>) -> bool {
        false
    }

    open spec fn spec_set_err(&self, content: Seq<char>, e: MirrorError) -> bool {
        false
    }

    open spec fn spec_restore_ok(&self, entries: Seq<Seq<char>>, action: RestoreAction) -> bool {
        match action {
            RestoreAction::ShowText(t) => t@ == brew_restore_text(),
            _ => false,
        }
    }

    open spec fn spec_restore_errs(&self, entries: Seq<Seq<char>>) -> bool {
        false
    }

    fn name(&self) -> (r: String) {
        String::from_str("brew")
    }

    fn requires_sudo(&self) -> (r: bool) {
        false
    }

    fn config_path(&self) -> (r: String) {
        String::from_str("env:HOMEBREW_API_DOMAIN")
    }

    fn current_url(&self, content: &str) -> (r: Result<Option<String>, MirrorError>) {
        if content.unicode_len() > 0 {
            Ok(Some(content.to_owned()))
        } else {
            Ok(None)
        }
    }

    fn set_source(&self, content: &str, mirror: &Mirror) -> (r: Result<String, MirrorError>) {
        let uv = chars_of(mirror.url.as_str());
        let tuna = chars_of("tuna");
        let ustc = chars_of("ustc");
        proof {
            reveal_strlit("tuna");
            reveal_strlit("ustc");
        }
        let mut out = String::from_str(
            "To apply this mirror, please run the following commands in your terminal:\n\n    export HOMEBREW_API_DOMAIN=\"",
        );
        out.append(mirror.url.as_str());
        out.append("\"\n");
        match find_first(&uv, &tuna) {
            Some(i) => {
                proof {
                    assert(crate::text::occurs_at(uv@, tuna@, i as int));
                    assert(contains_seq(mirror.url@, "tuna"@));
                }
                out.append("    export HOMEBREW_BOTTLE_DOMAIN=\"");
                out.append("https://mirrors.tuna.tsinghua.edu.cn/homebrew-bottles");
                out.append("\"\n");
            },
            None => {
                match find_first(&uv, &ustc) {
                    Some(i) => {
                        proof {
                            assert(crate::text::occurs_at(uv@, ustc@, i as int));
                            assert(contains_seq(mirror.url@, "ustc"@));
                        }
                        out.append("    export HOMEBREW_BOTTLE_DOMAIN=\"");
                        out.append("https://mirrors.ustc.edu.cn/homebrew-bottles");
                        out.append("\"\n");
                    },
                    None => {},
                }
            },
        }
        out.append("\nTo make it permanent, add the above lines to your ~/.zshrc or ~/.bash_profile.\n");
        proof {
            assert(out@ =~= brew_instructions_spec(mirror.url@));
        }
        Ok(out)
    }

    fn restore(&self, entries: &Vec<String>) -> (r: Result<RestoreAction, MirrorError>) {
        Ok(
            RestoreAction::ShowText(
                String::from_str(
                    "To restore Brew configuration, please unset the environment variables:\n\n    unset HOMEBREW_API_DOMAIN\n    unset HOMEBREW_BOTTLE_DOMAIN\n\nIf you added these to your shell profile (~/.zshrc, ~/.bash_profile, etc.), please remove them manually.\n",
                ),
            ),
        )
    }
}

} // verus!
