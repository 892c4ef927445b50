//! Branch upstream state for the sidebar badge.

use vstd::prelude::*;

use crate::text::{chars_of, dec_digits, extend_chars, push_decimal, string_of};

verus! {

/// What a branch's configured upstream is doing.  Nothing here contacts a
/// remote, so every state describes local refs only.
#[derive(Debug, Clone, PartialEq, Eq)]
pub enum UpstreamState {
    /// Tracks `upstream` and matches it.
    Level { upstream: String },
    /// Tracks `upstream` and differs from it.
    Diverged { upstream: String, ahead: usize, behind: usize },
    /// `branch.<name>.remote` and `.merge` name `upstream`, but no such
    /// reference exists locally.
    Gone { upstream: String },
    /// No upstream is configured.
    Untracked,
}

impl UpstreamState {
    /// The tracked reference, for every state that tracks one.
    pub open spec fn spec_upstream(&self) -> Option<Seq<char>> {
        match self {
            UpstreamState::Level { upstream } => Some(upstream@),
            UpstreamState::Diverged { upstream, .. } => Some(upstream@),
            UpstreamState::Gone { upstream } => Some(upstream@),
            UpstreamState::Untracked => None,
        }
    }

    pub fn upstream_name(&self) -> (name: Option<&str>)
        ensures
            name matches Some(n) ==> self.spec_upstream() == Some(n@),
            name is None ==> self.spec_upstream() is None,
    {
        match self {
            UpstreamState::Level { upstream } => Some(upstream.as_str()),
            UpstreamState::Diverged { upstream, .. } => Some(upstream.as_str()),
            UpstreamState::Gone { upstream } => Some(upstream.as_str()),
            UpstreamState::Untracked => None,
        }
    }
}

/// The badge tooltip for an upstream state.  It names the upstream ref
/// because the glyph cannot.
pub open spec fn spec_upstream_tooltip(state: UpstreamState) -> Seq<char> {
    match state {
        UpstreamState::Level { upstream } => "tracks "@ + upstream@,
        UpstreamState::Diverged { upstream, ahead, behind } => "tracks "@ + upstream@
            + " \u{2014} "@ + dec_digits(ahead as nat) + " ahead, "@ + dec_digits(behind as nat)
            + " behind"@,
        UpstreamState::Gone { upstream } => upstream@ + " is missing locally"@,
        UpstreamState::Untracked => "no upstream configured"@,
    }
}

pub fn upstream_tooltip(state: &UpstreamState) -> (tip: String)
    ensures
        tip@ == spec_upstream_tooltip(*state),
{
    let mut out: Vec<char> = Vec::new();
    match state {
        UpstreamState::Level { upstream } => {
            extend_chars(&mut out, &chars_of("tracks "));
            extend_chars(&mut out, &chars_of(upstream.as_str()));
        },
        UpstreamState::Diverged { upstream, ahead, behind } => {
            extend_chars(&mut out, &chars_of("tracks "));
            extend_chars(&mut out, &chars_of(upstream.as_str()));
            extend_chars(&mut out, &chars_of(" \u{2014} "));
            push_decimal(&mut out, *ahead as u128);
            extend_chars(&mut out, &chars_of(" ahead, "));
            push_decimal(&mut out, *behind as u128);
            extend_chars(&mut out, &chars_of(" behind"));
        },
        UpstreamState::Gone { upstream } => {
            extend_chars(&mut out, &chars_of(upstream.as_str()));
            extend_chars(&mut out, &chars_of(" is missing locally"));
        },
        UpstreamState::Untracked => {
            extend_chars(&mut out, &chars_of("no upstream configured"));
        },
    }
    assert(out@ =~= spec_upstream_tooltip(*state));
    string_of(&out)
}

} // verus!
