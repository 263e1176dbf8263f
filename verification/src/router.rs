//! Choosing who interprets a command: the local parser first, a remote
//! provider only when the parser does not recognise the command.
//!
//! Common commands therefore cost nothing and work offline; the call to
//! the provider itself is made by the caller, with what `route_local`
//! leaves open.
use vstd::prelude::*;
use vstd::string::StringExecFns;
use crate::action::{AiAction, ActionModel, action_opt};
use crate::dates::date_slices_ok;
use crate::parser::{parse, parse_spec, log_fits};
use crate::provider::{AiError, AiErrorModel, CommandContext, ProviderResponse};
use crate::text::trim;

verus! {

/// Which tier produced an action.
#[derive(Debug, Clone, Copy, PartialEq, Eq, Structural)]
pub enum Tier {
    /// The local parser: no network, no cost, instant.
    Deterministic,
    /// A remote provider.
    Remote,
}

#[derive(Debug, Clone)]
pub struct RoutedAction {
    pub action: AiAction,
    pub tier: Tier,
    pub raw: Option<String>,
    pub model: Option<String>,
    pub latency_ms: u64,
}

/// The message given when a command needs a provider and none is set up.
pub open spec fn no_provider_text() -> Seq<char> {
    "no AI provider configured; add an API key in Settings"@
}

/// The local step of routing. A command the parser recognises is routed
/// at once, with zero latency and no raw reply; otherwise, without a
/// provider, the command is refused as unavailable; with one, None tells
/// the caller to ask it.
pub fn route_local(ctx: &CommandContext, has_provider: bool) -> (r: Option<Result<RoutedAction, AiError>>)
    requires
        date_slices_ok(ctx.today@),
        log_fits(trim(ctx.instruction@)),
    ensures
        match parse_spec(ctx.instruction@, ctx.today@) {
            Some(a) => r matches Some(Ok(ra)) && ra.action@ == a && ra.tier == Tier::Deterministic
                && ra.raw is None && ra.model is None && ra.latency_ms == 0,
            None => if has_provider {
                r is None
            } else {
                r matches Some(Err(e)) && e@ == AiErrorModel::Unavailable(no_provider_text())
            },
        },
{
    match parse(ctx.instruction.as_str(), ctx.today.as_str()) {
        Some(action) => Some(
            Ok(
                RoutedAction {
                    action,
                    tier: Tier::Deterministic,
                    raw: None,
                    model: None,
                    latency_ms: 0,
                },
            ),
        ),
        None => if has_provider {
            None
        } else {
            Some(
                Err(
                    AiError::Unavailable(
                        String::from_str("no AI provider configured; add an API key in Settings"),
                    ),
                ),
            )
        },
    }
}

/// A provider's answer, routed: the remote tier, with the raw reply, the
/// model and the latency kept.
pub fn route_remote(resp: ProviderResponse) -> (r: RoutedAction)
    ensures
        r.action == resp.action,
        r.tier == Tier::Remote,
        r.raw == Some(resp.raw),
        r.model == Some(resp.model),
        r.latency_ms == resp.latency_ms,
{
    RoutedAction {
        action: resp.action,
        tier: Tier::Remote,
        raw: Some(resp.raw),
        model: Some(resp.model),
        latency_ms: resp.latency_ms,
    }
}

} // verus!
