//! Webhook ingestion: one request, one decision.
//!
//! Authentication and publish planning form one logical operation: either
//! the request resolves to an identity and yields a topic and payload to
//! publish, or it is rejected and nothing observable happens. A missing
//! scheme, an unknown token and a missing header under required
//! authentication are all answered with the same status.

use vstd::prelude::*;

verus! {

use crate::auth::{AuthManager, bearer_prefix};
use crate::codec::spec_encode;
use crate::commit::{CommitInfo, CommitView};
use crate::config::{Config, spec_topic, spec_alias, mappings_view};
use crate::mqtt::prepare_publish;
use crate::strutil::spec_has_prefix;

/// What one webhook request resolves to.
pub enum WebhookOutcome {
    /// Publish this payload to this topic; the response then follows the
    /// publish result.
    Publish { topic: String, payload: String },
    /// Respond with this status; no topic update is observable.
    Reject { status: u16 },
}

impl WebhookOutcome {
    /// True exactly on the publishing outcome.
    pub fn is_publish(&self) -> (r: bool)
        ensures
            r == (self is Publish),
    {
        match self {
            WebhookOutcome::Publish { .. } => true,
            WebhookOutcome::Reject { .. } => false,
        }
    }
}

/// The outcome publishes the event under this identity: the topic is the
/// canonical one for the identity and the event, and the payload is the
/// event's wire form.
pub open spec fn publishes_as(
    r: WebhookOutcome,
    config: &Config,
    commit: CommitView,
    identity: Seq<char>,
) -> bool {
    &&& r matches WebhookOutcome::Publish { topic, payload }
    &&& topic@ == spec_topic(
        config.mqtt.topic_prefix@,
        Some(identity),
        spec_alias(mappings_view(config.git.repository_mappings@), commit.repository_url),
        commit.committer_name,
    )
    &&& payload@ == spec_encode(commit)
}

/// The outcome rejects the request with this status.
pub open spec fn rejects_with(r: WebhookOutcome, status: u16) -> bool {
    r matches WebhookOutcome::Reject { status: s } && s == status
}

/// Resolves one webhook request. With the header present the bearer token
/// decides; a malformed header and an unknown token are both rejected
/// with 401, indistinguishably. With the header absent, the request is
/// rejected with 401 when authentication is required and otherwise
/// publishes as `anonymous`.
pub fn plan_webhook(
    config: &Config,
    auth: &AuthManager,
    auth_header: Option<&String>,
    commit_info: &CommitInfo,
) -> (r: WebhookOutcome)
    ensures
        auth_header is None && auth.auth_required() ==> rejects_with(r, 401),
        auth_header is None && !auth.auth_required() ==> publishes_as(
            r,
            config,
            commit_info@,
            "anonymous"@,
        ),
        auth_header matches Some(h) ==> {
            &&& !auth.auth_required() ==> publishes_as(r, config, commit_info@, "anonymous"@)
            &&& auth.auth_required() && !spec_has_prefix(h@, bearer_prefix()) ==> rejects_with(
                r,
                401,
            )
            &&& auth.auth_required() && spec_has_prefix(h@, bearer_prefix())
                && !auth.token_map().contains_key(h@.skip(7)) ==> rejects_with(r, 401)
            &&& auth.auth_required() && spec_has_prefix(h@, bearer_prefix())
                && auth.token_map().contains_key(h@.skip(7)) ==> publishes_as(
                r,
                config,
                commit_info@,
                auth.token_map()[h@.skip(7)],
            )
        },
{
    match auth_header {
        Some(h) => {
            match auth.validate_bearer_token(h.as_str()) {
                Ok(Some(identity)) => {
                    let (topic, payload) = prepare_publish(
                        config,
                        commit_info,
                        Some(identity.as_str()),
                    );
                    WebhookOutcome::Publish { topic, payload }
                },
                Ok(None) => WebhookOutcome::Reject { status: 401 },
                Err(_) => WebhookOutcome::Reject { status: 401 },
            }
        },
        None => {
            if auth.requires_auth() {
                WebhookOutcome::Reject { status: 401 }
            } else {
                let (topic, payload) = prepare_publish(config, commit_info, Some("anonymous"));
                WebhookOutcome::Publish { topic, payload }
            }
        },
    }
}

/// The response status after the publish attempt: success yields 200,
/// a transport rejection yields 500 and is not retried here.
pub fn publish_status(publish_ok: bool) -> (r: u16)
    ensures
        publish_ok ==> r == 200,
        !publish_ok ==> r == 500,
{
    if publish_ok {
        200
    } else {
        500
    }
}

} // verus!
