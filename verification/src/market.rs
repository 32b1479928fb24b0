//! The agent marketplace: install replies and the manifest to publish.
use vstd::prelude::*;

use crate::config::{get_str, lookup_str, YamlNode};
use crate::text::opt_view;
use crate::text::{owned, push_str, str_eq};

verus! {

/// An agent found in the marketplace.
pub struct MarketAgent {
    pub agent_id: String,
    pub name: String,
    pub version: String,
    pub description: String,
    pub author: String,
    pub installed: bool,
}

/// The reply to an install request.
pub struct MarketInstallResult {
    pub status: String,
    pub agent_id: Option<String>,
    pub installed_version: Option<String>,
    pub message: Option<String>,
    pub install_path: Option<String>,
}

/// What a successful install reports.
pub struct InstallReport {
    /// The version installed, or the package asked for when the reply names none.
    pub installed: String,
    pub agent_id: Option<String>,
    pub install_path: Option<String>,
}

/// Why a market operation failed.
pub enum MarketError {
    /// The install was refused; the package and the reason given.
    InstallFailed { package: String, reason: String },
    /// The agent manifest has no name.
    MissingName,
}

impl MarketError {
    /// The error text that the console reports.
    pub fn message(&self) -> (r: String)
        ensures
            r@ == match self {
                MarketError::InstallFailed { package, reason } => "Failed to install '"@
                    + package@ + "': "@ + reason@,
                MarketError::MissingName => "agents/main.agent.yaml is missing the 'name' field"@,
            },
    {
        match self {
            MarketError::InstallFailed { package, reason } => {
                let mut r = owned("Failed to install '");
                push_str(&mut r, package.as_str());
                push_str(&mut r, "': ");
                push_str(&mut r, reason.as_str());
                r
            },
            MarketError::MissingName => owned("agents/main.agent.yaml is missing the 'name' field"),
        }
    }
}

/// Interprets the reply to installing `package`: it succeeded exactly when
/// the status is `installed`.
pub fn install_outcome(result: MarketInstallResult, package: &str) -> (r: Result<
    InstallReport,
    MarketError,
>)
    ensures
        result.status@ == "installed"@ ==> (r matches Ok(rep) && rep.installed@ == match result.installed_version {
            Some(v) => v@,
            None => package@,
        } && opt_view(rep.agent_id) == opt_view(result.agent_id) && opt_view(rep.install_path)
            == opt_view(result.install_path)),
        result.status@ != "installed"@ ==> (r matches Err(
            MarketError::InstallFailed { package: p, reason },
        ) && p@ == package@ && reason@ == match result.message {
            Some(m) => m@,
            None => "unknown error"@,
        }),
{
    if str_eq(result.status.as_str(), "installed") {
        let installed = match result.installed_version {
            Some(v) => v,
            None => owned(package),
        };
        Ok(InstallReport { installed, agent_id: result.agent_id, install_path: result.install_path })
    } else {
        let reason = match result.message {
            Some(m) => m,
            None => owned("unknown error"),
        };
        Err(MarketError::InstallFailed { package: owned(package), reason })
    }
}

/// A string field of the manifest, or empty text where it is missing or not a string.
pub open spec fn manifest_text<L>(manifest: YamlNode<L>, key: Seq<char>) -> Seq<char> {
    match lookup_str(manifest, key) {
        Some(s) => s,
        None => Seq::empty(),
    }
}

/// The agent id and version to publish, read from the agent manifest: its
/// `name` and `version` strings. Fails when the name is missing or empty.
pub fn publish_target<L>(manifest: &YamlNode<L>) -> (r: Result<(String, String), MarketError>)
    ensures
        manifest_text(*manifest, "name"@).len() == 0 ==> r matches Err(MarketError::MissingName),
        manifest_text(*manifest, "name"@).len() > 0 ==> (r matches Ok((id, version)) && id@
            == manifest_text(*manifest, "name"@) && version@ == manifest_text(
            *manifest,
            "version"@,
        )),
{
    let id = match get_str(manifest, "name") {
        Some(s) => s,
        None => String::new(),
    };
    let version = match get_str(manifest, "version") {
        Some(s) => s,
        None => String::new(),
    };
    if id.as_str().is_empty() {
        Err(MarketError::MissingName)
    } else {
        Ok((id, version))
    }
}

} // verus!
