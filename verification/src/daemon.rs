//! How the daemon answers a request: which operation a request asks for,
//! and the response that reports what came of it.
use vstd::prelude::*;

use crate::ipc::{ConnectionStatus, PortpalRequest, PortpalResponse, RequestAction, ServiceSnapshot};
use crate::state::{require_name, state_error_message, StateError, StateErrorView};
use crate::text::is_blank;

verus! {

/// The operation a request asks for.
pub enum RequestPlan {
    List,
    Status { name: String },
    Refresh { name: String },
    Stop { name: String },
    Reload,
    ConfigPath,
}

/// The name a request carries, when it is present and not blank.
pub open spec fn named(name: Option<String>) -> Option<Seq<char>> {
    match name {
        Some(n) => if is_blank(n@) {
            None
        } else {
            Some(n@)
        },
        None => None,
    }
}

/// Reads a request: the actions about one connection need its name, and are
/// refused without one.
pub fn plan_request(request: PortpalRequest) -> (res: Result<RequestPlan, StateError>)
    ensures
        match request.action {
            RequestAction::List => res matches Ok(RequestPlan::List),
            RequestAction::Reload => res matches Ok(RequestPlan::Reload),
            RequestAction::ConfigPath => res matches Ok(RequestPlan::ConfigPath),
            RequestAction::Status => match named(request.name) {
                Some(n) => res matches Ok(RequestPlan::Status { name }) && name@ == n,
                None => res matches Err(e) && e@ == StateErrorView::NameRequired("status"@),
            },
            RequestAction::Refresh => match named(request.name) {
                Some(n) => res matches Ok(RequestPlan::Refresh { name }) && name@ == n,
                None => res matches Err(e) && e@ == StateErrorView::NameRequired("refresh"@),
            },
            RequestAction::Stop => match named(request.name) {
                Some(n) => res matches Ok(RequestPlan::Stop { name }) && name@ == n,
                None => res matches Err(e) && e@ == StateErrorView::NameRequired("stop"@),
            },
        },
{
    match request.action {
        RequestAction::List => Ok(RequestPlan::List),
        RequestAction::Status => match require_name(request.name, "status") {
            Ok(name) => Ok(RequestPlan::Status { name }),
            Err(e) => Err(e),
        },
        RequestAction::Refresh => match require_name(request.name, "refresh") {
            Ok(name) => Ok(RequestPlan::Refresh { name }),
            Err(e) => Err(e),
        },
        RequestAction::Stop => match require_name(request.name, "stop") {
            Ok(name) => Ok(RequestPlan::Stop { name }),
            Err(e) => Err(e),
        },
        RequestAction::Reload => Ok(RequestPlan::Reload),
        RequestAction::ConfigPath => Ok(RequestPlan::ConfigPath),
    }
}

/// What came of serving a request.
pub enum Outcome {
    Listed { snapshot: ServiceSnapshot },
    Status { status: ConnectionStatus },
    Refreshed { name: String, status: ConnectionStatus },
    Stopped { name: String, status: ConnectionStatus },
    Reloaded { snapshot: ServiceSnapshot },
    ConfigPath { path: String },
    Failed { message: String },
}

/// The response that reports an outcome: a failure with its message, a
/// refresh, stop or reload with a message saying so, and the snapshot,
/// status or path that the request asked for.
pub open spec fn response_matches(outcome: Outcome, r: PortpalResponse) -> bool {
    match outcome {
        Outcome::Listed { snapshot } => r.ok && r.message is None && r.snapshot == Some(snapshot)
            && r.status is None && r.config_path is None,
        Outcome::Status { status } => r.ok && r.message is None && r.snapshot is None
            && r.status == Some(status) && r.config_path is None,
        Outcome::Refreshed { name, status } => r.ok && r.message is Some && r.message->0@
            == "refreshed "@ + name@ && r.snapshot is None && r.status == Some(status)
            && r.config_path is None,
        Outcome::Stopped { name, status } => r.ok && r.message is Some && r.message->0@
            == "stopped "@ + name@ && r.snapshot is None && r.status == Some(status)
            && r.config_path is None,
        Outcome::Reloaded { snapshot } => r.ok && r.message is Some && r.message->0@
            == "reloaded config"@ && r.snapshot == Some(snapshot) && r.status is None
            && r.config_path is None,
        Outcome::ConfigPath { path } => r.ok && r.message is None && r.snapshot is None
            && r.status is None && r.config_path == Some(path),
        Outcome::Failed { message } => !r.ok && r.message == Some(message) && r.snapshot is None
            && r.status is None && r.config_path is None,
    }
}

/// The response that reports an outcome.
pub fn respond(outcome: Outcome) -> (res: PortpalResponse)
    ensures
        response_matches(outcome, res),
{
    match outcome {
        Outcome::Listed { snapshot } => PortpalResponse {
            ok: true,
            message: None,
            snapshot: Some(snapshot),
            status: None,
            config_path: None,
        },
        Outcome::Status { status } => PortpalResponse {
            ok: true,
            message: None,
            snapshot: None,
            status: Some(status),
            config_path: None,
        },
        Outcome::Refreshed { name, status } => {
            let mut m = String::from_str("refreshed ");
            m.append(name.as_str());
            PortpalResponse {
                ok: true,
                message: Some(m),
                snapshot: None,
                status: Some(status),
                config_path: None,
            }
        },
        Outcome::Stopped { name, status } => {
            let mut m = String::from_str("stopped ");
            m.append(name.as_str());
            PortpalResponse {
                ok: true,
                message: Some(m),
                snapshot: None,
                status: Some(status),
                config_path: None,
            }
        },
        Outcome::Reloaded { snapshot } => PortpalResponse {
            ok: true,
            message: Some(String::from_str("reloaded config")),
            snapshot: Some(snapshot),
            status: None,
            config_path: None,
        },
        Outcome::ConfigPath { path } => PortpalResponse {
            ok: true,
            message: None,
            snapshot: None,
            status: None,
            config_path: Some(path),
        },
        Outcome::Failed { message } => PortpalResponse {
            ok: false,
            message: Some(message),
            snapshot: None,
            status: None,
            config_path: None,
        },
    }
}

/// The outcome of a status request for `name`, given the status found: an
/// unknown name is answered with "unknown connection: {name}".
pub fn status_answer(name: String, status: Option<ConnectionStatus>) -> (res: Outcome)
    ensures
        match status {
            Some(st) => res == (Outcome::Status { status: st }),
            None => res matches Outcome::Failed { message } && message@
                == state_error_message(StateErrorView::UnknownConnection(name@)),
        },
{
    match status {
        Some(status) => Outcome::Status { status },
        None => Outcome::Failed { message: StateError::UnknownConnection { name }.message() },
    }
}

} // verus!
