//! The bridge between the embedded page and the native side.
//!
//! The page asks for settings reads and updates, for the signaling channel
//! to be brought up, and for a session with a peer to be started. What each
//! request decides is here; the asynchronous work each directive names is
//! carried out by the embedding application.
use vstd::prelude::*;

use crate::settings::{
    rtc_settings_eq, settings_eq, PartialSettings, RtcSettings, Settings, SettingsManager,
};

verus! {

/// A connectivity server the page may configure.
#[derive(Debug)]
pub struct IceServer {
    pub credential: Option<String>,
    pub username: Option<String>,
    pub urls: Vec<String>,
}

/// What the page asks of the native side.
#[derive(Debug)]
pub enum Request {
    /// Apply this partial settings update.
    SetSettings(PartialSettings),
    /// Read the current settings.
    GetSettings,
    /// Bring the signaling channel up.
    ConnectSignaling,
    /// Start a session with this peer.
    Start { id: String },
}

/// What the native side answers the page.
#[derive(Debug, PartialEq, Eq)]
pub enum Response {
    GetSettings(Settings),
}

/// What the embedding application must do for a request, beyond the
/// settings change already applied.
#[derive(Debug, PartialEq, Eq)]
pub enum BridgeDirective {
    /// Nothing further; the request is done.
    Done,
    /// Hand this response back to the page.
    Reply(Response),
    /// Connect the signaling client with the current settings.
    ConnectSignaling,
    /// Build the engine from these connectivity settings and offer a
    /// session to this peer.
    StartSession { id: String, rtc: RtcSettings },
}

/// Decides one request from the page: settings updates are applied here;
/// reads answer the current value; connecting and starting a session hand
/// the embedding a directive with everything it needs.
pub fn on_request(mgr: &mut SettingsManager, req: Request) -> (d: BridgeDirective)
    ensures
        match req {
            Request::SetSettings(p) => {
                &&& d is Done
                &&& final(mgr).spec_settings().signaling.server == (match p.signaling.server {
                    Option::Some(v) => v,
                    Option::None => old(mgr).spec_settings().signaling.server,
                })
                &&& final(mgr).spec_settings().signaling.id == (match p.signaling.id {
                    Option::Some(v) => v,
                    Option::None => old(mgr).spec_settings().signaling.id,
                })
                &&& final(mgr).spec_settings().signaling.secret == (match p.signaling.secret {
                    Option::Some(v) => v,
                    Option::None => old(mgr).spec_settings().signaling.secret,
                })
                &&& final(mgr).spec_settings().rtc.credential == (match p.rtc.credential {
                    Option::Some(v) => v,
                    Option::None => old(mgr).spec_settings().rtc.credential,
                })
                &&& final(mgr).spec_settings().rtc.username == (match p.rtc.username {
                    Option::Some(v) => v,
                    Option::None => old(mgr).spec_settings().rtc.username,
                })
                &&& final(mgr).spec_settings().rtc.urls == (match p.rtc.urls {
                    Option::Some(v) => v,
                    Option::None => old(mgr).spec_settings().rtc.urls,
                })
            },
            Request::GetSettings => {
                &&& *final(mgr) == *old(mgr)
                &&& d matches BridgeDirective::Reply(Response::GetSettings(s)) && settings_eq(
                    s,
                    old(mgr).spec_settings(),
                )
            },
            Request::ConnectSignaling => *final(mgr) == *old(mgr) && d is ConnectSignaling,
            Request::Start { id } => {
                &&& *final(mgr) == *old(mgr)
                &&& d matches BridgeDirective::StartSession { id: did, rtc } && did == id
                    && rtc_settings_eq(rtc, old(mgr).spec_settings().rtc)
            },
        },
{
    match req {
        Request::SetSettings(p) => {
            mgr.set(p);
            BridgeDirective::Done
        },
        Request::GetSettings => BridgeDirective::Reply(
            Response::GetSettings(mgr.get().duplicate()),
        ),
        Request::ConnectSignaling => BridgeDirective::ConnectSignaling,
        Request::Start { id } => BridgeDirective::StartSession {
            id,
            rtc: mgr.get().rtc.duplicate(),
        },
    }
}

} // verus!
