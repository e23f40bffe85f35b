//! Application settings and their partial updates.
//!
//! A partial settings value carries just the fields to change; applying it
//! leaves every absent field as it was. The apply functions are written out
//! per settings type, one field at a time, so that what an update does is
//! exactly what their contracts say.
use vstd::prelude::*;

verus! {

/// How to reach the relay: its address and this peer's credentials.
#[derive(Debug, PartialEq, Eq)]
#[verifier::ext_equal]
pub struct SignalingSettings {
    pub server: String,
    pub id: String,
    pub secret: String,
}

/// A partial update of `SignalingSettings`.
#[derive(Debug)]
pub struct PartialSignalingSettings {
    pub server: Option<String>,
    pub id: Option<String>,
    pub secret: Option<String>,
}

/// The engine's connectivity servers and credentials.
#[derive(Debug, PartialEq, Eq)]
#[verifier::ext_equal]
pub struct RtcSettings {
    pub credential: Option<String>,
    pub username: Option<String>,
    pub urls: Option<Vec<String>>,
}

/// A partial update of `RtcSettings`.
#[derive(Debug)]
pub struct PartialRtcSettings {
    pub credential: Option<Option<String>>,
    pub username: Option<Option<String>>,
    pub urls: Option<Option<Vec<String>>>,
}

/// Everything the application configures.
#[derive(Debug, PartialEq, Eq)]
#[verifier::ext_equal]
pub struct Settings {
    pub signaling: SignalingSettings,
    pub rtc: RtcSettings,
}

/// A partial update of `Settings`.
#[derive(Debug)]
pub struct PartialSettings {
    pub signaling: PartialSignalingSettings,
    pub rtc: PartialRtcSettings,
}

/// The texts of an optional list of strings; equality of two `urls` fields.
pub open spec fn urls_view(u: Option<Vec<String>>) -> Option<Seq<Seq<char>>> {
    match u {
        Option::Some(v) => Option::Some(v@.map_values(|s: String| s@)),
        Option::None => Option::None,
    }
}

/// Equality of two `RtcSettings` up to the texts they hold.
pub open spec fn rtc_settings_eq(a: RtcSettings, b: RtcSettings) -> bool {
    &&& a.credential == b.credential
    &&& a.username == b.username
    &&& urls_view(a.urls) == urls_view(b.urls)
}

/// Equality of two `Settings` up to the texts they hold.
pub open spec fn settings_eq(a: Settings, b: Settings) -> bool {
    a.signaling == b.signaling && rtc_settings_eq(a.rtc, b.rtc)
}

impl SignalingSettings {
    /// Applies a partial update: each present field replaces its own, each
    /// absent field changes nothing.
    pub fn from_partial(&mut self, p: PartialSignalingSettings)
        ensures
            final(self).server == (match p.server {
                Option::Some(v) => v,
                Option::None => old(self).server,
            }),
            final(self).id == (match p.id {
                Option::Some(v) => v,
                Option::None => old(self).id,
            }),
            final(self).secret == (match p.secret {
                Option::Some(v) => v,
                Option::None => old(self).secret,
            }),
    {
        if let Option::Some(v) = p.server {
            self.server = v;
        }
        if let Option::Some(v) = p.id {
            self.id = v;
        }
        if let Option::Some(v) = p.secret {
            self.secret = v;
        }
    }

    /// A copy, equal to this value.
    pub fn duplicate(&self) -> (r: SignalingSettings)
        ensures
            r == *self,
    {
        let r = SignalingSettings {
            server: self.server.clone(),
            id: self.id.clone(),
            secret: self.secret.clone(),
        };
        proof {
            assert(r =~= *self);
        }
        r
    }
}

impl RtcSettings {
    /// Applies a partial update: each present field replaces its own, each
    /// absent field changes nothing.
    pub fn from_partial(&mut self, p: PartialRtcSettings)
        ensures
            final(self).credential == (match p.credential {
                Option::Some(v) => v,
                Option::None => old(self).credential,
            }),
            final(self).username == (match p.username {
                Option::Some(v) => v,
                Option::None => old(self).username,
            }),
            final(self).urls == (match p.urls {
                Option::Some(v) => v,
                Option::None => old(self).urls,
            }),
    {
        if let Option::Some(v) = p.credential {
            self.credential = v;
        }
        if let Option::Some(v) = p.username {
            self.username = v;
        }
        if let Option::Some(v) = p.urls {
            self.urls = v;
        }
    }

    /// A copy, equal to this value up to the texts it holds.
    pub fn duplicate(&self) -> (r: RtcSettings)
        ensures
            rtc_settings_eq(r, *self),
    {
        let credential = match &self.credential {
            Option::Some(s) => Option::Some(s.clone()),
            Option::None => Option::None,
        };
        let username = match &self.username {
            Option::Some(s) => Option::Some(s.clone()),
            Option::None => Option::None,
        };
        let urls = match &self.urls {
            Option::Some(v) => Option::Some(clone_strings(v)),
            Option::None => Option::None,
        };
        let r = RtcSettings { credential, username, urls };
        proof {
            let ghost ru = r.urls;
            let ghost su = self.urls;
            match (ru, su) {
                (Option::Some(a), Option::Some(b)) => {
                    assert(a@.map_values(|s: String| s@) =~= b@.map_values(|s: String| s@));
                },
                _ => {},
            }
        }
        r
    }
}

/// Copies a list of strings, text for text.
fn clone_strings(v: &Vec<String>) -> (r: Vec<String>)
    ensures
        r@.len() == v@.len(),
        forall|i: int| 0 <= i < v@.len() ==> #[trigger] r@[i] == v@[i],
{
    let mut r: Vec<String> = Vec::new();
    let mut i: usize = 0;
    while i < v.len()
        invariant
            i <= v@.len(),
            r@.len() == i,
            forall|j: int| 0 <= j < i ==> #[trigger] r@[j] == v@[j],
        decreases v@.len() - i,
    {
        r.push(v[i].clone());
        i = i + 1;
    }
    r
}

impl Settings {
    /// Applies a partial update to both groups, field by field.
    pub fn from_partial(&mut self, p: PartialSettings)
        ensures
            final(self).signaling.server == (match p.signaling.server {
                Option::Some(v) => v,
                Option::None => old(self).signaling.server,
            }),
            final(self).signaling.id == (match p.signaling.id {
                Option::Some(v) => v,
                Option::None => old(self).signaling.id,
            }),
            final(self).signaling.secret == (match p.signaling.secret {
                Option::Some(v) => v,
                Option::None => old(self).signaling.secret,
            }),
            final(self).rtc.credential == (match p.rtc.credential {
                Option::Some(v) => v,
                Option::None => old(self).rtc.credential,
            }),
            final(self).rtc.username == (match p.rtc.username {
                Option::Some(v) => v,
                Option::None => old(self).rtc.username,
            }),
            final(self).rtc.urls == (match p.rtc.urls {
                Option::Some(v) => v,
                Option::None => old(self).rtc.urls,
            }),
    {
        let PartialSettings { signaling, rtc } = p;
        self.signaling.from_partial(signaling);
        self.rtc.from_partial(rtc);
    }

    /// A copy, equal to this value up to the texts it holds.
    pub fn duplicate(&self) -> (r: Settings)
        ensures
            settings_eq(r, *self),
    {
        Settings { signaling: self.signaling.duplicate(), rtc: self.rtc.duplicate() }
    }
}

/// Owns the settings and serializes updates to them; readers get the
/// current value.
pub struct SettingsManager {
    settings: Settings,
}

impl SettingsManager {
    /// The current settings value.
    pub closed spec fn spec_settings(&self) -> Settings {
        self.settings
    }

    /// A manager holding empty settings: empty texts, nothing optional set.
    pub fn new() -> (m: SettingsManager)
        ensures
            m.spec_settings().signaling.server@ == Seq::<char>::empty(),
            m.spec_settings().signaling.id@ == Seq::<char>::empty(),
            m.spec_settings().signaling.secret@ == Seq::<char>::empty(),
            m.spec_settings().rtc.credential is None,
            m.spec_settings().rtc.username is None,
            m.spec_settings().rtc.urls is None,
    {
        SettingsManager {
            settings: Settings {
                signaling: SignalingSettings {
                    server: String::new(),
                    id: String::new(),
                    secret: String::new(),
                },
                rtc: RtcSettings {
                    credential: Option::None,
                    username: Option::None,
                    urls: Option::None,
                },
            },
        }
    }

    /// Reads the current settings.
    pub fn get(&self) -> (r: &Settings)
        ensures
            *r == self.spec_settings(),
    {
        &self.settings
    }

    /// Applies a partial update to the current settings.
    pub fn set(&mut self, p: PartialSettings)
        ensures
            final(self).spec_settings().signaling.server == (match p.signaling.server {
                Option::Some(v) => v,
                Option::None => old(self).spec_settings().signaling.server,
            }),
            final(self).spec_settings().signaling.id == (match p.signaling.id {
                Option::Some(v) => v,
                Option::None => old(self).spec_settings().signaling.id,
            }),
            final(self).spec_settings().signaling.secret == (match p.signaling.secret {
                Option::Some(v) => v,
                Option::None => old(self).spec_settings().signaling.secret,
            }),
            final(self).spec_settings().rtc.credential == (match p.rtc.credential {
                Option::Some(v) => v,
                Option::None => old(self).spec_settings().rtc.credential,
            }),
            final(self).spec_settings().rtc.username == (match p.rtc.username {
                Option::Some(v) => v,
                Option::None => old(self).spec_settings().rtc.username,
            }),
            final(self).spec_settings().rtc.urls == (match p.rtc.urls {
                Option::Some(v) => v,
                Option::None => old(self).spec_settings().rtc.urls,
            }),
    {
        self.settings.from_partial(p);
    }
}

} // verus!
