//! Settings of the watcher, and the connection profiles of a client.
use vstd::prelude::*;
use crate::text::{contains_str, decimal_of, has_substring, push_decimal};
use crate::translate::Language;

verus! {

/// The watcher's settings, read once at start-up.
#[derive(Clone, Debug)]
pub struct WatcherConfig {
    pub ws_host: String,
    pub ws_port: u16,
    pub fivem_port: u16,
    pub resources_path: String,
    pub api_key: String,
}

impl Default for WatcherConfig {
    fn default() -> (r: Self)
        ensures
            r.ws_host@ == "localhost"@,
            r.ws_port == 3091,
            r.fivem_port == 3090,
            r.resources_path@.len() == 0,
            r.api_key@.len() == 0,
    {
        WatcherConfig {
            ws_host: String::from_str("localhost"),
            ws_port: 3091,
            fivem_port: 3090,
            resources_path: String::new(),
            api_key: String::new(),
        }
    }
}

impl WatcherConfig {
    /// The address clients connect to: `ws://<host>:<port>`.
    pub fn ws_url(&self) -> (r: String)
        ensures
            r@ == "ws://"@ + self.ws_host@ + ":"@ + decimal_of(self.ws_port as nat),
    {
        let mut out = String::from_str("ws://");
        out.append(self.ws_host.as_str());
        out.append(":");
        push_decimal(&mut out, self.ws_port as u64);
        out
    }

    /// The address of the runtime process on this machine.
    pub fn runtime_url(&self) -> (r: String)
        ensures
            r@ == "ws://localhost:"@ + decimal_of(self.fivem_port as nat),
    {
        let mut out = String::from_str("ws://localhost:");
        push_decimal(&mut out, self.fivem_port as u64);
        out
    }
}

/// A server a client can connect to.
#[derive(Clone, Debug)]
pub struct ConnectionProfile {
    pub name: String,
    pub ws_url: String,
    pub api_key: String,
    pub is_local: bool,
}

/// The address names this machine.
pub open spec fn is_local_url(url: Seq<char>) -> bool {
    has_substring(url, "localhost"@) || has_substring(url, "127.0.0.1"@)
}

/// A profile as (name, address, api key, is local).
pub type ProfileModel = (Seq<char>, Seq<char>, Seq<char>, bool);

impl ConnectionProfile {
    pub open spec fn view(&self) -> ProfileModel {
        (self.name@, self.ws_url@, self.api_key@, self.is_local)
    }

    fn copied(&self) -> (r: Self)
        ensures
            r@ == self@,
    {
        ConnectionProfile {
            name: self.name.clone(),
            ws_url: self.ws_url.clone(),
            api_key: self.api_key.clone(),
            is_local: self.is_local,
        }
    }

    /// A profile; it is local when its address names this machine.
    pub fn new(name: String, ws_url: String, api_key: String) -> (r: Self)
        ensures
            r@ == (name@, ws_url@, api_key@, is_local_url(ws_url@)),
    {
        let is_local = contains_str(ws_url.as_str(), "localhost") || contains_str(ws_url.as_str(), "127.0.0.1");
        ConnectionProfile { name, ws_url, api_key, is_local }
    }
}

pub open spec fn profiles_view(ps: Seq<ConnectionProfile>) -> Seq<ProfileModel> {
    ps.map_values(|p: ConnectionProfile| p@)
}

/// The index of the first profile named `name`, if any.
pub open spec fn first_named(ps: Seq<ProfileModel>, name: Seq<char>) -> Option<int> {
    if exists|i: int| 0 <= i < ps.len() && (#[trigger] ps[i]).0 == name {
        Some(choose|i: int| 0 <= i < ps.len() && (#[trigger] ps[i]).0 == name && forall|j: int| 0 <= j < i ==> (#[trigger] ps[j]).0 != name)
    } else {
        None
    }
}

/// The profiles not named `name`, in order.
pub open spec fn without_name(ps: Seq<ProfileModel>, name: Seq<char>) -> Seq<ProfileModel>
    decreases ps.len(),
{
    if ps.len() == 0 {
        ps
    } else if ps.last().0 == name {
        without_name(ps.drop_last(), name)
    } else {
        without_name(ps.drop_last(), name).push(ps.last())
    }
}

/// A client's settings.
#[derive(Clone, Debug)]
pub struct ServerConfig {
    pub resources_path: Option<String>,
    pub current_profile: Option<String>,
    pub profiles: Vec<ConnectionProfile>,
    pub language: Language,
    pub theme: String,
}

impl Default for ServerConfig {
    fn default() -> (r: Self)
        ensures
            r.resources_path is None,
            r.current_profile is None,
            profiles_view(r.profiles@) == seq![("localhost"@, "ws://localhost:3090"@, Seq::<char>::empty(), true)],
            r.language == Language::English,
            r.theme@ == "dark"@,
    {
        let local = ConnectionProfile {
            name: String::from_str("localhost"),
            ws_url: String::from_str("ws://localhost:3090"),
            api_key: String::new(),
            is_local: true,
        };
        let profiles = vec![local];
        assert(profiles_view(profiles@) =~= seq![("localhost"@, "ws://localhost:3090"@, Seq::<char>::empty(), true)]);
        ServerConfig {
            resources_path: None,
            current_profile: None,
            profiles,
            language: Language::English,
            theme: String::from_str("dark"),
        }
    }
}

impl ServerConfig {
    /// Appends a profile built by `ConnectionProfile::new`.
    pub fn add_profile(&mut self, name: String, ws_url: String, api_key: String)
        ensures
            profiles_view(final(self).profiles@) == profiles_view(old(self).profiles@).push(
                (name@, ws_url@, api_key@, is_local_url(ws_url@)),
            ),
            final(self).current_profile == old(self).current_profile,
            final(self).resources_path == old(self).resources_path,
            final(self).language == old(self).language,
            final(self).theme == old(self).theme,
    {
        let p = ConnectionProfile::new(name, ws_url, api_key);
        self.profiles.push(p);
        assert(profiles_view(self.profiles@) =~= profiles_view(old(self).profiles@).push(p@));
    }

    fn find_profile(&self, name: &String) -> (r: Option<usize>)
        ensures
            match r {
                Some(i) => i < self.profiles.len() && first_named(profiles_view(self.profiles@), name@) == Some(i as int),
                None => first_named(profiles_view(self.profiles@), name@) is None,
            },
    {
        let ghost ps = profiles_view(self.profiles@);
        let mut i: usize = 0;
        while i < self.profiles.len()
            invariant
                i <= self.profiles.len(),
                ps == profiles_view(self.profiles@),
                forall|j: int| 0 <= j < i ==> (#[trigger] ps[j]).0 != name@,
            decreases self.profiles.len() - i,
        {
            if self.profiles[i].name == *name {
                assert(ps[i as int].0 == name@);
                let ghost c = choose|k: int| 0 <= k < ps.len() && (#[trigger] ps[k]).0 == name@ && forall|j: int| 0 <= j < k ==> (#[trigger] ps[j]).0 != name@;
                assert(c == i) by {
                    if c < i {
                        assert(ps[c].0 != name@);
                    } else if c > i {
                        assert(ps[i as int].0 != name@);
                    }
                }
                return Some(i);
            }
            i = i + 1;
        }
        None
    }

    /// Removes every profile named `name`, unless the first of them is local.
    pub fn remove_profile(&mut self, name: &String)
        ensures
            profiles_view(final(self).profiles@) == match first_named(profiles_view(old(self).profiles@), name@) {
                Some(i) => if profiles_view(old(self).profiles@)[i].3 {
                    profiles_view(old(self).profiles@)
                } else {
                    without_name(profiles_view(old(self).profiles@), name@)
                },
                None => without_name(profiles_view(old(self).profiles@), name@),
            },
            final(self).current_profile == old(self).current_profile,
            final(self).resources_path == old(self).resources_path,
            final(self).language == old(self).language,
            final(self).theme == old(self).theme,
    {
        let ghost ps = profiles_view(self.profiles@);
        match self.find_profile(name) {
            Some(i) => {
                if self.profiles[i].is_local {
                    return;
                }
            },
            None => {},
        }
        let mut kept: Vec<ConnectionProfile> = Vec::new();
        let mut k: usize = 0;
        assert(ps.take(0) =~= Seq::<ProfileModel>::empty());
        while k < self.profiles.len()
            invariant
                k <= self.profiles.len(),
                ps == profiles_view(self.profiles@),
                profiles_view(kept@) == without_name(ps.take(k as int), name@),
            decreases self.profiles.len() - k,
        {
            assert(ps.take(k + 1).drop_last() =~= ps.take(k as int));
            if self.profiles[k].name != *name {
                kept.push(self.profiles[k].copied());
                assert(profiles_view(kept@) =~= without_name(ps.take(k as int), name@).push(ps[k as int]));
            }
            k = k + 1;
        }
        assert(ps.take(self.profiles.len() as int) =~= ps);
        self.profiles = kept;
    }

    /// The profile named by `current_profile`: the first with that name.
    pub fn get_current_profile(&self) -> (r: Option<&ConnectionProfile>)
        ensures
            match r {
                Some(p) => self.current_profile matches Some(c) && first_named(profiles_view(self.profiles@), c@) matches Some(i)
                    && p@ == profiles_view(self.profiles@)[i],
                None => self.current_profile matches Some(c) ==> first_named(profiles_view(self.profiles@), c@) is None,
            },
    {
        match &self.current_profile {
            None => None,
            Some(c) => match self.find_profile(c) {
                Some(i) => Some(&self.profiles[i]),
                None => None,
            },
        }
    }
}

} // verus!
