//! A deployment: the templates that servers are started from, and the
//! lobbies and servers it runs.

use crate::lobby::VuLobby;
use crate::server::VuServer;
use vstd::prelude::*;

verus! {

/// What a deployment holds of its templates.
pub struct DeployView {
    pub startup_template: Seq<char>,
    pub modlist_template: Seq<char>,
    pub banlist_template: Seq<char>,
    pub lobbies: nat,
    pub servers: nat,
}

/// The templates, lobbies and servers of one deployment.
#[derive(Debug)]
pub struct VuDeploy {
    startup_template: String,
    modlist_template: String,
    banlist_template: String,
    lobbies: Vec<VuLobby>,
    servers: Vec<VuServer>,
}

impl View for VuDeploy {
    type V = DeployView;

    closed spec fn view(&self) -> DeployView {
        DeployView {
            startup_template: self.startup_template@,
            modlist_template: self.modlist_template@,
            banlist_template: self.banlist_template@,
            lobbies: self.lobbies@.len(),
            servers: self.servers@.len(),
        }
    }
}

impl VuDeploy {
    /// A deployment with empty templates, without lobbies and servers.
    pub fn new() -> (deploy: VuDeploy)
        ensures
            deploy@ == (DeployView {
                startup_template: Seq::empty(),
                modlist_template: Seq::empty(),
                banlist_template: Seq::empty(),
                lobbies: 0,
                servers: 0,
            }),
    {
        VuDeploy {
            startup_template: String::new(),
            modlist_template: String::new(),
            banlist_template: String::new(),
            lobbies: Vec::new(),
            servers: Vec::new(),
        }
    }

    /// Whether a template can be loaded from `source`, a path or an address:
    /// not from the empty one.
    pub fn is_source(source: &String) -> (usable: bool)
        ensures
            usable == (source@.len() > 0),
    {
        !source.as_str().is_empty()
    }

    /// Takes what was fetched as the ban list template. Where nothing could
    /// be fetched the template stays, and the answer is `false`.
    pub fn accept_banlist_template(&mut self, fetched: Option<String>) -> (accepted: bool)
        ensures
            accepted == fetched is Some,
            final(self)@ == match fetched {
                Some(template) => DeployView { banlist_template: template@, ..old(self)@ },
                None => old(self)@,
            },
    {
        match fetched {
            Some(template) => {
                self.banlist_template = template;
                true
            },
            None => false,
        }
    }

    /// Takes what was fetched as the startup template. Where nothing could
    /// be fetched the template stays, and the answer is `false`.
    pub fn accept_startup_template(&mut self, fetched: Option<String>) -> (accepted: bool)
        ensures
            accepted == fetched is Some,
            final(self)@ == match fetched {
                Some(template) => DeployView { startup_template: template@, ..old(self)@ },
                None => old(self)@,
            },
    {
        match fetched {
            Some(template) => {
                self.startup_template = template;
                true
            },
            None => false,
        }
    }

    /// The ban list template.
    pub fn banlist_template(&self) -> (template: &String)
        ensures
            template@ == self@.banlist_template,
    {
        &self.banlist_template
    }

    /// The startup template.
    pub fn startup_template(&self) -> (template: &String)
        ensures
            template@ == self@.startup_template,
    {
        &self.startup_template
    }
}

} // verus!
