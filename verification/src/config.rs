//! The configuration of the service: where it listens, and the command
//! template of each address.

use crate::text::{chars_of, decimal, push_decimal, string_of};
use vstd::hash_map::StringHashMap;
use vstd::prelude::*;

verus! {

/// Where the service listens, and the table from address to command template.
pub struct Configuration {
    bind: String,
    port: u16,
    commands: StringHashMap<String>,
}

/// The value of a [`Configuration`].
pub struct ConfigurationView {
    pub bind: Seq<char>,
    pub port: int,
    pub commands: Map<Seq<char>, Seq<char>>,
}

impl View for Configuration {
    type V = ConfigurationView;

    closed spec fn view(&self) -> ConfigurationView {
        ConfigurationView {
            bind: self.bind@,
            port: self.port as int,
            commands: Map::new(
                |addr: Seq<char>| self.commands@.contains_key(addr),
                |addr: Seq<char>| self.commands@[addr]@,
            ),
        }
    }
}

/// The text `host:port` that a socket is bound to.
pub open spec fn listen_text(bind: Seq<char>, port: int) -> Seq<char> {
    bind + seq![':'] + decimal(port as nat)
}

impl Configuration {
    /// A configuration without commands, or `None` where `port` is no port
    /// number: below 0 or above 65535.
    pub fn new(bind: String, port: i32) -> (r: Option<Configuration>)
        ensures
            match r {
                Some(config) => {
                    &&& 0 <= port <= 65535
                    &&& config@.bind == bind@
                    &&& config@.port == port
                    &&& config@.commands == Map::<Seq<char>, Seq<char>>::empty()
                },
                None => port < 0 || port > 65535,
            },
    {
        if port < 0 || port > 65535 {
            return None;
        }
        let config = Configuration { bind, port: port as u16, commands: StringHashMap::new() };
        assert(config@.commands =~= Map::<Seq<char>, Seq<char>>::empty());
        Some(config)
    }

    /// Sets the template of `addr`, in place of an earlier one if there is one.
    pub fn add_command(&mut self, addr: String, template: String)
        ensures
            final(self)@.bind == old(self)@.bind,
            final(self)@.port == old(self)@.port,
            final(self)@.commands == old(self)@.commands.insert(addr@, template@),
    {
        self.commands.insert(addr, template);
        assert(self@.commands =~= old(self)@.commands.insert(addr@, template@));
    }

    /// The template of `addr`, or `None` where the table has no such address.
    pub fn template(&self, addr: &str) -> (r: Option<&String>)
        ensures
            match r {
                Some(template) => self@.commands.contains_key(addr@) && template@
                    == self@.commands[addr@],
                None => !self@.commands.contains_key(addr@),
            },
    {
        self.commands.get(addr)
    }

    /// The host to listen on.
    pub fn bind(&self) -> (r: &String)
        ensures
            r@ == self@.bind,
    {
        &self.bind
    }

    /// The port to listen on.
    pub fn port(&self) -> (r: u16)
        ensures
            r == self@.port,
    {
        self.port
    }

    /// The text `host:port` of the socket to listen on.
    pub fn listen_address(&self) -> (r: String)
        ensures
            r@ == listen_text(self@.bind, self@.port),
    {
        let mut out = chars_of(self.bind.as_str());
        out.push(':');
        push_decimal(&mut out, self.port as u64);
        string_of(&out)
    }
}

} // verus!
