//! A machine running a MonoMouse agent.

use vstd::prelude::*;
use crate::ids::{name_based_id, uuid_v5_dns};
use crate::monitor::Monitor;

verus! {

/// The TCP port MonoMouse listens on and connects to by default.
pub const DEFAULT_PORT: u16 = 24800;

/// An IP address, held as the integer value of its octets (big-endian).
#[derive(Debug, Clone, Copy, PartialEq, Eq, Structural)]
pub enum IpAddress {
    V4(u32),
    V6(u128),
}

/// A machine running a MonoMouse agent.
#[derive(Debug)]
pub struct Machine {
    pub id: u128,
    pub name: String,
    pub addr: Option<IpAddress>,
    pub port: u16,
    pub monitors: Vec<Monitor>,
    pub is_server: bool,
}

/// A copy of the monitors with the same contents.
pub fn copy_monitors(v: &Vec<Monitor>) -> (r: Vec<Monitor>)
    ensures
        r@ == v@,
{
    let mut r: Vec<Monitor> = Vec::new();
    let mut i: usize = 0;
    while i < v.len()
        invariant
            i <= v.len(),
            r@ == v@.take(i as int),
        decreases v.len() - i,
    {
        r.push(v[i].clone());
        assert(r@ =~= v@.take(i + 1));
        i += 1;
    }
    assert(v@.take(v@.len() as int) =~= v@);
    r
}

impl Clone for Machine {
    fn clone(&self) -> (r: Self)
        ensures
            r.id == self.id,
            r.name == self.name,
            r.addr == self.addr,
            r.port == self.port,
            r.monitors@ == self.monitors@,
            r.is_server == self.is_server,
    {
        let r = Machine {
            id: self.id,
            name: self.name.clone(),
            addr: self.addr,
            port: self.port,
            monitors: copy_monitors(&self.monitors),
            is_server: self.is_server,
        };
        r
    }
}

impl Machine {
    /// A machine named `name`, with the name-based id of that name, so that
    /// a reconnecting machine is recognised; default port, no address and no
    /// monitors yet.
    pub fn new(name: String, is_server: bool) -> (m: Self)
        ensures
            m.id == uuid_v5_dns(name@),
            m.name == name,
            m.addr is None,
            m.port == DEFAULT_PORT,
            m.monitors@.len() == 0,
            m.is_server == is_server,
    {
        let id = name_based_id(name.as_str());
        Machine { id, name, addr: None, port: DEFAULT_PORT, monitors: Vec::new(), is_server }
    }
}

/// Two machines created with the same name get the same id, whatever their
/// role, so a machine that reconnects under its hostname is recognised.
pub proof fn law_same_name_same_id(a: Machine, b: Machine)
    requires
        a.id == uuid_v5_dns(a.name@),
        b.id == uuid_v5_dns(b.name@),
        a.name@ == b.name@,
    ensures
        a.id == b.id,
{
}

} // verus!
