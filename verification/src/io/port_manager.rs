//! Hands out I/O ports, each at most once.

use vstd::prelude::*;

verus! {

/// A set of port numbers, kept in the hash set of the `hashbrown` crate.
#[verifier::external_body]
pub struct PortSet {
    set: hashbrown::HashSet<u16>,
}

/// The port numbers that a set holds.
pub uninterp spec fn held_ports(ports: PortSet) -> Set<u16>;

/// `hashbrown::HashSet::new`: the set it makes holds nothing.
#[verifier::external_body]
fn ports_new() -> (ports: PortSet)
    ensures
        held_ports(ports) == Set::<u16>::empty(),
{
    PortSet { set: hashbrown::HashSet::new() }
}

/// `hashbrown::HashSet::contains`: whether the set holds `addr`.
#[verifier::external_body]
fn ports_contains(ports: &PortSet, addr: u16) -> (held: bool)
    ensures
        held == held_ports(*ports).contains(addr),
{
    ports.set.contains(&addr)
}

/// `hashbrown::HashSet::insert`: the set then holds `addr` besides what it
/// held, and the call says whether `addr` is new to it.
#[verifier::external_body]
fn ports_insert(ports: &mut PortSet, addr: u16) -> (fresh: bool)
    ensures
        held_ports(*final(ports)) == held_ports(*old(ports)).insert(addr),
        fresh == !held_ports(*old(ports)).contains(addr),
{
    ports.set.insert(addr)
}

/// One access to an I/O port, for the kernel to perform.
#[derive(Debug, Clone, Copy, PartialEq, Eq)]
pub enum PortOp {
    /// Send `value` to `port`.
    Write { port: u16, value: u8 },
    /// Read one byte from `port`.
    Read { port: u16 },
}

/// One I/O port.
#[derive(Debug, PartialEq, Eq)]
pub struct Port {
    addr: u16,
}

impl View for Port {
    type V = u16;

    closed spec fn view(&self) -> u16 {
        self.addr
    }
}

impl Port {
    /// The port at `addr`.
    pub fn new(addr: u16) -> (port: Port)
        ensures
            port@ == addr,
    {
        Port { addr }
    }

    /// The port's number.
    pub fn get_addr(&self) -> (addr: u16)
        ensures
            addr == self@,
    {
        self.addr
    }

    /// The access that sends `val` to this port.
    pub fn writeb(&self, val: u8) -> (op: PortOp)
        ensures
            op == (PortOp::Write { port: self@, value: val }),
    {
        PortOp::Write { port: self.addr, value: val }
    }

    /// The access that reads one byte from this port.
    pub fn readb(&self) -> (op: PortOp)
        ensures
            op == (PortOp::Read { port: self@ }),
    {
        PortOp::Read { port: self.addr }
    }
}

/// Remembers which ports were handed out.
pub struct PortManager {
    allocated_ports: PortSet,
}

impl View for PortManager {
    type V = Set<u16>;

    closed spec fn view(&self) -> Set<u16> {
        held_ports(self.allocated_ports)
    }
}

impl PortManager {
    /// A manager that has handed out no port.
    pub fn new() -> (manager: PortManager)
        ensures
            manager@ == Set::<u16>::empty(),
    {
        PortManager { allocated_ports: ports_new() }
    }

    /// Hands out the port at `addr`, unless it was handed out before.
    pub fn request_port(&mut self, addr: u16) -> (port: Option<Port>)
        ensures
            port is Some <==> !old(self)@.contains(addr),
            port is Some ==> port.unwrap()@ == addr,
            final(self)@ == old(self)@.insert(addr),
    {
        if ports_contains(&self.allocated_ports, addr) {
            assert(self@.insert(addr) =~= self@);
            return None;
        }
        ports_insert(&mut self.allocated_ports, addr);

        Some(Port::new(addr))
    }
}

} // verus!
