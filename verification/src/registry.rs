use std::collections::HashSet;
use vstd::prelude::*;

verus! {

broadcast use vstd::std_specs::hash::group_hash_axioms;

/// The number that stands for a peer's address in the registry: the four
/// octets and the port, written one after the other.
pub open spec fn spec_addr_key(addr: ((u8, u8, u8, u8), u16)) -> u64 {
    (addr.0.0 * 0x100_0000_0000 + addr.0.1 * 0x1_0000_0000 + addr.0.2 * 0x100_0000 + addr.0.3
        * 0x1_0000 + addr.1) as u64
}

/// The parts of an address can be read off its key.
pub proof fn lemma_key_parts(a: int, b: int, c: int, d: int, port: int)
    requires
        0 <= a < 256,
        0 <= b < 256,
        0 <= c < 256,
        0 <= d < 256,
        0 <= port < 0x1_0000,
    ensures
        0 <= a * 0x100_0000_0000 + b * 0x1_0000_0000 + c * 0x100_0000 + d * 0x1_0000 + port
            <= u64::MAX,
        (a * 0x100_0000_0000 + b * 0x1_0000_0000 + c * 0x100_0000 + d * 0x1_0000 + port)
            % 0x1_0000 == port,
        (a * 0x100_0000_0000 + b * 0x1_0000_0000 + c * 0x100_0000 + d * 0x1_0000 + port)
            / 0x1_0000 == a * 0x100_0000 + b * 0x1_0000 + c * 0x100 + d,
{
}

/// Different addresses have different keys.
pub proof fn lemma_addr_key_injective(a: ((u8, u8, u8, u8), u16), b: ((u8, u8, u8, u8), u16))
    requires
        spec_addr_key(a) == spec_addr_key(b),
    ensures
        a == b,
{
    lemma_key_parts(a.0.0 as int, a.0.1 as int, a.0.2 as int, a.0.3 as int, a.1 as int);
    lemma_key_parts(b.0.0 as int, b.0.1 as int, b.0.2 as int, b.0.3 as int, b.1 as int);
    crate::wire::lemma_digits_of(a.0.0 as int, a.0.1 as int, a.0.2 as int, a.0.3 as int);
    crate::wire::lemma_digits_of(b.0.0 as int, b.0.1 as int, b.0.2 as int, b.0.3 as int);
    let ha = a.0.0 * 0x100_0000 + a.0.1 * 0x1_0000 + a.0.2 * 0x100 + a.0.3;
    let hb = b.0.0 * 0x100_0000 + b.0.1 * 0x1_0000 + b.0.2 * 0x100 + b.0.3;
    assert(a.1 == b.1);
    assert(ha == hb);
    assert(a.0.0 == ha / 0x100_0000);
    assert(a.0.1 == ha / 0x1_0000 % 0x100);
    assert(a.0.2 == ha / 0x100 % 0x100);
    assert(a.0.3 == ha % 0x100);
}

/// The key of `addr`.
pub fn addr_key(addr: ((u8, u8, u8, u8), u16)) -> (key: u64)
    ensures
        key == spec_addr_key(addr),
{
    (addr.0.0 as u64) * 0x100_0000_0000 + (addr.0.1 as u64) * 0x1_0000_0000 + (addr.0.2 as u64)
        * 0x100_0000 + (addr.0.3 as u64) * 0x1_0000 + addr.1 as u64
}

/// The addresses that a live worker owns. To be in the registry is the
/// token that keeps a second worker from the same address.
pub struct PeerManager {
    pub peers: HashSet<u64>,
}

impl PeerManager {
    /// The keys of the registered addresses.
    pub open spec fn keys(&self) -> Set<u64> {
        self.peers@
    }

    /// Whether `addr` is registered.
    pub open spec fn holds(&self, addr: ((u8, u8, u8, u8), u16)) -> bool {
        self.peers@.contains(spec_addr_key(addr))
    }

    /// An empty registry.
    pub fn new() -> (r: Self)
        ensures
            r.keys() == Set::<u64>::empty(),
    {
        Self { peers: HashSet::new() }
    }

    /// Registers `addr` unless it is registered already; says whether it
    /// did. A worker may start for `addr` only where this gives `true`.
    pub fn try_add(&mut self, addr: ((u8, u8, u8, u8), u16)) -> (added: bool)
        ensures
            added == !old(self).holds(addr),
            final(self).keys() == old(self).keys().insert(spec_addr_key(addr)),
    {
        self.peers.insert(addr_key(addr))
    }

    /// Takes `addr` out of the registry: its worker has ended.
    pub fn release(&mut self, addr: ((u8, u8, u8, u8), u16))
        ensures
            final(self).keys() == old(self).keys().remove(spec_addr_key(addr)),
    {
        let key = addr_key(addr);
        self.peers.remove(&key);
    }

    /// How many addresses are registered.
    pub fn len(&self) -> (n: usize)
        ensures
            n == self.keys().len(),
    {
        self.peers.len()
    }

    /// Whether no address is registered.
    pub fn is_empty(&self) -> (r: bool)
        ensures
            r == (self.keys().len() == 0),
    {
        self.peers.len() == 0
    }
}

/// An address keeps its place while others come and go: once registered,
/// it stays registered when another address is registered or released, so
/// that a second attempt to register it is refused until it is released
/// itself.
pub proof fn lemma_registered_until_released(
    keys: Set<u64>,
    addr: ((u8, u8, u8, u8), u16),
    other: ((u8, u8, u8, u8), u16),
)
    requires
        keys.contains(spec_addr_key(addr)),
    ensures
        keys.insert(spec_addr_key(other)).contains(spec_addr_key(addr)),
        other != addr ==> keys.remove(spec_addr_key(other)).contains(spec_addr_key(addr)),
{
    if other != addr && spec_addr_key(other) == spec_addr_key(addr) {
        lemma_addr_key_injective(other, addr);
    }
}

} // verus!
