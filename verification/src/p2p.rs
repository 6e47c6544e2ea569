use vstd::prelude::*;

use crate::blockchain::block::{blocks_view, Block, BlockV};
use crate::blockchain::transaction::{txs_view, Transaction, TransactionV};
use crate::util::text::{push_decimal, spec_decimal, string_push};

verus! {

/// The port nodes exchange messages on.
pub const P2P_PORT: u16 = 62697;

/// Another node, known by its IPv4 address (most significant octet in the
/// highest byte).
#[derive(Debug, Clone, Copy, PartialEq, Eq, Structural, Hash)]
pub struct Peer {
    pub ip: u32,
}

/// The four octets of an IPv4 address, most significant first.
pub open spec fn spec_octets(ip: u32) -> (u8, u8, u8, u8) {
    ((ip >> 24u32) as u8, (ip >> 16u32) as u8, (ip >> 8u32) as u8, ip as u8)
}

/// The URL a peer takes messages at: `http://a.b.c.d:port/`.
pub open spec fn spec_url(ip: u32, port: u16) -> Seq<char> {
    let (a, b, c, d) = spec_octets(ip);
    seq!['h', 't', 't', 'p', ':', '/', '/'] + spec_decimal(a as nat) + seq!['.'] + spec_decimal(
        b as nat,
    ) + seq!['.'] + spec_decimal(c as nat) + seq!['.'] + spec_decimal(d as nat) + seq![':']
        + spec_decimal(port as nat) + seq!['/']
}

fn push_str_chars(s: &mut String, chars: &[char])
    ensures
        final(s)@ == old(s)@ + chars@,
{
    let mut i: usize = 0;
    while i < chars.len()
        invariant
            i <= chars@.len(),
            s@ == old(s)@ + chars@.take(i as int),
        decreases chars@.len() - i,
    {
        string_push(s, chars[i]);
        i = i + 1;
        assert(s@ =~= old(s)@ + chars@.take(i as int));
    }
    assert(chars@.take(i as int) =~= chars@);
}

impl Peer {
    /// The peer at an IPv4 address.
    pub fn new(ip: u32) -> (res: Self)
        ensures
            res.ip == ip,
    {
        Peer { ip }
    }

    /// The peer at the IPv4 address `a.b.c.d`.
    pub fn from_octets(a: u8, b: u8, c: u8, d: u8) -> (res: Self)
        ensures
            spec_octets(res.ip) == (a, b, c, d),
    {
        let ip: u32 = ((a as u32) << 24u32) | ((b as u32) << 16u32) | ((c as u32) << 8u32) | (d as u32);
        assert(((((a as u32) << 24u32) | ((b as u32) << 16u32) | ((c as u32) << 8u32) | (d as u32)) >> 24u32) as u8 == a
            && ((((a as u32) << 24u32) | ((b as u32) << 16u32) | ((c as u32) << 8u32) | (d as u32)) >> 16u32) as u8 == b
            && ((((a as u32) << 24u32) | ((b as u32) << 16u32) | ((c as u32) << 8u32) | (d as u32)) >> 8u32) as u8 == c
            && ((((a as u32) << 24u32) | ((b as u32) << 16u32) | ((c as u32) << 8u32) | (d as u32))) as u8 == d) by (bit_vector);
        Peer { ip }
    }

    /// The four octets of this peer's address, most significant first.
    pub fn octets(&self) -> (res: (u8, u8, u8, u8))
        ensures
            res == spec_octets(self.ip),
    {
        ((self.ip >> 24u32) as u8, (self.ip >> 16u32) as u8, (self.ip >> 8u32) as u8, self.ip as u8)
    }

    /// The URL this peer takes messages at, on port `port`.
    pub fn get_url(&self, port: u16) -> (res: String)
        ensures
            res@ == spec_url(self.ip, port),
    {
        let (a, b, c, d) = self.octets();
        let mut s = String::new();
        push_str_chars(&mut s, &['h', 't', 't', 'p', ':', '/', '/']);
        push_decimal(&mut s, a as u64);
        string_push(&mut s, '.');
        push_decimal(&mut s, b as u64);
        string_push(&mut s, '.');
        push_decimal(&mut s, c as u64);
        string_push(&mut s, '.');
        push_decimal(&mut s, d as u64);
        string_push(&mut s, ':');
        push_decimal(&mut s, port as u64);
        string_push(&mut s, '/');
        assert(s@ =~= spec_url(self.ip, port));
        s
    }
}

/// A message between nodes.
#[derive(Debug, PartialEq, Eq)]
pub enum P2PMessage {
    QueryLatest,
    QueryAll,
    QueryTransactions,
    QueryPeers,
    ResponseBlockChain(Vec<Block>),
    ResponseTransactions(Vec<Transaction>),
    ResponsePeers(Vec<Peer>),
}

/// What a message is, as a mathematical value.
pub enum P2PMessageV {
    QueryLatest,
    QueryAll,
    QueryTransactions,
    QueryPeers,
    ResponseBlockChain(Seq<BlockV>),
    ResponseTransactions(Seq<TransactionV>),
    ResponsePeers(Seq<Peer>),
}

impl View for P2PMessage {
    type V = P2PMessageV;

    open spec fn view(&self) -> P2PMessageV {
        match self {
            P2PMessage::QueryLatest => P2PMessageV::QueryLatest,
            P2PMessage::QueryAll => P2PMessageV::QueryAll,
            P2PMessage::QueryTransactions => P2PMessageV::QueryTransactions,
            P2PMessage::QueryPeers => P2PMessageV::QueryPeers,
            P2PMessage::ResponseBlockChain(b) => P2PMessageV::ResponseBlockChain(blocks_view(b@)),
            P2PMessage::ResponseTransactions(t) => P2PMessageV::ResponseTransactions(txs_view(t@)),
            P2PMessage::ResponsePeers(p) => P2PMessageV::ResponsePeers(p@),
        }
    }
}

} // verus!
