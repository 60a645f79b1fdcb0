//! Algorithm negotiation between drawn proposals: the proposals, and whether
//! what an engine negotiated agrees.

use vstd::prelude::*;
use crate::kex_support::lists::{client_proposal, gen_lists, lists_drawn, Lists, ListsView};
use crate::kex_support::negotiate_ref::{
    first_shared, lemma_first_shared, marker, negotiate, negotiated, strict, strict_of, strict_offered, Direction,
    Negotiated, NegotiationError, StrictKex,
};
use crate::seqs::{bit, copy_bytes, has_bit, own_all};
use crate::tcp_support::msg_ref::cookie_array;
use crate::tcp_support::{byte_at, dropped, taken_filled, Cursor};
use crate::text::same_text;
use crate::wire_core::messages_ref::{kexinit, kexinit_read};

verus! {

/// A direction in words.
pub open spec fn direction_text(d: Direction) -> &'static str {
    match d {
        Direction::ClientToServer => "client-to-server",
        Direction::ServerToClient => "server-to-client",
    }
}

/// A direction in words.
pub fn direction_name(d: Direction) -> (r: &'static str)
    ensures
        r == direction_text(d),
{
    match d {
        Direction::ClientToServer => "client-to-server",
        Direction::ServerToClient => "server-to-client",
    }
}

/// A negotiation over sequences.
pub open spec fn outcome_of(r: Result<Negotiated, NegotiationError>) -> Result<
    Negotiated<Seq<char>>,
    NegotiationError<Seq<char>>,
> {
    match r {
        Ok(n) => Ok(n@),
        Err(e) => Err(e@),
    }
}

fn same_selection(a: &Negotiated, b: &Negotiated) -> (r: bool)
    ensures
        r == (a@ == b@),
{
    same_text(a.kex.as_str(), b.kex.as_str()) && same_text(a.host_key.as_str(), b.host_key.as_str()) && same_text(
        a.encryption_client_to_server.as_str(),
        b.encryption_client_to_server.as_str(),
    ) && same_text(a.encryption_server_to_client.as_str(), b.encryption_server_to_client.as_str())
        && a.mac_client_to_server == b.mac_client_to_server && a.mac_server_to_client == b.mac_server_to_client
        && same_text(a.compression_client_to_server.as_str(), b.compression_client_to_server.as_str()) && same_text(
        a.compression_server_to_client.as_str(),
        b.compression_server_to_client.as_str(),
    ) && a.strict_kex == b.strict_kex && a.ext_info == b.ext_info && a.server_guess_wrong == b.server_guess_wrong
}

fn same_error(a: &NegotiationError, b: &NegotiationError) -> (r: bool)
    ensures
        r == (a@ == b@),
{
    match (a, b) {
        (NegotiationError::NoCommonKex, NegotiationError::NoCommonKex) => true,
        (NegotiationError::NoCommonHostKey, NegotiationError::NoCommonHostKey) => true,
        (NegotiationError::NoCommonCipher(d), NegotiationError::NoCommonCipher(e)) => *d == *e,
        (NegotiationError::NoMacImplemented(d), NegotiationError::NoMacImplemented(e)) => *d == *e,
        (NegotiationError::NoCommonCompression(d), NegotiationError::NoCommonCompression(e)) => *d == *e,
        (
            NegotiationError::UnsupportedSelection { field: f, name: n },
            NegotiationError::UnsupportedSelection { field: g, name: m },
        ) => *f == *g && same_text(n.as_str(), m.as_str()),
        _ => false,
    }
}

/// Whether what an engine negotiated between two proposals agrees, with its
/// evaluation of strict kex and of what the client offers of it.
pub fn check_pair(
    client: &Lists,
    server: &Lists,
    got: &Result<Negotiated, NegotiationError>,
    evaluated: StrictKex,
    offered: StrictKex,
) -> (r: bool)
    ensures
        r == (outcome_of(*got) == negotiated(client@, server@) && evaluated == strict_of(client@.kex(), server@.kex())
            && offered == strict_of(client@.kex(), Seq::empty())),
{
    let agrees: bool = match (negotiate(client, server), got) {
        (Ok(a), Ok(b)) => same_selection(&a, b),
        (Err(a), Err(b)) => same_error(&a, b),
        _ => false,
    };
    agrees && strict(client, server) == evaluated && strict_offered(client) == offered
}

/// Negotiation finds no key exchange method exactly where no method, markers
/// aside, is in both lists; a marker is never selected.
pub proof fn lemma_no_common_kex(client: ListsView, server: ListsView)
    ensures
        (negotiated(client, server) == Err::<Negotiated<Seq<char>>, NegotiationError<Seq<char>>>(
            NegotiationError::NoCommonKex,
        )) == !(exists|i: int|
            0 <= i < client.kex().len() && !marker(#[trigger] client.kex()[i]) && server.kex().contains(
                client.kex()[i],
            )),
        first_shared(client.kex(), server.kex(), true, 0) matches Some(k) ==> !marker(k),
{
    lemma_first_shared(client.kex(), server.kex(), true, 0);
    match first_shared(client.kex(), server.kex(), true, 0) {
        Some(n) => {
            let k = choose|k: int| #![trigger client.kex()[k]] 0 <= k < client.kex().len() && client.kex()[k] == n;
            assert(!marker(client.kex()[k]) && server.kex().contains(client.kex()[k]));
        },
        None => {},
    }
}

/// The proposals of one run.
#[derive(Debug)]
pub struct Drawn {
    /// The client's proposal is our own.
    pub ours: bool,
    /// Our own proposal advertises extension negotiation.
    pub ext_info: bool,
    /// Our own proposal offers strict kex.
    pub strict: bool,
    /// The client's proposal.
    pub client: Lists,
    /// The server's proposal.
    pub server: Lists,
    /// A raw server payload.
    pub raw: Option<Vec<u8>>,
}

/// The proposals of one run are what the input says.
pub open spec fn drawn_holds(s: Seq<u8>, d: Drawn) -> bool {
    let flags = byte_at(s, 0);
    let s0 = dropped(s, 1);
    let (client, s1) = if bit(flags, 1) {
        (client_proposal(taken_filled(s0, 16, 29), bit(flags, 2), bit(flags, 4)), dropped(s0, 16))
    } else {
        lists_drawn(s0)
    };
    let (server, s2) = lists_drawn(s1);
    &&& d.ours == bit(flags, 1)
    &&& d.ext_info == bit(flags, 2)
    &&& d.strict == bit(flags, 4)
    &&& d.client@ == client
    &&& d.server@ == server
    &&& match d.raw {
        Some(b) => bit(flags, 8) && b@ == s2,
        None => !bit(flags, 8),
    }
}

/// Draws the proposals of one run.
pub fn gen_drawn(data: &[u8]) -> (r: Drawn)
    ensures
        drawn_holds(data@, r),
{
    let mut cur = Cursor::new(data);
    let flags: u8 = cur.u8();
    let ours: bool = has_bit(flags, 1);
    let ext_info: bool = has_bit(flags, 2);
    let strict: bool = has_bit(flags, 4);
    let client = if ours {
        let cookie = cookie_array(cur.take_filled(16, 29).as_slice());
        Lists::tatami_client(cookie, ext_info, strict)
    } else {
        gen_lists(&mut cur)
    };
    let server = gen_lists(&mut cur);
    let raw = if has_bit(flags, 8) {
        Some(copy_bytes(cur.rest()))
    } else {
        None
    };
    Drawn { ours, ext_info, strict, client, server, raw }
}

/// The proposal that a payload carries, where it decodes.
pub fn lists_from_payload(payload: &[u8]) -> (r: Option<Lists>)
    ensures
        match kexinit_read(payload@) {
            Ok(f) => r matches Some(l) && l@.cookie == f.cookie && l@.slots == f.names && l@.first == (f.first_byte != 0)
                && l@.reserved == f.reserved,
            Err(_) => r is None,
        },
{
    match kexinit(payload) {
        Err(_) => None,
        Ok(k) => {
            proof {
                assert(k@.cookie.len() == 16);
            }
            let l = Lists {
                cookie: cookie_array(k.cookie),
                kex: own_all(&k.names[0]),
                host_key: own_all(&k.names[1]),
                enc_c2s: own_all(&k.names[2]),
                enc_s2c: own_all(&k.names[3]),
                mac_c2s: own_all(&k.names[4]),
                mac_s2c: own_all(&k.names[5]),
                comp_c2s: own_all(&k.names[6]),
                comp_s2c: own_all(&k.names[7]),
                lang_c2s: own_all(&k.names[8]),
                lang_s2c: own_all(&k.names[9]),
                first_kex_packet_follows: k.first_kex_packet_follows_byte != 0,
                reserved: k.reserved,
            };
            proof {
                assert(l@.slots =~= k@.names);
            }
            Some(l)
        },
    }
}

} // verus!
