//! Algorithm negotiation (RFC 4253 section 7.1) for the first profile:
//! markers excluded, the MAC implicit in an AEAD cipher, strict kex paired by
//! identical spelling, and the correctness of the server's guess.

use vstd::prelude::*;
use crate::kex_support::lists::{client_proposal, Lists, ListsView};
use crate::seqs::{same_bytes, vecs};
use crate::tcp_support::msg_ref::{kex_class, kex_name};
use crate::tcp_support::types::KexName;
use crate::text::{bytes_of, lossy_string, same_text, text_of};
use crate::wire_core::error::Field;

verus! {

/// A direction of the connection.
#[derive(Clone, Copy, Debug, PartialEq, Eq, Structural)]
pub enum Direction {
    ClientToServer,
    ServerToClient,
}

/// How packets are authenticated.
#[derive(Clone, Copy, Debug, PartialEq, Eq, Structural)]
pub enum Mac {
    /// By the cipher itself.
    ImplicitAead,
}

/// What each side offered of strict kex, and whether it is in effect.
#[derive(Clone, Copy, Debug, PartialEq, Eq, Structural)]
pub struct StrictKex {
    pub offered_pre_standard: bool,
    pub offered_standard: bool,
    pub server_pre_standard: bool,
    pub server_standard: bool,
    pub negotiated: bool,
}

/// The selected algorithms.
#[derive(Clone, Debug, PartialEq, Eq)]
pub struct Negotiated<T = String> {
    pub kex: T,
    pub host_key: T,
    pub encryption_client_to_server: T,
    pub encryption_server_to_client: T,
    pub mac_client_to_server: Mac,
    pub mac_server_to_client: Mac,
    pub compression_client_to_server: T,
    pub compression_server_to_client: T,
    pub strict_kex: StrictKex,
    pub ext_info: bool,
    pub server_guess_wrong: bool,
}

impl View for Negotiated<String> {
    type V = Negotiated<Seq<char>>;

    open spec fn view(&self) -> Negotiated<Seq<char>> {
        Negotiated {
            kex: self.kex@,
            host_key: self.host_key@,
            encryption_client_to_server: self.encryption_client_to_server@,
            encryption_server_to_client: self.encryption_server_to_client@,
            mac_client_to_server: self.mac_client_to_server,
            mac_server_to_client: self.mac_server_to_client,
            compression_client_to_server: self.compression_client_to_server@,
            compression_server_to_client: self.compression_server_to_client@,
            strict_kex: self.strict_kex,
            ext_info: self.ext_info,
            server_guess_wrong: self.server_guess_wrong,
        }
    }
}

/// Why there is no selection.
#[derive(Clone, Debug, PartialEq, Eq)]
pub enum NegotiationError<T = String> {
    NoCommonKex,
    NoCommonHostKey,
    NoCommonCipher(Direction),
    NoMacImplemented(Direction),
    NoCommonCompression(Direction),
    UnsupportedSelection { field: Field, name: T },
}

impl View for NegotiationError<String> {
    type V = NegotiationError<Seq<char>>;

    open spec fn view(&self) -> NegotiationError<Seq<char>> {
        match self {
            NegotiationError::NoCommonKex => NegotiationError::NoCommonKex,
            NegotiationError::NoCommonHostKey => NegotiationError::NoCommonHostKey,
            NegotiationError::NoCommonCipher(d) => NegotiationError::NoCommonCipher(*d),
            NegotiationError::NoMacImplemented(d) => NegotiationError::NoMacImplemented(*d),
            NegotiationError::NoCommonCompression(d) => NegotiationError::NoCommonCompression(*d),
            NegotiationError::UnsupportedSelection { field, name } => NegotiationError::UnsupportedSelection {
                field: *field,
                name: name@,
            },
        }
    }
}

/// The code of a negotiation error, from a closed set of six.
pub open spec fn error_code(e: NegotiationError<Seq<char>>) -> &'static str {
    match e {
        NegotiationError::NoCommonKex => "no_common_kex",
        NegotiationError::NoCommonHostKey => "no_common_host_key",
        NegotiationError::NoCommonCipher(d) => "no_common_cipher",
        NegotiationError::NoMacImplemented(d) => "no_mac_implemented",
        NegotiationError::NoCommonCompression(d) => "no_common_compression",
        NegotiationError::UnsupportedSelection { field, name } => "unsupported_selection",
    }
}

impl NegotiationError<String> {
    /// The code of the error.
    pub fn code(&self) -> (r: &'static str)
        ensures
            r == error_code(self@),
    {
        match self {
            NegotiationError::NoCommonKex => "no_common_kex",
            NegotiationError::NoCommonHostKey => "no_common_host_key",
            NegotiationError::NoCommonCipher(d) => "no_common_cipher",
            NegotiationError::NoMacImplemented(d) => "no_mac_implemented",
            NegotiationError::NoCommonCompression(d) => "no_common_compression",
            NegotiationError::UnsupportedSelection { field, name } => "unsupported_selection",
        }
    }
}

/// A `kex_algorithms` entry that is a marker, never a method.
pub open spec fn marker(name: Seq<u8>) -> bool {
    kex_class(name) != KexName::Method
}

/// A `kex_algorithms` entry that is a marker, never a method.
pub fn is_marker(name: &[u8]) -> (r: bool)
    ensures
        r == marker(name@),
{
    match kex_name(name) {
        KexName::Method => false,
        _ => true,
    }
}

fn contains(list: &Vec<Vec<u8>>, name: &[u8]) -> (r: bool)
    ensures
        r == vecs(list@).contains(name@),
{
    let mut i: usize = 0;
    while i < list.len()
        invariant
            i <= list@.len(),
            forall|j: int| 0 <= j < i ==> #[trigger] vecs(list@)[j] != name@,
        decreases list@.len() - i,
    {
        if same_bytes(list[i].as_slice(), name) {
            proof {
                assert(vecs(list@)[i as int] == name@);
            }
            return true;
        }
        i = i + 1;
    }
    false
}

/// The first entry of `client` from the `i`-th on that `server` also lists;
/// markers count only where `methods_only` is not asked for.
pub open spec fn first_shared(client: Seq<Seq<u8>>, server: Seq<Seq<u8>>, methods_only: bool, i: int) -> Option<
    Seq<u8>,
>
    decreases client.len() - i,
{
    if i >= client.len() {
        None
    } else if !(methods_only && marker(client[i])) && server.contains(client[i]) {
        Some(client[i])
    } else {
        first_shared(client, server, methods_only, i + 1)
    }
}

/// The first entry of a list that is a method.
pub open spec fn first_real(list: Seq<Seq<u8>>, i: int) -> Option<Seq<u8>>
    decreases list.len() - i,
{
    if i >= list.len() {
        None
    } else if !marker(list[i]) {
        Some(list[i])
    } else {
        first_real(list, i + 1)
    }
}

/// The first entry of a list.
pub open spec fn first_of(list: Seq<Seq<u8>>) -> Option<Seq<u8>> {
    if list.len() == 0 {
        None
    } else {
        Some(list[0])
    }
}

/// First client entry the server also lists.
fn first_common<'a>(client: &'a Vec<Vec<u8>>, server: &Vec<Vec<u8>>, methods_only: bool) -> (r: Option<&'a [u8]>)
    ensures
        crate::seqs::opt_slice(r) == first_shared(vecs(client@), vecs(server@), methods_only, 0),
{
    let mut i: usize = 0;
    while i < client.len()
        invariant
            i <= client@.len(),
            first_shared(vecs(client@), vecs(server@), methods_only, 0) == first_shared(
                vecs(client@),
                vecs(server@),
                methods_only,
                i as int,
            ),
        decreases client@.len() - i,
    {
        let name = client[i].as_slice();
        proof {
            assert(vecs(client@)[i as int] == name@);
        }
        if !(methods_only && is_marker(name)) && contains(server, name) {
            return Some(name);
        }
        i = i + 1;
    }
    None
}

/// First real method (markers skipped).
fn first_method(list: &Vec<Vec<u8>>) -> (r: Option<&[u8]>)
    ensures
        crate::seqs::opt_slice(r) == first_real(vecs(list@), 0),
{
    let mut i: usize = 0;
    while i < list.len()
        invariant
            i <= list@.len(),
            first_real(vecs(list@), 0) == first_real(vecs(list@), i as int),
        decreases list@.len() - i,
    {
        let name = list[i].as_slice();
        proof {
            assert(vecs(list@)[i as int] == name@);
        }
        if !is_marker(name) {
            return Some(name);
        }
        i = i + 1;
    }
    None
}

fn same_first(a: Option<&[u8]>, b: Option<&[u8]>) -> (r: bool)
    ensures
        r == (crate::seqs::opt_slice(a) == crate::seqs::opt_slice(b)),
{
    match (a, b) {
        (Some(x), Some(y)) => same_bytes(x, y),
        (None, None) => true,
        _ => false,
    }
}

fn first_entry(list: &Vec<Vec<u8>>) -> (r: Option<&[u8]>)
    ensures
        crate::seqs::opt_slice(r) == first_of(vecs(list@)),
{
    if list.len() == 0 {
        None
    } else {
        Some(list[0].as_slice())
    }
}

/// Marker evaluation: which spelling each side offered; strict is in effect
/// iff a client marker and a server marker of the same spelling were both
/// offered.
pub open spec fn strict_of(client: Seq<Seq<u8>>, server: Seq<Seq<u8>>) -> StrictKex {
    let offered_pre_standard = client.contains(bytes_of("kex-strict-c-v00@openssh.com"));
    let offered_standard = client.contains(bytes_of("kex-strict-c"));
    let server_pre_standard = server.contains(bytes_of("kex-strict-s-v00@openssh.com"));
    let server_standard = server.contains(bytes_of("kex-strict-s"));
    StrictKex {
        offered_pre_standard,
        offered_standard,
        server_pre_standard,
        server_standard,
        negotiated: (offered_pre_standard && server_pre_standard) || (offered_standard && server_standard),
    }
}

/// Marker evaluation of both proposals.
pub fn strict(client: &Lists, server: &Lists) -> (r: StrictKex)
    ensures
        r == strict_of(client@.kex(), server@.kex()),
{
    let offered_pre_standard: bool = contains(&client.kex, "kex-strict-c-v00@openssh.com".as_bytes());
    let offered_standard: bool = contains(&client.kex, "kex-strict-c".as_bytes());
    let server_pre_standard: bool = contains(&server.kex, "kex-strict-s-v00@openssh.com".as_bytes());
    let server_standard: bool = contains(&server.kex, "kex-strict-s".as_bytes());
    StrictKex {
        offered_pre_standard,
        offered_standard,
        server_pre_standard,
        server_standard,
        negotiated: (offered_pre_standard && server_pre_standard) || (offered_standard && server_standard),
    }
}

/// The client's half of [`strict`] before the server is known.
pub fn strict_offered(client: &Lists) -> (r: StrictKex)
    ensures
        r == strict_of(client@.kex(), Seq::empty()),
{
    StrictKex {
        offered_pre_standard: contains(&client.kex, "kex-strict-c-v00@openssh.com".as_bytes()),
        offered_standard: contains(&client.kex, "kex-strict-c".as_bytes()),
        server_pre_standard: false,
        server_standard: false,
        negotiated: false,
    }
}

/// The cipher that authenticates by itself.
pub open spec fn aead(name: Seq<u8>) -> bool {
    name == bytes_of("aes128-gcm@openssh.com")
}

/// The selection, or the first field without one. Failure order: kex, host
/// key, cipher c2s, cipher s2c, MAC c2s, MAC s2c, compression c2s,
/// compression s2c.
pub open spec fn negotiated(client: ListsView, server: ListsView) -> Result<
    Negotiated<Seq<char>>,
    NegotiationError<Seq<char>>,
> {
    match first_shared(client.kex(), server.kex(), true, 0) {
        None => Err(NegotiationError::NoCommonKex),
        Some(kex) => match first_shared(client.host_key(), server.host_key(), false, 0) {
            None => Err(NegotiationError::NoCommonHostKey),
            Some(host_key) => match first_shared(client.enc_c2s(), server.enc_c2s(), false, 0) {
                None => Err(NegotiationError::NoCommonCipher(Direction::ClientToServer)),
                Some(enc_c2s) => match first_shared(client.enc_s2c(), server.enc_s2c(), false, 0) {
                    None => Err(NegotiationError::NoCommonCipher(Direction::ServerToClient)),
                    Some(enc_s2c) => if !aead(enc_c2s) {
                        Err(NegotiationError::NoMacImplemented(Direction::ClientToServer))
                    } else if !aead(enc_s2c) {
                        Err(NegotiationError::NoMacImplemented(Direction::ServerToClient))
                    } else {
                        match first_shared(client.comp_c2s(), server.comp_c2s(), false, 0) {
                            None => Err(NegotiationError::NoCommonCompression(Direction::ClientToServer)),
                            Some(comp_c2s) => match first_shared(client.comp_s2c(), server.comp_s2c(), false, 0) {
                                None => Err(
                                    NegotiationError::NoCommonCompression(Direction::ServerToClient),
                                ),
                                Some(comp_s2c) => Ok(
                                    Negotiated {
                                        kex: text_of(kex),
                                        host_key: text_of(host_key),
                                        encryption_client_to_server: text_of(enc_c2s),
                                        encryption_server_to_client: text_of(enc_s2c),
                                        mac_client_to_server: Mac::ImplicitAead,
                                        mac_server_to_client: Mac::ImplicitAead,
                                        compression_client_to_server: text_of(comp_c2s),
                                        compression_server_to_client: text_of(comp_s2c),
                                        strict_kex: strict_of(client.kex(), server.kex()),
                                        ext_info: server.kex().contains(bytes_of("ext-info-s")),
                                        server_guess_wrong: server.first && !(first_real(client.kex(), 0)
                                            == first_real(server.kex(), 0) && first_of(client.host_key())
                                            == first_of(server.host_key())),
                                    },
                                ),
                            },
                        }
                    },
                },
            },
        },
    }
}

/// The six `kex_algorithms` entries that name no method.
pub open spec fn marker_name(name: Seq<u8>) -> bool {
    ||| name == bytes_of("ext-info-c")
    ||| name == bytes_of("ext-info-s")
    ||| name == bytes_of("kex-strict-c")
    ||| name == bytes_of("kex-strict-s")
    ||| name == bytes_of("kex-strict-c-v00@openssh.com")
    ||| name == bytes_of("kex-strict-s-v00@openssh.com")
}

/// The other side lists entry `i` of a list too, and it may be selected.
pub open spec fn eligible(ours: Seq<Seq<u8>>, theirs: Seq<Seq<u8>>, methods_only: bool, i: int) -> bool {
    0 <= i < ours.len() && theirs.contains(ours[i]) && !(methods_only && marker_name(ours[i]))
}

/// The text is that of an eligible entry, and no earlier entry is eligible.
pub open spec fn preferred(ours: Seq<Seq<u8>>, theirs: Seq<Seq<u8>>, methods_only: bool, text: Seq<char>) -> bool {
    exists|i: int| #[trigger]
        eligible(ours, theirs, methods_only, i) && text_of(ours[i]) == text && forall|j: int|
            0 <= j < i ==> !(#[trigger] eligible(ours, theirs, methods_only, j))
}

/// No entry is eligible.
pub open spec fn disjoint(ours: Seq<Seq<u8>>, theirs: Seq<Seq<u8>>, methods_only: bool) -> bool {
    forall|i: int| !(#[trigger] eligible(ours, theirs, methods_only, i))
}

/// The two lists have their first entry in common, or both have none.
pub open spec fn same_head(a: Seq<Seq<u8>>, b: Seq<Seq<u8>>) -> bool {
    if a.len() == 0 || b.len() == 0 {
        a.len() == b.len()
    } else {
        a[0] == b[0]
    }
}

/// A list without its markers.
pub open spec fn methods(list: Seq<Seq<u8>>) -> Seq<Seq<u8>> {
    list.filter(|name: Seq<u8>| !marker_name(name))
}

/// Every selection is the client's first choice among what the server lists
/// too: its first such method, host key algorithm, cipher and compression of
/// each direction. Both ciphers are the one that authenticates by itself.
pub open spec fn selection_holds(client: ListsView, server: ListsView, n: Negotiated<Seq<char>>) -> bool {
    &&& preferred(client.slots[0], server.slots[0], true, n.kex)
    &&& preferred(client.slots[1], server.slots[1], false, n.host_key)
    &&& preferred(client.slots[2], server.slots[2], false, n.encryption_client_to_server)
    &&& preferred(client.slots[3], server.slots[3], false, n.encryption_server_to_client)
    &&& preferred(client.slots[6], server.slots[6], false, n.compression_client_to_server)
    &&& preferred(client.slots[7], server.slots[7], false, n.compression_server_to_client)
    &&& n.encryption_client_to_server == "aes128-gcm@openssh.com"@
    &&& n.encryption_server_to_client == "aes128-gcm@openssh.com"@
}

/// The flags of a selection: strict kex where both sides offer it in one
/// spelling, the server's extension marker, and a guess that is wrong where
/// the server made one and either the first methods or the first host key
/// algorithms differ.
pub open spec fn flags_hold(client: ListsView, server: ListsView, n: Negotiated<Seq<char>>) -> bool {
    &&& n.strict_kex.offered_standard <==> client.slots[0].contains(bytes_of("kex-strict-c"))
    &&& n.strict_kex.offered_pre_standard <==> client.slots[0].contains(bytes_of("kex-strict-c-v00@openssh.com"))
    &&& n.strict_kex.server_standard <==> server.slots[0].contains(bytes_of("kex-strict-s"))
    &&& n.strict_kex.server_pre_standard <==> server.slots[0].contains(bytes_of("kex-strict-s-v00@openssh.com"))
    &&& n.strict_kex.negotiated <==> (n.strict_kex.offered_standard && n.strict_kex.server_standard) || (
    n.strict_kex.offered_pre_standard && n.strict_kex.server_pre_standard)
    &&& n.ext_info <==> server.slots[0].contains(bytes_of("ext-info-s"))
    &&& n.server_guess_wrong <==> server.first && !(same_head(methods(client.slots[0]), methods(server.slots[0]))
        && same_head(client.slots[1], server.slots[1]))
}

/// The first field without a selection, in wire order; the MAC counts where
/// both ciphers are selected and one does not authenticate by itself.
pub open spec fn failure_holds(client: ListsView, server: ListsView, e: NegotiationError<Seq<char>>) -> bool {
    let none = |i: int| disjoint(client.slots[i], server.slots[i], i == 0);
    let gcm = |i: int| preferred(client.slots[i], server.slots[i], false, "aes128-gcm@openssh.com"@);
    match e {
        NegotiationError::NoCommonKex => none(0),
        NegotiationError::NoCommonHostKey => !none(0) && none(1),
        NegotiationError::NoCommonCipher(Direction::ClientToServer) => !none(0) && !none(1) && none(2),
        NegotiationError::NoCommonCipher(Direction::ServerToClient) => !none(0) && !none(1) && !none(2) && none(3),
        NegotiationError::NoMacImplemented(Direction::ClientToServer) => !none(0) && !none(1) && !none(2) && !none(3)
            && exists|i: int| #[trigger]
            eligible(client.slots[2], server.slots[2], false, i) && client.slots[2][i] != bytes_of(
                "aes128-gcm@openssh.com",
            ) && forall|j: int| 0 <= j < i ==> !(#[trigger] eligible(client.slots[2], server.slots[2], false, j)),
        NegotiationError::NoMacImplemented(Direction::ServerToClient) => !none(0) && !none(1) && gcm(2) && !none(3)
            && exists|i: int| #[trigger]
            eligible(client.slots[3], server.slots[3], false, i) && client.slots[3][i] != bytes_of(
                "aes128-gcm@openssh.com",
            ) && forall|j: int| 0 <= j < i ==> !(#[trigger] eligible(client.slots[3], server.slots[3], false, j)),
        NegotiationError::NoCommonCompression(Direction::ClientToServer) => !none(0) && !none(1) && gcm(2) && gcm(3)
            && none(6),
        NegotiationError::NoCommonCompression(Direction::ServerToClient) => !none(0) && !none(1) && gcm(2) && gcm(3)
            && !none(6) && none(7),
        NegotiationError::UnsupportedSelection { .. } => false,
    }
}

proof fn lemma_shared_is_preferred(ours: Seq<Seq<u8>>, theirs: Seq<Seq<u8>>, methods_only: bool)
    ensures
        match first_shared(ours, theirs, methods_only, 0) {
            Some(n) => preferred(ours, theirs, methods_only, text_of(n)) && !disjoint(ours, theirs, methods_only)
                && exists|i: int| #[trigger]
                eligible(ours, theirs, methods_only, i) && ours[i] == n && forall|j: int|
                    0 <= j < i ==> !(#[trigger] eligible(ours, theirs, methods_only, j)),
            None => disjoint(ours, theirs, methods_only),
        },
{
    lemma_first_shared(ours, theirs, methods_only, 0);
    match first_shared(ours, theirs, methods_only, 0) {
        Some(n) => {
            let k = choose|k: int|
                #![trigger ours[k]]
                0 <= k < ours.len() && ours[k] == n && forall|j: int|
                    #![trigger ours[j]]
                    0 <= j < k ==> !(!(methods_only && marker(ours[j])) && theirs.contains(ours[j]));
            assert(eligible(ours, theirs, methods_only, k));
        },
        None => {},
    }
}

proof fn lemma_first_method(list: Seq<Seq<u8>>, i: int)
    requires
        0 <= i <= list.len(),
    ensures
        first_real(list, i) == first_of(methods(list.skip(i))),
    decreases list.len() - i,
{
    let keep = |name: Seq<u8>| !marker_name(name);
    reveal_with_fuel(Seq::filter, 2);
    if i < list.len() {
        lemma_first_method(list, i + 1);
        let rest = list.skip(i);
        assert(rest =~= seq![list[i]] + list.skip(i + 1));
        Seq::filter_distributes_over_add(seq![list[i]], list.skip(i + 1), keep);
        assert(seq![list[i]].drop_last() =~= Seq::empty());
        assert(seq![list[i]].filter(keep) =~= if keep(list[i]) {
            seq![list[i]]
        } else {
            Seq::empty()
        });
        assert(Seq::<Seq<u8>>::empty() + methods(list.skip(i + 1)) =~= methods(list.skip(i + 1)));
    } else {
        assert(list.skip(i) =~= Seq::empty());
    }
}

/// Negotiation (RFC 4253 section 7.1): what is selected, with which flags, or
/// which field has no selection.
pub proof fn lemma_negotiation(client: ListsView, server: ListsView)
    ensures
        match negotiated(client, server) {
            Ok(n) => selection_holds(client, server, n) && flags_hold(client, server, n),
            Err(e) => failure_holds(client, server, e),
        },
{
    lemma_offered_texts();
    lemma_shared_is_preferred(client.slots[0], server.slots[0], true);
    lemma_shared_is_preferred(client.slots[1], server.slots[1], false);
    lemma_shared_is_preferred(client.slots[2], server.slots[2], false);
    lemma_shared_is_preferred(client.slots[3], server.slots[3], false);
    lemma_shared_is_preferred(client.slots[6], server.slots[6], false);
    lemma_shared_is_preferred(client.slots[7], server.slots[7], false);
    lemma_first_method(client.slots[0], 0);
    lemma_first_method(server.slots[0], 0);
    assert(client.slots[0].skip(0) =~= client.slots[0]);
    assert(server.slots[0].skip(0) =~= server.slots[0]);
}

/// Negotiates two proposals.
pub fn negotiate(client: &Lists, server: &Lists) -> (r: Result<Negotiated, NegotiationError>)
    ensures
        match negotiated(client@, server@) {
            Ok(n) => r matches Ok(v) && v@ == n,
            Err(e) => r matches Err(f) && f@ == e,
        },
        r matches Ok(n) ==> {
            &&& preferred(vecs(client.kex@), vecs(server.kex@), true, n.kex@)
            &&& preferred(vecs(client.host_key@), vecs(server.host_key@), false, n.host_key@)
            &&& preferred(vecs(client.enc_c2s@), vecs(server.enc_c2s@), false, n.encryption_client_to_server@)
            &&& preferred(vecs(client.enc_s2c@), vecs(server.enc_s2c@), false, n.encryption_server_to_client@)
            &&& preferred(vecs(client.comp_c2s@), vecs(server.comp_c2s@), false, n.compression_client_to_server@)
            &&& preferred(vecs(client.comp_s2c@), vecs(server.comp_s2c@), false, n.compression_server_to_client@)
        },
{
    proof {
        lemma_negotiation(client@, server@);
    }
    let kex = match first_common(&client.kex, &server.kex, true) {
        Some(v) => v,
        None => {
            return Err(NegotiationError::NoCommonKex);
        },
    };
    let host_key = match first_common(&client.host_key, &server.host_key, false) {
        Some(v) => v,
        None => {
            return Err(NegotiationError::NoCommonHostKey);
        },
    };
    let enc_c2s = match first_common(&client.enc_c2s, &server.enc_c2s, false) {
        Some(v) => v,
        None => {
            return Err(NegotiationError::NoCommonCipher(Direction::ClientToServer));
        },
    };
    let enc_s2c = match first_common(&client.enc_s2c, &server.enc_s2c, false) {
        Some(v) => v,
        None => {
            return Err(NegotiationError::NoCommonCipher(Direction::ServerToClient));
        },
    };
    if !same_bytes(enc_c2s, "aes128-gcm@openssh.com".as_bytes()) {
        return Err(NegotiationError::NoMacImplemented(Direction::ClientToServer));
    }
    if !same_bytes(enc_s2c, "aes128-gcm@openssh.com".as_bytes()) {
        return Err(NegotiationError::NoMacImplemented(Direction::ServerToClient));
    }
    let comp_c2s = match first_common(&client.comp_c2s, &server.comp_c2s, false) {
        Some(v) => v,
        None => {
            return Err(NegotiationError::NoCommonCompression(Direction::ClientToServer));
        },
    };
    let comp_s2c = match first_common(&client.comp_s2c, &server.comp_s2c, false) {
        Some(v) => v,
        None => {
            return Err(NegotiationError::NoCommonCompression(Direction::ServerToClient));
        },
    };
    let server_guess_wrong: bool = server.first_kex_packet_follows && !(same_first(
        first_method(&client.kex),
        first_method(&server.kex),
    ) && same_first(first_entry(&client.host_key), first_entry(&server.host_key)));
    Ok(
        Negotiated {
            kex: lossy_string(kex),
            host_key: lossy_string(host_key),
            encryption_client_to_server: lossy_string(enc_c2s),
            encryption_server_to_client: lossy_string(enc_s2c),
            mac_client_to_server: Mac::ImplicitAead,
            mac_server_to_client: Mac::ImplicitAead,
            compression_client_to_server: lossy_string(comp_c2s),
            compression_server_to_client: lossy_string(comp_s2c),
            strict_kex: strict(client, server),
            ext_info: contains(&server.kex, "ext-info-s".as_bytes()),
            server_guess_wrong,
        },
    )
}

/// The first field whose selection is not implemented.
pub open spec fn profile_of(n: Negotiated<Seq<char>>) -> Result<(), NegotiationError<Seq<char>>> {
    if n.kex != "curve25519-sha256"@ {
        Err(NegotiationError::UnsupportedSelection { field: Field::KexAlgorithms, name: n.kex })
    } else if n.host_key != "ssh-ed25519"@ {
        Err(NegotiationError::UnsupportedSelection { field: Field::ServerHostKeyAlgorithms, name: n.host_key })
    } else if n.encryption_client_to_server != "aes128-gcm@openssh.com"@ {
        Err(
            NegotiationError::UnsupportedSelection {
                field: Field::EncryptionClientToServer,
                name: n.encryption_client_to_server,
            },
        )
    } else if n.encryption_server_to_client != "aes128-gcm@openssh.com"@ {
        Err(
            NegotiationError::UnsupportedSelection {
                field: Field::EncryptionServerToClient,
                name: n.encryption_server_to_client,
            },
        )
    } else if n.compression_client_to_server != "none"@ {
        Err(
            NegotiationError::UnsupportedSelection {
                field: Field::CompressionClientToServer,
                name: n.compression_client_to_server,
            },
        )
    } else if n.compression_server_to_client != "none"@ {
        Err(
            NegotiationError::UnsupportedSelection {
                field: Field::CompressionServerToClient,
                name: n.compression_server_to_client,
            },
        )
    } else {
        Ok(())
    }
}

fn unsupported(field: Field, name: &String) -> (r: Result<(), NegotiationError>)
    ensures
        r matches Err(e) && e@ == (NegotiationError::UnsupportedSelection::<Seq<char>> { field, name: name@ }),
{
    Err(NegotiationError::UnsupportedSelection { field, name: name.clone() })
}

/// The profile check: only the first-profile selection is implemented.
pub fn check_profile(n: &Negotiated) -> (r: Result<(), NegotiationError>)
    ensures
        match profile_of(n@) {
            Ok(()) => r is Ok,
            Err(e) => r matches Err(f) && f@ == e,
        },
{
    if !same_text(n.kex.as_str(), "curve25519-sha256") {
        return unsupported(Field::KexAlgorithms, &n.kex);
    }
    if !same_text(n.host_key.as_str(), "ssh-ed25519") {
        return unsupported(Field::ServerHostKeyAlgorithms, &n.host_key);
    }
    if !same_text(n.encryption_client_to_server.as_str(), "aes128-gcm@openssh.com") {
        return unsupported(Field::EncryptionClientToServer, &n.encryption_client_to_server);
    }
    if !same_text(n.encryption_server_to_client.as_str(), "aes128-gcm@openssh.com") {
        return unsupported(Field::EncryptionServerToClient, &n.encryption_server_to_client);
    }
    if !same_text(n.compression_client_to_server.as_str(), "none") {
        return unsupported(Field::CompressionClientToServer, &n.compression_client_to_server);
    }
    if !same_text(n.compression_server_to_client.as_str(), "none") {
        return unsupported(Field::CompressionServerToClient, &n.compression_server_to_client);
    }
    Ok(())
}

/// What is shared is in both lists, is no marker where methods are asked for,
/// and nothing before it in the client's list would do.
pub proof fn lemma_first_shared(client: Seq<Seq<u8>>, server: Seq<Seq<u8>>, methods_only: bool, i: int)
    requires
        0 <= i <= client.len(),
    ensures
        match first_shared(client, server, methods_only, i) {
            Some(n) => {
                &&& server.contains(n)
                &&& !(methods_only && marker(n))
                &&& exists|k: int|
                    #![trigger client[k]]
                    i <= k < client.len() && client[k] == n && forall|j: int|
                        #![trigger client[j]]
                        i <= j < k ==> !(!(methods_only && marker(client[j])) && server.contains(client[j]))
            },
            None => forall|j: int|
                #![trigger client[j]]
                i <= j < client.len() ==> !(!(methods_only && marker(client[j])) && server.contains(client[j])),
        },
    decreases client.len() - i,
{
    if i < client.len() {
        if !(methods_only && marker(client[i])) && server.contains(client[i]) {
            assert(client[i] == first_shared(client, server, methods_only, i)->0);
        } else {
            lemma_first_shared(client, server, methods_only, i + 1);
        }
    }
}

proof fn lemma_single_shared(name: Seq<u8>, server: Seq<Seq<u8>>)
    ensures
        first_shared(seq![name], server, false, 0) matches Some(n) ==> n == name,
{
    reveal_with_fuel(first_shared, 2);
}

/// The texts of the names that this client offers are those names.
proof fn lemma_offered_texts()
    ensures
        text_of(bytes_of("curve25519-sha256")) == "curve25519-sha256"@,
        text_of(bytes_of("ssh-ed25519")) == "ssh-ed25519"@,
        text_of(bytes_of("aes128-gcm@openssh.com")) == "aes128-gcm@openssh.com"@,
        text_of(bytes_of("none")) == "none"@,
        !marker(bytes_of("curve25519-sha256")),
        marker(bytes_of("ext-info-c")),
        marker(bytes_of("kex-strict-c-v00@openssh.com")),
        marker(bytes_of("kex-strict-c")),
{
    crate::text::lemma_literal_text("curve25519-sha256");
    crate::text::lemma_literal_text("ssh-ed25519");
    crate::text::lemma_literal_text("aes128-gcm@openssh.com");
    crate::text::lemma_literal_text("none");
    reveal_strlit("curve25519-sha256");
    reveal_strlit("ssh-ed25519");
    reveal_strlit("aes128-gcm@openssh.com");
    reveal_strlit("none");
    reveal_with_fuel(crate::text::name_chars, 40);
    reveal_strlit("ext-info-c");
    reveal_strlit("ext-info-s");
    reveal_strlit("kex-strict-c-v00@openssh.com");
    reveal_strlit("kex-strict-c");
    reveal_strlit("kex-strict-s-v00@openssh.com");
    reveal_strlit("kex-strict-s");
    crate::text::lemma_literal_text("ext-info-c");
    crate::text::lemma_literal_text("ext-info-s");
    crate::text::lemma_literal_text("kex-strict-c-v00@openssh.com");
    crate::text::lemma_literal_text("kex-strict-c");
    crate::text::lemma_literal_text("kex-strict-s-v00@openssh.com");
    crate::text::lemma_literal_text("kex-strict-s");
}

/// Whatever a server proposes, a selection from this client's proposal is the
/// implemented profile.
pub proof fn lemma_client_selects_profile(cookie: Seq<u8>, ext_info: bool, strict: bool, server: ListsView)
    ensures
        negotiated(client_proposal(cookie, ext_info, strict), server) matches Ok(n) ==> profile_of(n) is Ok,
{
    let client = client_proposal(cookie, ext_info, strict);
    lemma_offered_texts();
    lemma_single_shared(bytes_of("ssh-ed25519"), server.host_key());
    lemma_single_shared(bytes_of("aes128-gcm@openssh.com"), server.enc_c2s());
    lemma_single_shared(bytes_of("aes128-gcm@openssh.com"), server.enc_s2c());
    lemma_single_shared(bytes_of("none"), server.comp_c2s());
    lemma_single_shared(bytes_of("none"), server.comp_s2c());
    lemma_first_shared(client.kex(), server.kex(), true, 0);
    match first_shared(client.kex(), server.kex(), true, 0) {
        Some(k) => {
            assert(k == bytes_of("curve25519-sha256")) by {
                let i = choose|i: int| #![trigger client.kex()[i]] 0 <= i < client.kex().len() && client.kex()[i] == k;
                assert(!marker(client.kex()[i]));
            }
        },
        None => {},
    }
}

/// Strict kex is in effect only where both sides offered the same spelling;
/// a client that offers none never has it.
pub proof fn lemma_strict_pairs(client: Seq<Seq<u8>>, server: Seq<Seq<u8>>)
    ensures
        strict_of(client, server).negotiated ==> (client.contains(bytes_of("kex-strict-c-v00@openssh.com"))
            && server.contains(bytes_of("kex-strict-s-v00@openssh.com"))) || (client.contains(
            bytes_of("kex-strict-c"),
        ) && server.contains(bytes_of("kex-strict-s"))),
        strict_of(client, Seq::empty()).negotiated == false,
{
}

} // verus!
