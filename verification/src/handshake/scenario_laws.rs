//! Which input draws what in a scenario.

use vstd::prelude::*;
use crate::handshake::scenario::{
    biased, first_newkeys, guess_of, ident_kind, msg_gen, msgs_gen, pair_gen, prot_gen, reply_gen,
    scenario_gen, short_gen, tamper_gen, trust_of, Msg, MsgView, Prot, Reply,
};
use crate::handshake::types::{TrustDecision, TrustSource, UntrustedReason};
use crate::kex_support::lists::ListsView;
use crate::seqs::bit;
use crate::tcp_support::{byte_at, dropped, taken, u32_at};
use crate::text::bytes_of;

verus! {

/// The kind of an unprotected message is drawn by its first byte.
pub proof fn lemma_message_drawn(s: Seq<u8>)
    ensures
        ({
            let (m, rest) = msg_gen(s);
            let k = byte_at(s, 0) % 11;
            let t = dropped(s, 1);
            let b = byte_at(t, 0);
            &&& m is Ignore <==> k == 0 || k == 1
            &&& m is Debug <==> k == 2
            &&& m is Unimplemented <==> k == 3
            &&& m is Disconnect <==> k == 4
            &&& m is Other <==> k == 5
            &&& m is KexInitAgain <==> k == 6
            &&& m is NewKeys <==> k == 7 && bit(b, 1)
            &&& m is ReplyAgain <==> k == 7 && !bit(b, 1)
            &&& m is Malformed <==> k == 8
            &&& m is Empty <==> k == 9
            &&& m is BadFrame <==> k == 10
            &&& m matches Msg::Ignore(d) ==> d == taken(dropped(t, 1), (b % 8) as int)
            &&& m matches Msg::Debug { always_display, message, language_tag } ==> always_display == bit(b, 1) && message
                == short_gen(dropped(t, 1)).0 && language_tag.len() == 0
            &&& m matches Msg::Unimplemented(n) ==> n == u32_at(t)
            &&& m matches Msg::Disconnect { reason_code, description } ==> reason_code == b % 20 && {
                let j = byte_at(dropped(t, 1), 0) % 3;
                description == bytes_of(
                    if j == 0 {
                        ""
                    } else if j == 1 {
                        "bye"
                    } else {
                        "too many"
                    },
                )
            }
            &&& m matches Msg::Other(n) ==> n == (if b % 6 == 0 {
                5u8
            } else if b % 6 == 1 {
                50
            } else if b % 6 == 2 {
                80
            } else if b % 6 == 3 {
                22
            } else if b % 6 == 4 {
                255
            } else {
                60
            })
            &&& m matches Msg::Malformed(x) ==> {
                &&& x is Ignore <==> b % 6 == 0
                &&& x is Debug <==> b % 6 == 1
                &&& x is Unimplemented <==> b % 6 == 2
                &&& x is Disconnect <==> b % 6 == 3
                &&& x is NewKeys <==> b % 6 == 4
                &&& x is KexInit <==> b % 6 == 5
            }
            &&& k == 6 || k == 9 || k == 10 ==> rest == t
            &&& k == 5 || k == 7 || k == 8 ==> rest == dropped(t, 1)
            &&& k == 3 ==> rest == dropped(t, 4)
        }),
{
}

/// The kind of a protected message is drawn by its first byte.
pub proof fn lemma_protected_drawn(s: Seq<u8>)
    ensures
        ({
            let (p, rest) = prot_gen(s);
            let k = byte_at(s, 0) % 13;
            let t = dropped(s, 1);
            let b = byte_at(t, 0);
            &&& p is ExtInfo <==> k == 0 || k == 1
            &&& p is ExtInfoTooMany <==> k == 2
            &&& p is ServiceAccept <==> 3 <= k <= 5
            &&& p is Disconnect <==> k == 6
            &&& p is KexInit <==> k == 7
            &&& p is Ignore <==> k == 8 && b % 3 == 0
            &&& p is Debug <==> k == 8 && b % 3 == 1
            &&& p is Unimplemented <==> k == 8 && b % 3 == 2
            &&& p is Other <==> k == 9
            &&& p is Empty <==> k == 10
            &&& p is Malformed <==> k == 11
            &&& p is BadLength <==> k == 12
            &&& p matches Prot::ServiceAccept(n) ==> n == bytes_of(
                if b % 3 == 0 {
                    "ssh-userauth"
                } else if b % 3 == 1 {
                    "ssh-connection"
                } else {
                    "ssh-userauth "
                },
            )
            &&& p matches Prot::Malformed(x) ==> {
                &&& x is Ignore <==> b % 5 == 0
                &&& x is Debug <==> b % 5 == 1
                &&& x is Disconnect <==> b % 5 == 2
                &&& x is ExtInfo <==> b % 5 == 3
                &&& x is ServiceAccept <==> b % 5 == 4
            }
            &&& p matches Prot::Unimplemented(n) ==> n == u32_at(dropped(t, 1))
            &&& p matches Prot::Debug { always_display, message, language_tag } ==> always_display && message == bytes_of(
                "hi",
            ) && language_tag == bytes_of("en")
            &&& k == 2 || k == 7 || k == 10 || k == 12 ==> rest == t
        }),
{
}

/// An extension: its name by the first byte; the signature algorithms of the
/// server are one of four lists, any other has up to seven open bytes.
pub proof fn lemma_extension_drawn(s: Seq<u8>)
    ensures
        ({
            let ((name, value), rest) = pair_gen(s);
            let i = byte_at(s, 0) % 4;
            let j = byte_at(dropped(s, 1), 0) % 4;
            &&& name == bytes_of(
                if i == 0 {
                    "server-sig-algs"
                } else if i == 1 {
                    "publickey-hostbound@openssh.com"
                } else if i == 2 {
                    "ping@openssh.com"
                } else {
                    "elevation"
                },
            )
            &&& i == 0 ==> value == bytes_of(
                if j == 0 {
                    "ssh-ed25519"
                } else if j == 1 {
                    "ssh-ed25519,rsa-sha2-512"
                } else if j == 2 {
                    "a,,b"
                } else {
                    ""
                },
            ) && rest == dropped(dropped(s, 1), 1)
        }),
{
}

/// Half of all replies are valid; the others fail in one way each.
pub proof fn lemma_reply_drawn(s: Seq<u8>)
    ensures
        ({
            let r = reply_gen(s).0;
            let k = byte_at(s, 0) % 24;
            &&& r is Valid <==> k < 12
            &&& r is WrongSig <==> k == 12
            &&& r is SigOverWrongHash <==> k == 13
            &&& r is SigAlgRsa <==> k == 14
            &&& r is SigTrailing <==> k == 15
            &&& r is SigShort <==> k == 16
            &&& r is KsAlgRsa <==> k == 17
            &&& r is KsKey31 <==> k == 18
            &&& r is KsMalformed <==> k == 19
            &&& r is QsZero <==> k == 20
            &&& r is QsShort <==> k == 21
            &&& r is Trailing <==> k == 22
            &&& r is Truncated <==> k == 23
            &&& r matches Reply::WrongSig(f) ==> f == byte_at(dropped(s, 1), 0)
        }),
{
}

/// Of eight identifications five are of version 2.0, and one each of 1.99, of
/// 2.0 with a line feed alone, and of 1.5; of six hosts four are trusted.
pub proof fn lemma_choices_drawn(k: u8, first: bool)
    ensures
        ident_kind(k) is V20 <==> k < 5,
        ident_kind(k) is V199 <==> k == 5,
        ident_kind(k) is V20LfOnly <==> k == 6,
        ident_kind(k) is V15 <==> k > 6,
        trust_of(k) == (TrustDecision::Untrusted { reason: UntrustedReason::FingerprintMismatch }) <==> k == 0,
        trust_of(k) == (TrustDecision::Untrusted { reason: UntrustedReason::NoPolicy }) <==> k == 1,
        trust_of(k) == (TrustDecision::Trusted { source: TrustSource::PinnedFingerprint }) <==> k > 1,
        guess_of(first, k) is Some <==> first && bit(k, 1),
        guess_of(first, k) matches Some(g) ==> g == 30 + (k / 2) % 20,
{
}

/// A packet is tampered with where the input says so and there is one: which,
/// where, and with an odd mask, so that its bits change.
pub proof fn lemma_tamper_drawn(s: Seq<u8>, packets: int)
    requires
        0 <= packets <= usize::MAX,
    ensures
        tamper_gen(s, packets).0 is Some <==> bit(byte_at(s, 0), 1) && packets > 0,
        tamper_gen(s, packets).0 matches Some((i, at, mask)) ==> i < packets && at == byte_at(
            dropped(dropped(s, 1), 1),
            0,
        ) && mask % 2 == 1,
{
}

/// A proposal that is biased keeps what it may and names the one algorithm that
/// negotiates everywhere else.
pub proof fn lemma_bias(l: ListsView, flags: u8)
    requires
        l.slots.len() == 10,
    ensures
        bit(flags, 0x80) ==> biased(l, flags) == l,
        !bit(flags, 0x80) ==> {
            let b = biased(l, flags);
            &&& b.cookie == l.cookie && b.first == l.first && b.reserved == l.reserved
            &&& bit(flags, 0x40) ==> b.slots[0] == l.slots[0]
            &&& !bit(flags, 0x40) ==> b.slots[0] == seq![bytes_of("curve25519-sha256")] + l.slots[0]
            &&& b.slots[1] == seq![bytes_of("ssh-ed25519")]
            &&& b.slots[2] == seq![bytes_of("aes128-gcm@openssh.com")]
            &&& b.slots[3] == seq![bytes_of("aes128-gcm@openssh.com")]
            &&& l.slots[4].len() > 0 ==> b.slots[4] == l.slots[4]
            &&& l.slots[5].len() > 0 ==> b.slots[5] == l.slots[5]
            &&& b.slots[6] == seq![bytes_of("none")]
            &&& b.slots[7] == seq![bytes_of("none")]
            &&& b.slots[8] == l.slots[8] && b.slots[9] == l.slots[9]
        },
{
}

proof fn lemma_cut(v: Seq<MsgView>, i: int)
    requires
        0 <= i <= v.len(),
    ensures
        i <= first_newkeys(v, i) <= v.len(),
        first_newkeys(v, i) < v.len() ==> v[first_newkeys(v, i)] is NewKeys,
        forall|j: int| i <= j < first_newkeys(v, i) ==> !(#[trigger] v[j] is NewKeys),
    decreases v.len() - i,
{
    if i < v.len() && !(v[i] is NewKeys) {
        lemma_cut(v, i + 1);
    }
}

/// A whole scenario: its switches are bits of one byte; before KEXINIT stands no
/// second KEXINIT, and before NEWKEYS no NEWKEYS: one that is drawn there is
/// the server's own.
pub proof fn lemma_scenario_drawn(data: Seq<u8>)
    ensures
        ({
            let (sc, sel, list) = scenario_gen(data);
            let flags = byte_at(dropped(dropped(dropped(data, 8), 32), 32), 0);
            &&& sc.advertise_ext_info == bit(flags, 1)
            &&& sc.offer_strict_kex == !bit(flags, 2)
            &&& sc.entropy_fail <==> flags % 16 == 12
            &&& sc.tiny_budget <==> flags % 16 == 8
            &&& sel == flags / 16
            &&& forall|i: int| 0 <= i < sc.before_newkeys.len() ==> !(#[trigger] sc.before_newkeys[i] is NewKeys)
            &&& forall|i: int| 0 <= i < sc.pre_kexinit.len() ==> !(#[trigger] sc.pre_kexinit[i] is KexInitAgain)
            &&& sc.guess is Some ==> sc.server.first
        }),
{
    let (opening, flags, s0) = crate::handshake::scenario::opening_gen(data);
    let s1 = dropped(s0, 1);
    let (before_reply, s2) = msgs_gen(dropped(s1, 1), (byte_at(s1, 0) % 3) as int);
    let (reply, s3) = reply_gen(s2);
    let (drawn, s4) = msgs_gen(dropped(s3, 1), (byte_at(s3, 0) % 3) as int);
    lemma_cut(drawn, 0);
}

} // verus!
