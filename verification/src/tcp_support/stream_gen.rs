//! Structured stream generation with an expectation model.

use vstd::prelude::*;
use crate::seqs::{bit, copy_bytes, copy_vecs, has_bit, nested, push_all, same_bytes, starts_with, vecs};
use crate::tcp_support::drive::{
    evs, opt_end, prelude_ev, End, Ev, EvView, ProposalView, Run, STAGE_IDENT, STAGE_PACKETS,
};
use crate::tcp_support::ident_ref::{is_forbidden, is_token_byte};
use crate::tcp_support::msg_ref::{
    anomalies_of, cookie_array, owned_of, transition_number, RefKexInit,
};
use crate::tcp_support::packet_ref::{encode_initial_packet, framed, max_length, max_packet_length};
use crate::tcp_support::types::{
    same_anomalies, IdentError, IdentLimits, InitialError, InvalidIdentification, LineTerminator,
    OwnedIdentification, OwnedKexInit, PacketError, ProposalAnomaly, SkippedMessage, VersionSupport,
};
use crate::tcp_support::{
    byte_at, dropped, filled, filler, put_string, taken, taken_filled, u16_at, u32_at, Cursor,
};
use crate::text::{
    ascii_bytes, ascii_string, ascii_text, bytes_of, lemma_name_literal, name_chars,
};
use crate::wire_core::bytes::{be32, be_u32, put_name_list, put_u32, ssh_string, u32_of};
use crate::wire_core::ident_ref::{forbidden_byte, ssh_prefix, token_byte, version_token};
use crate::wire_core::messages_ref::{
    debug_bytes, disconnect_bytes, ignore_bytes, kexinit_bytes, lists_bytes, unimplemented_bytes,
    DebugFields, DisconnectFields, KexInitFields, LIST_COUNT,
};
use crate::wire_core::namelist_ref::{joined, printable, valid_name, valid_names};

verus! {

/// Entries of the table of known names.
pub const NAME_COUNT: usize = 31;

/// Entries of the table of message numbers.
pub const OTHER_COUNT: usize = 15;

/// An upper bound on the length of generated names.
pub const MAX_NAME: usize = 64;

/// Known algorithm names and markers.
pub open spec fn known(i: int) -> &'static str {
    match i as u8 {
        0 => "curve25519-sha256",
        1 => "curve25519-sha256@libssh.org",
        2 => "ecdh-sha2-nistp256",
        3 => "diffie-hellman-group14-sha256",
        4 => "diffie-hellman-group-exchange-sha256",
        5 => "sntrup761x25519-sha512@openssh.com",
        6 => "mlkem768x25519-sha256",
        7 => "ext-info-c",
        8 => "ext-info-s",
        9 => "kex-strict-c-v00@openssh.com",
        10 => "kex-strict-s-v00@openssh.com",
        11 => "ssh-ed25519",
        12 => "rsa-sha2-256",
        13 => "rsa-sha2-512",
        14 => "ecdsa-sha2-nistp256",
        15 => "aes128-ctr",
        16 => "aes256-ctr",
        17 => "aes256-gcm@openssh.com",
        18 => "chacha20-poly1305@openssh.com",
        19 => "hmac-sha2-256",
        20 => "hmac-sha2-512",
        21 => "hmac-sha2-256-etm@openssh.com",
        22 => "umac-64@openssh.com",
        23 => "none",
        24 => "zlib",
        25 => "zlib@openssh.com",
        26 => "en-US",
        27 => "en",
        28 => "made-up-name",
        29 => "kex-strict-c",
        _ => "kex-strict-s",
    }
}

/// Known algorithm names and markers (unknown names are also generated).
pub fn known_name(i: u8) -> (r: &'static str)
    requires
        i < NAME_COUNT,
    ensures
        r == known(i as int),
{
    match i {
        0 => "curve25519-sha256",
        1 => "curve25519-sha256@libssh.org",
        2 => "ecdh-sha2-nistp256",
        3 => "diffie-hellman-group14-sha256",
        4 => "diffie-hellman-group-exchange-sha256",
        5 => "sntrup761x25519-sha512@openssh.com",
        6 => "mlkem768x25519-sha256",
        7 => "ext-info-c",
        8 => "ext-info-s",
        9 => "kex-strict-c-v00@openssh.com",
        10 => "kex-strict-s-v00@openssh.com",
        11 => "ssh-ed25519",
        12 => "rsa-sha2-256",
        13 => "rsa-sha2-512",
        14 => "ecdsa-sha2-nistp256",
        15 => "aes128-ctr",
        16 => "aes256-ctr",
        17 => "aes256-gcm@openssh.com",
        18 => "chacha20-poly1305@openssh.com",
        19 => "hmac-sha2-256",
        20 => "hmac-sha2-512",
        21 => "hmac-sha2-256-etm@openssh.com",
        22 => "umac-64@openssh.com",
        23 => "none",
        24 => "zlib",
        25 => "zlib@openssh.com",
        26 => "en-US",
        27 => "en",
        28 => "made-up-name",
        29 => "kex-strict-c",
        _ => "kex-strict-s",
    }
}

/// Every known name is a valid name of moderate length.
pub proof fn lemma_known_valid(i: int)
    requires
        0 <= i < NAME_COUNT,
    ensures
        valid_name(bytes_of(known(i))),
        bytes_of(known(i)).len() <= MAX_NAME,
        ascii_bytes(bytes_of(known(i))),
{
    reveal_with_fuel(name_chars, 40);
    if i == 0 {
        reveal_strlit("curve25519-sha256");
        lemma_name_literal("curve25519-sha256");
    }
    else if i == 1 {
        reveal_strlit("curve25519-sha256@libssh.org");
        lemma_name_literal("curve25519-sha256@libssh.org");
    }
    else if i == 2 {
        reveal_strlit("ecdh-sha2-nistp256");
        lemma_name_literal("ecdh-sha2-nistp256");
    }
    else if i == 3 {
        reveal_strlit("diffie-hellman-group14-sha256");
        lemma_name_literal("diffie-hellman-group14-sha256");
    }
    else if i == 4 {
        reveal_strlit("diffie-hellman-group-exchange-sha256");
        lemma_name_literal("diffie-hellman-group-exchange-sha256");
    }
    else if i == 5 {
        reveal_strlit("sntrup761x25519-sha512@openssh.com");
        lemma_name_literal("sntrup761x25519-sha512@openssh.com");
    }
    else if i == 6 {
        reveal_strlit("mlkem768x25519-sha256");
        lemma_name_literal("mlkem768x25519-sha256");
    }
    else if i == 7 {
        reveal_strlit("ext-info-c");
        lemma_name_literal("ext-info-c");
    }
    else if i == 8 {
        reveal_strlit("ext-info-s");
        lemma_name_literal("ext-info-s");
    }
    else if i == 9 {
        reveal_strlit("kex-strict-c-v00@openssh.com");
        lemma_name_literal("kex-strict-c-v00@openssh.com");
    }
    else if i == 10 {
        reveal_strlit("kex-strict-s-v00@openssh.com");
        lemma_name_literal("kex-strict-s-v00@openssh.com");
    }
    else if i == 11 {
        reveal_strlit("ssh-ed25519");
        lemma_name_literal("ssh-ed25519");
    }
    else if i == 12 {
        reveal_strlit("rsa-sha2-256");
        lemma_name_literal("rsa-sha2-256");
    }
    else if i == 13 {
        reveal_strlit("rsa-sha2-512");
        lemma_name_literal("rsa-sha2-512");
    }
    else if i == 14 {
        reveal_strlit("ecdsa-sha2-nistp256");
        lemma_name_literal("ecdsa-sha2-nistp256");
    }
    else if i == 15 {
        reveal_strlit("aes128-ctr");
        lemma_name_literal("aes128-ctr");
    }
    else if i == 16 {
        reveal_strlit("aes256-ctr");
        lemma_name_literal("aes256-ctr");
    }
    else if i == 17 {
        reveal_strlit("aes256-gcm@openssh.com");
        lemma_name_literal("aes256-gcm@openssh.com");
    }
    else if i == 18 {
        reveal_strlit("chacha20-poly1305@openssh.com");
        lemma_name_literal("chacha20-poly1305@openssh.com");
    }
    else if i == 19 {
        reveal_strlit("hmac-sha2-256");
        lemma_name_literal("hmac-sha2-256");
    }
    else if i == 20 {
        reveal_strlit("hmac-sha2-512");
        lemma_name_literal("hmac-sha2-512");
    }
    else if i == 21 {
        reveal_strlit("hmac-sha2-256-etm@openssh.com");
        lemma_name_literal("hmac-sha2-256-etm@openssh.com");
    }
    else if i == 22 {
        reveal_strlit("umac-64@openssh.com");
        lemma_name_literal("umac-64@openssh.com");
    }
    else if i == 23 {
        reveal_strlit("none");
        lemma_name_literal("none");
    }
    else if i == 24 {
        reveal_strlit("zlib");
        lemma_name_literal("zlib");
    }
    else if i == 25 {
        reveal_strlit("zlib@openssh.com");
        lemma_name_literal("zlib@openssh.com");
    }
    else if i == 26 {
        reveal_strlit("en-US");
        lemma_name_literal("en-US");
    }
    else if i == 27 {
        reveal_strlit("en");
        lemma_name_literal("en");
    }
    else if i == 28 {
        reveal_strlit("made-up-name");
        lemma_name_literal("made-up-name");
    }
    else if i == 29 {
        reveal_strlit("kex-strict-c");
        lemma_name_literal("kex-strict-c");
    }
    else {
        reveal_strlit("kex-strict-s");
        lemma_name_literal("kex-strict-s");
    }
}

/// Message numbers that are not valid before KEXINIT.
pub open spec fn other(i: int) -> u8 {
    match i as u8 {
        0 => 5,
        1 => 6,
        2 => 7,
        3 => 21,
        4 => 30,
        5 => 31,
        6 => 49,
        7 => 50,
        8 => 0,
        9 => 60,
        10 => 80,
        11 => 90,
        12 => 255,
        13 => 22,
        _ => 29,
    }
}

/// Message numbers that are not valid before KEXINIT.
pub fn other_number(i: u8) -> (r: u8)
    requires
        i < OTHER_COUNT,
    ensures
        r == other(i as int),
{
    match i {
        0 => 5,
        1 => 6,
        2 => 7,
        3 => 21,
        4 => 30,
        5 => 31,
        6 => 49,
        7 => 50,
        8 => 0,
        9 => 60,
        10 => 80,
        11 => 90,
        12 => 255,
        13 => 22,
        _ => 29,
    }
}

/// Which side produced the stream.
#[derive(Clone, Copy, Debug, PartialEq, Eq, Structural)]
pub enum Role {
    /// Server bytes, consumed by a client.
    Server,
    /// Client bytes, consumed by a server.
    Client,
}

/// The token byte that stands for `b`.
pub open spec fn token_for(b: u8) -> u8 {
    if token_byte(b) {
        b
    } else {
        (97 + b % 26) as u8
    }
}

/// Byte to a valid token byte.
pub fn sanitize_token(b: u8) -> (r: u8)
    ensures
        r == token_for(b),
        token_byte(r),
{
    if is_token_byte(b) {
        b
    } else {
        97 + b % 26
    }
}

/// The name byte that stands for `b`.
pub open spec fn name_for(b: u8) -> u8 {
    if printable(b) && b != 44u8 {
        b
    } else {
        (97 + b % 26) as u8
    }
}

/// Byte to a valid name byte.
pub fn sanitize_name(b: u8) -> (r: u8)
    ensures
        r == name_for(b),
        printable(r) && r != 44u8,
{
    if 0x21 <= b && b <= 0x7e && b != 44u8 {
        b
    } else {
        97 + b % 26
    }
}

/// The comment byte that stands for `b`.
pub open spec fn comment_for(b: u8) -> u8 {
    if forbidden_byte(b) {
        46
    } else {
        b
    }
}

fn push_terminator(out: &mut Vec<u8>, t: LineTerminator)
    ensures
        final(out)@ == old(out)@ + t.bytes(),
{
    match t {
        LineTerminator::CrLf => {
            out.push(13);
            out.push(10);
        },
        LineTerminator::Lf => {
            out.push(10);
        },
    }
    proof {
        assert(out@ =~= old(out)@ + t.bytes());
    }
}

/// A generated identification line.
#[derive(Debug)]
pub struct GenIdent<B = Vec<u8>, T = String> {
    /// Content without terminator.
    pub content: B,
    pub terminator: LineTerminator,
    /// What the reader must report (before length limits).
    pub expect: Result<OwnedIdentification<B, T>, IdentError>,
}

/// A generated identification over sequences.
pub type GenIdentView = GenIdent<Seq<u8>, Seq<char>>;

impl View for GenIdent<Vec<u8>, String> {
    type V = GenIdentView;

    open spec fn view(&self) -> GenIdentView {
        GenIdent {
            content: self.content@,
            terminator: self.terminator,
            expect: match self.expect {
                Ok(o) => Ok(o@),
                Err(e) => Err(e),
            },
        }
    }
}

/// The terminator that a flag selects.
pub open spec fn terminator_for(flags: u8) -> LineTerminator {
    if bit(flags, 1) {
        LineTerminator::Lf
    } else {
        LineTerminator::CrLf
    }
}

/// The protocol version that the flags select.
pub open spec fn proto_for(flags: u8) -> &'static str {
    if bit(flags, 8) {
        "1.5"
    } else if bit(flags, 2) {
        "1.99"
    } else {
        "2.0"
    }
}

/// A software version from raw bytes: never empty.
pub open spec fn software_for(raw: Seq<u8>) -> Seq<u8> {
    if raw.len() == 0 {
        seq![120u8]
    } else {
        raw.map_values(|b: u8| token_for(b))
    }
}

/// The identification that the flags, the software version and the comments
/// describe.
pub open spec fn ident_for(flags: u8, sw: Seq<u8>, comments: Seq<u8>) -> GenIdentView {
    let proto = bytes_of(proto_for(flags));
    let fixed = ssh_prefix() + proto + seq![45u8] + sw;
    let content = if bit(flags, 4) {
        fixed + seq![32u8] + comments
    } else {
        fixed
    };
    let terminator = terminator_for(flags);
    if bit(flags, 16) {
        let kind = flags / 32 % 4;
        if kind == 0 {
            GenIdent {
                content: bytes_of("SSH-2.0") + sw,
                terminator,
                expect: Err(IdentError::InvalidIdentification(InvalidIdentification::MissingSeparator)),
            }
        } else if kind == 1 {
            GenIdent {
                content: bytes_of("SSH--") + sw,
                terminator,
                expect: Err(IdentError::InvalidIdentification(InvalidIdentification::BadProtocolVersion)),
            }
        } else if kind == 2 {
            GenIdent {
                content: bytes_of("SSH-2.0- ") + comments,
                terminator,
                expect: Err(IdentError::InvalidIdentification(InvalidIdentification::BadSoftwareVersion)),
            }
        } else {
            GenIdent {
                content: bytes_of("SSH-2.0-") + sw + seq![13u8, 120u8],
                terminator,
                expect: Err(IdentError::InvalidIdentification(InvalidIdentification::ControlCharacter)),
            }
        }
    } else if bit(flags, 8) {
        GenIdent { content, terminator, expect: Err(IdentError::UnsupportedVersion) }
    } else {
        GenIdent {
            content,
            terminator,
            expect: Ok(
                OwnedIdentification {
                    line: content,
                    terminator,
                    protocol_version: proto_for(flags)@,
                    software_version: ascii_text(sw),
                    comments: if bit(flags, 4) {
                        Some(comments)
                    } else {
                        None
                    },
                    support: if bit(flags, 2) {
                        VersionSupport::Ssh2Compatibility
                    } else {
                        VersionSupport::Ssh2
                    },
                },
            ),
        }
    }
}

/// The identification that the input describes, and the input behind it.
pub open spec fn ident_gen(s: Seq<u8>) -> (GenIdentView, Seq<u8>) {
    let flags = byte_at(s, 0);
    let s1 = dropped(s, 1);
    let sw_len = byte_at(s1, 0) % 65;
    let s2 = dropped(s1, 1);
    let sw = software_for(taken(s2, sw_len as int));
    let s3 = dropped(s2, sw_len as int);
    let c_len = byte_at(s3, 0) % 201;
    let s4 = dropped(s3, 1);
    let comments = taken(s4, c_len as int).map_values(|b: u8| comment_for(b));
    (ident_for(flags, sw, comments), dropped(s4, c_len as int))
}

fn software_from(raw: &[u8]) -> (r: Vec<u8>)
    ensures
        r@ == software_for(raw@),
        version_token(r@),
        ascii_bytes(r@),
{
    let mut sw: Vec<u8> = Vec::new();
    let mut i: usize = 0;
    while i < raw.len()
        invariant
            i <= raw@.len(),
            sw@.len() == i,
            forall|j: int| 0 <= j < i ==> #[trigger] sw@[j] == token_for(raw@[j]),
        decreases raw@.len() - i,
    {
        sw.push(sanitize_token(raw[i]));
        i = i + 1;
    }
    if sw.len() == 0 {
        sw.push(120);
    }
    proof {
        assert(sw@ =~= software_for(raw@));
        assert forall|j: int| 0 <= j < sw@.len() implies token_byte(#[trigger] sw@[j]) by {
            if raw@.len() > 0 {
                assert(sw@[j] == token_for(raw@[j]));
            }
        }
    }
    sw
}

fn comments_from(raw: &[u8]) -> (r: Vec<u8>)
    ensures
        r@ == raw@.map_values(|b: u8| comment_for(b)),
{
    let mut out: Vec<u8> = Vec::new();
    let mut i: usize = 0;
    while i < raw.len()
        invariant
            i <= raw@.len(),
            out@.len() == i,
            forall|j: int| 0 <= j < i ==> #[trigger] out@[j] == comment_for(raw@[j]),
        decreases raw@.len() - i,
    {
        out.push(if is_forbidden(raw[i]) { 46 } else { raw[i] });
        i = i + 1;
    }
    proof {
        assert(out@ =~= raw@.map_values(|b: u8| comment_for(b)));
    }
    out
}

fn concat2(a: &[u8], b: &[u8]) -> (r: Vec<u8>)
    ensures
        r@ == a@ + b@,
{
    let mut out = copy_bytes(a);
    push_all(&mut out, b);
    out
}

/// Builds the identification that the flags, the software version and the
/// comments describe.
pub fn build_ident(flags: u8, sw: Vec<u8>, comments: Vec<u8>) -> (r: GenIdent)
    requires
        ascii_bytes(sw@),
    ensures
        r@ == ident_for(flags, sw@, comments@),
{
    let terminator = if has_bit(flags, 1) {
        LineTerminator::Lf
    } else {
        LineTerminator::CrLf
    };
    if has_bit(flags, 16) {
        let kind: u8 = flags / 32 % 4;
        if kind == 0 {
            return GenIdent {
                content: concat2("SSH-2.0".as_bytes(), sw.as_slice()),
                terminator,
                expect: Err(IdentError::InvalidIdentification(InvalidIdentification::MissingSeparator)),
            };
        }
        if kind == 1 {
            return GenIdent {
                content: concat2("SSH--".as_bytes(), sw.as_slice()),
                terminator,
                expect: Err(IdentError::InvalidIdentification(InvalidIdentification::BadProtocolVersion)),
            };
        }
        if kind == 2 {
            return GenIdent {
                content: concat2("SSH-2.0- ".as_bytes(), comments.as_slice()),
                terminator,
                expect: Err(IdentError::InvalidIdentification(InvalidIdentification::BadSoftwareVersion)),
            };
        }
        let mut content = concat2("SSH-2.0-".as_bytes(), sw.as_slice());
        content.push(13);
        content.push(120);
        proof {
            assert(content@ =~= bytes_of("SSH-2.0-") + sw@ + seq![13u8, 120u8]);
        }
        return GenIdent {
            content,
            terminator,
            expect: Err(IdentError::InvalidIdentification(InvalidIdentification::ControlCharacter)),
        };
    }
    let proto: &'static str = if has_bit(flags, 8) {
        "1.5"
    } else if has_bit(flags, 2) {
        "1.99"
    } else {
        "2.0"
    };
    let with_comments: bool = has_bit(flags, 4);
    let mut content: Vec<u8> = Vec::new();
    content.push(83);
    content.push(83);
    content.push(72);
    content.push(45);
    push_all(&mut content, proto.as_bytes());
    content.push(45);
    push_all(&mut content, sw.as_slice());
    if with_comments {
        content.push(32);
        push_all(&mut content, comments.as_slice());
    }
    proof {
        let fixed = ssh_prefix() + bytes_of(proto) + seq![45u8] + sw@;
        if with_comments {
            assert(content@ =~= fixed + seq![32u8] + comments@);
        } else {
            assert(content@ =~= fixed);
        }
    }
    if has_bit(flags, 8) {
        return GenIdent { content, terminator, expect: Err(IdentError::UnsupportedVersion) };
    }
    let line = copy_bytes(content.as_slice());
    let support = if has_bit(flags, 2) {
        VersionSupport::Ssh2Compatibility
    } else {
        VersionSupport::Ssh2
    };
    let owned = OwnedIdentification {
        line,
        terminator,
        protocol_version: proto.to_owned(),
        software_version: ascii_string(sw),
        comments: if with_comments {
            Some(comments)
        } else {
            None
        },
        support,
    };
    GenIdent { content, terminator, expect: Ok(owned) }
}

/// Layout: flags u8 (bit0 LF-only; bit1 `1.99`; bit2 comments present; bit3
/// `1.5`; bit4 invalid syntax, kind in bits 5-6), sw_len u8 (mod 65) and
/// bytes, c_len u8 (mod 201) and bytes.
pub fn gen_ident(cur: &mut Cursor<'_>) -> (r: GenIdent)
    ensures
        (r@, final(cur)@) == ident_gen(old(cur)@),
{
    let flags: u8 = cur.u8();
    let sw_len: usize = (cur.u8() % 65) as usize;
    let sw = software_from(cur.take(sw_len));
    let c_len: usize = (cur.u8() % 201) as usize;
    let comments = comments_from(cur.take(c_len));
    build_ident(flags, sw, comments)
}

/// A prelude line from raw bytes: no LF, no identification prefix, no CR at
/// the end.
pub open spec fn prelude_for(raw: Seq<u8>) -> Seq<u8> {
    let a = raw.map_values(|b: u8| if b == 10u8 { 46u8 } else { b });
    let b = if ssh_prefix().is_prefix_of(a) {
        a.update(0, 35u8)
    } else {
        a
    };
    if b.len() > 0 && b.last() == 13u8 {
        b.update(b.len() - 1, 46u8)
    } else {
        b
    }
}

/// The prelude line that the input describes, and the input behind it.
pub open spec fn prelude_line_gen(s: Seq<u8>) -> ((Seq<u8>, LineTerminator), Seq<u8>) {
    let flags = byte_at(s, 0);
    let len = byte_at(dropped(s, 1), 0) as int;
    let s2 = dropped(dropped(s, 1), 1);
    if bit(flags, 2) {
        ((prelude_for(filled(1024 + len, 5)), terminator_for(flags)), s2)
    } else {
        ((prelude_for(taken(s2, len)), terminator_for(flags)), dropped(s2, len))
    }
}

/// Layout: flags u8 (bit0 LF-only; bit1 long line of 1024 + len filler bytes,
/// consuming no further input), len u8, then len bytes unless long. Never
/// starts with `SSH-`, never contains LF, never ends with CR (so the
/// terminator is unambiguous).
pub fn gen_prelude_line(cur: &mut Cursor<'_>) -> (r: (Vec<u8>, LineTerminator))
    ensures
        ((r.0@, r.1), final(cur)@) == prelude_line_gen(old(cur)@),
{
    let flags: u8 = cur.u8();
    let len: usize = cur.u8() as usize;
    let mut line = if has_bit(flags, 2) {
        filler(1024 + len, 5)
    } else {
        copy_bytes(cur.take(len))
    };
    let ghost raw = line@;
    let mut i: usize = 0;
    while i < line.len()
        invariant
            i <= line@.len(),
            line@.len() == raw.len(),
            forall|j: int| 0 <= j < i ==> #[trigger] line@[j] == (if raw[j] == 10u8 { 46u8 } else { raw[j] }),
            forall|j: int| i <= j < raw.len() ==> line@[j] == raw[j],
        decreases line@.len() - i,
    {
        if line[i] == 10u8 {
            line.set(i, 46);
        }
        i = i + 1;
    }
    let prefix: [u8; 4] = [83, 83, 72, 45];
    proof {
        assert(prefix@ =~= ssh_prefix());
        assert(line@ =~= raw.map_values(|b: u8| if b == 10u8 { 46u8 } else { b }));
    }
    if starts_with(line.as_slice(), prefix.as_slice()) {
        line.set(0, 35);
    }
    if line.len() > 0 && line[line.len() - 1] == 13u8 {
        let last: usize = line.len() - 1;
        line.set(last, 46);
    }
    let terminator = if has_bit(flags, 1) {
        LineTerminator::Lf
    } else {
        LineTerminator::CrLf
    };
    (line, terminator)
}

/// The name that the input describes, and the input behind it.
pub open spec fn name_gen(s: Seq<u8>) -> (Seq<u8>, Seq<u8>) {
    let idx = byte_at(s, 0) as int;
    let s1 = dropped(s, 1);
    if idx < NAME_COUNT {
        (bytes_of(known(idx)), s1)
    } else {
        let len = 1 + (idx - NAME_COUNT) % 16;
        (taken_filled(s1, len, 13).map_values(|b: u8| name_for(b)), dropped(s1, len))
    }
}

/// Layout: idx u8: a table entry, or (idx beyond the table) a name of
/// `1 + (idx - table) % 16` sanitized bytes.
pub fn gen_name(cur: &mut Cursor<'_>) -> (r: Vec<u8>)
    ensures
        (r@, final(cur)@) == name_gen(old(cur)@),
        valid_name(r@),
        r@.len() <= MAX_NAME,
{
    let idx: u8 = cur.u8();
    if (idx as usize) < NAME_COUNT {
        proof {
            lemma_known_valid(idx as int);
        }
        copy_bytes(known_name(idx).as_bytes())
    } else {
        let len: usize = 1 + (idx as usize - NAME_COUNT) % 16;
        let raw = cur.take_filled(len, 13);
        let mut out: Vec<u8> = Vec::new();
        let mut i: usize = 0;
        while i < raw.len()
            invariant
                i <= raw@.len(),
                out@.len() == i,
                forall|j: int| 0 <= j < i ==> #[trigger] out@[j] == name_for(raw@[j]),
                forall|j: int| 0 <= j < i ==> printable(#[trigger] out@[j]) && out@[j] != 44u8,
            decreases raw@.len() - i,
        {
            out.push(sanitize_name(raw[i]));
            i = i + 1;
        }
        proof {
            assert(out@ =~= raw@.map_values(|b: u8| name_for(b)));
        }
        out
    }
}

/// `n` names from the input, and the input behind them.
pub open spec fn names_gen(s: Seq<u8>, n: int) -> (Seq<Seq<u8>>, Seq<u8>)
    decreases n,
{
    if n <= 0 {
        (Seq::empty(), s)
    } else {
        let (names, s1) = names_gen(s, n - 1);
        let (name, s2) = name_gen(s1);
        (names.push(name), s2)
    }
}

/// `n` name lists from the input, and the input behind them.
pub open spec fn lists_gen(s: Seq<u8>, n: int) -> (Seq<Seq<Seq<u8>>>, Seq<u8>)
    decreases n,
{
    if n <= 0 {
        (Seq::empty(), s)
    } else {
        let (lists, s1) = lists_gen(s, n - 1);
        let (list, s2) = names_gen(dropped(s1, 1), (byte_at(s1, 0) % 4) as int);
        (lists.push(list), s2)
    }
}

/// Valid names, at most `n` of them, of moderate length.
pub open spec fn moderate(names: Seq<Seq<u8>>, n: int) -> bool {
    valid_names(names) && names.len() <= n && forall|i: int|
        0 <= i < names.len() ==> (#[trigger] names[i]).len() <= MAX_NAME
}

/// A body of moderate names is short.
pub proof fn lemma_joined_short(names: Seq<Seq<u8>>)
    requires
        forall|i: int| 0 <= i < names.len() ==> (#[trigger] names[i]).len() <= MAX_NAME,
    ensures
        joined(names).len() <= names.len() * 65,
    decreases names.len(),
{
    if names.len() > 1 {
        lemma_joined_short(names.drop_last());
    }
}

fn gen_names(cur: &mut Cursor<'_>, n: usize) -> (r: Vec<Vec<u8>>)
    ensures
        (vecs(r@), final(cur)@) == names_gen(old(cur)@, n as int),
        moderate(vecs(r@), n as int),
{
    let mut out: Vec<Vec<u8>> = Vec::new();
    let mut i: usize = 0;
    proof {
        assert(vecs(out@) =~= Seq::empty());
    }
    while i < n
        invariant
            i <= n,
            (vecs(out@), cur@) == names_gen(old(cur)@, i as int),
            moderate(vecs(out@), i as int),
            out@.len() == i,
        decreases n - i,
    {
        let ghost before = vecs(out@);
        let name = gen_name(cur);
        let ghost v = name@;
        out.push(name);
        i = i + 1;
        proof {
            assert(vecs(out@) =~= before.push(v));
            assert forall|j: int| 0 <= j < vecs(out@).len() implies valid_name(#[trigger] vecs(out@)[j])
                && vecs(out@)[j].len() <= MAX_NAME by {
                if j < before.len() {
                    assert(vecs(out@)[j] == before[j]);
                }
            }
        }
    }
    out
}

/// A generated KEXINIT.
#[derive(Clone, Debug)]
pub struct GenKexInit<C = [u8; 16], L = Vec<Vec<Vec<u8>>>, B = Vec<u8>> {
    pub cookie: C,
    pub lists: L,
    /// Raw boolean byte as sent (non-canonical values allowed).
    pub first_kex_packet_follows: u8,
    pub reserved: u32,
    /// Trailing bytes cut from the payload (nonzero means malformed).
    pub truncate: usize,
    /// The payload as framed.
    pub payload: B,
}

/// A generated KEXINIT over sequences.
pub type GenKexView = GenKexInit<Seq<u8>, Seq<Seq<Seq<u8>>>, Seq<u8>>;

impl View for GenKexInit<[u8; 16], Vec<Vec<Vec<u8>>>, Vec<u8>> {
    type V = GenKexView;

    open spec fn view(&self) -> GenKexView {
        GenKexInit {
            cookie: self.cookie@,
            lists: nested(self.lists@),
            first_kex_packet_follows: self.first_kex_packet_follows,
            reserved: self.reserved,
            truncate: self.truncate,
            payload: self.payload@,
        }
    }
}

/// The decode of a generated KEXINIT.
pub open spec fn expected_kexinit(k: GenKexView) -> RefKexInit<Seq<u8>, Seq<Seq<Seq<u8>>>> {
    RefKexInit {
        cookie: k.cookie,
        lists: k.lists,
        first_kex_packet_follows: k.first_kex_packet_follows != 0,
        reserved: k.reserved,
    }
}

/// The fields of a generated KEXINIT as they stand on the wire.
pub open spec fn kex_fields(cookie: Seq<u8>, lists: Seq<Seq<Seq<u8>>>, first: u8, reserved: u32) -> KexInitFields {
    KexInitFields {
        cookie,
        names: lists,
        first_byte: first,
        first_offset: 17 + lists_bytes(lists, 0).len() as int,
        reserved,
    }
}

/// Ten lists of moderate names, a payload that is the message cut by
/// `truncate` bytes.
pub open spec fn kex_wf(k: GenKexView) -> bool {
    let whole = kexinit_bytes(kex_fields(k.cookie, k.lists, k.first_kex_packet_follows, k.reserved));
    &&& k.cookie.len() == 16
    &&& k.lists.len() == LIST_COUNT
    &&& forall|i: int| 0 <= i < LIST_COUNT ==> moderate(#[trigger] k.lists[i], 6)
    &&& k.truncate <= 7
    &&& k.payload == whole.take(whole.len() - k.truncate)
    &&& 0 < k.payload.len() <= 0x1000
}

/// Ten lists of valid names.
pub open spec fn kex_listed(k: GenKexView) -> bool {
    k.lists.len() == LIST_COUNT && forall|i: int| 0 <= i < LIST_COUNT ==> valid_names(#[trigger] k.lists[i])
}

impl GenKexInit<[u8; 16], Vec<Vec<Vec<u8>>>, Vec<u8>> {
    /// The decode that an untruncated payload leads to.
    pub fn expected(&self) -> (r: RefKexInit)
        ensures
            r@ == expected_kexinit(self@),
            kex_listed(self@) ==> r.wf(),
    {
        let mut lists: Vec<Vec<Vec<u8>>> = Vec::new();
        let mut i: usize = 0;
        while i < self.lists.len()
            invariant
                i <= self.lists@.len(),
                lists@.len() == i,
                forall|j: int| 0 <= j < i ==> vecs(#[trigger] lists@[j]@) == vecs(self.lists@[j]@),
            decreases self.lists@.len() - i,
        {
            lists.push(copy_vecs(&self.lists[i]));
            i = i + 1;
        }
        proof {
            assert(nested(lists@) =~= nested(self.lists@));
        }
        RefKexInit {
            cookie: self.cookie,
            lists,
            first_kex_packet_follows: self.first_kex_packet_follows != 0,
            reserved: self.reserved,
        }
    }
}

/// Role markers appended to the key exchange list.
pub open spec fn with_markers(list: Seq<Seq<u8>>, flags: u8, role: Role) -> Seq<Seq<u8>> {
    let a = if bit(flags, 1) {
        match role {
            Role::Server => list.push(bytes_of(known(8))).push(bytes_of(known(10))),
            Role::Client => list.push(bytes_of(known(7))).push(bytes_of(known(9))),
        }
    } else {
        list
    };
    if bit(flags, 32) {
        match role {
            Role::Server => a.push(bytes_of(known(30))),
            Role::Client => a.push(bytes_of(known(29))),
        }
    } else {
        a
    }
}

/// The KEXINIT that the input describes, and the input behind it.
pub open spec fn kexinit_gen(s: Seq<u8>, role: Role) -> (GenKexView, Seq<u8>) {
    let flags = byte_at(s, 0);
    let s1 = dropped(s, 1);
    let cookie = taken_filled(s1, 16, 7);
    let (drawn, s2) = lists_gen(dropped(s1, 16), 10);
    let marked = drawn.update(0, with_markers(drawn[0], flags, role));
    let (lists, s3) = if bit(flags, 2) {
        (marked.update((byte_at(s2, 0) % 8) as int, Seq::empty()), dropped(s2, 1))
    } else {
        (marked, s2)
    };
    let (first, s4) = if bit(flags, 4) {
        (byte_at(s3, 0), dropped(s3, 1))
    } else {
        (0u8, s3)
    };
    let (reserved, s5) = if bit(flags, 8) {
        (u32_at(s4), dropped(s4, 4))
    } else {
        (0u32, s4)
    };
    let (truncate, s6) = if bit(flags, 16) {
        (1 + byte_at(s5, 0) % 7, dropped(s5, 1))
    } else {
        (0int, s5)
    };
    let whole = kexinit_bytes(kex_fields(cookie, lists, first, reserved));
    (
        GenKexInit {
            cookie,
            lists,
            first_kex_packet_follows: first,
            reserved,
            truncate: truncate as usize,
            payload: whole.take(whole.len() - truncate),
        },
        s6,
    )
}

/// Lists of moderate names are short on the wire.
pub proof fn lemma_lists_short(lists: Seq<Seq<Seq<u8>>>, i: int)
    requires
        0 <= i <= lists.len(),
        forall|j: int| 0 <= j < lists.len() ==> moderate(#[trigger] lists[j], 6),
    ensures
        lists_bytes(lists, i).len() <= (lists.len() - i) * 394,
        lists_bytes(lists, i).len() >= (lists.len() - i) * 4,
    decreases lists.len() - i,
{
    broadcast use crate::wire_core::bytes::lemma_be32_len;

    if i < lists.len() {
        lemma_lists_short(lists, i + 1);
        assert(moderate(lists[i], 6));
        lemma_joined_short(lists[i]);
    }
}

/// The payload of a KEXINIT with moderate lists.
pub fn kexinit_payload(cookie: &[u8; 16], lists: &Vec<Vec<Vec<u8>>>, first: u8, reserved: u32) -> (r: Vec<u8>)
    requires
        forall|i: int| 0 <= i < lists@.len() ==> moderate(#[trigger] nested(lists@)[i], 6),
    ensures
        r@ == kexinit_bytes(kex_fields(cookie@, nested(lists@), first, reserved)),
{
    let ghost names = nested(lists@);
    let mut out: Vec<u8> = Vec::new();
    out.push(20);
    push_all(&mut out, cookie.as_slice());
    let ghost head = out@;
    proof {
        assert(head =~= seq![20u8] + cookie@);
    }
    let mut i: usize = 0;
    while i < lists.len()
        invariant
            i <= lists@.len(),
            names == nested(lists@),
            forall|j: int| 0 <= j < lists@.len() ==> moderate(#[trigger] names[j], 6),
            out@ + lists_bytes(names, i as int) == head + lists_bytes(names, 0),
        decreases lists@.len() - i,
    {
        let ghost before = out@;
        proof {
            assert(names[i as int] == vecs(lists@[i as int]@));
            assert(moderate(names[i as int], 6));
            lemma_joined_short(names[i as int]);
        }
        put_name_list(&mut out, lists[i].as_slice());
        proof {
            let one = ssh_string(joined(names[i as int]));
            assert(before + (one + lists_bytes(names, i + 1)) =~= out@ + lists_bytes(names, i + 1));
        }
        i = i + 1;
    }
    proof {
        assert(out@ + Seq::<u8>::empty() =~= out@);
    }
    out.push(first);
    put_u32(&mut out, reserved);
    proof {
        assert(out@ =~= kexinit_bytes(kex_fields(cookie@, names, first, reserved)));
    }
    out
}

/// The markers leave a list moderate.
pub proof fn lemma_marked_moderate(list: Seq<Seq<u8>>, flags: u8, role: Role)
    requires
        moderate(list, 3),
    ensures
        moderate(with_markers(list, flags, role), 6),
{
    lemma_known_valid(7);
    lemma_known_valid(8);
    lemma_known_valid(9);
    lemma_known_valid(10);
    lemma_known_valid(29);
    lemma_known_valid(30);
}

fn marked(list: &Vec<Vec<u8>>, flags: u8, role: Role) -> (r: Vec<Vec<u8>>)
    ensures
        vecs(r@) == with_markers(vecs(list@), flags, role),
{
    let mut out = copy_vecs(list);
    if has_bit(flags, 1) {
        let ghost v0 = vecs(out@);
        let (a, b) = match role {
            Role::Server => (copy_bytes(known_name(8).as_bytes()), copy_bytes(known_name(10).as_bytes())),
            Role::Client => (copy_bytes(known_name(7).as_bytes()), copy_bytes(known_name(9).as_bytes())),
        };
        let ghost va = a@;
        let ghost vb = b@;
        out.push(a);
        out.push(b);
        proof {
            assert(vecs(out@) =~= v0.push(va).push(vb));
        }
    }
    if has_bit(flags, 32) {
        let ghost v1 = vecs(out@);
        let c = match role {
            Role::Server => copy_bytes(known_name(30).as_bytes()),
            Role::Client => copy_bytes(known_name(29).as_bytes()),
        };
        let ghost vc = c@;
        out.push(c);
        proof {
            assert(vecs(out@) =~= v1.push(vc));
        }
    }
    out
}

fn gen_lists(cur: &mut Cursor<'_>, n: usize) -> (r: Vec<Vec<Vec<u8>>>)
    ensures
        (nested(r@), final(cur)@) == lists_gen(old(cur)@, n as int),
        r@.len() == n,
        forall|j: int| 0 <= j < n ==> moderate(#[trigger] nested(r@)[j], 3),
{
    let mut out: Vec<Vec<Vec<u8>>> = Vec::new();
    let mut i: usize = 0;
    proof {
        assert(nested(out@) =~= Seq::empty());
    }
    while i < n
        invariant
            i <= n,
            out@.len() == i,
            (nested(out@), cur@) == lists_gen(old(cur)@, i as int),
            forall|j: int| 0 <= j < i ==> moderate(#[trigger] nested(out@)[j], 3),
        decreases n - i,
    {
        let ghost before = nested(out@);
        let count: usize = (cur.u8() % 4) as usize;
        let list = gen_names(cur, count);
        let ghost v = vecs(list@);
        out.push(list);
        i = i + 1;
        proof {
            assert(nested(out@) =~= before.push(v));
        }
    }
    out
}

/// Layout: flags u8 (bit0 add role markers (`ext-info-*` and the pre-standard
/// `kex-strict-*-v00@openssh.com`) to kex_algorithms; bit1 empty a required
/// list (index u8 mod 8); bit2 raw first_kex_packet_follows byte follows;
/// bit3 reserved u32 follows; bit4 truncate 1 + u8 mod 7 bytes; bit5 add the
/// standard role marker `kex-strict-c` / `kex-strict-s`), cookie 16 bytes,
/// then ten lists: count u8 mod 4, names.
pub fn gen_kexinit(cur: &mut Cursor<'_>, role: Role) -> (r: GenKexInit)
    ensures
        (r@, final(cur)@) == kexinit_gen(old(cur)@, role),
        kex_wf(r@),
{
    let flags: u8 = cur.u8();
    let raw = cur.take_filled(16, 7);
    let cookie = cookie_array(raw.as_slice());
    let mut lists = gen_lists(cur, 10);
    let ghost drawn = nested(lists@);
    let first_list = marked(&lists[0], flags, role);
    proof {
        assert(drawn[0] == vecs(lists@[0]@));
        assert(moderate(drawn[0], 3));
        lemma_marked_moderate(drawn[0], flags, role);
    }
    let ghost m = vecs(first_list@);
    lists.set(0, first_list);
    proof {
        assert(nested(lists@) =~= drawn.update(0, m));
        assert forall|j: int| 0 <= j < 10 implies moderate(#[trigger] nested(lists@)[j], 6) by {
            assert(moderate(drawn[j], 3));
        }
    }
    if has_bit(flags, 2) {
        let idx: usize = (cur.u8() % 8) as usize;
        let ghost before = nested(lists@);
        let none: Vec<Vec<u8>> = Vec::new();
        proof {
            assert(vecs(none@) =~= Seq::empty());
        }
        lists.set(idx, none);
        proof {
            assert(nested(lists@) =~= before.update(idx as int, Seq::empty()));
            assert forall|j: int| 0 <= j < 10 implies moderate(#[trigger] nested(lists@)[j], 6) by {
                assert(moderate(before[j], 6));
            }
        }
    }
    let first_kex_packet_follows: u8 = if has_bit(flags, 4) { cur.u8() } else { 0 };
    let reserved: u32 = if has_bit(flags, 8) { cur.u32() } else { 0 };
    let truncate: usize = if has_bit(flags, 16) { 1 + (cur.u8() % 7) as usize } else { 0 };
    let mut payload = kexinit_payload(&cookie, &lists, first_kex_packet_follows, reserved);
    proof {
        broadcast use crate::wire_core::bytes::lemma_be32_len;

        lemma_lists_short(nested(lists@), 0);
    }
    let n: usize = payload.len() - truncate;
    let ghost whole = payload@;
    payload.truncate(n);
    proof {
        assert(payload@ =~= whole.take(whole.len() - truncate));
    }
    GenKexInit { cookie, lists, first_kex_packet_follows, reserved, truncate, payload }
}

/// A generated element before key exchange.
#[derive(Clone, Debug)]
pub enum GenMsg<B = Vec<u8>, K = GenKexInit> {
    Ignore { data_len: usize },
    Debug { always_display: u8, message: B, language_tag: B },
    Unimplemented { sequence_number: u32 },
    Disconnect { reason_code: u32, description: B, language_tag: B },
    /// NEWKEYS, a method-specific number, or an unexpected number.
    Raw { payload: B },
    /// A frame whose payload is empty.
    EmptyPayload,
    /// Five-byte header claiming more than the cap allows.
    OversizedClaim,
    KexInit(K),
}

/// A generated element over sequences.
pub type GenMsgView = GenMsg<Seq<u8>, GenKexView>;

impl View for GenMsg<Vec<u8>, GenKexInit> {
    type V = GenMsgView;

    open spec fn view(&self) -> GenMsgView {
        match self {
            GenMsg::Ignore { data_len } => GenMsg::Ignore { data_len: *data_len },
            GenMsg::Debug { always_display, message, language_tag } => GenMsg::Debug {
                always_display: *always_display,
                message: message@,
                language_tag: language_tag@,
            },
            GenMsg::Unimplemented { sequence_number } => GenMsg::Unimplemented {
                sequence_number: *sequence_number,
            },
            GenMsg::Disconnect { reason_code, description, language_tag } => GenMsg::Disconnect {
                reason_code: *reason_code,
                description: description@,
                language_tag: language_tag@,
            },
            GenMsg::Raw { payload } => GenMsg::Raw { payload: payload@ },
            GenMsg::EmptyPayload => GenMsg::EmptyPayload,
            GenMsg::OversizedClaim => GenMsg::OversizedClaim,
            GenMsg::KexInit(k) => GenMsg::KexInit(k@),
        }
    }
}

/// The largest data that fills a packet to the cap.
pub open spec fn data_at_cap(cap: u32) -> int {
    let c = if cap <= 65536 {
        cap as int
    } else {
        65536
    };
    match max_length(c) {
        Some(pl) => pl - 10,
        None => 0,
    }
}

/// The element that the input describes, and the input behind it.
pub open spec fn msg_gen(s: Seq<u8>, role: Role, cap: u32) -> (GenMsgView, Seq<u8>) {
    let kind = byte_at(s, 0) % 9;
    let s1 = dropped(s, 1);
    if kind == 0 {
        (GenMsg::Ignore { data_len: (u16_at(s1) % 4097) as usize }, dropped(s1, 2))
    } else if kind == 1 {
        let s2 = dropped(s1, 1);
        let m = (byte_at(s2, 0) % 64) as int;
        let s3 = dropped(s2, 1);
        let s4 = dropped(s3, m);
        let l = (byte_at(s4, 0) % 8) as int;
        let s5 = dropped(s4, 1);
        (
            GenMsg::Debug {
                always_display: byte_at(s1, 0),
                message: taken(s3, m),
                language_tag: taken(s5, l),
            },
            dropped(s5, l),
        )
    } else if kind == 2 {
        (GenMsg::Unimplemented { sequence_number: u32_at(s1) }, dropped(s1, 4))
    } else if kind == 3 {
        let s2 = dropped(s1, 4);
        let d = (byte_at(s2, 0) % 64) as int;
        let s3 = dropped(s2, 1);
        let s4 = dropped(s3, d);
        let l = (byte_at(s4, 0) % 8) as int;
        let s5 = dropped(s4, 1);
        (
            GenMsg::Disconnect {
                reason_code: u32_at(s1),
                description: taken(s3, d),
                language_tag: taken(s5, l),
            },
            dropped(s5, l),
        )
    } else if kind == 4 {
        let s2 = dropped(s1, 1);
        let n = (byte_at(s2, 0) % 16) as int;
        let s3 = dropped(s2, 1);
        (
            GenMsg::Raw { payload: seq![other((byte_at(s1, 0) % 15) as int)] + taken(s3, n) },
            dropped(s3, n),
        )
    } else if kind == 5 {
        (GenMsg::EmptyPayload, s1)
    } else if kind == 6 {
        (GenMsg::OversizedClaim, s1)
    } else if kind == 7 {
        let at = data_at_cap(cap);
        let size = byte_at(s1, 0) % 4;
        let data_len = if size == 0 {
            at
        } else if size == 1 {
            if at >= 8 {
                at - 8
            } else {
                0
            }
        } else if size == 2 {
            4097
        } else {
            8192
        };
        (GenMsg::Ignore { data_len: data_len as usize }, dropped(s1, 1))
    } else {
        let (k, s2) = kexinit_gen(s1, role);
        (GenMsg::KexInit(k), s2)
    }
}

/// The element is of the size that elements are drawn in.
pub open spec fn msg_wf(m: GenMsgView) -> bool {
    match m {
        GenMsg::Ignore { data_len } => data_len <= 0x10_0000,
        GenMsg::Debug { always_display, message, language_tag } => message.len() <= 0x1000 && language_tag.len()
            <= 0x1000,
        GenMsg::Disconnect { reason_code, description, language_tag } => description.len() <= 0x1000
            && language_tag.len() <= 0x1000,
        GenMsg::Raw { payload } => 0 < payload.len() <= 0x1000,
        GenMsg::KexInit(k) => kex_wf(k),
        _ => true,
    }
}

/// Layout: kind u8 mod 9: 0 IGNORE (data_len u16 mod 4097); 1 DEBUG (byte,
/// msg u8 mod 64, lang u8 mod 8); 2 UNIMPLEMENTED (u32); 3 DISCONNECT (u32,
/// desc u8 mod 64, lang u8 mod 8); 4 other number (idx u8, body u8 mod 16
/// bytes); 5 empty payload; 6 oversized claim; 7 boundary-sized IGNORE (u8
/// mod 4: exactly the largest packet the cap admits, eight bytes under it,
/// 4097 or 8192 data bytes); 8 KEXINIT.
pub fn gen_msg(cur: &mut Cursor<'_>, role: Role, cap: u32) -> (r: GenMsg)
    ensures
        (r@, final(cur)@) == msg_gen(old(cur)@, role, cap),
        msg_wf(r@),
{
    let kind: u8 = cur.u8() % 9;
    if kind == 0 {
        GenMsg::Ignore { data_len: (cur.u16() % 4097) as usize }
    } else if kind == 1 {
        let always_display: u8 = cur.u8();
        let m: usize = (cur.u8() % 64) as usize;
        let message = copy_bytes(cur.take(m));
        let l: usize = (cur.u8() % 8) as usize;
        let language_tag = copy_bytes(cur.take(l));
        GenMsg::Debug { always_display, message, language_tag }
    } else if kind == 2 {
        GenMsg::Unimplemented { sequence_number: cur.u32() }
    } else if kind == 3 {
        let reason_code: u32 = cur.u32();
        let d: usize = (cur.u8() % 64) as usize;
        let description = copy_bytes(cur.take(d));
        let l: usize = (cur.u8() % 8) as usize;
        let language_tag = copy_bytes(cur.take(l));
        GenMsg::Disconnect { reason_code, description, language_tag }
    } else if kind == 4 {
        let number: u8 = other_number(cur.u8() % 15);
        let body: usize = (cur.u8() % 16) as usize;
        let mut payload: Vec<u8> = Vec::new();
        payload.push(number);
        proof {
            assert(payload@ =~= seq![number]);
        }
        push_all(&mut payload, cur.take(body));
        GenMsg::Raw { payload }
    } else if kind == 5 {
        GenMsg::EmptyPayload
    } else if kind == 6 {
        GenMsg::OversizedClaim
    } else if kind == 7 {
        let c: u32 = if cap <= 65536 { cap } else { 65536 };
        let at_cap: usize = match max_packet_length(c) {
            Some(pl) => pl as usize - 10,
            None => 0,
        };
        let size: u8 = cur.u8() % 4;
        let data_len: usize = if size == 0 {
            at_cap
        } else if size == 1 {
            if at_cap >= 8 {
                at_cap - 8
            } else {
                0
            }
        } else if size == 2 {
            4097
        } else {
            8192
        };
        GenMsg::Ignore { data_len }
    } else {
        GenMsg::KexInit(gen_kexinit(cur, role))
    }
}

/// The payload of an element; empty for those that are framed by hand.
pub open spec fn payload_of(m: GenMsgView) -> Seq<u8> {
    match m {
        GenMsg::Ignore { data_len } => ignore_bytes(filled(data_len as int, 3)),
        GenMsg::Debug { always_display, message, language_tag } => debug_bytes(
            DebugFields { always_display_byte: always_display, message, language_tag },
        ),
        GenMsg::Unimplemented { sequence_number } => unimplemented_bytes(sequence_number),
        GenMsg::Disconnect { reason_code, description, language_tag } => disconnect_bytes(
            DisconnectFields { reason_code, description, language_tag },
        ),
        GenMsg::Raw { payload } => payload,
        GenMsg::EmptyPayload => Seq::empty(),
        GenMsg::OversizedClaim => Seq::empty(),
        GenMsg::KexInit(k) => k.payload,
    }
}

/// A packet length just over the cap.
pub open spec fn oversized_length(cap: u32) -> u32 {
    let base = match max_length(cap as int) {
        Some(pl) => pl,
        None => cap as int,
    };
    if base + 8 > u32::MAX {
        u32::MAX
    } else {
        (base + 8) as u32
    }
}

/// An element as it appears on the wire.
pub open spec fn frame_of(m: GenMsgView, pad_byte: u8, cap: u32) -> Seq<u8> {
    match m {
        GenMsg::EmptyPayload => be32(12) + seq![11u8] + Seq::new(11, |i: int| 0u8),
        GenMsg::OversizedClaim => be32(oversized_length(cap)) + seq![4u8],
        _ => framed(payload_of(m), pad_byte),
    }
}

/// The element is one that can be framed: a payload whose packet length fits
/// its field, or a claim with headroom over the cap.
pub open spec fn frameable(m: GenMsgView, cap: u32) -> bool {
    match m {
        GenMsg::EmptyPayload => true,
        GenMsg::OversizedClaim => cap < u32::MAX,
        _ => 0 < payload_of(m).len() <= u32::MAX - 16,
    }
}

proof fn lemma_drawn_frameable(m: GenMsgView, cap: u32)
    requires
        msg_wf(m),
        m is OversizedClaim ==> cap < u32::MAX,
    ensures
        frameable(m, cap),
{
    broadcast use crate::wire_core::bytes::lemma_be32_len;

}

/// Frames one element as it appears on the wire.
pub fn frame(msg: &GenMsg, pad_byte: u8, cap: u32) -> (r: Vec<u8>)
    requires
        frameable(msg@, cap),
    ensures
        r@ == frame_of(msg@, pad_byte, cap),
        r@.len() >= 5,
        msg@ is OversizedClaim ==> u32_of(r@) > cap,
{
    broadcast use crate::wire_core::bytes::lemma_be32_len;

    let mut p: Vec<u8> = Vec::new();
    match msg {
        GenMsg::Ignore { data_len } => {
            p.push(2);
            let data = filler(*data_len, 3);
            put_string(&mut p, data.as_slice());
            proof {
                assert(p@ =~= payload_of(msg@));
            }
        },
        GenMsg::Debug { always_display, message, language_tag } => {
            p.push(4);
            p.push(*always_display);
            put_string(&mut p, message.as_slice());
            put_string(&mut p, language_tag.as_slice());
            proof {
                assert(p@ =~= payload_of(msg@));
            }
        },
        GenMsg::Unimplemented { sequence_number } => {
            p.push(3);
            put_u32(&mut p, *sequence_number);
            proof {
                assert(p@ =~= payload_of(msg@));
            }
        },
        GenMsg::Disconnect { reason_code, description, language_tag } => {
            p.push(1);
            put_u32(&mut p, *reason_code);
            put_string(&mut p, description.as_slice());
            put_string(&mut p, language_tag.as_slice());
            proof {
                assert(p@ =~= payload_of(msg@));
            }
        },
        GenMsg::Raw { payload } => {
            push_all(&mut p, payload.as_slice());
            proof {
                assert(p@ =~= payload_of(msg@));
            }
        },
        GenMsg::EmptyPayload => {
            let mut f: Vec<u8> = Vec::new();
            put_u32(&mut f, 12);
            f.push(11);
            let mut i: usize = 0;
            while i < 11
                invariant
                    i <= 11,
                    f@ =~= be32(12) + seq![11u8] + Seq::new(i as nat, |j: int| 0u8),
                decreases 11 - i,
            {
                f.push(0);
                i = i + 1;
            }
            return f;
        },
        GenMsg::OversizedClaim => {
            let base: u32 = match max_packet_length(cap) {
                Some(pl) => pl,
                None => cap,
            };
            let pl: u32 = if base > u32::MAX - 8 { u32::MAX } else { base + 8 };
            let mut f: Vec<u8> = Vec::new();
            put_u32(&mut f, pl);
            f.push(4);
            proof {
                crate::wire_core::bytes::lemma_u32_write_read(pl);
                crate::tcp_support::packet_ref::lemma_u32_prefix(f@, be32(pl));
                assert(f@ =~= frame_of(msg@, pad_byte, cap));
            }
            return f;
        },
        GenMsg::KexInit(k) => {
            push_all(&mut p, k.payload.as_slice());
            proof {
                assert(p@ =~= payload_of(msg@));
            }
        },
    }
    let r = encode_initial_packet(p.as_slice(), pad_byte);
    proof {
        crate::tcp_support::packet_ref::lemma_framed_decodes(p@, pad_byte, Seq::empty(), u32::MAX);
    }
    r
}

/// A generated stream and its description.
#[derive(Debug)]
pub struct GenStream {
    pub role: Role,
    /// Client role only: bytes before the identification that do not start
    /// with `SSH-`.
    pub junk_first: Vec<u8>,
    /// Server role only.
    pub prelude: Vec<(Vec<u8>, LineTerminator)>,
    pub ident: GenIdent,
    /// Elements with their framed bytes.
    pub msgs: Vec<(GenMsg, Vec<u8>)>,
    pub trailing: Vec<u8>,
    /// The wire bytes (after mutation, if any).
    pub bytes: Vec<u8>,
    pub mutated: bool,
}

/// A generated stream over sequences.
pub ghost struct StreamView {
    pub role: Role,
    pub junk_first: Seq<u8>,
    pub prelude: Seq<(Seq<u8>, LineTerminator)>,
    pub ident: GenIdentView,
    pub msgs: Seq<(GenMsgView, Seq<u8>)>,
    pub trailing: Seq<u8>,
    pub bytes: Seq<u8>,
    pub mutated: bool,
}

/// Lines over sequences.
pub open spec fn own_lines(v: Seq<(Vec<u8>, LineTerminator)>) -> Seq<(Seq<u8>, LineTerminator)> {
    Seq::new(v.len(), |i: int| (v[i].0@, v[i].1))
}

/// Elements with their frames over sequences.
pub open spec fn own_msgs(v: Seq<(GenMsg, Vec<u8>)>) -> Seq<(GenMsgView, Seq<u8>)> {
    Seq::new(v.len(), |i: int| (v[i].0@, v[i].1@))
}

impl View for GenStream {
    type V = StreamView;

    open spec fn view(&self) -> StreamView {
        StreamView {
            role: self.role,
            junk_first: self.junk_first@,
            prelude: own_lines(self.prelude@),
            ident: self.ident@,
            msgs: own_msgs(self.msgs@),
            trailing: self.trailing@,
            bytes: self.bytes@,
            mutated: self.mutated,
        }
    }
}

/// `n` prelude lines from the input, and the input behind them.
pub open spec fn prelude_gen(s: Seq<u8>, n: int) -> (Seq<(Seq<u8>, LineTerminator)>, Seq<u8>)
    decreases n,
{
    if n <= 0 {
        (Seq::empty(), s)
    } else {
        let (lines, s1) = prelude_gen(s, n - 1);
        let (line, s2) = prelude_line_gen(s1);
        (lines.push(line), s2)
    }
}

/// Whether an element is a packet of more than moderate size.
pub open spec fn is_large(m: GenMsgView) -> bool {
    m matches GenMsg::Ignore { data_len } && data_len > 4096
}

/// `n` framed elements from the input, whether a large one was among them,
/// and the input behind them. Only the first large one keeps its size.
pub open spec fn elements_gen(s: Seq<u8>, role: Role, cap: u32, n: int) -> (
    Seq<(GenMsgView, Seq<u8>)>,
    bool,
    Seq<u8>,
)
    decreases n,
{
    if n <= 0 {
        (Seq::empty(), false, s)
    } else {
        let (msgs, used, s1) = elements_gen(s, role, cap, n - 1);
        let pad = byte_at(s1, 0);
        let (drawn, s2) = msg_gen(dropped(s1, 1), role, cap);
        let msg = if is_large(drawn) && used {
            GenMsg::Ignore { data_len: 0 }
        } else {
            drawn
        };
        (msgs.push((msg, frame_of(msg, pad, cap))), used || is_large(drawn), s2)
    }
}

/// The bytes of prelude lines.
pub open spec fn lines_wire(lines: Seq<(Seq<u8>, LineTerminator)>) -> Seq<u8>
    decreases lines.len(),
{
    if lines.len() == 0 {
        Seq::empty()
    } else {
        lines_wire(lines.drop_last()) + lines.last().0 + lines.last().1.bytes()
    }
}

/// The bytes of framed elements.
pub open spec fn frames_wire(msgs: Seq<(GenMsgView, Seq<u8>)>) -> Seq<u8>
    decreases msgs.len(),
{
    if msgs.len() == 0 {
        Seq::empty()
    } else {
        frames_wire(msgs.drop_last()) + msgs.last().1
    }
}

/// The bytes that the description of a stream stands for.
pub open spec fn wire_of(g: StreamView) -> Seq<u8> {
    g.junk_first + lines_wire(g.prelude) + g.ident.content + g.ident.terminator.bytes() + frames_wire(g.msgs)
        + g.trailing
}

/// `n` bytes of `bytes` changed as the input says, and the input behind it.
pub open spec fn mutated_by(bytes: Seq<u8>, s: Seq<u8>, n: int) -> (Seq<u8>, Seq<u8>)
    decreases n,
{
    if n <= 0 {
        (bytes, s)
    } else {
        let (b, s1) = mutated_by(bytes, s, n - 1);
        let pos = u16_at(s1) as int % b.len() as int;
        let s2 = dropped(s1, 2);
        let v = byte_at(s2, 0);
        (b.update(pos, b[pos] ^ (if v == 0 { 0x80u8 } else { v })), dropped(s2, 1))
    }
}

/// What a client sends ahead of its identification.
pub open spec fn junk_for(s: Seq<u8>, n: int) -> Seq<u8> {
    let raw = taken_filled(s, n, 11);
    if n > 0 && ssh_prefix().is_prefix_of(raw) {
        raw.update(0, 88u8)
    } else {
        raw
    }
}

/// The stream that the input describes, and the input behind it.
pub open spec fn stream_of(s: Seq<u8>, role: Role, cap: u32) -> (StreamView, Seq<u8>) {
    let s1 = dropped(s, 1);
    let (junk, prelude, s2) = match role {
        Role::Server => {
            let (lines, rest) = prelude_gen(s1, (byte_at(s, 0) % 9) as int);
            (Seq::empty(), lines, rest)
        },
        Role::Client => {
            let n = (byte_at(s, 0) % 33) as int;
            (junk_for(s1, n), Seq::empty(), dropped(s1, n))
        },
    };
    let (ident, s3) = ident_gen(s2);
    let (msgs, _, s4) = elements_gen(dropped(s3, 1), role, cap, (byte_at(s3, 0) % 9) as int);
    let t = (u16_at(s4) % 4097) as int;
    let s5 = dropped(s4, 2);
    let plain = StreamView {
        role,
        junk_first: junk,
        prelude,
        ident,
        msgs,
        trailing: taken(s5, t),
        bytes: Seq::empty(),
        mutated: false,
    };
    let wire = wire_of(plain);
    let s6 = dropped(s5, t);
    let flags = byte_at(s6, 0);
    let s7 = dropped(s6, 1);
    if bit(flags, 1) {
        let (bytes, s8) = mutated_by(wire, s7, 1 + (flags / 2) as int % 16);
        (StreamView { bytes, mutated: true, ..plain }, s8)
    } else {
        (StreamView { bytes: wire, ..plain }, s7)
    }
}

/// Every element is framed as it should be, and a claim over the cap is one.
pub open spec fn msgs_wf(msgs: Seq<(GenMsgView, Seq<u8>)>, cap: u32) -> bool {
    forall|i: int|
        0 <= i < msgs.len() ==> msg_wf((#[trigger] msgs[i]).0) && msgs[i].1.len() >= 5 && (msgs[i].0 is OversizedClaim
            ==> u32_of(msgs[i].1) > cap)
}

/// There is headroom over the cap for every claim beyond it.
pub open spec fn headroom(msgs: Seq<(GenMsgView, Seq<u8>)>, cap: u32) -> bool {
    forall|i: int| 0 <= i < msgs.len() && (#[trigger] msgs[i]).0 is OversizedClaim ==> cap < u32::MAX
}

proof fn lemma_elements_prefix(s: Seq<u8>, role: Role, cap: u32, i: int, n: int)
    requires
        0 <= i <= n,
    ensures
        elements_gen(s, role, cap, i).0 == elements_gen(s, role, cap, n).0.take(i),
        elements_gen(s, role, cap, n).0.len() == n,
    decreases n,
{
    if i < n {
        lemma_elements_prefix(s, role, cap, i, n - 1);
        let all = elements_gen(s, role, cap, n).0;
        assert(all.take(i) =~= elements_gen(s, role, cap, n - 1).0.take(i));
    } else {
        if n > 0 {
            lemma_elements_prefix(s, role, cap, n - 1, n - 1);
        }
        let all = elements_gen(s, role, cap, n).0;
        assert(all.take(n) =~= all);
    }
}

fn gen_elements(cur: &mut Cursor<'_>, role: Role, cap: u32, n: usize, bytes: &mut Vec<u8>) -> (r: Vec<
    (GenMsg, Vec<u8>),
>)
    requires
        headroom(elements_gen(old(cur)@, role, cap, n as int).0, cap),
    ensures
        ({
            let (msgs, used, rest) = elements_gen(old(cur)@, role, cap, n as int);
            &&& own_msgs(r@) == msgs
            &&& final(cur)@ == rest
            &&& final(bytes)@ == old(bytes)@ + frames_wire(msgs)
        }),
        msgs_wf(own_msgs(r@), cap),
{
    let mut msgs: Vec<(GenMsg, Vec<u8>)> = Vec::new();
    let mut used: bool = false;
    let mut i: usize = 0;
    proof {
        assert(own_msgs(msgs@) =~= Seq::empty());
        assert(bytes@ + Seq::<u8>::empty() =~= bytes@);
    }
    while i < n
        invariant
            i <= n,
            headroom(elements_gen(old(cur)@, role, cap, n as int).0, cap),
            (own_msgs(msgs@), used, cur@) == elements_gen(old(cur)@, role, cap, i as int),
            bytes@ == old(bytes)@ + frames_wire(own_msgs(msgs@)),
            msgs_wf(own_msgs(msgs@), cap),
        decreases n - i,
    {
        let ghost before = own_msgs(msgs@);
        let pad_byte: u8 = cur.u8();
        let mut msg = gen_msg(cur, role, cap);
        let large: bool = match &msg {
            GenMsg::Ignore { data_len } => *data_len > 4096,
            _ => false,
        };
        if large {
            if used {
                msg = GenMsg::Ignore { data_len: 0 };
            }
            used = true;
        }
        proof {
            let all = elements_gen(old(cur)@, role, cap, n as int).0;
            lemma_elements_prefix(old(cur)@, role, cap, i + 1, n as int);
            let upto = elements_gen(old(cur)@, role, cap, i + 1).0;
            lemma_elements_prefix(old(cur)@, role, cap, i as int, i as int);
            assert(upto[i as int].0 == msg@);
            assert(all[i as int] == upto[i as int]);
            lemma_drawn_frameable(msg@, cap);
        }
        let f = frame(&msg, pad_byte, cap);
        push_all(bytes, f.as_slice());
        let ghost item = (msg@, f@);
        msgs.push((msg, f));
        i = i + 1;
        proof {
            assert(own_msgs(msgs@) =~= before.push(item));
            assert(own_msgs(msgs@).drop_last() =~= before);
            assert(bytes@ =~= old(bytes)@ + frames_wire(own_msgs(msgs@)));
            assert forall|j: int| 0 <= j < own_msgs(msgs@).len() implies msg_wf(
                (#[trigger] own_msgs(msgs@)[j]).0,
            ) && own_msgs(msgs@)[j].1.len() >= 5 && (own_msgs(msgs@)[j].0 is OversizedClaim ==> u32_of(
                own_msgs(msgs@)[j].1,
            ) > cap) by {
                if j < before.len() {
                    assert(own_msgs(msgs@)[j] == before[j]);
                }
            }
        }
    }
    msgs
}

fn gen_prelude(cur: &mut Cursor<'_>, n: usize, bytes: &mut Vec<u8>) -> (r: Vec<(Vec<u8>, LineTerminator)>)
    ensures
        ({
            let (lines, rest) = prelude_gen(old(cur)@, n as int);
            &&& own_lines(r@) == lines
            &&& final(cur)@ == rest
            &&& final(bytes)@ == old(bytes)@ + lines_wire(lines)
        }),
{
    let mut lines: Vec<(Vec<u8>, LineTerminator)> = Vec::new();
    let mut i: usize = 0;
    proof {
        assert(own_lines(lines@) =~= Seq::empty());
        assert(bytes@ + Seq::<u8>::empty() =~= bytes@);
    }
    while i < n
        invariant
            i <= n,
            (own_lines(lines@), cur@) == prelude_gen(old(cur)@, i as int),
            bytes@ == old(bytes)@ + lines_wire(own_lines(lines@)),
        decreases n - i,
    {
        let ghost before = own_lines(lines@);
        let line = gen_prelude_line(cur);
        push_all(bytes, line.0.as_slice());
        push_terminator(bytes, line.1);
        let ghost item = (line.0@, line.1);
        lines.push(line);
        i = i + 1;
        proof {
            assert(own_lines(lines@) =~= before.push(item));
            assert(own_lines(lines@).drop_last() =~= before);
            assert(bytes@ =~= old(bytes)@ + lines_wire(own_lines(lines@)));
        }
    }
    lines
}

fn mutate(cur: &mut Cursor<'_>, bytes: &mut Vec<u8>, n: usize)
    requires
        old(bytes)@.len() > 0,
    ensures
        (final(bytes)@, final(cur)@) == mutated_by(old(bytes)@, old(cur)@, n as int),
{
    let mut i: usize = 0;
    while i < n
        invariant
            i <= n,
            bytes@.len() > 0,
            (bytes@, cur@) == mutated_by(old(bytes)@, old(cur)@, i as int),
        decreases n - i,
    {
        let pos: usize = cur.u16() as usize % bytes.len();
        let val: u8 = cur.u8();
        let v: u8 = bytes[pos] ^ (if val == 0 { 0x80 } else { val });
        bytes.set(pos, v);
        i = i + 1;
    }
}

/// Layout (after the role-specific head): server: n_prelude u8 mod 9 and the
/// lines; client: junk_len u8 mod 33 and the bytes. Then the identification,
/// n_msgs u8 mod 9 with (pad_byte u8, element) each, trailing len u16 mod
/// 4097 and bytes, mutation flags u8 (bit0 mutate; count 1 + (flags >> 1) mod
/// 16 of (pos u16, xor u8)).
pub fn generate(cur: &mut Cursor<'_>, role: Role, cap: u32) -> (r: GenStream)
    requires
        headroom(stream_of(old(cur)@, role, cap).0.msgs, cap),
    ensures
        (r@, final(cur)@) == stream_of(old(cur)@, role, cap),
        forall|lim: ModelLimits| lim.cap <= cap ==> #[trigger] expectable(r@, lim),
        !r.mutated ==> r.bytes@ == wire_of(r@),
{
    let mut bytes: Vec<u8> = Vec::new();
    let mut junk_first: Vec<u8> = Vec::new();
    let mut prelude: Vec<(Vec<u8>, LineTerminator)> = Vec::new();
    let prefix: [u8; 4] = [83, 83, 72, 45];
    proof {
        assert(prefix@ =~= ssh_prefix());
        assert(own_lines(prelude@) =~= Seq::empty());
    }
    match role {
        Role::Server => {
            let n: usize = (cur.u8() % 9) as usize;
            prelude = gen_prelude(cur, n, &mut bytes);
        },
        Role::Client => {
            let n: usize = (cur.u8() % 33) as usize;
            let ghost input = cur@;
            if n > 0 {
                let mut junk = cur.take_filled(n, 11);
                if starts_with(junk.as_slice(), prefix.as_slice()) {
                    junk.set(0, 88);
                }
                push_all(&mut bytes, junk.as_slice());
                junk_first = junk;
            } else {
                proof {
                    assert(dropped(input, 0) =~= input);
                }
            }
            proof {
                assert(junk_first@ =~= junk_for(input, n as int));
            }
        },
    }
    proof {
        assert(bytes@ =~= junk_first@ + lines_wire(own_lines(prelude@)));
    }
    let ident = gen_ident(cur);
    push_all(&mut bytes, ident.content.as_slice());
    push_terminator(&mut bytes, ident.terminator);
    let n_msgs: usize = (cur.u8() % 9) as usize;
    let msgs = gen_elements(cur, role, cap, n_msgs, &mut bytes);
    let trailing_len: usize = (cur.u16() % 4097) as usize;
    let trailing = copy_bytes(cur.take(trailing_len));
    push_all(&mut bytes, trailing.as_slice());
    let ghost plain = StreamView {
        role,
        junk_first: junk_first@,
        prelude: own_lines(prelude@),
        ident: ident@,
        msgs: own_msgs(msgs@),
        trailing: trailing@,
        bytes: Seq::empty(),
        mutated: false,
    };
    proof {
        assert(bytes@ =~= wire_of(plain));
        assert(ident.terminator.bytes().len() > 0);
    }
    let mut_flags: u8 = cur.u8();
    let mut mutated: bool = false;
    if has_bit(mut_flags, 1) {
        mutated = true;
        let count: usize = 1 + (mut_flags / 2) as usize % 16;
        mutate(cur, &mut bytes, count);
    }
    let r = GenStream { role, junk_first, prelude, ident, msgs, trailing, bytes, mutated };
    proof {
        assert forall|lim: ModelLimits| lim.cap <= cap implies #[trigger] expectable(r@, lim) by {
            lemma_drawn_walkable(r@.msgs, cap, lim, 0, 0);
        }
    }
    r
}

/// Limits the model applies (those of the machine under test).
#[derive(Clone, Copy, Debug, PartialEq, Eq, Structural)]
pub struct ModelLimits {
    pub ident: IdentLimits,
    pub cap: u32,
    pub max_packets: usize,
    pub max_bytes: usize,
    pub banner_only: bool,
}

/// Expected terminal outcome.
#[derive(Clone, Debug, PartialEq, Eq)]
pub enum ExpEnd<B = Vec<u8>, K = OwnedKexInit, A = Vec<ProposalAnomaly>> {
    Proposal { kexinit: Box<K>, raw_payload: B, anomalies: A },
    /// A decoding failure of KEXINIT with any detail.
    MalformedKexInit,
    Disconnected { reason_code: u32, description: B, language_tag: B },
    Error(InitialError),
    BannerOnly,
    UnexpectedInput,
    /// The generated elements produce no terminal outcome; trailing bytes and
    /// the end of input decide.
    Incomplete,
}

/// An expected outcome over sequences.
pub type ExpEndView = ExpEnd<Seq<u8>, OwnedKexInit<Seq<u8>, Seq<Seq<char>>>, Seq<ProposalAnomaly>>;

impl View for ExpEnd<Vec<u8>, OwnedKexInit, Vec<ProposalAnomaly>> {
    type V = ExpEndView;

    open spec fn view(&self) -> ExpEndView {
        match self {
            ExpEnd::Proposal { kexinit, raw_payload, anomalies } => ExpEnd::Proposal {
                kexinit: Box::new((**kexinit)@),
                raw_payload: raw_payload@,
                anomalies: anomalies@,
            },
            ExpEnd::MalformedKexInit => ExpEnd::MalformedKexInit,
            ExpEnd::Disconnected { reason_code, description, language_tag } => ExpEnd::Disconnected {
                reason_code: *reason_code,
                description: description@,
                language_tag: language_tag@,
            },
            ExpEnd::Error(e) => ExpEnd::Error(*e),
            ExpEnd::BannerOnly => ExpEnd::BannerOnly,
            ExpEnd::UnexpectedInput => ExpEnd::UnexpectedInput,
            ExpEnd::Incomplete => ExpEnd::Incomplete,
        }
    }
}

/// Expected events and end.
#[derive(Clone, Debug, PartialEq, Eq)]
pub struct Expectation {
    pub events: Vec<Ev>,
    pub end: ExpEnd,
    /// Stage after the last generated element (for the end of input).
    pub stage: u8,
}

/// An expectation over sequences.
pub ghost struct ExpectationView {
    pub events: Seq<EvView>,
    pub end: ExpEndView,
    pub stage: u8,
}

impl View for Expectation {
    type V = ExpectationView;

    open spec fn view(&self) -> ExpectationView {
        ExpectationView { events: evs(self.events@), end: self.end@, stage: self.stage }
    }
}

/// The number of prelude lines that are accepted from the `i`-th on, with
/// `used` bytes already accepted, and what stops the rest.
pub open spec fn prelude_stop(
    lines: Seq<(Seq<u8>, LineTerminator)>,
    lim: IdentLimits,
    i: int,
    used: int,
) -> (int, Option<IdentError>)
    decreases lines.len() - i,
{
    if i >= lines.len() {
        (i, None)
    } else {
        let consumed = lines[i].0.len() + lines[i].1.bytes().len();
        if consumed > lim.max_prelude_line {
            (i, Some(IdentError::PreludeLineTooLong))
        } else if i >= lim.max_prelude_lines {
            (i, Some(IdentError::TooManyPreludeLines))
        } else if used + consumed > lim.max_prelude_bytes {
            (i, Some(IdentError::PreludeBytesExceeded))
        } else {
            prelude_stop(lines, lim, i + 1, used + consumed)
        }
    }
}

/// The event or the end that an accepted element leads to.
pub open spec fn element_outcome(m: GenMsgView) -> Result<EvView, ExpEndView> {
    match m {
        GenMsg::Ignore { data_len } => Ok(Ev::Skipped(SkippedMessage::Ignored { data_len })),
        GenMsg::Debug { always_display, message, language_tag } => Ok(
            Ev::Skipped(
                SkippedMessage::Debug { always_display: always_display != 0, message, language_tag },
            ),
        ),
        GenMsg::Unimplemented { sequence_number } => Ok(
            Ev::Skipped(SkippedMessage::Unimplemented { sequence_number }),
        ),
        GenMsg::Disconnect { reason_code, description, language_tag } => Err(
            ExpEnd::Disconnected { reason_code, description, language_tag },
        ),
        GenMsg::Raw { payload } => Err(
            ExpEnd::Error(
                if transition_number(payload[0]) {
                    InitialError::UnsupportedTransition { number: payload[0] }
                } else {
                    InitialError::UnexpectedMessage { number: payload[0] }
                },
            ),
        ),
        GenMsg::EmptyPayload => Err(ExpEnd::Error(InitialError::EmptyPayload)),
        GenMsg::OversizedClaim => Err(ExpEnd::Incomplete),
        GenMsg::KexInit(k) => if k.truncate > 0 {
            Err(ExpEnd::MalformedKexInit)
        } else {
            Err(
                ExpEnd::Proposal {
                    kexinit: Box::new(owned_of(expected_kexinit(k))),
                    raw_payload: k.payload,
                    anomalies: anomalies_of(expected_kexinit(k)),
                },
            )
        },
    }
}

/// The events and the end of the elements from the `i`-th on, with `used`
/// bytes already counted.
pub open spec fn expected_elements(
    msgs: Seq<(GenMsgView, Seq<u8>)>,
    lim: ModelLimits,
    i: int,
    used: int,
) -> (Seq<EvView>, ExpEndView)
    decreases msgs.len() - i,
{
    if i >= msgs.len() {
        (Seq::empty(), ExpEnd::Incomplete)
    } else {
        let packet_length = u32_of(msgs[i].1);
        let total = msgs[i].1.len();
        if packet_length > lim.cap {
            (
                Seq::empty(),
                ExpEnd::Error(InitialError::Packet(PacketError::TooLarge { packet_length, limit: lim.cap })),
            )
        } else if i >= lim.max_packets {
            (Seq::empty(), ExpEnd::Error(InitialError::PacketBudgetExceeded { limit: lim.max_packets }))
        } else if used + total > lim.max_bytes {
            (Seq::empty(), ExpEnd::Error(InitialError::ByteBudgetExceeded { limit: lim.max_bytes }))
        } else {
            match element_outcome(msgs[i].0) {
                Err(end) => (Seq::empty(), end),
                Ok(ev) => {
                    let (rest, end) = expected_elements(msgs, lim, i + 1, used + total);
                    (seq![ev] + rest, end)
                },
            }
        }
    }
}

/// What the description of a stream leads to under the limits.
pub open spec fn expected(g: StreamView, lim: ModelLimits) -> ExpectationView {
    let (n, stop) = prelude_stop(g.prelude, lim.ident, 0, 0);
    let head = Seq::new(n as nat, |i: int| prelude_ev(g.prelude[i]));
    if g.role == Role::Client && g.junk_first.len() > 0 {
        ExpectationView { events: Seq::empty(), end: ExpEnd::UnexpectedInput, stage: STAGE_IDENT }
    } else if stop is Some {
        ExpectationView {
            events: head,
            end: ExpEnd::Error(InitialError::Ident(stop->0)),
            stage: STAGE_IDENT,
        }
    } else if g.ident.content.len() + g.ident.terminator.bytes().len() > lim.ident.max_identification_line {
        ExpectationView {
            events: head,
            end: ExpEnd::Error(InitialError::Ident(IdentError::IdentificationTooLong)),
            stage: STAGE_IDENT,
        }
    } else {
        match g.ident.expect {
            Err(e) => ExpectationView {
                events: head,
                end: ExpEnd::Error(InitialError::Ident(e)),
                stage: STAGE_IDENT,
            },
            Ok(owned) => {
                let named = head.push(Ev::Ident(owned));
                if lim.banner_only {
                    ExpectationView { events: named, end: ExpEnd::BannerOnly, stage: STAGE_PACKETS }
                } else {
                    let (rest, end) = expected_elements(g.msgs, lim, 0, 0);
                    ExpectationView { events: named + rest, end, stage: STAGE_PACKETS }
                }
            },
        }
    }
}

/// An accepted element leads somewhere: a raw one has a message number, a
/// KEXINIT that is whole has valid names, and no claim beyond the cap gets
/// here.
pub open spec fn acceptable(m: GenMsgView) -> bool {
    match m {
        GenMsg::Raw { payload } => payload.len() > 0,
        GenMsg::OversizedClaim => false,
        GenMsg::KexInit(k) => k.truncate == 0 ==> kex_listed(k),
        _ => true,
    }
}

/// The elements from the `i`-th on can be walked: each that the walk reaches
/// has a length, and leads somewhere where it is accepted.
pub open spec fn walkable(msgs: Seq<(GenMsgView, Seq<u8>)>, lim: ModelLimits, i: int, used: int) -> bool
    decreases msgs.len() - i,
{
    i >= msgs.len() || {
        let (m, f) = msgs[i];
        &&& f.len() >= 4
        &&& u32_of(f) <= lim.cap && i < lim.max_packets && used + f.len() <= lim.max_bytes ==> {
            &&& acceptable(m)
            &&& element_outcome(m) is Ok ==> walkable(msgs, lim, i + 1, used + f.len())
        }
    }
}

/// The description of a stream says what to expect under the limits: the walk
/// over its elements, where it comes to that, can be made.
pub open spec fn expectable(g: StreamView, lim: ModelLimits) -> bool {
    ||| g.role == Role::Client && g.junk_first.len() > 0
    ||| prelude_stop(g.prelude, lim.ident, 0, 0).1 is Some
    ||| g.ident.content.len() + g.ident.terminator.bytes().len() > lim.ident.max_identification_line
    ||| g.ident.expect is Err
    ||| lim.banner_only
    ||| walkable(g.msgs, lim, 0, 0)
}

proof fn lemma_drawn_walkable(msgs: Seq<(GenMsgView, Seq<u8>)>, cap: u32, lim: ModelLimits, i: int, used: int)
    requires
        msgs_wf(msgs, cap),
        lim.cap <= cap,
        0 <= i <= msgs.len(),
    ensures
        walkable(msgs, lim, i, used),
    decreases msgs.len() - i,
{
    if i < msgs.len() {
        lemma_drawn_walkable(msgs, cap, lim, i + 1, used + msgs[i].1.len());
        if let GenMsg::KexInit(k) = msgs[i].0 {
            assert forall|j: int| 0 <= j < LIST_COUNT implies valid_names(#[trigger] k.lists[j]) by {
                assert(moderate(k.lists[j], 6));
            }
        }
    }
}

fn element_end(msg: &GenMsg) -> (r: Result<Ev, ExpEnd>)
    requires
        acceptable(msg@),
    ensures
        match element_outcome(msg@) {
            Ok(ev) => r matches Ok(e) && e@ == ev,
            Err(end) => r matches Err(e) && e@ == end,
        },
{
    match msg {
        GenMsg::Ignore { data_len } => Ok(Ev::Skipped(SkippedMessage::Ignored { data_len: *data_len })),
        GenMsg::Debug { always_display, message, language_tag } => Ok(
            Ev::Skipped(
                SkippedMessage::Debug {
                    always_display: *always_display != 0,
                    message: copy_bytes(message.as_slice()),
                    language_tag: copy_bytes(language_tag.as_slice()),
                },
            ),
        ),
        GenMsg::Unimplemented { sequence_number } => Ok(
            Ev::Skipped(SkippedMessage::Unimplemented { sequence_number: *sequence_number }),
        ),
        GenMsg::Disconnect { reason_code, description, language_tag } => Err(
            ExpEnd::Disconnected {
                reason_code: *reason_code,
                description: copy_bytes(description.as_slice()),
                language_tag: copy_bytes(language_tag.as_slice()),
            },
        ),
        GenMsg::Raw { payload } => {
            let number: u8 = payload[0];
            Err(
                ExpEnd::Error(
                    if number == 21 || (30 <= number && number <= 49) {
                        InitialError::UnsupportedTransition { number }
                    } else {
                        InitialError::UnexpectedMessage { number }
                    },
                ),
            )
        },
        GenMsg::EmptyPayload => Err(ExpEnd::Error(InitialError::EmptyPayload)),
        GenMsg::OversizedClaim => Err(ExpEnd::Incomplete),
        GenMsg::KexInit(k) => {
            if k.truncate > 0 {
                return Err(ExpEnd::MalformedKexInit);
            }
            let expected = k.expected();
            Err(
                ExpEnd::Proposal {
                    kexinit: Box::new(expected.to_owned_kexinit()),
                    raw_payload: copy_bytes(k.payload.as_slice()),
                    anomalies: expected.anomalies(),
                },
            )
        },
    }
}

fn expect_elements(msgs: &Vec<(GenMsg, Vec<u8>)>, lim: &ModelLimits, events: &mut Vec<Ev>) -> (r: ExpEnd)
    requires
        walkable(own_msgs(msgs@), *lim, 0, 0),
    ensures
        ({
            let (rest, end) = expected_elements(own_msgs(msgs@), *lim, 0, 0);
            &&& evs(final(events)@) == evs(old(events)@) + rest
            &&& r@ == end
        }),
{
    let ghost all = own_msgs(msgs@);
    let ghost start = evs(events@);
    let ghost goal = expected_elements(all, *lim, 0, 0);
    let mut i: usize = 0;
    let mut used: usize = 0;
    proof {
        assert(start + goal.0 =~= evs(events@) + goal.0);
    }
    while i < msgs.len()
        invariant
            i <= msgs@.len(),
            all == own_msgs(msgs@),
            walkable(all, *lim, i as int, used as int),
            used <= lim.max_bytes || used == 0,
            start == evs(old(events)@),
            goal == expected_elements(all, *lim, 0, 0),
            ({
                let (rest, end) = expected_elements(all, *lim, i as int, used as int);
                &&& start + goal.0 == evs(events@) + rest
                &&& goal.1 == end
            }),
        decreases msgs@.len() - i,
    {
        proof {
            assert(all[i as int] == (msgs@[i as int].0@, msgs@[i as int].1@));
        }
        let item = &msgs[i];
        let f = &item.1;
        let packet_length: u32 = be_u32(f.as_slice());
        if packet_length > lim.cap {
            proof {
                assert(evs(events@) + Seq::<EvView>::empty() =~= evs(events@));
            }
            return ExpEnd::Error(
                InitialError::Packet(PacketError::TooLarge { packet_length, limit: lim.cap }),
            );
        }
        let total: usize = f.len();
        if i >= lim.max_packets {
            proof {
                assert(evs(events@) + Seq::<EvView>::empty() =~= evs(events@));
            }
            return ExpEnd::Error(InitialError::PacketBudgetExceeded { limit: lim.max_packets });
        }
        if used > lim.max_bytes || total > lim.max_bytes - used {
            proof {
                assert(evs(events@) + Seq::<EvView>::empty() =~= evs(events@));
            }
            return ExpEnd::Error(InitialError::ByteBudgetExceeded { limit: lim.max_bytes });
        }
        let ghost before = evs(events@);
        match element_end(&item.0) {
            Ok(ev) => {
                let ghost v = ev@;
                events.push(ev);
                proof {
                    let rest = expected_elements(all, *lim, i + 1, used + total).0;
                    assert(evs(events@) =~= before.push(v));
                    assert(before + (seq![v] + rest) =~= evs(events@) + rest);
                }
                used = used + total;
                i = i + 1;
            },
            Err(end) => {
                proof {
                    assert(evs(events@) + Seq::<EvView>::empty() =~= evs(events@));
                }
                return end;
            },
        }
    }
    proof {
        assert(evs(events@) + Seq::<EvView>::empty() =~= evs(events@));
    }
    ExpEnd::Incomplete
}

fn expect_prelude(lines: &Vec<(Vec<u8>, LineTerminator)>, lim: &IdentLimits, events: &mut Vec<Ev>) -> (r: Option<
    IdentError,
>)
    requires
        old(events)@.len() == 0,
    ensures
        ({
            let (n, stop) = prelude_stop(own_lines(lines@), *lim, 0, 0);
            &&& 0 <= n <= lines@.len()
            &&& evs(final(events)@) == Seq::new(n as nat, |i: int| prelude_ev(own_lines(lines@)[i]))
            &&& r == stop
        }),
{
    let ghost all = own_lines(lines@);
    let ghost goal = prelude_stop(all, *lim, 0, 0);
    let mut i: usize = 0;
    let mut used: usize = 0;
    while i < lines.len()
        invariant
            i <= lines@.len(),
            all == own_lines(lines@),
            used <= lim.max_prelude_bytes,
            goal == prelude_stop(all, *lim, 0, 0),
            goal == prelude_stop(all, *lim, i as int, used as int),
            evs(events@) =~= Seq::new(i as nat, |k: int| prelude_ev(all[k])),
        decreases lines@.len() - i,
    {
        proof {
            assert(all[i as int] == (lines@[i as int].0@, lines@[i as int].1));
        }
        let line = &lines[i].0;
        let terminator = lines[i].1;
        let t: usize = terminator.byte_len();
        if lim.max_prelude_line < t || line.len() > lim.max_prelude_line - t {
            return Some(IdentError::PreludeLineTooLong);
        }
        let consumed: usize = line.len() + t;
        if i >= lim.max_prelude_lines {
            return Some(IdentError::TooManyPreludeLines);
        }
        if consumed > lim.max_prelude_bytes - used {
            return Some(IdentError::PreludeBytesExceeded);
        }
        used = used + consumed;
        let ghost before = evs(events@);
        let own = copy_bytes(line.as_slice());
        let ghost v = own@;
        events.push(Ev::Prelude { line: own, terminator });
        proof {
            assert(evs(events@) =~= before.push(prelude_ev((v, terminator))));
        }
        i = i + 1;
    }
    None
}

/// Sequential model over the generated description (not over bytes).
pub fn expect(g: &GenStream, lim: &ModelLimits) -> (r: Expectation)
    requires
        expectable(g@, *lim),
    ensures
        r@ == expected(g@, *lim),
{
    let mut events: Vec<Ev> = Vec::new();
    proof {
        assert(evs(events@) =~= Seq::empty());
    }
    if g.role == Role::Client && g.junk_first.len() > 0 {
        return Expectation { events, end: ExpEnd::UnexpectedInput, stage: STAGE_IDENT };
    }
    if let Some(e) = expect_prelude(&g.prelude, &lim.ident, &mut events) {
        return Expectation { events, end: ExpEnd::Error(InitialError::Ident(e)), stage: STAGE_IDENT };
    }
    let t: usize = g.ident.terminator.byte_len();
    let max: usize = lim.ident.max_identification_line;
    if max < t || g.ident.content.len() > max - t {
        return Expectation {
            events,
            end: ExpEnd::Error(InitialError::Ident(IdentError::IdentificationTooLong)),
            stage: STAGE_IDENT,
        };
    }
    let ghost head = evs(events@);
    match &g.ident.expect {
        Err(e) => {
            return Expectation { events, end: ExpEnd::Error(InitialError::Ident(*e)), stage: STAGE_IDENT };
        },
        Ok(owned) => {
            events.push(Ev::Ident(owned.copied()));
            proof {
                assert(evs(events@) =~= head.push(Ev::Ident(owned@)));
            }
        },
    }
    if lim.banner_only {
        return Expectation { events, end: ExpEnd::BannerOnly, stage: STAGE_PACKETS };
    }
    let end = expect_elements(&g.msgs, lim, &mut events);
    Expectation { events, end, stage: STAGE_PACKETS }
}

/// A run meets an expectation. Trailing bytes are parsed as packets, so an
/// incomplete description fixes the end only where there are none.
pub open spec fn expectation_met(
    trailing: Seq<u8>,
    events: Seq<EvView>,
    end: Option<crate::tcp_support::drive::EndView>,
    exp: ExpectationView,
    eof: bool,
) -> bool {
    events == exp.events && match exp.end {
        ExpEnd::Incomplete => trailing.len() == 0 ==> (if eof {
            end == Some(End::<Seq<u8>, ProposalView>::Eof { stage: exp.stage, pending_bytes: 0 })
        } else {
            end is None
        }),
        ExpEnd::Proposal { kexinit, raw_payload, anomalies } => end matches Some(End::Proposal(p)) && p.kexinit
            == *kexinit && p.raw_payload == raw_payload && p.anomalies == anomalies,
        ExpEnd::MalformedKexInit => end matches Some(End::Error(InitialError::Message { number, error }))
            && number == 20,
        ExpEnd::Disconnected { reason_code, description, language_tag } => end == Some(
            End::<Seq<u8>, ProposalView>::Disconnected { reason_code, description, language_tag },
        ),
        ExpEnd::Error(e) => end == Some(End::<Seq<u8>, ProposalView>::Error(e)),
        ExpEnd::BannerOnly => end == Some(End::<Seq<u8>, ProposalView>::BannerOnly),
        ExpEnd::UnexpectedInput => end matches Some(End::UnexpectedInput { sample, truncated }),
    }
}

/// Whether a driver run meets the model; `eof` says whether the end of input
/// was signalled. The model only applies to unmutated streams.
pub fn check_expectation(g: &GenStream, run: &Run, exp: &Expectation, eof: bool) -> (r: bool)
    requires
        !g.mutated,
    ensures
        r == expectation_met(g.trailing@, evs(run.events@), opt_end(run.end), exp@, eof),
{
    if !crate::tcp_support::drive::same_events(&run.events, &exp.events) {
        return false;
    }
    match &exp.end {
        ExpEnd::Incomplete => {
            if g.trailing.len() > 0 {
                return true;
            }
            if eof {
                match &run.end {
                    Some(End::Eof { stage, pending_bytes }) => *stage == exp.stage && *pending_bytes == 0,
                    _ => false,
                }
            } else {
                run.end.is_none()
            }
        },
        ExpEnd::Proposal { kexinit, raw_payload, anomalies } => match &run.end {
            Some(End::Proposal(p)) => p.kexinit.same(kexinit) && same_bytes(
                p.raw_payload.as_slice(),
                raw_payload.as_slice(),
            ) && same_anomalies(&p.anomalies, anomalies),
            _ => false,
        },
        ExpEnd::MalformedKexInit => match &run.end {
            Some(End::Error(InitialError::Message { number, error })) => *number == 20,
            _ => false,
        },
        ExpEnd::Disconnected { reason_code, description, language_tag } => match &run.end {
            Some(End::Disconnected { reason_code: c, description: d, language_tag: l }) => *c == *reason_code
                && same_bytes(d.as_slice(), description.as_slice()) && same_bytes(
                l.as_slice(),
                language_tag.as_slice(),
            ),
            _ => false,
        },
        ExpEnd::Error(e) => match &run.end {
            Some(End::Error(f)) => *f == *e,
            _ => false,
        },
        ExpEnd::BannerOnly => match &run.end {
            Some(End::BannerOnly) => true,
            _ => false,
        },
        ExpEnd::UnexpectedInput => match &run.end {
            Some(End::UnexpectedInput { sample, truncated }) => true,
            _ => false,
        },
    }
}

} // verus!
