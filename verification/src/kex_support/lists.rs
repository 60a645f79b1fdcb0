//! The ten KEXINIT name lists and their assembly.

use vstd::prelude::*;
use crate::seqs::{bit, copy_bytes, has_bit, push_all, slices, vecs};
use crate::tcp_support::msg_ref::cookie_array;
use crate::tcp_support::stream_gen::{
    lemma_joined_short, moderate, name_for, sanitize_name, MAX_NAME,
};
use crate::tcp_support::{byte_at, dropped, taken_filled, u32_at, Cursor};
use crate::text::{ascii_bytes, bytes_of, lemma_name_literal, name_chars};
use crate::wire_core::bytes::{be32, bool_byte, fits_u32, put_name_list, put_u32, ssh_string};
use crate::wire_core::error::MessageError;
use crate::wire_core::laws::lemma_kexinit_write_read;
use crate::wire_core::messages_ref::{
    kexinit_bytes, kexinit_read, kexinit_valid, lists_bytes, KexInitFields, LIST_COUNT,
};
use crate::wire_core::namelist_ref::{joined, printable, valid_name, valid_names};

verus! {

/// The tables that names are drawn from.
#[derive(Clone, Copy, Debug, PartialEq, Eq, Structural)]
pub enum Pool {
    /// Real key-exchange method names (none of them a marker).
    KexMethods,
    /// The marker names: extension markers and both spellings of strict kex.
    Markers,
    /// Host key algorithms.
    HostKeys,
    /// Ciphers.
    Ciphers,
    /// MAC algorithms.
    Macs,
    /// Compression methods.
    Compressions,
    /// Language tags.
    Languages,
}

impl Pool {
    /// The number of entries.
    pub open spec fn count(self) -> int {
        match self {
            Pool::Compressions => 4,
            Pool::Languages => 3,
            _ => 6,
        }
    }

    /// The `i`-th entry.
    pub open spec fn entry(self, i: int) -> &'static str {
        match self {
            Pool::KexMethods => match i as u8 {
                0 => "curve25519-sha256",
                1 => "curve25519-sha256@libssh.org",
                2 => "ecdh-sha2-nistp256",
                3 => "diffie-hellman-group14-sha256",
                4 => "sntrup761x25519-sha512@openssh.com",
                _ => "x-unknown-kex",
            },
            Pool::Markers => match i as u8 {
                0 => "ext-info-c",
                1 => "ext-info-s",
                2 => "kex-strict-c-v00@openssh.com",
                3 => "kex-strict-s-v00@openssh.com",
                4 => "kex-strict-c",
                _ => "kex-strict-s",
            },
            Pool::HostKeys => match i as u8 {
                0 => "ssh-ed25519",
                1 => "rsa-sha2-512",
                2 => "rsa-sha2-256",
                3 => "ssh-rsa",
                4 => "ecdsa-sha2-nistp256",
                _ => "sk-ssh-ed25519@openssh.com",
            },
            Pool::Ciphers => match i as u8 {
                0 => "aes128-gcm@openssh.com",
                1 => "aes256-gcm@openssh.com",
                2 => "aes128-ctr",
                3 => "aes256-ctr",
                4 => "chacha20-poly1305@openssh.com",
                _ => "none",
            },
            Pool::Macs => match i as u8 {
                0 => "hmac-sha2-256",
                1 => "hmac-sha2-512",
                2 => "hmac-sha2-256-etm@openssh.com",
                3 => "umac-64@openssh.com",
                4 => "none",
                _ => "x-unknown-mac",
            },
            Pool::Compressions => match i as u8 {
                0 => "none",
                1 => "zlib",
                2 => "zlib@openssh.com",
                _ => "x-unknown-comp",
            },
            Pool::Languages => match i as u8 {
                0 => "en-US",
                1 => "en",
                _ => "de",
            },
        }
    }

    /// The number of entries.
    pub fn len(self) -> (r: usize)
        ensures
            r == self.count(),
    {
        match self {
            Pool::Compressions => 4,
            Pool::Languages => 3,
            _ => 6,
        }
    }

    /// The `i`-th entry.
    pub fn name(self, i: usize) -> (r: &'static str)
        requires
            i < self.count(),
        ensures
            r == self.entry(i as int),
    {
        match self {
            Pool::KexMethods => match i as u8 {
                0 => "curve25519-sha256",
                1 => "curve25519-sha256@libssh.org",
                2 => "ecdh-sha2-nistp256",
                3 => "diffie-hellman-group14-sha256",
                4 => "sntrup761x25519-sha512@openssh.com",
                _ => "x-unknown-kex",
            },
            Pool::Markers => match i as u8 {
                0 => "ext-info-c",
                1 => "ext-info-s",
                2 => "kex-strict-c-v00@openssh.com",
                3 => "kex-strict-s-v00@openssh.com",
                4 => "kex-strict-c",
                _ => "kex-strict-s",
            },
            Pool::HostKeys => match i as u8 {
                0 => "ssh-ed25519",
                1 => "rsa-sha2-512",
                2 => "rsa-sha2-256",
                3 => "ssh-rsa",
                4 => "ecdsa-sha2-nistp256",
                _ => "sk-ssh-ed25519@openssh.com",
            },
            Pool::Ciphers => match i as u8 {
                0 => "aes128-gcm@openssh.com",
                1 => "aes256-gcm@openssh.com",
                2 => "aes128-ctr",
                3 => "aes256-ctr",
                4 => "chacha20-poly1305@openssh.com",
                _ => "none",
            },
            Pool::Macs => match i as u8 {
                0 => "hmac-sha2-256",
                1 => "hmac-sha2-512",
                2 => "hmac-sha2-256-etm@openssh.com",
                3 => "umac-64@openssh.com",
                4 => "none",
                _ => "x-unknown-mac",
            },
            Pool::Compressions => match i as u8 {
                0 => "none",
                1 => "zlib",
                2 => "zlib@openssh.com",
                _ => "x-unknown-comp",
            },
            Pool::Languages => match i as u8 {
                0 => "en-US",
                1 => "en",
                _ => "de",
            },
        }
    }
}

/// Every entry is a valid name of moderate length.
pub proof fn lemma_entry_valid(pool: Pool, i: int)
    requires
        0 <= i < pool.count(),
    ensures
        valid_name(bytes_of(pool.entry(i))),
        bytes_of(pool.entry(i)).len() <= MAX_NAME,
        ascii_bytes(bytes_of(pool.entry(i))),
{
    reveal_with_fuel(name_chars, 40);
    match pool {
        Pool::KexMethods => {
            if i == 0 {
                reveal_strlit("curve25519-sha256");
                lemma_name_literal("curve25519-sha256");
            } else if i == 1 {
                reveal_strlit("curve25519-sha256@libssh.org");
                lemma_name_literal("curve25519-sha256@libssh.org");
            } else if i == 2 {
                reveal_strlit("ecdh-sha2-nistp256");
                lemma_name_literal("ecdh-sha2-nistp256");
            } else if i == 3 {
                reveal_strlit("diffie-hellman-group14-sha256");
                lemma_name_literal("diffie-hellman-group14-sha256");
            } else if i == 4 {
                reveal_strlit("sntrup761x25519-sha512@openssh.com");
                lemma_name_literal("sntrup761x25519-sha512@openssh.com");
            } else {
                reveal_strlit("x-unknown-kex");
                lemma_name_literal("x-unknown-kex");
            }
        },
        Pool::Markers => {
            if i == 0 {
                reveal_strlit("ext-info-c");
                lemma_name_literal("ext-info-c");
            } else if i == 1 {
                reveal_strlit("ext-info-s");
                lemma_name_literal("ext-info-s");
            } else if i == 2 {
                reveal_strlit("kex-strict-c-v00@openssh.com");
                lemma_name_literal("kex-strict-c-v00@openssh.com");
            } else if i == 3 {
                reveal_strlit("kex-strict-s-v00@openssh.com");
                lemma_name_literal("kex-strict-s-v00@openssh.com");
            } else if i == 4 {
                reveal_strlit("kex-strict-c");
                lemma_name_literal("kex-strict-c");
            } else {
                reveal_strlit("kex-strict-s");
                lemma_name_literal("kex-strict-s");
            }
        },
        Pool::HostKeys => {
            if i == 0 {
                reveal_strlit("ssh-ed25519");
                lemma_name_literal("ssh-ed25519");
            } else if i == 1 {
                reveal_strlit("rsa-sha2-512");
                lemma_name_literal("rsa-sha2-512");
            } else if i == 2 {
                reveal_strlit("rsa-sha2-256");
                lemma_name_literal("rsa-sha2-256");
            } else if i == 3 {
                reveal_strlit("ssh-rsa");
                lemma_name_literal("ssh-rsa");
            } else if i == 4 {
                reveal_strlit("ecdsa-sha2-nistp256");
                lemma_name_literal("ecdsa-sha2-nistp256");
            } else {
                reveal_strlit("sk-ssh-ed25519@openssh.com");
                lemma_name_literal("sk-ssh-ed25519@openssh.com");
            }
        },
        Pool::Ciphers => {
            if i == 0 {
                reveal_strlit("aes128-gcm@openssh.com");
                lemma_name_literal("aes128-gcm@openssh.com");
            } else if i == 1 {
                reveal_strlit("aes256-gcm@openssh.com");
                lemma_name_literal("aes256-gcm@openssh.com");
            } else if i == 2 {
                reveal_strlit("aes128-ctr");
                lemma_name_literal("aes128-ctr");
            } else if i == 3 {
                reveal_strlit("aes256-ctr");
                lemma_name_literal("aes256-ctr");
            } else if i == 4 {
                reveal_strlit("chacha20-poly1305@openssh.com");
                lemma_name_literal("chacha20-poly1305@openssh.com");
            } else {
                reveal_strlit("none");
                lemma_name_literal("none");
            }
        },
        Pool::Macs => {
            if i == 0 {
                reveal_strlit("hmac-sha2-256");
                lemma_name_literal("hmac-sha2-256");
            } else if i == 1 {
                reveal_strlit("hmac-sha2-512");
                lemma_name_literal("hmac-sha2-512");
            } else if i == 2 {
                reveal_strlit("hmac-sha2-256-etm@openssh.com");
                lemma_name_literal("hmac-sha2-256-etm@openssh.com");
            } else if i == 3 {
                reveal_strlit("umac-64@openssh.com");
                lemma_name_literal("umac-64@openssh.com");
            } else if i == 4 {
                reveal_strlit("none");
                lemma_name_literal("none");
            } else {
                reveal_strlit("x-unknown-mac");
                lemma_name_literal("x-unknown-mac");
            }
        },
        Pool::Compressions => {
            if i == 0 {
                reveal_strlit("none");
                lemma_name_literal("none");
            } else if i == 1 {
                reveal_strlit("zlib");
                lemma_name_literal("zlib");
            } else if i == 2 {
                reveal_strlit("zlib@openssh.com");
                lemma_name_literal("zlib@openssh.com");
            } else {
                reveal_strlit("x-unknown-comp");
                lemma_name_literal("x-unknown-comp");
            }
        },
        Pool::Languages => {
            if i == 0 {
                reveal_strlit("en-US");
                lemma_name_literal("en-US");
            } else if i == 1 {
                reveal_strlit("en");
                lemma_name_literal("en");
            } else {
                reveal_strlit("de");
                lemma_name_literal("de");
            }
        },
    }
}

/// Owned lists in wire order (RFC 4253 section 7.1).
#[derive(Clone, Debug, PartialEq, Eq)]
pub struct Lists {
    pub cookie: [u8; 16],
    pub kex: Vec<Vec<u8>>,
    pub host_key: Vec<Vec<u8>>,
    pub enc_c2s: Vec<Vec<u8>>,
    pub enc_s2c: Vec<Vec<u8>>,
    pub mac_c2s: Vec<Vec<u8>>,
    pub mac_s2c: Vec<Vec<u8>>,
    pub comp_c2s: Vec<Vec<u8>>,
    pub comp_s2c: Vec<Vec<u8>>,
    pub lang_c2s: Vec<Vec<u8>>,
    pub lang_s2c: Vec<Vec<u8>>,
    pub first_kex_packet_follows: bool,
    pub reserved: u32,
}

/// A proposal over sequences, its lists by wire position.
pub ghost struct ListsView {
    pub cookie: Seq<u8>,
    pub slots: Seq<Seq<Seq<u8>>>,
    pub first: bool,
    pub reserved: u32,
}

impl ListsView {
    pub open spec fn kex(self) -> Seq<Seq<u8>> {
        self.slots[0]
    }

    pub open spec fn host_key(self) -> Seq<Seq<u8>> {
        self.slots[1]
    }

    pub open spec fn enc_c2s(self) -> Seq<Seq<u8>> {
        self.slots[2]
    }

    pub open spec fn enc_s2c(self) -> Seq<Seq<u8>> {
        self.slots[3]
    }

    pub open spec fn comp_c2s(self) -> Seq<Seq<u8>> {
        self.slots[6]
    }

    pub open spec fn comp_s2c(self) -> Seq<Seq<u8>> {
        self.slots[7]
    }

    /// The fields as they stand on the wire.
    pub open spec fn fields(self) -> KexInitFields {
        KexInitFields {
            cookie: self.cookie,
            names: self.slots,
            first_byte: bool_byte(self.first),
            first_offset: 17 + lists_bytes(self.slots, 0).len() as int,
            reserved: self.reserved,
        }
    }

    /// Ten lists whose bodies fit their length fields.
    pub open spec fn fits(self) -> bool {
        forall|i: int| 0 <= i < self.slots.len() ==> fits_u32(joined(#[trigger] self.slots[i]))
    }
}

impl View for Lists {
    type V = ListsView;

    open spec fn view(&self) -> ListsView {
        ListsView {
            cookie: self.cookie@,
            slots: seq![
                vecs(self.kex@),
                vecs(self.host_key@),
                vecs(self.enc_c2s@),
                vecs(self.enc_s2c@),
                vecs(self.mac_c2s@),
                vecs(self.mac_s2c@),
                vecs(self.comp_c2s@),
                vecs(self.comp_s2c@),
                vecs(self.lang_c2s@),
                vecs(self.lang_s2c@),
            ],
            first: self.first_kex_packet_follows,
            reserved: self.reserved,
        }
    }
}

/// A list of one known name.
pub open spec fn one_name(name: &str) -> Seq<Seq<u8>> {
    seq![bytes_of(name)]
}

/// The proposal that this client sends.
pub open spec fn client_proposal(cookie: Seq<u8>, ext_info: bool, strict: bool) -> ListsView {
    let base = one_name("curve25519-sha256");
    let a = if ext_info {
        base.push(bytes_of("ext-info-c"))
    } else {
        base
    };
    let kex = if strict {
        a.push(bytes_of("kex-strict-c-v00@openssh.com")).push(bytes_of("kex-strict-c"))
    } else {
        a
    };
    ListsView {
        cookie,
        slots: seq![
            kex,
            one_name("ssh-ed25519"),
            one_name("aes128-gcm@openssh.com"),
            one_name("aes128-gcm@openssh.com"),
            one_name("hmac-sha2-256"),
            one_name("hmac-sha2-256"),
            one_name("none"),
            one_name("none"),
            Seq::empty(),
            Seq::empty(),
        ],
        first: false,
        reserved: 0,
    }
}

fn one(name: &'static str) -> (r: Vec<Vec<u8>>)
    ensures
        vecs(r@) == one_name(name),
{
    let mut v: Vec<Vec<u8>> = Vec::new();
    v.push(copy_bytes(name.as_bytes()));
    proof {
        assert(vecs(v@) =~= one_name(name));
    }
    v
}

proof fn lemma_ten_lists(v: Seq<Seq<Seq<u8>>>)
    requires
        v.len() == 10,
    ensures
        lists_bytes(v, 0) == ssh_string(joined(v[0])) + ssh_string(joined(v[1])) + ssh_string(joined(v[2])) + ssh_string(joined(v[3])) + ssh_string(joined(v[4])) + ssh_string(joined(v[5])) + ssh_string(joined(v[6])) + ssh_string(joined(v[7])) + ssh_string(joined(v[8])) + ssh_string(joined(v[9])),
{
    reveal_with_fuel(lists_bytes, 11);
    assert(lists_bytes(v, 0) =~= ssh_string(joined(v[0])) + ssh_string(joined(v[1])) + ssh_string(joined(v[2])) + ssh_string(joined(v[3])) + ssh_string(joined(v[4])) + ssh_string(joined(v[5])) + ssh_string(joined(v[6])) + ssh_string(joined(v[7])) + ssh_string(joined(v[8])) + ssh_string(joined(v[9])));
}

impl Lists {
    /// The ten lists in wire order.
    pub fn slots(&self) -> (r: [&Vec<Vec<u8>>; 10])
        ensures
            forall|i: int| 0 <= i < LIST_COUNT ==> vecs((#[trigger] r@[i])@) == self@.slots[i],
            *r@[0] == self.kex,
            *r@[1] == self.host_key,
            *r@[2] == self.enc_c2s,
            *r@[3] == self.enc_s2c,
            *r@[4] == self.mac_c2s,
            *r@[5] == self.mac_s2c,
            *r@[6] == self.comp_c2s,
            *r@[7] == self.comp_s2c,
            *r@[8] == self.lang_c2s,
            *r@[9] == self.lang_s2c,
    {
        [
            &self.kex,
            &self.host_key,
            &self.enc_c2s,
            &self.enc_s2c,
            &self.mac_c2s,
            &self.mac_s2c,
            &self.comp_c2s,
            &self.comp_s2c,
            &self.lang_c2s,
            &self.lang_s2c,
        ]
    }

    /// The KEXINIT payload (message number included).
    pub fn payload(&self) -> (r: Vec<u8>)
        requires
            self@.fits(),
        ensures
            r@ == kexinit_bytes(self@.fields()),
            r@ == seq![20u8] + self.cookie@ + ssh_string(
                joined(vecs(self.kex@)),
            ) + ssh_string(
                joined(vecs(self.host_key@)),
            ) + ssh_string(
                joined(vecs(self.enc_c2s@)),
            ) + ssh_string(
                joined(vecs(self.enc_s2c@)),
            ) + ssh_string(
                joined(vecs(self.mac_c2s@)),
            ) + ssh_string(
                joined(vecs(self.mac_s2c@)),
            ) + ssh_string(
                joined(vecs(self.comp_c2s@)),
            ) + ssh_string(
                joined(vecs(self.comp_s2c@)),
            ) + ssh_string(
                joined(vecs(self.lang_c2s@)),
            ) + ssh_string(
                joined(vecs(self.lang_s2c@)),
            ) + seq![
                if self.first_kex_packet_follows {
                    1u8
                } else {
                    0u8
                },
            ] + be32(self.reserved),
    {
        let ghost names = self@.slots;
        let mut out: Vec<u8> = Vec::new();
        out.push(20);
        push_all(&mut out, self.cookie.as_slice());
        let ghost head = out@;
        proof {
            assert(head =~= seq![20u8] + self.cookie@);
        }
        let slots = self.slots();
        let mut i: usize = 0;
        while i < 10
            invariant
                i <= 10,
                names == self@.slots,
                names.len() == 10,
                self@.fits(),
                forall|j: int| 0 <= j < LIST_COUNT ==> vecs((#[trigger] slots@[j])@) == names[j],
                out@ + lists_bytes(names, i as int) == head + lists_bytes(names, 0),
            decreases 10 - i,
        {
            let ghost before = out@;
            proof {
                assert(vecs(slots@[i as int]@) == names[i as int]);
                assert(fits_u32(joined(names[i as int])));
            }
            put_name_list(&mut out, slots[i].as_slice());
            proof {
                let one = ssh_string(joined(names[i as int]));
                assert(before + (one + lists_bytes(names, i + 1)) =~= out@ + lists_bytes(names, i + 1));
            }
            i = i + 1;
        }
        proof {
            assert(out@ + Seq::<u8>::empty() =~= out@);
        }
        out.push(if self.first_kex_packet_follows { 1 } else { 0 });
        put_u32(&mut out, self.reserved);
        proof {
            assert(out@ =~= kexinit_bytes(self@.fields()));
            lemma_ten_lists(self@.slots);
            assert(out@ =~= seq![20u8] + self.cookie@ + ssh_string(
                joined(vecs(self.kex@)),
            ) + ssh_string(
                joined(vecs(self.host_key@)),
            ) + ssh_string(
                joined(vecs(self.enc_c2s@)),
            ) + ssh_string(
                joined(vecs(self.enc_s2c@)),
            ) + ssh_string(
                joined(vecs(self.mac_c2s@)),
            ) + ssh_string(
                joined(vecs(self.mac_s2c@)),
            ) + ssh_string(
                joined(vecs(self.comp_c2s@)),
            ) + ssh_string(
                joined(vecs(self.comp_s2c@)),
            ) + ssh_string(
                joined(vecs(self.lang_c2s@)),
            ) + ssh_string(
                joined(vecs(self.lang_s2c@)),
            ) + seq![
                if self.first_kex_packet_follows {
                    1u8
                } else {
                    0u8
                },
            ] + be32(self.reserved));
        }
        out
    }

    /// The lists that this client proposes.
    pub fn tatami_client(cookie: [u8; 16], ext_info: bool, strict: bool) -> (r: Lists)
        ensures
            r@ == client_proposal(cookie@, ext_info, strict),
            r.cookie@ == cookie@,
            vecs(r.kex@)[0] == bytes_of("curve25519-sha256"),
            r.kex@.len() == 1 + (if ext_info {
                1int
            } else {
                0
            }) + (if strict {
                2int
            } else {
                0
            }),
            vecs(r.kex@).contains(bytes_of("ext-info-c")) || !ext_info,
            vecs(r.kex@).contains(bytes_of("kex-strict-c-v00@openssh.com")) || !strict,
            vecs(r.kex@).contains(bytes_of("kex-strict-c")) || !strict,
            vecs(r.host_key@) == seq![bytes_of("ssh-ed25519")],
            vecs(r.enc_c2s@) == seq![bytes_of("aes128-gcm@openssh.com")],
            vecs(r.enc_s2c@) == seq![bytes_of("aes128-gcm@openssh.com")],
            vecs(r.mac_c2s@) == seq![bytes_of("hmac-sha2-256")],
            vecs(r.mac_s2c@) == seq![bytes_of("hmac-sha2-256")],
            vecs(r.comp_c2s@) == seq![bytes_of("none")],
            vecs(r.comp_s2c@) == seq![bytes_of("none")],
            r.lang_c2s@.len() == 0 && r.lang_s2c@.len() == 0,
            !r.first_kex_packet_follows && r.reserved == 0,
    {
        let mut kex = one("curve25519-sha256");
        if ext_info {
            let ghost before = vecs(kex@);
            kex.push(copy_bytes("ext-info-c".as_bytes()));
            proof {
                assert(vecs(kex@) =~= before.push(bytes_of("ext-info-c")));
            }
        }
        if strict {
            let ghost before = vecs(kex@);
            kex.push(copy_bytes("kex-strict-c-v00@openssh.com".as_bytes()));
            kex.push(copy_bytes("kex-strict-c".as_bytes()));
            proof {
                assert(vecs(kex@) =~= before.push(bytes_of("kex-strict-c-v00@openssh.com")).push(
                    bytes_of("kex-strict-c"),
                ));
            }
        }
        let r = Lists {
            cookie,
            kex,
            host_key: one("ssh-ed25519"),
            enc_c2s: one("aes128-gcm@openssh.com"),
            enc_s2c: one("aes128-gcm@openssh.com"),
            mac_c2s: one("hmac-sha2-256"),
            mac_s2c: one("hmac-sha2-256"),
            comp_c2s: one("none"),
            comp_s2c: one("none"),
            lang_c2s: Vec::new(),
            lang_s2c: Vec::new(),
            first_kex_packet_follows: false,
            reserved: 0,
        };
        proof {
            assert(vecs(r.lang_c2s@) =~= Seq::empty());
            assert(vecs(r.lang_s2c@) =~= Seq::empty());
            assert(r@.slots =~= client_proposal(cookie@, ext_info, strict).slots);
            let names = vecs(r.kex@);
            if ext_info {
                assert(names[1] == bytes_of("ext-info-c"));
            }
            if strict {
                assert(names[names.len() - 2] == bytes_of("kex-strict-c-v00@openssh.com"));
                assert(names[names.len() - 1] == bytes_of("kex-strict-c"));
            }
        }
        r
    }
}

/// A proposal of valid names is read back from its payload, list by list.
pub proof fn lemma_payload_reads_back(l: ListsView)
    requires
        l.cookie.len() == 16,
        l.slots.len() == LIST_COUNT,
        l.fits(),
        forall|i: int| 0 <= i < LIST_COUNT ==> valid_names(#[trigger] l.slots[i]),
    ensures
        kexinit_read(kexinit_bytes(l.fields())) == Ok::<KexInitFields, MessageError>(l.fields()),
{
    assert forall|i: int| 0 <= i < LIST_COUNT implies valid_names(#[trigger] l.fields().names[i]) && fits_u32(
        joined(l.fields().names[i]),
    ) by {
        assert(valid_names(l.slots[i]));
        assert(fits_u32(joined(l.slots[i])));
    }
    assert(kexinit_valid(l.fields()));
    lemma_kexinit_write_read(l.fields(), Seq::empty());
}

impl Pool {
    /// The names of the table.
    pub open spec fn names(self) -> Seq<Seq<u8>> {
        Seq::new(self.count() as nat, |i: int| bytes_of(self.entry(i)))
    }

    /// The names of the table.
    pub fn slices(self) -> (r: Vec<&'static [u8]>)
        ensures
            slices(r@) == self.names(),
            usable(slices(r@)),
    {
        let mut out: Vec<&'static [u8]> = Vec::new();
        let n: usize = self.len();
        let mut i: usize = 0;
        while i < n
            invariant
                i <= n,
                n == self.count(),
                out@.len() == i,
                forall|j: int| 0 <= j < i ==> (#[trigger] out@[j])@ == bytes_of(self.entry(j)),
            decreases n - i,
        {
            out.push(self.name(i).as_bytes());
            i = i + 1;
        }
        proof {
            assert(slices(out@) =~= self.names());
            assert forall|j: int| 0 <= j < self.names().len() implies valid_name(#[trigger] self.names()[j])
                && self.names()[j].len() <= MAX_NAME by {
                lemma_entry_valid(self, j);
            }
        }
        out
    }
}

/// Every name of a table is valid and of moderate length.
pub open spec fn usable(pool: Seq<Seq<u8>>) -> bool {
    forall|i: int| 0 <= i < pool.len() ==> valid_name(#[trigger] pool[i]) && pool[i].len() <= MAX_NAME
}

/// The name that the input describes, and the input behind it.
pub open spec fn name_drawn(s: Seq<u8>, pool: Seq<Seq<u8>>, with_markers: bool) -> (Seq<u8>, Seq<u8>) {
    let idx = byte_at(s, 0) as int;
    let s1 = dropped(s, 1);
    let table = pool.len() + if with_markers {
        6int
    } else {
        0int
    };
    if idx < pool.len() {
        (pool[idx], s1)
    } else if idx < table {
        (bytes_of(Pool::Markers.entry(idx - pool.len())), s1)
    } else {
        let len = 1 + (idx - table) % 12;
        (taken_filled(s1, len, 17).map_values(|b: u8| name_for(b)), dropped(s1, len))
    }
}

/// One name from `pool` (index byte below the pool length plus the marker
/// table), or a short name of sanitized bytes.
pub fn gen_name(cur: &mut Cursor<'_>, pool: &[&[u8]], with_markers: bool) -> (r: Vec<u8>)
    ensures
        (r@, final(cur)@) == name_drawn(old(cur)@, slices(pool@), with_markers),
        usable(slices(pool@)) ==> valid_name(r@) && r@.len() <= MAX_NAME,
{
    let idx: usize = cur.u8() as usize;
    let count: usize = pool.len();
    if idx < count {
        proof {
            assert(slices(pool@)[idx as int] == pool@[idx as int]@);
        }
        return copy_bytes(pool[idx]);
    }
    let table: usize = count + if with_markers { 6 } else { 0 };
    if idx < table {
        proof {
            lemma_entry_valid(Pool::Markers, idx - count);
        }
        copy_bytes(Pool::Markers.name(idx - count).as_bytes())
    } else {
        let len: usize = 1 + (idx - table) % 12;
        let raw = cur.take_filled(len, 17);
        let mut out: Vec<u8> = Vec::new();
        let mut i: usize = 0;
        while i < raw.len()
            invariant
                i <= raw@.len(),
                out@.len() == i,
                forall|j: int| 0 <= j < i ==> #[trigger] out@[j] == name_for(raw@[j]),
                forall|j: int| 0 <= j < i ==> printable(#[trigger] out@[j]) && out@[j] != 44u8,
            decreases raw@.len() - i,
        {
            out.push(sanitize_name(raw[i]));
            i = i + 1;
        }
        proof {
            assert(out@ =~= raw@.map_values(|b: u8| name_for(b)));
        }
        out
    }
}

/// `n` names from the input, and the input behind them.
pub open spec fn names_drawn(s: Seq<u8>, pool: Seq<Seq<u8>>, with_markers: bool, n: int) -> (Seq<Seq<u8>>, Seq<u8>)
    decreases n,
{
    if n <= 0 {
        (Seq::empty(), s)
    } else {
        let (names, s1) = names_drawn(s, pool, with_markers, n - 1);
        let (name, s2) = name_drawn(s1, pool, with_markers);
        (names.push(name), s2)
    }
}

/// The list that the input describes, and the input behind it.
pub open spec fn list_drawn(s: Seq<u8>, pool: Seq<Seq<u8>>, with_markers: bool) -> (Seq<Seq<u8>>, Seq<u8>) {
    names_drawn(dropped(s, 1), pool, with_markers, (byte_at(s, 0) % 5) as int)
}

/// A list of `count u8 mod 5` names from `pool`.
pub fn gen_list(cur: &mut Cursor<'_>, pool: &[&[u8]], with_markers: bool) -> (r: Vec<Vec<u8>>)
    ensures
        (vecs(r@), final(cur)@) == list_drawn(old(cur)@, slices(pool@), with_markers),
        usable(slices(pool@)) ==> moderate(vecs(r@), 4),
{
    let count: usize = (cur.u8() % 5) as usize;
    let ghost start = cur@;
    let mut out: Vec<Vec<u8>> = Vec::new();
    let mut i: usize = 0;
    proof {
        assert(vecs(out@) =~= Seq::empty());
    }
    while i < count
        invariant
            i <= count <= 4,
            out@.len() == i,
            (vecs(out@), cur@) == names_drawn(start, slices(pool@), with_markers, i as int),
            usable(slices(pool@)) ==> moderate(vecs(out@), i as int),
        decreases count - i,
    {
        let ghost before = vecs(out@);
        let name = gen_name(cur, pool, with_markers);
        let ghost v = name@;
        out.push(name);
        i = i + 1;
        proof {
            assert(vecs(out@) =~= before.push(v));
            if usable(slices(pool@)) {
                assert forall|j: int| 0 <= j < vecs(out@).len() implies valid_name(#[trigger] vecs(out@)[j])
                    && vecs(out@)[j].len() <= MAX_NAME by {
                    if j < before.len() {
                        assert(vecs(out@)[j] == before[j]);
                    }
                }
            }
        }
    }
    out
}

/// The proposal that the input describes, and the input behind it.
pub open spec fn lists_drawn(s: Seq<u8>) -> (ListsView, Seq<u8>) {
    let (kex, s1) = list_drawn(dropped(s, 16), Pool::KexMethods.names(), true);
    let (host_key, s2) = list_drawn(s1, Pool::HostKeys.names(), false);
    let (enc_c2s, s3) = list_drawn(s2, Pool::Ciphers.names(), false);
    let (enc_s2c, s4) = list_drawn(s3, Pool::Ciphers.names(), false);
    let (mac_c2s, s5) = list_drawn(s4, Pool::Macs.names(), false);
    let (mac_s2c, s6) = list_drawn(s5, Pool::Macs.names(), false);
    let (comp_c2s, s7) = list_drawn(s6, Pool::Compressions.names(), false);
    let (comp_s2c, s8) = list_drawn(s7, Pool::Compressions.names(), false);
    let (lang_c2s, s9) = list_drawn(s8, Pool::Languages.names(), false);
    let (lang_s2c, s10) = list_drawn(s9, Pool::Languages.names(), false);
    let flags = byte_at(s10, 0);
    let s11 = dropped(s10, 1);
    (
        ListsView {
            cookie: taken_filled(s, 16, 23),
            slots: seq![
                kex,
                host_key,
                enc_c2s,
                enc_s2c,
                mac_c2s,
                mac_s2c,
                comp_c2s,
                comp_s2c,
                lang_c2s,
                lang_s2c,
            ],
            first: bit(flags, 1),
            reserved: if bit(flags, 2) {
                u32_at(s11)
            } else {
                0
            },
        },
        if bit(flags, 2) {
            dropped(s11, 4)
        } else {
            s11
        },
    )
}

/// Layout: cookie 16, then for each of the ten lists `count u8 mod 5` and per
/// name an index byte (sanitized names consume more), then a flags byte (bit0
/// first_kex_packet_follows, bit1 reserved u32 follows).
pub fn gen_lists(cur: &mut Cursor<'_>) -> (r: Lists)
    ensures
        (r@, final(cur)@) == lists_drawn(old(cur)@),
        r@.fits(),
        forall|i: int| 0 <= i < LIST_COUNT ==> moderate(#[trigger] r@.slots[i], 4),
{
    let raw = cur.take_filled(16, 23);
    let cookie = cookie_array(raw.as_slice());
    let kex = gen_list(cur, Pool::KexMethods.slices().as_slice(), true);
    let host_key = gen_list(cur, Pool::HostKeys.slices().as_slice(), false);
    let enc_c2s = gen_list(cur, Pool::Ciphers.slices().as_slice(), false);
    let enc_s2c = gen_list(cur, Pool::Ciphers.slices().as_slice(), false);
    let mac_c2s = gen_list(cur, Pool::Macs.slices().as_slice(), false);
    let mac_s2c = gen_list(cur, Pool::Macs.slices().as_slice(), false);
    let comp_c2s = gen_list(cur, Pool::Compressions.slices().as_slice(), false);
    let comp_s2c = gen_list(cur, Pool::Compressions.slices().as_slice(), false);
    let lang_c2s = gen_list(cur, Pool::Languages.slices().as_slice(), false);
    let lang_s2c = gen_list(cur, Pool::Languages.slices().as_slice(), false);
    let flags: u8 = cur.u8();
    let reserved: u32 = if has_bit(flags, 2) { cur.u32() } else { 0 };
    let r = Lists {
        cookie,
        kex,
        host_key,
        enc_c2s,
        enc_s2c,
        mac_c2s,
        mac_s2c,
        comp_c2s,
        comp_s2c,
        lang_c2s,
        lang_s2c,
        first_kex_packet_follows: has_bit(flags, 1),
        reserved,
    };
    proof {
        assert forall|i: int| 0 <= i < LIST_COUNT implies fits_u32(joined(#[trigger] r@.slots[i])) by {
            assert(moderate(r@.slots[i], 4));
            lemma_joined_short(r@.slots[i]);
        }
        assert(r@.slots =~= lists_drawn(old(cur)@).0.slots);
    }
    r
}

} // verus!
