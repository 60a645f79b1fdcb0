//! EXT_INFO codecs and the `mpint` primitive under test.

use vstd::prelude::*;
use crate::seqs::{copy_bytes, head, min_int, opt_vec, own_all, push_all, same_bytes, same_opt, same_vecs, vecs};
use crate::tcp_support::packet_ref::lemma_u32_prefix;
use crate::text::{bytes_of, lemma_ascii_len};
use crate::wire_core::bytes::{be32, fits_u32, lemma_u32_write_read, put_u32, ssh_string, u32_of};
use crate::wire_core::cursor::{read_string, RefCursor};
use crate::wire_core::error::{DecodeError, Field, MessageError};
use crate::wire_core::generate::{after, bounded_bytes, bounded_gen, byte, little, small, small_gen, word, Source};
use crate::wire_core::kex_laws::{
    all_ok, first_sig_algs, lemma_ext_info_count_over, lemma_ext_info_huge, lemma_ext_info_truncated,
    lemma_ext_info_write_read,
};
use crate::wire_core::kex_ref::{
    assemble_ext_info, classify_extension, ext_header_read, ext_info_bytes, ext_info_header, ext_info_pairs,
    ext_info_validate, ext_info_verdict, extension_of, pair_items, pair_views, pairs_bytes, pairs_fit, pairs_read, server_sig_algs,
    sig_algs_read, ExtHeader, ExtInfoError, KnownExtension, PairView, EXT_INFO,
};
use crate::wire_core::mpint_ref::{
    canonical, is_canonical, is_negative, lemma_positive_round_trip, lemma_rewrite_iff_canonical, lemma_zeros,
    negative, positive_body, positive_encoding, positive_magnitude, stripped,
};

verus! {

/// Limits to validate under.
pub const VALIDATE_MAXES: [usize; 4] = [0, 1, 8, 64];

/// One item of a walk over the pairs, with the class that was given to its
/// name.
#[derive(Clone, Debug, PartialEq, Eq)]
pub struct PairSeen {
    pub name: Vec<u8>,
    pub value: Vec<u8>,
    pub class: Option<KnownExtension>,
}

/// What a decoded EXT_INFO says of itself.
pub struct ExtSeen {
    pub claimed: u32,
    /// The most items that a walk announces.
    pub upper: usize,
    pub items: Vec<Result<PairSeen, MessageError>>,
    /// Limits with what validating under them gave.
    pub validated: Vec<(usize, Result<usize, ExtInfoError>)>,
    pub sig_algs: Option<Result<Vec<Vec<u8>>, ExtInfoError>>,
}

/// One item over sequences.
pub open spec fn item_view(r: Result<PairSeen, MessageError>) -> Result<PairView, MessageError> {
    match r {
        Ok(p) => Ok((p.name@, p.value@)),
        Err(e) => Err(e),
    }
}

/// The items of a walk are those of the payload, and their names have their
/// classes.
pub open spec fn items_right(items: Seq<Result<PairSeen, MessageError>>, want: Seq<Result<PairView, MessageError>>) -> bool {
    &&& items.len() == want.len()
    &&& forall|i: int| 0 <= i < items.len() ==> item_view(#[trigger] items[i]) == want[i]
    &&& forall|i: int|
        0 <= i < items.len() ==> (#[trigger] items[i] matches Ok(p) ==> p.class == extension_of(p.name@))
}

/// The names of `server-sig-algs` are those of the payload.
pub open spec fn sig_algs_right(
    got: Option<Result<Vec<Vec<u8>>, ExtInfoError>>,
    want: Option<Result<Seq<Seq<u8>>, ExtInfoError>>,
) -> bool {
    match (got, want) {
        (None, None) => true,
        (Some(Ok(a)), Some(Ok(b))) => vecs(a@) == b,
        (Some(Err(a)), Some(Err(b))) => a == b,
        _ => false,
    }
}

/// Validating gave what the payload says, under every limit.
pub open spec fn verdicts_right(v: Seq<(usize, Result<usize, ExtInfoError>)>, s: Seq<u8>, h: ExtHeader) -> bool {
    forall|i: int| 0 <= i < v.len() ==> (#[trigger] v[i]).1 == ext_info_verdict(s, h, v[i].0)
}

/// Decoding gave what it must: the error of the header, or everything that
/// the payload says.
pub open spec fn ext_right(s: Seq<u8>, actual: Result<ExtSeen, MessageError>) -> bool {
    match (ext_header_read(s), actual) {
        (Err(e), Err(a)) => a == e,
        (Ok(h), Ok(x)) => {
            &&& x.claimed == h.claimed
            &&& x.upper == h.count
            &&& items_right(x.items@, pairs_read(s, 5, h.count as int))
            &&& verdicts_right(x.validated@, s, h)
            &&& sig_algs_right(x.sig_algs, sig_algs_read(s, 5, h.count as int))
        },
        _ => false,
    }
}

fn same_item(item: &Result<PairSeen, MessageError>, want: &Result<(&[u8], &[u8]), MessageError>) -> (r: bool)
    ensures
        r == (item_view(*item) == (match want {
            Ok(p) => Ok::<PairView, MessageError>((p.0@, p.1@)),
            Err(e) => Err::<PairView, MessageError>(*e),
        }) && (item matches Ok(p) ==> p.class == extension_of(p.name@))),
{
    match (item, want) {
        (Ok(p), Ok(w)) => {
            let class = classify_extension(p.name.as_slice());
            let same_class: bool = match (p.class, class) {
                (Some(a), Some(b)) => a == b,
                (None, None) => true,
                _ => false,
            };
            same_bytes(p.name.as_slice(), w.0) && same_bytes(p.value.as_slice(), w.1) && same_class
        },
        (Err(a), Err(b)) => *a == *b,
        _ => false,
    }
}

fn check_items(items: &Vec<Result<PairSeen, MessageError>>, payload: &[u8], h: &ExtHeader) -> (r: bool)
    requires
        payload@.len() >= 5,
    ensures
        r == items_right(items@, pairs_read(payload@, 5, h.count as int)),
{
    let want = ext_info_pairs(payload, h);
    let ghost w = pairs_read(payload@, 5, h.count as int);
    if items.len() != want.len() {
        proof {
            assert(pair_items(want@).len() == want@.len());
        }
        return false;
    }
    let mut i: usize = 0;
    while i < items.len()
        invariant
            i <= items@.len(),
            items@.len() == want@.len(),
            w == pair_items(want@),
            w == pairs_read(payload@, 5, h.count as int),
            forall|j: int| 0 <= j < i ==> item_view(#[trigger] items@[j]) == w[j],
            forall|j: int|
                0 <= j < i ==> (#[trigger] items@[j] matches Ok(p) ==> p.class == extension_of(p.name@)),
        decreases items@.len() - i,
    {
        let good: bool = same_item(&items[i], &want[i]);
        proof {
            assert(w[i as int] == pair_items(want@)[i as int]);
        }
        if !good {
            proof {
                let it = items@[i as int];
                assert(!(item_view(it) == w[i as int] && (it matches Ok(p) ==> p.class == extension_of(p.name@))));
            }
            return false;
        }
        i = i + 1;
    }
    true
}

fn same_verdict(a: &Result<usize, ExtInfoError>, b: &Result<usize, ExtInfoError>) -> (r: bool)
    ensures
        r == (*a == *b),
{
    match (a, b) {
        (Ok(x), Ok(y)) => *x == *y,
        (Err(x), Err(y)) => *x == *y,
        _ => false,
    }
}

fn check_verdicts(v: &Vec<(usize, Result<usize, ExtInfoError>)>, payload: &[u8], h: &ExtHeader) -> (r: bool)
    requires
        payload@.len() >= 5,
    ensures
        r == verdicts_right(v@, payload@, *h),
{
    let mut i: usize = 0;
    while i < v.len()
        invariant
            i <= v@.len(),
            payload@.len() >= 5,
            forall|j: int| 0 <= j < i ==> (#[trigger] v@[j]).1 == ext_info_verdict(payload@, *h, v@[j].0),
        decreases v@.len() - i,
    {
        let q = &v[i];
        let want = ext_info_validate(payload, h, q.0);
        if !same_verdict(&q.1, &want) {
            proof {
                assert(v@[i as int].1 != ext_info_verdict(payload@, *h, v@[i as int].0));
            }
            return false;
        }
        i = i + 1;
    }
    true
}

/// Whether decoding an EXT_INFO payload gave what it must.
pub fn check_ext_info_raw(payload: &[u8], actual: &Result<ExtSeen, MessageError>) -> (r: bool)
    ensures
        r == ext_right(payload@, *actual),
{
    match (ext_info_header(payload), actual) {
        (Err(e), Err(a)) => *a == e,
        (Ok(h), Ok(x)) => {
            let algs: bool = match (&x.sig_algs, server_sig_algs(payload, &h)) {
                (None, None) => true,
                (Some(Ok(a)), Some(Ok(b))) => same_vecs(a, &own_all(&b)),
                (Some(Err(a)), Some(Err(b))) => *a == b,
                _ => false,
            };
            x.claimed == h.claimed && x.upper == h.count && check_items(&x.items, payload, &h) && check_verdicts(
                &x.validated,
                payload,
                &h,
            ) && algs
        },
        _ => false,
    }
}

/// Names of extensions, in use or not.
pub const EXT_NAMES: [&'static str; 8] = [
    "server-sig-algs",
    "delay-compression",
    "no-flow-control",
    "elevation",
    "publickey-hostbound@openssh.com",
    "ping@openssh.com",
    "",
    "server-sig-algs ",
];

/// Values for `server-sig-algs`, in order or not.
pub const SIG_ALG_LISTS: [&'static str; 6] = [
    "ssh-ed25519",
    "ssh-ed25519,rsa-sha2-512,rsa-sha2-256",
    "",
    "a,,b",
    "ok,bad name",
    "ssh-ed25519,",
];

proof fn lemma_ext_name_short(i: int)
    requires
        0 <= i < 8,
    ensures
        bytes_of(EXT_NAMES@[i]).len() <= 64,
{
    if i == 0 {
        reveal_strlit("server-sig-algs");
        lemma_ascii_len("server-sig-algs");
    } else if i == 1 {
        reveal_strlit("delay-compression");
        lemma_ascii_len("delay-compression");
    } else if i == 2 {
        reveal_strlit("no-flow-control");
        lemma_ascii_len("no-flow-control");
    } else if i == 3 {
        reveal_strlit("elevation");
        lemma_ascii_len("elevation");
    } else if i == 4 {
        reveal_strlit("publickey-hostbound@openssh.com");
        lemma_ascii_len("publickey-hostbound@openssh.com");
    } else if i == 5 {
        reveal_strlit("ping@openssh.com");
        lemma_ascii_len("ping@openssh.com");
    } else if i == 6 {
        reveal_strlit("");
        lemma_ascii_len("");
    } else {
        reveal_strlit("server-sig-algs ");
        lemma_ascii_len("server-sig-algs ");
    }
}

proof fn lemma_sig_list_short(i: int)
    requires
        0 <= i < 6,
    ensures
        bytes_of(SIG_ALG_LISTS@[i]).len() <= 64,
{
    if i == 0 {
        reveal_strlit("ssh-ed25519");
        lemma_ascii_len("ssh-ed25519");
    } else if i == 1 {
        reveal_strlit("ssh-ed25519,rsa-sha2-512,rsa-sha2-256");
        lemma_ascii_len("ssh-ed25519,rsa-sha2-512,rsa-sha2-256");
    } else if i == 2 {
        reveal_strlit("");
        lemma_ascii_len("");
    } else if i == 3 {
        reveal_strlit("a,,b");
        lemma_ascii_len("a,,b");
    } else if i == 4 {
        reveal_strlit("ok,bad name");
        lemma_ascii_len("ok,bad name");
    } else {
        reveal_strlit("ssh-ed25519,");
        lemma_ascii_len("ssh-ed25519,");
    }
}

/// The pair that the input gives.
#[verifier::opaque]
pub open spec fn pair_gen(s: Seq<u8>) -> (PairView, Seq<u8>) {
    let sel = little(s, 1);
    let s1 = after(s, 1);
    let (name, s2) = if sel < 0xC0 {
        (bytes_of(EXT_NAMES@[sel % 8]), s1)
    } else {
        bounded_gen(s1, 40)
    };
    if name == bytes_of("server-sig-algs") {
        let s3 = after(s2, 1);
        if little(s2, 1) % 2 == 1 {
            ((name, bytes_of(SIG_ALG_LISTS@[little(s3, 1) % 6])), after(s3, 1))
        } else {
            let (value, s4) = bounded_gen(s3, 64);
            ((name, value), s4)
        }
    } else {
        let (value, s3) = bounded_gen(s2, 64);
        ((name, value), s3)
    }
}

/// Draws a pair: a name of the table or any bytes, and a value that for
/// `server-sig-algs` may be one of the table.
pub fn gen_ext_pair(u: &mut Source<'_>) -> (r: (Vec<u8>, Vec<u8>))
    ensures
        ((r.0@, r.1@), final(u)@) == pair_gen(old(u)@),
        r.0@.len() <= 64,
        r.1@.len() <= 64,
{
    proof {
        reveal(pair_gen);
    }
    let sel: u8 = byte(u);
    let name = if sel < 0xC0 {
        let i: usize = sel as usize % 8;
        proof {
            lemma_ext_name_short(i as int);
        }
        copy_bytes(EXT_NAMES.as_slice()[i].as_bytes())
    } else {
        bounded_bytes(u, 40)
    };
    if same_bytes(name.as_slice(), "server-sig-algs".as_bytes()) && byte(u) % 2 == 1 {
        let i: usize = byte(u) as usize % 6;
        proof {
            lemma_sig_list_short(i as int);
        }
        let value = copy_bytes(SIG_ALG_LISTS.as_slice()[i].as_bytes());
        (name, value)
    } else {
        let value = bounded_bytes(u, 64);
        (name, value)
    }
}

/// The pairs that the input gives.
pub open spec fn pairs_gen(s: Seq<u8>, n: int) -> (Seq<PairView>, Seq<u8>)
    decreases n,
{
    if n <= 0 {
        (Seq::empty(), s)
    } else {
        let (p, s1) = pair_gen(s);
        let (more, s2) = pairs_gen(s1, n - 1);
        (seq![p] + more, s2)
    }
}

/// An EXT_INFO and changed forms of it: with a count of one more, with a count
/// that cannot fit, with a byte behind it, and cut inside the pairs.
#[derive(Debug)]
pub struct ExtCase {
    pub pairs: Vec<(Vec<u8>, Vec<u8>)>,
    pub payload: Vec<u8>,
    pub over: Vec<u8>,
    pub huge: Vec<u8>,
    pub trailing: Vec<u8>,
    /// Where there are pairs to cut.
    pub cut: Option<Vec<u8>>,
}

/// A number of at least two.
pub open spec fn at_least_two(n: int) -> u32 {
    if n < 2 {
        2
    } else {
        n as u32
    }
}

/// A case is what the input says.
pub open spec fn ext_case_holds(s: Seq<u8>, c: ExtCase) -> bool {
    let (n, s1) = small_gen(s, 8);
    let (pairs, s2) = pairs_gen(s1, n as int);
    let body = pairs_bytes(pairs, 0);
    let s3 = after(s2, 4);
    let s4 = after(s3, 1);
    &&& pair_views(c.pairs@) == pairs
    &&& c.payload@ == ext_info_bytes(pairs)
    &&& c.over@ == seq![EXT_INFO] + be32((n + 1) as u32) + body
    &&& c.huge@ == seq![EXT_INFO] + be32(at_least_two(little(s2, 4))) + Seq::new(7, |i: int| 0u8)
    &&& c.trailing@ == c.payload@.push(little(s3, 1) as u8)
    &&& match c.cut {
        Some(b) => n > 0 && b@ == c.payload@.take(
            5 + min_int(
                small_gen(s4, min_int(body.len() as int, 65535) as u16).0 as int,
                body.len() - 1,
            ),
        ),
        None => n == 0,
    }
}

fn gen_pairs(u: &mut Source<'_>, n: usize) -> (r: Vec<(Vec<u8>, Vec<u8>)>)
    requires
        n <= 8,
    ensures
        (pair_views(r@), final(u)@) == pairs_gen(old(u)@, n as int),
        r@.len() == n,
        pairs_fit(pair_views(r@)),
{
    let mut out: Vec<(Vec<u8>, Vec<u8>)> = Vec::new();
    let mut i: usize = 0;
    let ghost all = pairs_gen(u@, n as int);
    proof {
        assert(pair_views(out@) =~= Seq::empty());
        assert(Seq::<PairView>::empty() + all.0 =~= all.0);
    }
    while i < n
        invariant
            i <= n <= 8,
            out@.len() == i,
            all == pairs_gen(old(u)@, n as int),
            all.0 == pair_views(out@) + pairs_gen(u@, n - i).0,
            all.1 == pairs_gen(u@, n - i).1,
            pairs_fit(pair_views(out@)),
        decreases n - i,
    {
        let ghost before = pair_views(out@);
        let ghost at = u@;
        let p = gen_ext_pair(u);
        let ghost pv = (p.0@, p.1@);
        out.push(p);
        proof {
            assert(pair_views(out@) =~= before.push(pv));
            assert forall|j: int| 0 <= j < before.push(pv).len() implies fits_u32((#[trigger] before.push(pv)[j]).0)
                && fits_u32(before.push(pv)[j].1) by {
                if j < before.len() {
                    assert(before.push(pv)[j] == before[j]);
                }
            }
            assert(before.push(pv) + pairs_gen(u@, n - i - 1).0 =~= before + pairs_gen(at, n - i).0);
        }
        i = i + 1;
    }
    proof {
        assert(pair_views(out@) + pairs_gen(u@, 0).0 =~= pair_views(out@));
    }
    out
}

proof fn lemma_pairs_nonempty(pairs: Seq<PairView>)
    requires
        pairs.len() > 0,
    ensures
        pairs_bytes(pairs, 0).len() >= 8,
{
    broadcast use crate::wire_core::bytes::lemma_be32_len;

}

/// Draws an EXT_INFO and its changed forms.
pub fn gen_ext_case(data: &[u8]) -> (r: ExtCase)
    ensures
        ext_case_holds(data@, r),
        pairs_fit(pair_views(r.pairs@)),
{
    broadcast use crate::wire_core::bytes::lemma_be32_len;

    let mut u = Source::new(data);
    let n: usize = small(&mut u, 8);
    let pairs = gen_pairs(&mut u, n);
    let ghost pv = pair_views(pairs@);
    let payload = assemble_ext_info(&pairs);
    let ghost body = pairs_bytes(pv, 0);
    proof {
        assert(payload@.skip(5) =~= body);
    }
    let tail = crate::seqs::tail(payload.as_slice(), 5);
    let mut over: Vec<u8> = Vec::new();
    over.push(EXT_INFO);
    put_u32(&mut over, n as u32 + 1);
    push_all(&mut over, tail);
    proof {
        assert(over@ =~= seq![EXT_INFO] + be32((n + 1) as u32) + body);
    }
    let w: u32 = word(&mut u);
    let count: u32 = if w < 2 { 2 } else { w };
    let mut huge: Vec<u8> = Vec::new();
    huge.push(EXT_INFO);
    put_u32(&mut huge, count);
    let zeros: [u8; 7] = [0, 0, 0, 0, 0, 0, 0];
    push_all(&mut huge, zeros.as_slice());
    proof {
        assert(huge@ =~= seq![EXT_INFO] + be32(count) + Seq::new(7, |i: int| 0u8));
    }
    let mut trailing = copy_bytes(payload.as_slice());
    trailing.push(byte(&mut u));
    let cut: Option<Vec<u8>> = if n > 0 {
        proof {
            lemma_pairs_nonempty(pv);
        }
        let len: usize = tail.len();
        let bound: u16 = if len <= 65535 { len as u16 } else { 65535 };
        let k: usize = small(&mut u, bound);
        let k: usize = if k <= len - 1 { k } else { len - 1 };
        Some(copy_bytes(head(payload.as_slice(), 5 + k)))
    } else {
        None
    };
    ExtCase { pairs, payload, over, huge, trailing, cut }
}

/// What must become of an EXT_INFO and its changed forms. The message gives
/// its pairs and validates up to a limit of its own count; a lower limit
/// refuses it with the count and the limit. A count of one more is refused by
/// the header where the bytes cannot hold it; otherwise the walk gives the
/// pairs and then exactly one error, and validation reports both counts. One
/// that cannot fit is refused by the header, with the bytes that are there. A
/// byte behind the pairs is trailing. A cut message never validates.
pub proof fn lemma_ext_case(c: ExtCase, s: Seq<u8>, max: usize)
    requires
        ext_case_holds(s, c),
        pairs_fit(pair_views(c.pairs@)),
        c.pairs@.len() <= 8,
    ensures
        ({
            let pairs = pair_views(c.pairs@);
            let n = pairs.len();
            let body = pairs_bytes(pairs, 0);
            let h = ExtHeader { claimed: n as u32, count: n as usize };
            let h1 = ExtHeader { claimed: (n + 1) as u32, count: (n + 1) as usize };
            let huge = u32_of(c.huge@.skip(1));
            let too_many = Err::<usize, ExtInfoError>(ExtInfoError::TooManyExtensions { claimed: n as u32, max });
            let past_end = MessageError::Field {
                field: Field::ExtensionName,
                offset: c.over@.len() as usize,
                error: DecodeError::Truncated { needed: 4, available: 0 },
            };
            &&& ext_header_read(c.payload@) == Ok::<ExtHeader, MessageError>(h)
            &&& pairs_read(c.payload@, 5, n as int) == all_ok(pairs)
            &&& ext_info_verdict(c.payload@, h, max) == if n > max {
                too_many
            } else {
                Ok::<usize, ExtInfoError>(n as usize)
            }
            &&& sig_algs_read(c.payload@, 5, n as int) == first_sig_algs(pairs, 0)
            &&& ext_header_read(c.over@) == if n + 1 > body.len() / 8 {
                Err::<ExtHeader, MessageError>(count_refused((n + 1) as u32, body.len() as usize))
            } else {
                Ok::<ExtHeader, MessageError>(h1)
            }
            &&& pairs_read(c.over@, 5, n as int + 1) == all_ok(pairs).push(Err(past_end))
            &&& n < max ==> ext_info_verdict(c.over@, h1, max) == Err::<usize, ExtInfoError>(
                ExtInfoError::CountMismatch { claimed: (n + 1) as u32, found: n as usize },
            )
            &&& n >= max ==> ext_info_verdict(c.over@, h1, max) == Err::<usize, ExtInfoError>(
                ExtInfoError::TooManyExtensions { claimed: (n + 1) as u32, max },
            )
            &&& huge >= 2
            &&& ext_header_read(c.huge@) == Err::<ExtHeader, MessageError>(count_refused(huge, 7))
            &&& ext_header_read(c.trailing@) == Ok::<ExtHeader, MessageError>(h)
            &&& ext_info_verdict(c.trailing@, h, max) == if n > max {
                too_many
            } else {
                Err::<usize, ExtInfoError>(ExtInfoError::Message(MessageError::TrailingBytes { count: 1 }))
            }
            &&& c.cut matches Some(b) ==> (ext_header_read(b@) matches Ok(g) ==> ext_info_verdict(
                b@,
                g,
                usize::MAX,
            ) is Err)
        }),
{
    broadcast use crate::wire_core::bytes::lemma_be32_len;

    let pairs = pair_views(c.pairs@);
    lemma_ext_info_write_read(pairs, Seq::empty(), max);
    assert(ext_info_bytes(pairs) + Seq::<u8>::empty() =~= ext_info_bytes(pairs));
    let b = c.trailing@.last();
    lemma_ext_info_write_read(pairs, seq![b], max);
    assert(c.trailing@ =~= ext_info_bytes(pairs) + seq![b]);
    lemma_ext_info_count_over(pairs, usize::MAX);
    if pairs.len() < max {
        lemma_ext_info_count_over(pairs, max);
    }
    let (k, s1) = small_gen(s, 8);
    let (p2, s2) = pairs_gen(s1, k as int);
    assert(pairs == p2);
    lemma_pairs_count(s1, k as int);
    let zeros = Seq::new(7, |i: int| 0u8);
    assert(0 <= little(s2, 4) <= 0xffff_ffff) by {
        reveal_with_fuel(little, 5);
    }
    assert(zeros.len() == 7);
    let huge = at_least_two(little(s2, 4));
    lemma_ext_info_huge(huge, zeros);
    assert(c.huge@.skip(1) =~= be32(huge) + zeros);
    lemma_u32_prefix(be32(huge), c.huge@.skip(1));
    lemma_u32_write_read(huge);
    match c.cut {
        Some(v) => {
            lemma_pairs_nonempty(pairs);
            lemma_ext_info_truncated(pairs, v@.len() as int);
            assert(v@ =~= ext_info_bytes(pairs).take(v@.len() as int));
        },
        None => {},
    }
}

/// The header's refusal of a count that the bytes behind it cannot hold.
pub open spec fn count_refused(claimed: u32, available: usize) -> MessageError {
    MessageError::Field {
        field: Field::ExtensionCount,
        offset: 1,
        error: DecodeError::LengthOverflow { claimed, available },
    }
}

proof fn lemma_pairs_count(s: Seq<u8>, n: int)
    requires
        n >= 0,
    ensures
        pairs_gen(s, n).0.len() == n,
    decreases n,
{
    if n > 0 {
        lemma_pairs_count(pair_gen(s).1, n - 1);
    }
}

/// What an `mpint` says of itself, and what writing its magnitude gives.
#[derive(Clone, Debug, PartialEq, Eq)]
pub struct MpintSeen {
    pub bytes: Vec<u8>,
    pub is_zero: bool,
    pub is_negative: bool,
    pub is_canonical: bool,
    pub magnitude: Option<Vec<u8>>,
    /// The magnitude, written as an `mpint`.
    pub rewritten: Option<Vec<u8>>,
}

/// An `mpint` says of itself what its body says.
pub open spec fn mpint_right(m: MpintSeen, body: Seq<u8>) -> bool {
    &&& m.bytes@ == body
    &&& m.is_zero == (body.len() == 0)
    &&& m.is_negative == negative(body)
    &&& m.is_canonical == canonical(body)
    &&& opt_vec(m.magnitude) == (if negative(body) {
        None
    } else {
        Some(stripped(body))
    })
    &&& opt_vec(m.rewritten) == (if negative(body) {
        None
    } else {
        Some(ssh_string(positive_body(stripped(body))))
    })
}

/// Whether an `mpint` says of itself what its body says.
pub fn check_mpint_body(m: &MpintSeen, body: &[u8]) -> (r: bool)
    requires
        body@.len() < u32::MAX,
    ensures
        r == mpint_right(*m, body@),
{
    let (magnitude, rewritten): (Option<Vec<u8>>, Option<Vec<u8>>) = match positive_magnitude(body) {
        Some(mag) => {
            proof {
                lemma_zeros(body@, 0);
            }
            (Some(copy_bytes(mag)), Some(positive_encoding(mag)))
        },
        None => (None, None),
    };
    same_bytes(m.bytes.as_slice(), body) && m.is_zero == (body.len() == 0) && m.is_negative == is_negative(body)
        && m.is_canonical == is_canonical(body) && same_opt(&m.magnitude, &magnitude) && same_opt(
        &m.rewritten,
        &rewritten,
    )
}

/// Reading an `mpint` gave what it must: its body, with the position behind
/// it, or the exact error of a string, with the reader where it was.
pub open spec fn mpint_read_right(s: Seq<u8>, actual: Result<MpintSeen, DecodeError>, position: int) -> bool {
    match (read_string(s, 0), actual) {
        (Err(e), Err(a)) => a == e && position == 0,
        (Ok((body, p)), Ok(m)) => position == p && mpint_right(m, body),
        _ => false,
    }
}

/// Whether reading an `mpint` gave what it must.
pub fn check_mpint_raw(input: &[u8], actual: &Result<MpintSeen, DecodeError>, position: usize) -> (r: bool)
    requires
        input@.len() < u32::MAX,
    ensures
        r == mpint_read_right(input@, *actual, position as int),
{
    let mut c = RefCursor::new(input);
    match (c.string(), actual) {
        (Err(e), Err(a)) => *a == e && position == 0,
        (Ok(body), Ok(m)) => position == c.pos && check_mpint_body(m, body),
        _ => false,
    }
}

/// The written magnitude reads back: it is canonical and not negative, gives
/// the magnitude without its leading zeros, and writing the magnitude of a
/// body gives the body exactly where that was canonical.
pub proof fn lemma_mpint_round_trip(magnitude: Seq<u8>, body: Seq<u8>)
    ensures
        canonical(positive_body(magnitude)),
        !negative(positive_body(magnitude)),
        stripped(positive_body(magnitude)) == stripped(magnitude),
        !negative(body) ==> (positive_body(stripped(body)) == body <==> canonical(body)),
{
    lemma_positive_round_trip(magnitude);
    if !negative(body) {
        lemma_rewrite_iff_canonical(body);
    }
}

/// The magnitude that the input gives: zeros, bytes, and in half the cases
/// the high bit of the first of these.
pub open spec fn magnitude_gen(s: Seq<u8>) -> (Seq<u8>, Seq<u8>) {
    let (z, s1) = small_gen(s, 4);
    let (b, s2) = bounded_gen(s1, 48);
    let all = Seq::new(z as nat, |i: int| 0u8) + b;
    let at = min_int(z as int, all.len() - 1);
    (
        if little(s2, 1) % 2 == 1 && all.len() > 0 {
            all.update(at, all[at] | 0x80)
        } else {
            all
        },
        after(s2, 1),
    )
}

/// Draws a magnitude.
pub fn gen_magnitude(u: &mut Source<'_>) -> (r: Vec<u8>)
    ensures
        (r@, final(u)@) == magnitude_gen(old(u)@),
        r@.len() <= 52,
{
    let z: usize = small(u, 4);
    let mut all: Vec<u8> = Vec::new();
    while all.len() < z
        invariant
            all@.len() <= z,
            all@ =~= Seq::new(all@.len(), |i: int| 0u8),
        decreases z - all@.len(),
    {
        all.push(0);
    }
    let b = bounded_bytes(u, 48);
    push_all(&mut all, b.as_slice());
    if byte(u) % 2 == 1 && all.len() > 0 {
        let at: usize = if z <= all.len() - 1 { z } else { all.len() - 1 };
        let v: u8 = all[at] | 0x80;
        all.set(at, v);
    }
    all
}

} // verus!
