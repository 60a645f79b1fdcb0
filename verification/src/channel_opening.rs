//! Channel opening under a bounded sequence of actions: what the input bytes
//! ask for next, given where the model stands.

use vstd::prelude::*;
use crate::seqs::{bit, copy_bytes, has_bit, min_int, push_all};
use crate::state_support::opening_model::{live_list, peers_of, retired, Model};
use crate::state_support::opening_state::OpeningState;
use crate::state_support::opening_types::{AcceptParams, ChannelHandle, Credit, OpenParams, OpeningLimits};
use crate::state_support::table::is_keys;
use crate::tcp_support::{byte_at, dropped, u32_at, Cursor};
use crate::text::bytes_of;

verus! {

/// The most actions of one run.
pub const MAX_ACTIONS: usize = 200;

/// The limits that two bytes select: the defaults, or small ones; cancelled
/// numbers are limited by the second byte either way.
pub fn gen_limits(b0: u8, b1: u8, default: OpeningLimits) -> (r: OpeningLimits)
    ensures
        r == (if b0 >= 0x80 {
            OpeningLimits { max_tombstones: (b1 % 4) as usize, ..default }
        } else {
            OpeningLimits {
                max_pending_outgoing: (1 + b0 % 4) as usize,
                max_pending_incoming: (1 + b0 / 4 % 4) as usize,
                max_channels: (1 + b0 / 16 % 8) as usize,
                max_tombstones: (b1 % 4) as usize,
            }
        }),
{
    let max_tombstones: usize = (b1 % 4) as usize;
    if b0 >= 0x80 {
        OpeningLimits {
            max_pending_outgoing: default.max_pending_outgoing,
            max_pending_incoming: default.max_pending_incoming,
            max_channels: default.max_channels,
            max_tombstones,
        }
    } else {
        OpeningLimits {
            max_pending_outgoing: 1 + (b0 % 4) as usize,
            max_pending_incoming: 1 + (b0 / 4 % 4) as usize,
            max_channels: 1 + (b0 / 16 % 8) as usize,
            max_tombstones,
        }
    }
}

/// The channel types that a selector picks.
pub open spec fn channel_name(i: int) -> Seq<u8> {
    if i == 0 {
        bytes_of("session")
    } else if i == 1 {
        bytes_of("x11")
    } else if i == 2 {
        bytes_of("direct-tcpip")
    } else {
        bytes_of("x@example.com")
    }
}

/// The data that a channel type carries.
pub open spec fn type_tail(i: int) -> Seq<u8> {
    if i == 0 {
        Seq::empty()
    } else if i == 1 {
        seq![1u8, 2, 3]
    } else if i == 2 {
        seq![0xaau8, 0xbb, 0xcc, 0xdd, 0xee]
    } else {
        seq![0xabu8]
    }
}

/// The descriptions that a selector picks.
pub open spec fn description(i: int) -> Seq<u8> {
    if i == 0 {
        Seq::empty()
    } else if i == 1 {
        bytes_of("unknown")
    } else if i == 2 {
        bytes_of("no thanks")
    } else {
        seq![0xffu8, 0] + bytes_of(" not utf-8 ") + seq![0x1bu8, 91, 51, 49, 109]
    }
}

fn name_bytes(i: u8) -> (r: Vec<u8>)
    ensures
        r@ == channel_name(i as int),
{
    match i {
        0 => copy_bytes("session".as_bytes()),
        1 => copy_bytes("x11".as_bytes()),
        2 => copy_bytes("direct-tcpip".as_bytes()),
        _ => copy_bytes("x@example.com".as_bytes()),
    }
}

fn tail_bytes(i: u8) -> (r: Vec<u8>)
    ensures
        r@ == type_tail(i as int),
{
    let mut out: Vec<u8> = Vec::new();
    if i == 0 {
    } else if i == 1 {
        out.push(1);
        out.push(2);
        out.push(3);
    } else if i == 2 {
        out.push(0xaa);
        out.push(0xbb);
        out.push(0xcc);
        out.push(0xdd);
        out.push(0xee);
    } else {
        out.push(0xab);
    }
    proof {
        assert(out@ =~= type_tail(i as int));
    }
    out
}

fn description_bytes(i: u8) -> (r: Vec<u8>)
    ensures
        r@ == description(i as int),
{
    let mut out: Vec<u8> = Vec::new();
    if i == 0 {
    } else if i == 1 {
        push_all(&mut out, "unknown".as_bytes());
    } else if i == 2 {
        push_all(&mut out, "no thanks".as_bytes());
    } else {
        out.push(0xff);
        out.push(0);
        push_all(&mut out, " not utf-8 ".as_bytes());
        out.push(0x1b);
        out.push(91);
        out.push(51);
        out.push(49);
        out.push(109);
    }
    proof {
        assert(out@ =~= description(i as int));
    }
    out
}

/// A credit by its selector, or from the next eight bytes.
pub open spec fn credit_gen(sel: u8, s: Seq<u8>) -> (Credit, Seq<u8>) {
    let k = sel % 4;
    if k == 0 {
        (Credit { initial_window_size: 0, maximum_packet_size: 0 }, s)
    } else if k == 1 {
        (Credit { initial_window_size: u32::MAX, maximum_packet_size: u32::MAX }, s)
    } else if k == 2 {
        (Credit { initial_window_size: 0x0020_0000, maximum_packet_size: 0x8000 }, s)
    } else {
        (
            Credit { initial_window_size: u32_at(s), maximum_packet_size: u32_at(dropped(s, 4)) },
            dropped(dropped(s, 4), 4),
        )
    }
}

/// Reads a credit.
pub fn credit(sel: u8, cur: &mut Cursor<'_>) -> (r: Credit)
    ensures
        (r, final(cur)@) == credit_gen(sel, old(cur)@),
{
    match sel % 4 {
        0 => Credit { initial_window_size: 0, maximum_packet_size: 0 },
        1 => Credit { initial_window_size: u32::MAX, maximum_packet_size: u32::MAX },
        2 => Credit { initial_window_size: 0x0020_0000, maximum_packet_size: 0x8000 },
        _ => {
            let initial_window_size: u32 = cur.u32();
            let maximum_packet_size: u32 = cur.u32();
            Credit { initial_window_size, maximum_packet_size }
        },
    }
}

/// A reason code by its selector, or from the next four bytes.
pub open spec fn reason_gen(sel: u8, s: Seq<u8>) -> (u32, Seq<u8>) {
    let k = sel % 8;
    if k <= 3 {
        ((k + 1) as u32, s)
    } else if k == 4 {
        (0, s)
    } else if k == 5 {
        (u32::MAX, s)
    } else if k == 6 {
        (200, s)
    } else {
        (u32_at(s), dropped(s, 4))
    }
}

/// Reads a reason code.
pub fn reason(sel: u8, cur: &mut Cursor<'_>) -> (r: u32)
    ensures
        (r, final(cur)@) == reason_gen(sel, old(cur)@),
{
    let k: u8 = sel % 8;
    if k <= 3 {
        k as u32 + 1
    } else if k == 4 {
        0
    } else if k == 5 {
        u32::MAX
    } else if k == 6 {
        200
    } else {
        cur.u32()
    }
}

/// The numbers of a map, in ascending order.
pub open spec fn sorted_keys<W>(m: Map<u32, W>) -> Seq<u32> {
    choose|v: Seq<u32>| is_keys(v, m)
}

/// Strictly ascending numbers with one membership are one sequence.
proof fn lemma_ascending_unique(a: Seq<u32>, b: Seq<u32>, n: int)
    requires
        forall|i: int, j: int| 0 <= i < j < a.len() ==> (#[trigger] a[i]) < (#[trigger] a[j]),
        forall|i: int, j: int| 0 <= i < j < b.len() ==> (#[trigger] b[i]) < (#[trigger] b[j]),
        forall|k: u32| #[trigger] a.contains(k) == b.contains(k),
        0 <= n <= a.len(),
    ensures
        n <= b.len(),
        forall|i: int| 0 <= i < n ==> a[i] == b[i],
    decreases n,
{
    if n > 0 {
        lemma_ascending_unique(a, b, n - 1);
        assert(a.contains(a[n - 1]));
        assert(b.contains(a[n - 1]));
        let j = choose|j: int| 0 <= j < b.len() && b[j] == a[n - 1];
        if j < n - 1 {
            assert(a[j] == b[j]);
            assert(a[j] < a[n - 1]);
        }
        if j > n - 1 {
            assert(b.contains(b[n - 1]));
            assert(a.contains(b[n - 1]));
            let k = choose|k: int| 0 <= k < a.len() && a[k] == b[n - 1];
            assert(b[n - 1] < b[j]);
            if k < n - 1 {
                assert(a[k] == b[k]);
                assert(b[k] < b[n - 1]);
            } else if k > n - 1 {
                assert(a[n - 1] < a[k]);
            }
        }
    }
}

proof fn lemma_same_ascending(a: Seq<u32>, b: Seq<u32>)
    requires
        forall|i: int, j: int| 0 <= i < j < a.len() ==> (#[trigger] a[i]) < (#[trigger] a[j]),
        forall|i: int, j: int| 0 <= i < j < b.len() ==> (#[trigger] b[i]) < (#[trigger] b[j]),
        forall|k: u32| #[trigger] a.contains(k) == b.contains(k),
    ensures
        a == b,
{
    lemma_ascending_unique(a, b, a.len() as int);
    lemma_ascending_unique(b, a, b.len() as int);
    assert(a =~= b);
}

/// A map's numbers in ascending order are one sequence.
pub proof fn lemma_sorted_keys<W>(v: Seq<u32>, m: Map<u32, W>)
    requires
        is_keys(v, m),
    ensures
        sorted_keys(m) == v,
{
    let w = sorted_keys(m);
    assert(is_keys(w, m));
    assert forall|k: u32| #[trigger] v.contains(k) == w.contains(k) by {
        assert(v.contains(k) == m.contains_key(k));
        assert(w.contains(k) == m.contains_key(k));
    }
    lemma_same_ascending(v, w);
}

/// Strictly ascending numbers: exactly the retired ones.
pub open spec fn is_retired(v: Seq<u32>, m: OpeningState) -> bool {
    &&& forall|i: int, j: int| 0 <= i < j < v.len() ==> (#[trigger] v[i]) < (#[trigger] v[j])
    &&& forall|n: u32| #[trigger] v.contains(n) == retired(m, n)
}

/// The retired numbers, in ascending order.
pub open spec fn retired_list(m: OpeningState) -> Seq<u32> {
    choose|v: Seq<u32>| is_retired(v, m)
}

proof fn lemma_retired_list(v: Seq<u32>, m: OpeningState)
    requires
        is_retired(v, m),
    ensures
        retired_list(m) == v,
{
    let w = retired_list(m);
    assert(is_retired(w, m));
    assert forall|k: u32| #[trigger] v.contains(k) == w.contains(k) by {
        assert(v.contains(k) == retired(m, k));
        assert(w.contains(k) == retired(m, k));
    }
    lemma_same_ascending(v, w);
}

/// A number from a pool, or the selector itself where the pool is empty.
pub open spec fn pooled(pool: Seq<u32>, n: u8) -> u32 {
    if pool.len() == 0 {
        n as u32
    } else {
        pool[n as int % pool.len() as int]
    }
}

/// The pool of a number selector.
pub open spec fn pool_of(m: OpeningState, sel: u8) -> Seq<u32> {
    if sel == 1 {
        sorted_keys(m.pending_out)
    } else if sel == 2 {
        m.tombstones
    } else if sel == 3 {
        sorted_keys(m.established)
    } else if sel == 4 {
        sorted_keys(m.pending_in) + peers_of(sorted_keys(m.established), m.established)
    } else {
        retired_list(m)
    }
}

/// A channel number: given, from a pool of the model, or beyond the next.
pub open spec fn number_gen(m: OpeningState, sel: u8, s: Seq<u8>) -> (u32, Seq<u8>) {
    let k: u8 = sel % 8;
    let n = byte_at(s, 0);
    if k == 7 {
        (u32_at(s), dropped(s, 4))
    } else if k == 0 {
        (n as u32, dropped(s, 1))
    } else if k == 6 {
        (min_int(m.next_local + n % 4, u32::MAX as int) as u32, dropped(s, 1))
    } else {
        (pooled(pool_of(m, k), n), dropped(s, 1))
    }
}

fn from_pool(pool: Vec<u32>, n: u8) -> (r: u32)
    ensures
        r == pooled(pool@, n),
{
    if pool.len() == 0 {
        n as u32
    } else {
        pool[n as usize % pool.len()]
    }
}

/// Reads a channel number.
pub fn pick_number(model: &Model, sel: u8, cur: &mut Cursor<'_>) -> (r: u32)
    requires
        model.wf(),
    ensures
        (r, final(cur)@) == number_gen(model@, sel, old(cur)@),
{
    let k: u8 = sel % 8;
    if k == 7 {
        return cur.u32();
    }
    let n: u8 = cur.u8();
    match k {
        0 => n as u32,
        1 => {
            let pool = model.pending_out_numbers();
            proof {
                lemma_sorted_keys(pool@, model@.pending_out);
            }
            from_pool(pool, n)
        },
        2 => from_pool(model.tombstoned_numbers(), n),
        3 => {
            let pool = model.established_numbers();
            proof {
                lemma_sorted_keys(pool@, model@.established);
            }
            from_pool(pool, n)
        },
        4 => {
            let pool = model.in_use_peer_numbers();
            proof {
                let (a, b) = choose|a: Seq<u32>, b: Seq<u32>| #[trigger]
                    is_keys(a, model@.pending_in) && #[trigger] is_keys(b, model@.established) && pool@ == a + peers_of(
                        b,
                        model@.established,
                    );
                lemma_sorted_keys(a, model@.pending_in);
                lemma_sorted_keys(b, model@.established);
            }
            from_pool(pool, n)
        },
        5 => {
            let pool = model.retired_numbers();
            proof {
                lemma_retired_list(pool@, model@);
            }
            from_pool(pool, n)
        },
        _ => {
            proof {
                model.lemma_coherent();
            }
            let sum: u64 = model.next_local() + (n % 4) as u64;
            if sum <= 0xffff_ffff {
                sum as u32
            } else {
                u32::MAX
            }
        },
    }
}

/// A handle: one that is live, or any that was issued; none where there is
/// none.
pub open spec fn handle_gen(m: OpeningState, hsel: u8) -> Option<ChannelHandle> {
    let pool = if hsel < 0x80 {
        live_list(m.slots, m.slots.len())
    } else {
        Seq::new(m.slots.len(), |i: int| m.slots[i].0)
    };
    if pool.len() == 0 {
        None
    } else {
        Some(pool[(hsel % 0x80) as int % pool.len() as int])
    }
}

/// Picks a handle.
pub fn pick_handle(model: &Model, hsel: u8) -> (r: Option<ChannelHandle>)
    ensures
        r == handle_gen(model@, hsel),
{
    let pool = if hsel < 0x80 {
        model.live_handles()
    } else {
        model.handles()
    };
    if pool.len() == 0 {
        None
    } else {
        Some(pool[(hsel % 0x80) as usize % pool.len()])
    }
}

/// One action.
#[derive(Debug)]
pub enum Action<B = Vec<u8>, O = OpenParams, A = AcceptParams> {
    /// The application opens.
    Open(O),
    /// The application cancels.
    Cancel(ChannelHandle),
    /// The application accepts.
    Accept(ChannelHandle, A),
    /// The application refuses.
    Refuse { handle: ChannelHandle, reason_code: u32, description: B },
    /// The peer opens.
    PeerOpen { channel_type: B, sender_channel: u32, peer: Credit, type_specific: B },
    /// The peer confirms.
    PeerConfirm { recipient_channel: u32, sender_channel: u32, peer: Credit, type_specific: B },
    /// The peer refuses.
    PeerFail { recipient_channel: u32, reason_code: u32, description: B, language_tag: B },
    /// The transport is lost.
    TransportLost,
    /// Every queued message is handed out.
    Drain,
    /// One queued message is handed out.
    PopOne,
    /// No handle to act on.
    Skip,
}

/// An action over sequences.
pub type ActionView = Action<Seq<u8>, OpenParams<Seq<u8>>, AcceptParams<Seq<u8>>>;

impl View for Action<Vec<u8>, OpenParams, AcceptParams> {
    type V = ActionView;

    open spec fn view(&self) -> ActionView {
        match self {
            Action::Open(p) => Action::Open(p@),
            Action::Cancel(h) => Action::Cancel(*h),
            Action::Accept(h, p) => Action::Accept(*h, p@),
            Action::Refuse { handle, reason_code, description } => Action::Refuse {
                handle: *handle,
                reason_code: *reason_code,
                description: description@,
            },
            Action::PeerOpen { channel_type, sender_channel, peer, type_specific } => Action::PeerOpen {
                channel_type: channel_type@,
                sender_channel: *sender_channel,
                peer: *peer,
                type_specific: type_specific@,
            },
            Action::PeerConfirm { recipient_channel, sender_channel, peer, type_specific } => Action::PeerConfirm {
                recipient_channel: *recipient_channel,
                sender_channel: *sender_channel,
                peer: *peer,
                type_specific: type_specific@,
            },
            Action::PeerFail { recipient_channel, reason_code, description, language_tag } => Action::PeerFail {
                recipient_channel: *recipient_channel,
                reason_code: *reason_code,
                description: description@,
                language_tag: language_tag@,
            },
            Action::TransportLost => Action::TransportLost,
            Action::Drain => Action::Drain,
            Action::PopOne => Action::PopOne,
            Action::Skip => Action::Skip,
        }
    }
}

/// The next action that the input asks for.
pub open spec fn action_gen(m: OpeningState, s: Seq<u8>) -> (ActionView, Seq<u8>) {
    let op = byte_at(s, 0) % 10;
    let s0 = dropped(s, 1);
    let a = byte_at(s0, 0);
    let s1 = dropped(s0, 1);
    let b = byte_at(s1, 0);
    let s2 = dropped(s1, 1);
    if op == 0 {
        let (local, s3) = credit_gen(a / 4, s1);
        (
            Action::Open(
                OpenParams {
                    channel_type: channel_name((a % 4) as int),
                    local,
                    type_specific: type_tail((a % 4) as int),
                },
            ),
            s3,
        )
    } else if op == 1 {
        match handle_gen(m, a) {
            Some(h) => (Action::Cancel(h), s1),
            None => (Action::Skip, s1),
        }
    } else if op == 2 {
        let (local, s3) = credit_gen(b, s2);
        match handle_gen(m, a) {
            Some(h) => (
                Action::Accept(h, AcceptParams { local, type_specific: type_tail((b / 4 % 4) as int) }),
                s3,
            ),
            None => (Action::Skip, s3),
        }
    } else if op == 3 {
        let (reason_code, s3) = reason_gen(b, s2);
        match handle_gen(m, a) {
            Some(h) => (
                Action::Refuse { handle: h, reason_code, description: description((b / 8 % 4) as int) },
                s3,
            ),
            None => (Action::Skip, s3),
        }
    } else if op == 4 {
        let (sender_channel, s3) = number_gen(m, a / 16, s1);
        let (peer, s4) = credit_gen(a / 4, s3);
        (
            Action::PeerOpen {
                channel_type: channel_name((a % 4) as int),
                sender_channel,
                peer,
                type_specific: type_tail((a % 4) as int),
            },
            s4,
        )
    } else if op == 5 {
        let (recipient_channel, s3) = number_gen(m, a, s1);
        let (sender_channel, s4) = number_gen(m, a / 8, s3);
        let (peer, s5) = credit_gen(a / 64, s4);
        (
            Action::PeerConfirm {
                recipient_channel,
                sender_channel,
                peer,
                type_specific: type_tail((sender_channel % 4) as int),
            },
            s5,
        )
    } else if op == 6 {
        let (recipient_channel, s3) = number_gen(m, a, s1);
        let (reason_code, s4) = reason_gen(a / 8, s3);
        (
            Action::PeerFail {
                recipient_channel,
                reason_code,
                description: description((a / 64) as int),
                language_tag: if bit(a, 64) {
                    bytes_of("en")
                } else {
                    Seq::empty()
                },
            },
            s4,
        )
    } else if op == 7 {
        (Action::TransportLost, s0)
    } else if op == 8 {
        (Action::Drain, s0)
    } else {
        (Action::PopOne, s0)
    }
}

/// Reads the next action.
pub fn gen_action(model: &Model, cur: &mut Cursor<'_>) -> (r: Action)
    requires
        model.wf(),
    ensures
        (r@, final(cur)@) == action_gen(model@, old(cur)@),
{
    match cur.u8() % 10 {
        0 => {
            let a: u8 = cur.u8();
            let local = credit(a / 4, cur);
            Action::Open(OpenParams { channel_type: name_bytes(a % 4), local, type_specific: tail_bytes(a % 4) })
        },
        1 => {
            let hsel: u8 = cur.u8();
            match pick_handle(model, hsel) {
                Some(h) => Action::Cancel(h),
                None => Action::Skip,
            }
        },
        2 => {
            let hsel: u8 = cur.u8();
            let b: u8 = cur.u8();
            let local = credit(b, cur);
            match pick_handle(model, hsel) {
                Some(h) => Action::Accept(h, AcceptParams { local, type_specific: tail_bytes(b / 4 % 4) }),
                None => Action::Skip,
            }
        },
        3 => {
            let hsel: u8 = cur.u8();
            let b: u8 = cur.u8();
            let reason_code: u32 = reason(b, cur);
            match pick_handle(model, hsel) {
                Some(h) => Action::Refuse { handle: h, reason_code, description: description_bytes(b / 8 % 4) },
                None => Action::Skip,
            }
        },
        4 => {
            let a: u8 = cur.u8();
            let sender_channel: u32 = pick_number(model, a / 16, cur);
            let peer = credit(a / 4, cur);
            Action::PeerOpen {
                channel_type: name_bytes(a % 4),
                sender_channel,
                peer,
                type_specific: tail_bytes(a % 4),
            }
        },
        5 => {
            let a: u8 = cur.u8();
            let recipient_channel: u32 = pick_number(model, a, cur);
            let sender_channel: u32 = pick_number(model, a / 8, cur);
            let peer = credit(a / 64, cur);
            Action::PeerConfirm {
                recipient_channel,
                sender_channel,
                peer,
                type_specific: tail_bytes((sender_channel % 4) as u8),
            }
        },
        6 => {
            let a: u8 = cur.u8();
            let recipient_channel: u32 = pick_number(model, a, cur);
            let reason_code: u32 = reason(a / 8, cur);
            let language_tag = if has_bit(a, 64) {
                copy_bytes("en".as_bytes())
            } else {
                Vec::new()
            };
            Action::PeerFail { recipient_channel, reason_code, description: description_bytes(a / 64), language_tag }
        },
        7 => Action::TransportLost,
        8 => Action::Drain,
        _ => Action::PopOne,
    }
}

} // verus!
