//! Which input draws what in a test of channel opening.

use vstd::prelude::*;
use crate::channel_opening::{
    action_gen, channel_name, credit_gen, description, handle_gen, number_gen, reason_gen, type_tail, Action,
};
use crate::seqs::bit;
use crate::state_support::opening_state::OpeningState;
use crate::tcp_support::{byte_at, dropped, u32_at};
use crate::text::bytes_of;

verus! {

/// A credit is nothing, everything, the usual one, or open, window first.
pub proof fn lemma_credit_drawn(sel: u8, s: Seq<u8>)
    ensures
        ({
            let (c, rest) = credit_gen(sel, s);
            &&& sel % 4 == 0 ==> c.initial_window_size == 0 && c.maximum_packet_size == 0
            &&& sel % 4 == 1 ==> c.initial_window_size == u32::MAX && c.maximum_packet_size == u32::MAX
            &&& sel % 4 == 2 ==> c.initial_window_size == 2 * 1024 * 1024 && c.maximum_packet_size == 32 * 1024
            &&& sel % 4 == 3 ==> c.initial_window_size == u32_at(s) && c.maximum_packet_size == u32_at(dropped(s, 4))
                && rest == dropped(dropped(s, 4), 4)
            &&& sel % 4 != 3 ==> rest == s
        }),
{
}

/// A reason is one of the four that have a name, one of three that have none,
/// or open.
pub proof fn lemma_reason_drawn(sel: u8, s: Seq<u8>)
    ensures
        ({
            let (r, rest) = reason_gen(sel, s);
            let k = sel % 8;
            &&& k < 4 ==> r == k + 1
            &&& k == 4 ==> r == 0
            &&& k == 5 ==> r == u32::MAX
            &&& k == 6 ==> r == 200
            &&& k == 7 ==> r == u32_at(s) && rest == dropped(s, 4)
            &&& k < 7 ==> rest == s
        }),
{
}

/// The names, data and descriptions to draw from.
pub proof fn lemma_texts_drawn()
    ensures
        channel_name(0) == bytes_of("session"),
        channel_name(1) == bytes_of("x11"),
        channel_name(2) == bytes_of("direct-tcpip"),
        channel_name(3) == bytes_of("x@example.com"),
        type_tail(0) == Seq::<u8>::empty(),
        type_tail(1) == seq![1u8, 2, 3],
        type_tail(2) == seq![0xaau8, 0xbb, 0xcc, 0xdd, 0xee],
        type_tail(3) == seq![0xabu8],
        description(0) == Seq::<u8>::empty(),
        description(1) == bytes_of("unknown"),
        description(2) == bytes_of("no thanks"),
{
}

/// A number is open, a byte, a little beyond the next one, or from a pool of
/// the model.
pub proof fn lemma_number_drawn(m: OpeningState, sel: u8, s: Seq<u8>)
    ensures
        ({
            let (n, rest) = number_gen(m, sel, s);
            let k = sel % 8;
            let b = byte_at(s, 0);
            &&& k == 7 ==> n == u32_at(s) && rest == dropped(s, 4)
            &&& k != 7 ==> rest == dropped(s, 1)
            &&& k == 0 ==> n == b
            &&& k == 6 && 0 <= m.next_local <= u32::MAX - 3 ==> n == m.next_local + b % 4
            &&& k == 2 && m.tombstones.len() > 0 ==> m.tombstones.contains(n)
            &&& k == 2 && m.tombstones.len() == 0 ==> n == b
        }),
{
    let b = byte_at(s, 0);
    if sel % 8 == 2 && m.tombstones.len() > 0 {
        let i = b as int % m.tombstones.len() as int;
        assert(0 <= i < m.tombstones.len()) by (nonlinear_arith)
            requires
                i == b as int % m.tombstones.len() as int,
                m.tombstones.len() > 0,
        ;
        assert(m.tombstones[i] == number_gen(m, sel, s).0);
    }
}

/// The action is drawn by the first byte, its parts by what follows. A handle
/// that the model does not have makes no action.
pub proof fn lemma_action_drawn(m: OpeningState, s: Seq<u8>)
    ensures
        ({
            let a = action_gen(m, s).0;
            let op = byte_at(s, 0) % 10;
            let s0 = dropped(s, 1);
            let x = byte_at(s0, 0);
            let s1 = dropped(s0, 1);
            let y = byte_at(s1, 0);
            let handle = handle_gen(m, x);
            &&& op == 0 <==> a is Open
            &&& op == 1 && handle is Some <==> a is Cancel
            &&& op == 2 && handle is Some <==> a is Accept
            &&& op == 3 && handle is Some <==> a is Refuse
            &&& 1 <= op <= 3 && handle is None <==> a is Skip
            &&& op == 4 <==> a is PeerOpen
            &&& op == 5 <==> a is PeerConfirm
            &&& op == 6 <==> a is PeerFail
            &&& op == 7 <==> a is TransportLost
            &&& op == 8 <==> a is Drain
            &&& op == 9 <==> a is PopOne
            &&& a matches Action::Open(p) ==> p.channel_type == channel_name((x % 4) as int) && p.local == credit_gen(
                x / 4,
                s1,
            ).0 && p.type_specific == type_tail((x % 4) as int)
            &&& a matches Action::Cancel(h) ==> Some(h) == handle
            &&& a matches Action::Accept(h, p) ==> Some(h) == handle && p.local == credit_gen(y, dropped(s1, 1)).0
                && p.type_specific == type_tail((y / 4 % 4) as int)
            &&& a matches Action::Refuse { handle: h, reason_code, description: d } ==> Some(h) == handle && reason_code
                == reason_gen(y, dropped(s1, 1)).0 && d == description((y / 8 % 4) as int)
            &&& a matches Action::PeerOpen { channel_type, sender_channel, peer, type_specific } ==> channel_type
                == channel_name((x % 4) as int) && sender_channel == number_gen(m, x / 16, s1).0 && peer == credit_gen(
                x / 4,
                number_gen(m, x / 16, s1).1,
            ).0 && type_specific == type_tail((x % 4) as int)
            &&& a matches Action::PeerConfirm { recipient_channel, sender_channel, peer, type_specific }
                ==> recipient_channel == number_gen(m, x, s1).0 && sender_channel == number_gen(
                m,
                x / 8,
                number_gen(m, x, s1).1,
            ).0 && type_specific == type_tail((sender_channel % 4) as int)
            &&& a matches Action::PeerFail { recipient_channel, reason_code, description: d, language_tag }
                ==> recipient_channel == number_gen(m, x, s1).0 && reason_code == reason_gen(
                x / 8,
                number_gen(m, x, s1).1,
            ).0 && d == description((x / 64) as int) && (bit(x, 64) ==> language_tag == bytes_of("en")) && (!bit(
                x,
                64,
            ) ==> language_tag.len() == 0)
        }),
{
}

} // verus!
