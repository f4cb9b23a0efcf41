//! Sequence-number rewriting: subtract the injection offset from forwarded events so their
//! client-visible sequence stays within the client's own request counter.
use crate::x11::codec;
use crate::x11::connection::X11Conn;
use vstd::prelude::*;

verus! {

/// Event code of KeymapNotify, which carries no sequence number.
pub const KEYMAP_NOTIFY: u8 = 11;

/// `seq` is at or after `transition` on the circle of sequence numbers.
pub open spec fn reached(seq: u16, transition: u16) -> bool {
    (seq - transition) % 65536 < 32768
}

/// The offset of the last transition that `seq` has reached; zero where it has reached
/// none.
pub open spec fn offset_at(transitions: Seq<(u16, u16)>, seq: u16) -> u16
    decreases transitions.len(),
{
    if transitions.len() == 0 {
        0
    } else if reached(seq, transitions.last().0) {
        transitions.last().1
    } else {
        offset_at(transitions.drop_last(), seq)
    }
}

/// `seq` less the offset, on the circle of sequence numbers.
pub open spec fn client_sequence(transitions: Seq<(u16, u16)>, seq: u16) -> u16 {
    ((seq - offset_at(transitions, seq)) % 65536) as u16
}

/// Whether the event gets a new sequence number.
pub open spec fn is_rewritten(conn: X11Conn, seq: u16, evt_code: u8) -> bool {
    evt_code != KEYMAP_NOTIFY && offset_at(conn.offset_transitions@, seq) > 0
}

/// Rewrites the sequence number of the event at `out_start`, two bytes into it.
pub fn rewrite_seq(conn: &X11Conn, seq: u16, evt_code: u8, out: &mut [u8], out_start: usize)
    requires
        is_rewritten(*conn, seq, evt_code) ==> out_start + 4 <= old(out)@.len(),
    ensures
        final(out)@ == (if is_rewritten(*conn, seq, evt_code) {
            codec::overwritten(
                old(out)@,
                out_start + 2,
                codec::wire_bytes(
                    client_sequence(conn.offset_transitions@, seq) as nat,
                    2,
                    conn.is_le,
                ),
            )
        } else {
            old(out)@
        }),
        final(out)@.len() == old(out)@.len(),
        evt_code == 11 ==> final(out)@ == old(out)@,
        forall|i: int|
            0 <= i < old(out)@.len() && i != out_start + 2 && i != out_start + 3
                ==> #[trigger] final(out)@[i] == old(out)@[i],
{
    proof {
        if is_rewritten(*conn, seq, evt_code) {
            let v = client_sequence(conn.offset_transitions@, seq) as nat;
            rewritten_event(
                *conn,
                seq,
                out@,
                out_start as int,
                codec::overwritten(
                    out@,
                    out_start + 2,
                    codec::wire_bytes(v, 2, conn.is_le),
                ),
            );
        }
    }
    if evt_code == KEYMAP_NOTIFY {
        return ;
    }
    let mut applied_offset: u16 = 0;
    let mut i: usize = 0;
    while i < conn.offset_transitions.len()
        invariant
            i <= conn.offset_transitions@.len(),
            applied_offset == offset_at(conn.offset_transitions@.take(i as int), seq),
        decreases conn.offset_transitions@.len() - i,
    {
        let (transition_seq, offset) = conn.offset_transitions[i];
        if seq.wrapping_sub(transition_seq) < 32768 {
            applied_offset = offset;
        }
        assert(conn.offset_transitions@.take(i + 1).drop_last()
            =~= conn.offset_transitions@.take(i as int));
        i += 1;
    }
    assert(conn.offset_transitions@.take(i as int) =~= conn.offset_transitions@);
    if applied_offset > 0 {
        let new_seq: u16 = seq.wrapping_sub(applied_offset);
        assert(out.len() == out@.len());
        codec::write_u16_at(out, out_start + 2, new_seq, conn.is_le);
    }
}

/// Rewriting undoes the injections: where the server counts the client's request `client` as
/// `seq`, ahead by the requests injected until then, the client sees `client`.
pub proof fn client_sees_its_own_sequence(transitions: Seq<(u16, u16)>, client: u16, seq: u16)
    requires
        seq == (client + offset_at(transitions, seq)) % 65536,
    ensures
        client_sequence(transitions, seq) == client,
{
}

/// Before the first injection the client sees the server's numbers.
pub proof fn nothing_injected_changes_nothing(transitions: Seq<(u16, u16)>, seq: u16)
    requires
        forall|i: int| 0 <= i < transitions.len() ==> !reached(seq, (#[trigger] transitions[i]).0),
    ensures
        offset_at(transitions, seq) == 0,
        client_sequence(transitions, seq) == seq,
    decreases transitions.len(),
{
    if transitions.len() > 0 {
        let earlier = transitions.drop_last();
        assert(!reached(seq, transitions[transitions.len() - 1].0));
        assert forall|i: int| 0 <= i < earlier.len() implies !reached(
            seq,
            (#[trigger] earlier[i]).0,
        ) by {
            assert(!reached(seq, transitions[i].0));
        }
        nothing_injected_changes_nothing(earlier, seq);
    }
}

/// A rewritten event reads back the client's sequence number, and keeps every other byte.
pub proof fn rewritten_event(
    conn: X11Conn,
    seq: u16,
    event: Seq<u8>,
    at: int,
    rewritten: Seq<u8>,
)
    requires
        0 <= at,
        at + 4 <= event.len(),
        rewritten == codec::overwritten(
            event,
            at + 2,
            codec::wire_bytes(client_sequence(conn.offset_transitions@, seq) as nat, 2, conn.is_le),
        ),
    ensures
        rewritten.len() == event.len(),
        codec::wire_value(rewritten.subrange(at + 2, at + 4), conn.is_le) == client_sequence(
            conn.offset_transitions@,
            seq,
        ),
        forall|i: int| 0 <= i < event.len() && i != at + 2 && i != at + 3 ==> rewritten[i] == event[i],
{
    let v = client_sequence(conn.offset_transitions@, seq) as nat;
    let bytes = codec::wire_bytes(v, 2, conn.is_le);
    reveal_with_fuel(codec::byte_span, 3);
    codec::write_then_read(v, 2, conn.is_le);
    assert(rewritten.subrange(at + 2, at + 4) =~= bytes);
}

/// The offset that applies is that of the last transition which the number has reached: the one
/// at `i`, at most half a circle behind it, where no later one is.
pub proof fn last_reached_transition_applies(transitions: Seq<(u16, u16)>, seq: u16, i: int)
    requires
        0 <= i < transitions.len(),
        (seq - transitions[i].0) % 65536 < 32768,
        forall|j: int|
            i < j < transitions.len() ==> (seq - (#[trigger] transitions[j]).0) % 65536 >= 32768,
    ensures
        offset_at(transitions, seq) == transitions[i].1,
        client_sequence(transitions, seq) == (seq - transitions[i].1) % 65536,
    decreases transitions.len(),
{
    if i < transitions.len() - 1 {
        let earlier = transitions.drop_last();
        assert((seq - transitions[transitions.len() - 1].0) % 65536 >= 32768);
        assert forall|j: int| i < j < earlier.len() implies (seq - (#[trigger] earlier[j]).0)
            % 65536 >= 32768 by {
            assert((seq - transitions[j].0) % 65536 >= 32768);
        }
        last_reached_transition_applies(earlier, seq, i);
    }
}

/// Every event gets the client's number where the server is ahead, but for those of code 11, which
/// carry none.
pub proof fn all_but_keymap_events_are_rewritten(conn: X11Conn, seq: u16, evt_code: u8)
    ensures
        is_rewritten(conn, seq, evt_code) <==> evt_code != 11 && offset_at(
            conn.offset_transitions@,
            seq,
        ) != 0,
{
}

} // verus!
