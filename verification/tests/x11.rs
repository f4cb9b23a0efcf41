use orpheus_native::syscalls::{
    call_close, call_connect, raw_syscall_ret, send_raw_msg, SyscallArgs,
};
use orpheus_native::text::{decimal_text, signed_decimal_text};
use orpheus_native::x11::codec::{
    checked_word_len, is_x11_socket, log_parser_close, path_len, r16, r32, write_u16, write_u32,
    SocketAddress, UNIX_FAMILY,
};
use orpheus_native::x11::connection::{
    query_pointer, send_net_wm_moveresize_move, set_input_region_rects, X11Conn, X11Handle, X11State,
};
use orpheus_native::x11::sequence::rewrite_seq;
use std::cell::RefCell;

fn conn(is_le: bool, offset_transitions: Vec<(u16, u16)>) -> X11Conn {
    X11Conn { is_le, offset_transitions }
}

#[test]
fn numbers_are_written_in_decimal() {
    for n in [0u128, 7, 10, 99, 1_000_000, u128::from(u64::MAX), u128::MAX] {
        assert_eq!(decimal_text(n), n.to_string());
    }
    for n in [0i64, 5, -5, -10, i64::MIN, i64::MAX] {
        assert_eq!(signed_decimal_text(n), n.to_string());
    }
}

#[test]
fn words_are_four_bytes() {
    assert_eq!(checked_word_len(0), Some(0));
    assert_eq!(checked_word_len(3), Some(12));
    assert_eq!(checked_word_len(usize::MAX / 4), Some(usize::MAX / 4 * 4));
    assert_eq!(checked_word_len(usize::MAX / 4 + 1), None);
}

#[test]
fn closing_is_logged_in_one_line() {
    assert_eq!(
        log_parser_close(-3, "inbound", "reply too long", 4_096),
        "[proxy:x11] closing inbound stream for fd -3: reply too long; buffered=4096"
    );
}

#[test]
fn wire_integers_have_either_byte_order() {
    let bytes = [0x12, 0x34, 0x56, 0x78, 0x9a];
    assert_eq!(r16(&bytes, true), 0x3412);
    assert_eq!(r16(&bytes, false), 0x1234);
    assert_eq!(r32(&bytes, true), 0x7856_3412);
    assert_eq!(r32(&bytes, false), 0x1234_5678);
    for le in [true, false] {
        for v in [0u16, 1, 0x00ff, 0xff00, 0xabcd, u16::MAX] {
            let mut b = [0x5au8; 4];
            write_u16(&mut b, v, le);
            assert_eq!(r16(&b, le), v);
            assert_eq!(b[2..], [0x5a, 0x5a]);
            let plain = if le { v.to_le_bytes() } else { v.to_be_bytes() };
            assert_eq!(b[..2], plain);
        }
        for v in [0u32, 1, 0xdead_beef, u32::MAX] {
            let mut b = [0x5au8; 6];
            write_u32(&mut b, v, le);
            assert_eq!(r32(&b, le), v);
            assert_eq!(b[4..], [0x5a, 0x5a]);
            let plain = if le { v.to_le_bytes() } else { v.to_be_bytes() };
            assert_eq!(b[..4], plain);
        }
    }
}

fn path_field(path: &[u8]) -> Vec<u8> {
    let mut field = path.to_vec();
    field.resize(108, 0);
    field
}

#[test]
fn x11_sockets_are_recognised() {
    assert_eq!(i32::from(UNIX_FAMILY), libc::AF_UNIX);
    let unix = libc::AF_UNIX as u16;
    let check = |family: u16, path: &[u8], addrlen: u32| {
        let field = path_field(path);
        is_x11_socket(Some(SocketAddress { family, path: &field }), addrlen)
    };
    let plain = b"/tmp/.X11-unix/X0";
    let len = 2 + plain.len() as u32;
    assert!(check(unix, plain, len));
    assert!(check(unix, plain, 110));
    assert!(check(unix, plain, 4_000));
    // The name ends one byte before the mark does.
    assert!(!check(unix, plain, len - 2));
    assert!(check(unix, plain, len - 1));
    // The abstract namespace: a zero byte in front.
    assert!(check(unix, b"\0/tmp/.X11-unix/X0", len + 1));
    assert!(check(unix, b"\0pre\0.X11-unix/X", 2 + 16));
    // A name in the file system ends at its first zero byte.
    assert!(!check(unix, b"pre\0.X11-unix/X", 2 + 15));
    assert!(!check(unix, b"/run/dbus/socket", 18));
    assert!(!check(libc::AF_INET as u16, plain, len));
    assert!(!check(unix, plain, 1));
    assert!(!check(unix, plain, 2));
    assert!(!is_x11_socket(None, 110));
}

#[test]
fn path_bytes_fit_the_field() {
    assert_eq!(path_len(0, 108), 0);
    assert_eq!(path_len(2, 108), 0);
    assert_eq!(path_len(3, 108), 1);
    assert_eq!(path_len(110, 108), 108);
    assert_eq!(path_len(u32::MAX, 108), 108);
}

fn rewritten(c: &X11Conn, seq: u16, code: u8) -> u16 {
    let mut out = [0xeeu8; 40];
    write_u16(&mut out[6..8], seq, c.is_le);
    let before = out;
    rewrite_seq(c, seq, code, &mut out, 4);
    assert_eq!(out[..6], before[..6]);
    assert_eq!(out[8..], before[8..]);
    r16(&out[6..8], c.is_le)
}

#[test]
fn events_lose_the_injection_offset() {
    for le in [true, false] {
        let c = conn(le, vec![(100, 1), (200, 3)]);
        assert_eq!(rewritten(&c, 99, 2), 99);
        assert_eq!(rewritten(&c, 100, 2), 99);
        assert_eq!(rewritten(&c, 199, 2), 198);
        assert_eq!(rewritten(&c, 200, 2), 197);
        assert_eq!(rewritten(&c, 32_867, 2), 32_864);
        // Half the circle after a transition counts as before it.
        assert_eq!(rewritten(&c, 32_868, 2), 32_865);
        assert_eq!(rewritten(&c, 32_968, 2), 32_968);
        // KeymapNotify is unsequenced.
        assert_eq!(rewritten(&c, 200, 11), 200);
    }
    assert_eq!(rewritten(&conn(true, vec![]), 7, 2), 7);
    assert_eq!(rewritten(&conn(true, vec![(65_530, 5)]), 2, 2), 65_533);
    assert_eq!(rewritten(&conn(true, vec![(1, 4), (5, 0)]), 9, 2), 9);
}

#[test]
fn unsequenced_events_may_be_short() {
    let c = conn(true, vec![(0, 1)]);
    let mut out = [11u8];
    rewrite_seq(&c, 5, 11, &mut out, 0);
    assert_eq!(out, [11]);
}

#[test]
fn connections_are_remembered() {
    let mut state = X11State::new();
    assert!(!state.is_x11());
    // Without a table the connection is noted and its state dropped.
    state.on_new_connection(5, conn(true, vec![]));
    assert!(state.is_x11());
    let handle = X11Handle::active(&state, |fd: i32| Some(fd * 10)).unwrap();
    assert_eq!((handle.fd, handle.sink), (5, 50));
    let keep = |c: X11Conn, sink: &i32| (c, *sink);
    assert_eq!(handle.with_state(&mut state, true, keep), None);

    state.init_state();
    state.on_new_connection(5, conn(false, vec![(1, 1)]));
    state.init_state();
    assert_eq!(handle.with_state(&mut state, false, keep), None);
    assert_eq!(handle.with_state(&mut state, true, keep), Some(50));
    let grow = |c: X11Conn, _: &i32| {
        let mut c = c;
        c.offset_transitions.push((9, 2));
        let seen = (c.is_le, c.offset_transitions.len());
        (c, seen)
    };
    assert_eq!(handle.with_state(&mut state, true, grow), Some((false, 2)));
    assert_eq!(handle.with_state(&mut state, true, grow), Some((false, 3)));

    state.on_new_connection(6, conn(true, vec![]));
    assert!(X11Handle::active(&state, |_: i32| None::<i32>).is_none());
    let handle = X11Handle::active(&state, |fd: i32| Some(fd)).unwrap();
    assert_eq!(handle.fd, 6);
    assert_eq!(handle.with_state(&mut state, true, grow), Some((true, 1)));
    // The other connection is as it was.
    let other = X11Handle { fd: 5, sink: 0 };
    assert_eq!(other.with_state(&mut state, true, grow), Some((false, 4)));
}

#[test]
fn requests_go_to_the_active_connection() {
    let sent: RefCell<Vec<(i32, u32)>> = RefCell::new(Vec::new());
    let send = |c: X11Conn, sink: &i32, window: u32| {
        sent.borrow_mut().push((*sink, window));
        (c, window != 0)
    };
    let sink_for = |fd: i32| Some(fd);
    let locks = |_: &i32| true;

    let mut state = X11State::new();
    state.init_state();
    assert!(!send_net_wm_moveresize_move(&mut state, 1, sink_for, locks, send));
    state.on_new_connection(3, conn(true, vec![]));
    state.on_new_connection(4, conn(true, vec![]));
    assert!(send_net_wm_moveresize_move(&mut state, 77, sink_for, locks, send));
    assert!(!send_net_wm_moveresize_move(&mut state, 0, sink_for, locks, send));
    assert!(!send_net_wm_moveresize_move(&mut state, 5, sink_for, |_: &i32| false, send));
    assert!(!send_net_wm_moveresize_move(&mut state, 5, |_: i32| None, locks, send));
    assert_eq!(*sent.borrow(), vec![(4, 77), (4, 0)]);

    let region = |c: X11Conn, sink: &i32, window: u32, rects: Option<&[(i16, i16)]>| {
        sent.borrow_mut().push((*sink, window + rects.map_or(0, |r| r.len() as u32)));
        (c, true)
    };
    let rects = [(0i16, 0i16), (5, 5)];
    assert!(set_input_region_rects(&mut state, 8, Some(&rects), sink_for, locks, region));
    assert!(set_input_region_rects(&mut state, 8, None, sink_for, locks, region));
    assert_eq!(sent.borrow()[2..], [(4, 10), (4, 8)]);
}

#[test]
fn the_pointer_is_where_the_query_finds_it() {
    let query = |window: u32| if window == 7 { Some((-3, 40)) } else { None };
    assert_eq!(query_pointer(7, query), Some((-3, 40)));
    assert_eq!(query_pointer(8, query), None);
}

#[test]
fn system_calls_take_one_to_three_arguments() {
    assert_eq!(raw_syscall_ret(&[]), Err(-1));
    assert_eq!(raw_syscall_ret(&[4]), Ok(SyscallArgs::One(4)));
    assert_eq!(raw_syscall_ret(&[4, 5]), Ok(SyscallArgs::Two(4, 5)));
    assert_eq!(raw_syscall_ret(&[4, 5, 6]), Ok(SyscallArgs::Three(4, 5, 6)));
    assert_eq!(raw_syscall_ret(&[4, 5, 6, 7]), Err(-1));
    for fd in [0i32, 7, i32::MAX, -1, -100, i32::MIN] {
        assert_eq!(call_close(fd), [fd as usize]);
        assert_eq!(call_connect(fd, 0xdead, 110), [fd as usize, 0xdead, 110]);
    }
}

#[test]
fn a_send_counts_when_it_is_whole() {
    assert!(send_raw_msg(&[1, 2, 3], 3));
    assert!(!send_raw_msg(&[1, 2, 3], 2));
    assert!(!send_raw_msg(&[1, 2, 3], -1));
    assert!(send_raw_msg(&[], 0));
}
