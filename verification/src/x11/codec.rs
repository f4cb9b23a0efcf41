//! Wire integers in either byte order, and recognition of X11 sockets.
use crate::text;
use vstd::prelude::*;

verus! {

/// Bytes in `words` four-byte protocol words, or `None` where that exceeds `usize`.
pub fn checked_word_len(words: usize) -> (r: Option<usize>)
    ensures
        r == (if words * 4 <= usize::MAX {
            Some((words * 4) as usize)
        } else {
            None::<usize>
        }),
{
    words.checked_mul(4)
}

/// The line that reports the end of a stream that could not be parsed.
pub open spec fn close_line(fd: int, direction: Seq<char>, reason: Seq<char>, buffered: nat) -> Seq<
    char,
> {
    "[proxy:x11] closing "@ + direction + " stream for fd "@ + text::signed_decimal(fd) + ": "@
        + reason + "; buffered="@ + text::decimal(buffered)
}

/// The line to log when a stream is closed because it could not be parsed.
pub fn log_parser_close(fd: i32, direction: &str, reason: &str, buffered: usize) -> (r: String)
    ensures
        r@ == close_line(fd as int, direction@, reason@, buffered as nat),
{
    "[proxy:x11] closing ".to_owned().concat(direction).concat(" stream for fd ").concat(
        text::signed_decimal_text(fd as i64).as_str(),
    ).concat(": ").concat(reason).concat("; buffered=").concat(
        text::decimal_text(buffered as u128).as_str(),
    )
}

/// The number that the bytes stand for, least significant first.
pub open spec fn little_endian(bytes: Seq<u8>) -> nat
    decreases bytes.len(),
{
    if bytes.len() == 0 {
        0
    } else {
        bytes[0] as nat + 256 * little_endian(bytes.drop_first())
    }
}

/// The number that the bytes stand for in the given byte order.
pub open spec fn wire_value(bytes: Seq<u8>, le: bool) -> nat {
    if le {
        little_endian(bytes)
    } else {
        little_endian(bytes.reverse())
    }
}

/// The `width` low bytes of `v`, least significant first.
pub open spec fn little_endian_bytes(v: nat, width: nat) -> Seq<u8>
    decreases width,
{
    if width == 0 {
        Seq::empty()
    } else {
        seq![(v % 256) as u8] + little_endian_bytes(v / 256, (width - 1) as nat)
    }
}

/// `v` in `width` bytes in the given byte order.
pub open spec fn wire_bytes(v: nat, width: nat, le: bool) -> Seq<u8> {
    if le {
        little_endian_bytes(v, width)
    } else {
        little_endian_bytes(v, width).reverse()
    }
}

/// `256^width`.
pub open spec fn byte_span(width: nat) -> nat
    decreases width,
{
    if width == 0 {
        1
    } else {
        256 * byte_span((width - 1) as nat)
    }
}

proof fn little_endian_round_trip(v: nat, width: nat)
    requires
        v < byte_span(width),
    ensures
        little_endian_bytes(v, width).len() == width,
        little_endian(little_endian_bytes(v, width)) == v,
    decreases width,
{
    if width > 0 {
        let bytes = little_endian_bytes(v, width);
        let rest = little_endian_bytes(v / 256, (width - 1) as nat);
        little_endian_round_trip(v / 256, (width - 1) as nat);
        assert(bytes.drop_first() =~= rest);
    }
}

/// Reading what was written gives the value back, in either byte order.
pub proof fn write_then_read(v: nat, width: nat, le: bool)
    requires
        v < byte_span(width),
    ensures
        wire_bytes(v, width, le).len() == width,
        wire_value(wire_bytes(v, width, le), le) == v,
{
    let bytes = little_endian_bytes(v, width);
    little_endian_round_trip(v, width);
    assert(bytes.reverse().reverse() =~= bytes);
}

proof fn little_endian_inverse(bytes: Seq<u8>)
    ensures
        little_endian(bytes) < byte_span(bytes.len()),
        little_endian_bytes(little_endian(bytes), bytes.len()) == bytes,
    decreases bytes.len(),
{
    if bytes.len() > 0 {
        let rest = bytes.drop_first();
        little_endian_inverse(rest);
        assert(little_endian_bytes(little_endian(bytes), bytes.len()) =~= bytes);
    }
}

/// Writing what was read gives the bytes back, in either byte order.
pub proof fn read_then_write(bytes: Seq<u8>, le: bool)
    ensures
        wire_value(bytes, le) < byte_span(bytes.len()),
        wire_bytes(wire_value(bytes, le), bytes.len(), le) == bytes,
{
    little_endian_inverse(bytes);
    little_endian_inverse(bytes.reverse());
    assert(bytes.reverse().reverse() =~= bytes);
}

proof fn value_of_two(bytes: Seq<u8>)
    requires
        bytes.len() == 2,
    ensures
        little_endian(bytes) == bytes[0] + 256 * bytes[1],
{
    reveal_with_fuel(little_endian, 3);
}

proof fn value_of_four(bytes: Seq<u8>)
    requires
        bytes.len() == 4,
    ensures
        little_endian(bytes) == bytes[0] + 256 * bytes[1] + 65536 * bytes[2] + 16777216 * bytes[3],
{
    reveal_with_fuel(little_endian, 5);
}

/// Reads two bytes as a number.
pub fn r16(b: &[u8], le: bool) -> (r: u16)
    requires
        b@.len() >= 2,
    ensures
        r == wire_value(b@.take(2), le),
        le ==> r == b@[0] + 256 * b@[1],
        !le ==> r == 256 * b@[0] + b@[1],
{
    proof {
        value_of_two(b@.take(2));
        value_of_two(b@.take(2).reverse());
    }
    if le {
        b[0] as u16 + 256 * (b[1] as u16)
    } else {
        b[1] as u16 + 256 * (b[0] as u16)
    }
}

/// Reads four bytes as a number.
pub fn r32(b: &[u8], le: bool) -> (r: u32)
    requires
        b@.len() >= 4,
    ensures
        r == wire_value(b@.take(4), le),
        le ==> r == b@[0] + 0x100 * b@[1] + 0x1_0000 * b@[2] + 0x100_0000 * b@[3],
        !le ==> r == 0x100_0000 * b@[0] + 0x1_0000 * b@[1] + 0x100 * b@[2] + b@[3],
{
    proof {
        value_of_four(b@.take(4));
        value_of_four(b@.take(4).reverse());
    }
    if le {
        b[0] as u32 + 256 * (b[1] as u32) + 65536 * (b[2] as u32) + 16777216 * (b[3] as u32)
    } else {
        b[3] as u32 + 256 * (b[2] as u32) + 65536 * (b[1] as u32) + 16777216 * (b[0] as u32)
    }
}

/// `b` with the bytes from `at` on replaced by `bytes`.
pub open spec fn overwritten(b: Seq<u8>, at: int, bytes: Seq<u8>) -> Seq<u8> {
    b.take(at) + bytes + b.skip(at + bytes.len())
}

/// Writes `v` into the two bytes at `at`.
pub(crate) fn write_u16_at(b: &mut [u8], at: usize, v: u16, le: bool)
    requires
        at + 2 <= old(b)@.len(),
    ensures
        final(b)@ == overwritten(old(b)@, at as int, wire_bytes(v as nat, 2, le)),
{
    proof {
        assert(b.len() == b@.len());
        reveal_with_fuel(little_endian_bytes, 3);
    }
    let low: u8 = (v % 256) as u8;
    let high: u8 = (v / 256) as u8;
    if le {
        b[at] = low;
        b[at + 1] = high;
    } else {
        b[at] = high;
        b[at + 1] = low;
    }
    assert(b@ =~= overwritten(old(b)@, at as int, wire_bytes(v as nat, 2, le)));
}

/// Writes `v` into the first two bytes.
pub fn write_u16(b: &mut [u8], v: u16, le: bool)
    requires
        old(b)@.len() >= 2,
    ensures
        final(b)@ == wire_bytes(v as nat, 2, le) + old(b)@.skip(2),
        final(b)@.len() == old(b)@.len(),
        le ==> v == final(b)@[0] + 256 * final(b)@[1],
        !le ==> v == 256 * final(b)@[0] + final(b)@[1],
        forall|i: int| 2 <= i < old(b)@.len() ==> #[trigger] final(b)@[i] == old(b)@[i],
{
    proof {
        little_endian_round_trip(v as nat, 2);
        reveal_with_fuel(byte_span, 3);
        reveal_with_fuel(little_endian_bytes, 3);
    }
    write_u16_at(b, 0, v, le);
    assert(b@ =~= wire_bytes(v as nat, 2, le) + old(b)@.skip(2));
}

/// Writes `v` into the first four bytes.
pub fn write_u32(b: &mut [u8], v: u32, le: bool)
    requires
        old(b)@.len() >= 4,
    ensures
        final(b)@ == wire_bytes(v as nat, 4, le) + old(b)@.skip(4),
        final(b)@.len() == old(b)@.len(),
        ({
            let w = final(b)@;
            &&& le ==> v == w[0] + 0x100 * w[1] + 0x1_0000 * w[2] + 0x100_0000 * w[3]
            &&& !le ==> v == 0x100_0000 * w[0] + 0x1_0000 * w[1] + 0x100 * w[2] + w[3]
        }),
        forall|i: int| 4 <= i < old(b)@.len() ==> #[trigger] final(b)@[i] == old(b)@[i],
{
    proof {
        reveal_with_fuel(little_endian_bytes, 5);
    }
    let b0: u8 = (v % 256) as u8;
    let b1: u8 = (v / 256 % 256) as u8;
    let b2: u8 = (v / 256 / 256 % 256) as u8;
    let b3: u8 = (v / 256 / 256 / 256) as u8;
    if le {
        b[0] = b0;
        b[1] = b1;
        b[2] = b2;
        b[3] = b3;
    } else {
        b[0] = b3;
        b[1] = b2;
        b[2] = b1;
        b[3] = b0;
    }
    assert(b@ =~= wire_bytes(v as nat, 4, le) + old(b)@.skip(4));
}

/// Bytes of the address family at the head of a socket address.
pub const FAMILY_BYTES: u32 = 2;

/// `.X11-unix/X`, which the path of every X11 socket contains.
pub const X11_SOCKET_MARK: [u8; 11] = [46, 88, 49, 49, 45, 117, 110, 105, 120, 47, 88];

/// The head of a socket address: its family, and the path bytes that follow.
pub struct SocketAddress<'a> {
    pub family: u16,
    pub path: &'a [u8],
}

/// The address family of local sockets, `AF_UNIX`.
pub const UNIX_FAMILY: u16 = 1;

/// How many path bytes an address of `addrlen` bytes holds, out of `capacity`.
pub open spec fn path_bytes(addrlen: u32, capacity: nat) -> nat {
    if addrlen <= FAMILY_BYTES {
        0
    } else if addrlen - FAMILY_BYTES < capacity {
        (addrlen - FAMILY_BYTES) as nat
    } else {
        capacity
    }
}

/// Path bytes of an address of `addrlen` bytes whose path field has room for `capacity`.
pub fn path_len(addrlen: u32, capacity: usize) -> (r: usize)
    ensures
        r == path_bytes(addrlen, capacity as nat),
{
    if addrlen <= FAMILY_BYTES {
        0
    } else if ((addrlen - FAMILY_BYTES) as usize) < capacity {
        (addrlen - FAMILY_BYTES) as usize
    } else {
        capacity
    }
}

/// `raw` up to its first zero byte.
pub open spec fn until_zero(raw: Seq<u8>) -> Seq<u8>
    decreases raw.len(),
{
    if raw.len() == 0 || raw[0] == 0 {
        Seq::empty()
    } else {
        seq![raw[0]] + until_zero(raw.drop_first())
    }
}

/// The name that the path bytes hold: all that follows a leading zero byte, or what comes
/// before the first zero byte.
pub open spec fn socket_name(raw: Seq<u8>) -> Seq<u8> {
    if raw.len() > 0 && raw[0] == 0 {
        raw.drop_first()
    } else {
        until_zero(raw)
    }
}

/// `part` stands somewhere in `whole`.
pub open spec fn contains_run(whole: Seq<u8>, part: Seq<u8>) -> bool {
    exists|i: int| #![trigger whole.subrange(i, i + part.len())]
        0 <= i && i + part.len() <= whole.len() && whole.subrange(i, i + part.len()) == part
}

/// An address whose family is that of local sockets and whose name contains the X11 mark.
pub open spec fn x11_address(addr: Option<(u16, Seq<u8>)>, addrlen: u32) -> bool {
    match addr {
        None => false,
        Some((family, path)) => {
            &&& addrlen >= FAMILY_BYTES
            &&& family == UNIX_FAMILY
            &&& contains_run(
                socket_name(path.take(path_bytes(addrlen, path.len()) as int)),
                X11_SOCKET_MARK@,
            )
        },
    }
}

proof fn until_zero_prefix(raw: Seq<u8>, end: int)
    requires
        0 <= end <= raw.len(),
        forall|i: int| 0 <= i < end ==> raw[i] != 0,
        end < raw.len() ==> raw[end] == 0,
    ensures
        until_zero(raw) == raw.take(end),
    decreases raw.len(),
{
    if end == 0 {
        assert(raw.take(0) =~= Seq::<u8>::empty());
    } else {
        let rest = raw.drop_first();
        assert forall|i: int| 0 <= i < end - 1 implies rest[i] != 0 by {
            assert(rest[i] == raw[i + 1]);
        }
        until_zero_prefix(rest, end - 1);
        assert(raw.take(end) =~= seq![raw[0]] + rest.take(end - 1));
    }
}

/// Whether the mark stands at `at`.
fn mark_at(raw: &[u8], at: usize) -> (r: bool)
    requires
        at + 11 <= raw.len(),
    ensures
        r == (raw@.subrange(at as int, at + 11) == X11_SOCKET_MARK@),
{
    let mut i: usize = 0;
    while i < 11
        invariant
            i <= 11,
            at + 11 <= raw.len(),
            forall|k: int| 0 <= k < i ==> raw@[at + k] == X11_SOCKET_MARK@[k],
        decreases 11 - i,
    {
        if raw[at + i] != X11_SOCKET_MARK[i] {
            assert(raw@.subrange(at as int, at + 11)[i as int] != X11_SOCKET_MARK@[i as int]);
            return false;
        }
        i += 1;
    }
    assert(raw@.subrange(at as int, at + 11) =~= X11_SOCKET_MARK@);
    true
}

/// Whether the mark stands in `raw` between `start` and `end`.
fn has_mark(raw: &[u8], start: usize, end: usize) -> (r: bool)
    requires
        start <= end <= raw.len(),
    ensures
        r == contains_run(raw@.subrange(start as int, end as int), X11_SOCKET_MARK@),
{
    let ghost name = raw@.subrange(start as int, end as int);
    let mut at: usize = start;
    while end - at >= 11
        invariant
            start <= at <= end <= raw.len(),
            name == raw@.subrange(start as int, end as int),
            forall|i: int| 0 <= i < at - start ==> #[trigger] name.subrange(i, i + 11)
                != X11_SOCKET_MARK@,
        decreases end - at,
    {
        let ghost i = at - start;
        assert(name.subrange(i, i + 11) =~= raw@.subrange(at as int, at + 11));
        if mark_at(raw, at) {
            assert(name.subrange(i, i + X11_SOCKET_MARK@.len()) == X11_SOCKET_MARK@);
            return true;
        }
        at += 1;
    }
    false
}

/// Whether an address of `addrlen` bytes is that of an X11 server.
pub fn is_x11_socket(addr: Option<SocketAddress<'_>>, addrlen: u32) -> (r: bool)
    ensures
        r == x11_address(
            match addr {
                Some(a) => Some((a.family, a.path@)),
                None => None,
            },
            addrlen,
        ),
{
    match addr {
        None => false,
        Some(a) => {
            if addrlen < FAMILY_BYTES || a.family != UNIX_FAMILY {
                return false;
            }
            let len: usize = path_len(addrlen, a.path.len());
            let ghost raw = a.path@.take(len as int);
            if len == 0 {
                assert(socket_name(raw).len() == 0);
                return false;
            }
            if a.path[0] == 0 {
                assert(raw.drop_first() =~= a.path@.subrange(1, len as int));
                return has_mark(a.path, 1, len);
            }
            let mut end: usize = 0;
            while end < len && a.path[end] != 0
                invariant
                    end <= len <= a.path.len(),
                    forall|i: int| 0 <= i < end ==> a.path@[i] != 0,
                decreases len - end,
            {
                end += 1;
            }
            proof {
                until_zero_prefix(raw, end as int);
                assert(raw.take(end as int) =~= a.path@.subrange(0, end as int));
            }
            has_mark(a.path, 0, end)
        },
    }
}

/// In little-endian order the first byte counts least, in the other order it counts most: each
/// byte counts 256 times as much as the one that counts next less.
pub proof fn order_of_the_bytes(bytes: Seq<u8>, le: bool)
    ensures
        bytes.len() == 1 ==> wire_value(bytes, le) == bytes[0],
        bytes.len() > 1 ==> wire_value(bytes, true) == bytes[0] + 256 * wire_value(
            bytes.drop_first(),
            true,
        ),
        bytes.len() > 1 ==> wire_value(bytes, false) == bytes[bytes.len() - 1] + 256 * wire_value(
            bytes.drop_last(),
            false,
        ),
{
    if bytes.len() == 1 {
        reveal_with_fuel(little_endian, 2);
        assert(bytes.reverse() =~= bytes);
    }
    if bytes.len() > 1 {
        assert(bytes.reverse().drop_first() =~= bytes.drop_last().reverse());
    }
}

/// The name of a path starts after a leading zero byte, and otherwise at its first byte; in the
/// first case it takes all that follows, in the other it ends before the first zero byte.
proof fn name_of_path(raw: Seq<u8>, end: int)
    requires
        0 <= end <= raw.len(),
        forall|i: int| 0 <= i < end ==> raw[i] != 0,
        end == raw.len() || raw[end] == 0,
    ensures
        end > 0 ==> socket_name(raw) == raw.take(end),
        end == 0 && raw.len() > 0 ==> socket_name(raw) == raw.drop_first(),
{
    until_zero_prefix(raw, end);
}

/// `mark` stands at `at` in a path, one byte for each character.
pub open spec fn stands_at(path: Seq<u8>, mark: Seq<char>, at: int) -> bool {
    &&& 0 <= at
    &&& at + mark.len() <= path.len()
    &&& forall|i: int|
        0 <= i < mark.len() ==> path[at + i] as u32 == (#[trigger] mark[i]) as u32
}

/// The mark is `.X11-unix/X`, one byte for each character.
proof fn mark_spells(i: int)
    requires
        0 <= i < 11,
    ensures
        ".X11-unix/X"@.len() == 11,
        X11_SOCKET_MARK@.len() == 11,
        X11_SOCKET_MARK@[i] as u32 == ".X11-unix/X"@[i] as u32,
{
    reveal_strlit(".X11-unix/X");
}

proof fn mark_within(whole: Seq<u8>, shift: int)
    requires
        0 <= shift <= whole.len(),
    ensures
        contains_run(whole.skip(shift), X11_SOCKET_MARK@) <==> exists|at: int|
            shift <= at && #[trigger] stands_at(whole, ".X11-unix/X"@, at),
{
    let (name, bytes, mark) = (whole.skip(shift), X11_SOCKET_MARK@, ".X11-unix/X"@);
    mark_spells(0);
    if contains_run(name, bytes) {
        let i = choose|i: int| #![trigger name.subrange(i, i + bytes.len())]
            0 <= i && i + bytes.len() <= name.len() && name.subrange(i, i + bytes.len()) == bytes;
        let run = name.subrange(i, i + bytes.len());
        assert forall|k: int| 0 <= k < mark.len() implies whole[(i + shift) + k] as u32 == (
        #[trigger] mark[k]) as u32 by {
            mark_spells(k);
            assert(run[k] == whole[(i + shift) + k]);
        }
        assert(stands_at(whole, mark, i + shift));
    }
    if exists|at: int| shift <= at && #[trigger] stands_at(whole, mark, at) {
        let at = choose|at: int| shift <= at && #[trigger] stands_at(whole, mark, at);
        let i = at - shift;
        let run = name.subrange(i, i + bytes.len());
        assert forall|k: int| 0 <= k < run.len() implies #[trigger] run[k] == bytes[k] by {
            mark_spells(k);
            assert(whole[at + k] as u32 == mark[k] as u32);
        }
        assert(run =~= bytes);
    }
}

/// An X11 server is one that listens on a local socket whose name has `.X11-unix/X` in it. A path
/// that starts with a zero byte holds an abstract name: all the bytes that follow, as far as the
/// address reaches, which is up to `end`.
pub proof fn abstract_x11_sockets_are_marked(family: u16, path: Seq<u8>, addrlen: u32, end: int)
    requires
        2 < addrlen,
        path.len() > 0,
        path[0] == 0,
        0 < end <= path.len(),
        end <= addrlen - 2,
        end == path.len() || end == addrlen - 2,
    ensures
        x11_address(Some((family, path)), addrlen) <==> family == 1 && exists|at: int|
            1 <= at && #[trigger] stands_at(path.take(end), ".X11-unix/X"@, at),
{
    let held = path.take(end);
    assert(path_bytes(addrlen, path.len()) == end);
    mark_within(held, 1);
    assert(socket_name(held) =~= held.skip(1));
}

/// A path that does not start with a zero byte holds the name up to its first zero byte, or as far
/// as the address reaches: `end` bytes. The server of an X11 display has the mark in these.
pub proof fn named_x11_sockets_are_marked(family: u16, path: Seq<u8>, addrlen: u32, end: int)
    requires
        2 <= addrlen,
        0 < end <= path.len(),
        end <= addrlen - 2,
        end == path.len() || end == addrlen - 2 || path[end] == 0,
        forall|i: int| 0 <= i < end ==> path[i] != 0,
    ensures
        x11_address(Some((family, path)), addrlen) <==> family == 1 && exists|at: int|
            0 <= at && #[trigger] stands_at(path.take(end), ".X11-unix/X"@, at),
{
    let held = path.take(path_bytes(addrlen, path.len()) as int);
    let name = path.take(end);
    name_of_path(held, end);
    assert(held.take(end) =~= name);
    assert(name.skip(0) =~= name);
    mark_within(name, 0);
}

/// An address that is not there, or too short for its family, is not that of an X11 server.
pub proof fn no_address_is_no_server(address: Option<(u16, Seq<u8>)>, addrlen: u32)
    requires
        address is None || addrlen < 2,
    ensures
        !x11_address(address, addrlen),
{
}

/// What is logged of a stream that is closed.
pub proof fn close_is_logged(fd: int, direction: Seq<char>, reason: Seq<char>, buffered: nat)
    ensures
        close_line(fd, direction, reason, buffered) == "[proxy:x11] closing "@ + direction
            + " stream for fd "@ + text::signed_decimal(fd) + ": "@ + reason + "; buffered="@
            + text::decimal(buffered),
{
}

} // verus!
