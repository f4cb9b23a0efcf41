//! The connections that requests are injected into.
use std::collections::HashMap;
use vstd::prelude::*;

verus! {

/// What is known of one proxied connection.
#[derive(Debug)]
pub struct X11Conn {
    /// Whether the client speaks little-endian.
    pub is_le: bool,
    /// From which sequence number on which offset applies, in the order of injection.
    pub offset_transitions: Vec<(u16, u16)>,
}

/// What is known of all connections.
#[verifier::ext_equal]
pub struct ProxyState {
    /// The connection of each descriptor, once there is a table for them.
    pub conns: Option<Map<i32, X11Conn>>,
    /// Whether an X11 connection was ever seen.
    pub is_x11: bool,
    /// The descriptor of the latest connection.
    pub last_active_fd: Option<i32>,
}

/// The state that all connections share.
#[derive(Debug)]
pub struct X11State {
    conns: Option<HashMap<i32, X11Conn>>,
    is_x11: bool,
    last_active_fd: Option<i32>,
}

impl View for X11State {
    type V = ProxyState;

    closed spec fn view(&self) -> ProxyState {
        ProxyState {
            conns: match self.conns {
                Some(table) => Some(table@),
                None => None,
            },
            is_x11: self.is_x11,
            last_active_fd: self.last_active_fd,
        }
    }
}

impl X11State {
    /// No connection seen, and no table for connections.
    pub fn new() -> (r: Self)
        ensures
            r@ == (ProxyState { conns: None, is_x11: false, last_active_fd: None }),
    {
        X11State { conns: None, is_x11: false, last_active_fd: None }
    }

    /// Makes the table for connections, once; a table that is there stays as it is.
    pub fn init_state(&mut self)
        ensures
            final(self)@ == (ProxyState {
                conns: match old(self)@.conns {
                    Some(table) => Some(table),
                    None => Some(Map::empty()),
                },
                ..old(self)@
            }),
    {
        if self.conns.is_none() {
            self.conns = Some(HashMap::new());
        }
    }

    /// Whether an X11 connection was ever seen.
    pub fn is_x11(&self) -> (r: bool)
        ensures
            r == self@.is_x11,
    {
        self.is_x11
    }

    /// Takes note of a new connection. Where there is no table yet, `conn` is dropped.
    pub fn on_new_connection(&mut self, fd: i32, conn: X11Conn)
        ensures
            final(self)@ == (ProxyState {
                conns: match old(self)@.conns {
                    Some(table) => Some(table.insert(fd, conn)),
                    None => None,
                },
                is_x11: true,
                last_active_fd: Some(fd),
            }),
    {
        broadcast use vstd::std_specs::hash::group_hash_axioms;

        self.last_active_fd = Some(fd);
        self.is_x11 = true;
        if let Some(mut table) = self.conns.take() {
            table.insert(fd, conn);
            self.conns = Some(table);
        }
    }
}

/// There is a connection for `fd`.
pub open spec fn knows(state: ProxyState, fd: i32) -> bool {
    state.conns is Some && state.conns->0.contains_key(fd)
}

/// The state with `conn` as the connection of `fd`.
pub open spec fn with_conn(state: ProxyState, fd: i32, conn: X11Conn) -> ProxyState {
    ProxyState { conns: Some(state.conns->0.insert(fd, conn)), ..state }
}

/// Handle to the active X11 connection, used by the injection functions.
pub struct X11Handle<S> {
    pub fd: i32,
    pub sink: S,
}

/// What an injected request can do: from a connection and a sink to the connection and the
/// value that it gives back.
pub type Injection<S, T> = spec_fn(X11Conn, S, X11Conn, T) -> bool;

/// A request was run on the connection of `handle`: it gave `value`, and `after` holds the
/// connection that it gave back.
pub open spec fn ran_on_conn<S, T>(
    request: Injection<S, T>,
    before: ProxyState,
    handle: X11Handle<S>,
    value: T,
    after: ProxyState,
) -> bool {
    exists|conn: X11Conn| #[trigger]
        request(before.conns->0[handle.fd], handle.sink, conn, value) && after == with_conn(
            before,
            handle.fd,
            conn,
        )
}

/// `handle` is one for the latest connection, if there was one and `sink_for` still knows its
/// sink.
pub open spec fn active_handle<S, L: FnOnce(i32) -> Option<S>>(
    state: ProxyState,
    sink_for: L,
    handle: Option<X11Handle<S>>,
) -> bool {
    match (state.last_active_fd, handle) {
        (None, _) => handle is None,
        (Some(fd), Some(h)) => h.fd == fd && call_ensures(sink_for, (fd,), Some(h.sink)),
        (Some(fd), None) => call_ensures(sink_for, (fd,), None),
    }
}

impl<S> X11Handle<S> {
    /// The latest connection, if there was one and `sink_for` still knows its sink.
    pub fn active<L: FnOnce(i32) -> Option<S>>(state: &X11State, sink_for: L) -> (r: Option<Self>)
        requires
            forall|fd: i32| call_requires(sink_for, (fd,)),
        ensures
            active_handle(state@, sink_for, r),
    {
        match state.last_active_fd {
            None => None,
            Some(fd) => match sink_for(fd) {
                Some(sink) => Some(X11Handle { fd, sink }),
                None => None,
            },
        }
    }

    /// Runs `f` on the connection of this handle. Nothing happens where the write lock of
    /// the sink is not `locked`, or where the connection is gone.
    pub fn with_state<T, F: FnOnce(X11Conn, &S) -> (X11Conn, T)>(
        &self,
        state: &mut X11State,
        locked: bool,
        f: F,
    ) -> (r: Option<T>)
        requires
            forall|conn: X11Conn| call_requires(f, (conn, &self.sink)),
        ensures
            match r {
                Some(value) => {
                    &&& locked
                    &&& knows(old(state)@, self.fd)
                    &&& ran_on_conn(
                        |c: X11Conn, s: S, d: X11Conn, v: T| call_ensures(f, (c, &s), (d, v)),
                        old(state)@,
                        *self,
                        value,
                        final(state)@,
                    )
                },
                None => {
                    &&& !locked || !knows(old(state)@, self.fd)
                    &&& final(state)@ == old(state)@
                },
            },
    {
        broadcast use vstd::std_specs::hash::group_hash_axioms;

        if !locked {
            return None;
        }
        match state.conns.take() {
            None => None,
            Some(mut table) => {
                let ghost before = table@;
                match table.remove(&self.fd) {
                    None => {
                        assert(table@ =~= before);
                        state.conns = Some(table);
                        None
                    },
                    Some(conn) => {
                        let (conn, value) = f(conn, &self.sink);
                        let ghost request = |c: X11Conn, s: S, d: X11Conn, v: T|
                            call_ensures(f, (c, &s), (d, v));
                        assert(request(before[self.fd], self.sink, conn, value));
                        table.insert(self.fd, conn);
                        assert(table@ =~= before.insert(self.fd, conn));
                        state.conns = Some(table);
                        assert(state@ == with_conn(old(state)@, self.fd, conn));
                        assert(ran_on_conn(request, old(state)@, *self, value, state@));
                        Some(value)
                    },
                }
            },
        }
    }
}

/// The outcome of injecting through `handle`: where its sink locks and its connection is
/// known, what the request makes of that connection; otherwise `false`, and nothing changes.
pub open spec fn injected<S, K: FnOnce(&S) -> bool>(
    request: Injection<S, bool>,
    before: ProxyState,
    handle: Option<X11Handle<S>>,
    locked: bool,
    lock: K,
    after: ProxyState,
    result: bool,
) -> bool {
    match handle {
        None => !result && after == before,
        Some(h) => {
            &&& call_ensures(lock, (&h.sink,), locked)
            &&& if locked && knows(before, h.fd) {
                ran_on_conn(request, before, h, result, after)
            } else {
                !result && after == before
            }
        },
    }
}

/// The outcome of injecting through the active connection.
pub open spec fn injected_into_active<S, L: FnOnce(i32) -> Option<S>, K: FnOnce(&S) -> bool>(
    request: Injection<S, bool>,
    before: ProxyState,
    sink_for: L,
    lock: K,
    after: ProxyState,
    result: bool,
) -> bool {
    exists|handle: Option<X11Handle<S>>, locked: bool| #[trigger]
        injected(request, before, handle, locked, lock, after, result) && active_handle(
            before,
            sink_for,
            handle,
        )
}

/// Runs `f` on the active connection, under the write lock of its sink.
fn inject<
    S,
    L: FnOnce(i32) -> Option<S>,
    K: FnOnce(&S) -> bool,
    F: FnOnce(X11Conn, &S) -> (X11Conn, bool),
>(state: &mut X11State, sink_for: L, lock: K, f: F) -> (r: bool)
    requires
        forall|fd: i32| call_requires(sink_for, (fd,)),
        forall|sink: &S| call_requires(lock, (sink,)),
        forall|conn: X11Conn, sink: &S| call_requires(f, (conn, sink)),
    ensures
        injected_into_active(
            |c: X11Conn, s: S, d: X11Conn, v: bool| call_ensures(f, (c, &s), (d, v)),
            old(state)@,
            sink_for,
            lock,
            final(state)@,
            r,
        ),
{
    let ghost request = |c: X11Conn, s: S, d: X11Conn, v: bool| call_ensures(f, (c, &s), (d, v));
    let handle = X11Handle::active(state, sink_for);
    let ghost found = handle;
    match handle {
        None => {
            assert(injected(request, old(state)@, found, false, lock, state@, false));
            false
        },
        Some(h) => {
            let locked = lock(&h.sink);
            match h.with_state(state, locked, f) {
                Some(sent) => {
                    assert(injected(request, old(state)@, found, locked, lock, state@, sent));
                    sent
                },
                None => {
                    assert(injected(request, old(state)@, found, locked, lock, state@, false));
                    false
                },
            }
        },
    }
}

/// What can come of a weaker request can come of a stronger one.
proof fn weaken_request<S, L: FnOnce(i32) -> Option<S>, K: FnOnce(&S) -> bool>(
    strong: Injection<S, bool>,
    weak: Injection<S, bool>,
    before: ProxyState,
    sink_for: L,
    lock: K,
    after: ProxyState,
    result: bool,
)
    requires
        forall|c: X11Conn, s: S, d: X11Conn, v: bool| #[trigger]
            strong(c, s, d, v) ==> weak(c, s, d, v),
        injected_into_active(strong, before, sink_for, lock, after, result),
    ensures
        injected_into_active(weak, before, sink_for, lock, after, result),
{
    let (handle, locked) = choose|handle: Option<X11Handle<S>>, locked: bool| #[trigger]
        injected(strong, before, handle, locked, lock, after, result) && active_handle(
            before,
            sink_for,
            handle,
        );
    if let Some(h) = handle {
        if locked && knows(before, h.fd) {
            let conn = choose|conn: X11Conn| #[trigger]
                strong(before.conns->0[h.fd], h.sink, conn, result) && after == with_conn(
                    before,
                    h.fd,
                    conn,
                );
            assert(weak(before.conns->0[h.fd], h.sink, conn, result));
            assert(ran_on_conn(weak, before, h, result, after));
        }
    }
    assert(injected(weak, before, handle, locked, lock, after, result));
}

/// Asks the window manager to let the pointer move `window`; `move_window` sends the request
/// on the active connection. `false` where there is no active connection to send it on.
pub fn send_net_wm_moveresize_move<
    S,
    L: FnOnce(i32) -> Option<S>,
    K: FnOnce(&S) -> bool,
    F: FnOnce(X11Conn, &S, u32) -> (X11Conn, bool),
>(state: &mut X11State, window: u32, sink_for: L, lock: K, move_window: F) -> (r: bool)
    requires
        forall|fd: i32| call_requires(sink_for, (fd,)),
        forall|sink: &S| call_requires(lock, (sink,)),
        forall|conn: X11Conn, sink: &S| call_requires(move_window, (conn, sink, window)),
    ensures
        injected_into_active(
            |c: X11Conn, s: S, d: X11Conn, v: bool|
                call_ensures(move_window, (c, &s, window), (d, v)),
            old(state)@,
            sink_for,
            lock,
            final(state)@,
            r,
        ),
{
    let f = |conn: X11Conn, sink: &S| -> (o: (X11Conn, bool))
        ensures
            call_ensures(move_window, (conn, sink, window), o),
        { move_window(conn, sink, window) };
    let sent = inject(state, sink_for, lock, f);
    proof {
        weaken_request(
            |c: X11Conn, s: S, d: X11Conn, v: bool| call_ensures(f, (c, &s), (d, v)),
            |c: X11Conn, s: S, d: X11Conn, v: bool|
                call_ensures(move_window, (c, &s, window), (d, v)),
            old(state)@,
            sink_for,
            lock,
            state@,
            sent,
        );
    }
    sent
}

/// Sets the region of `window` that takes input; `set_input_region` sends the request on the
/// active connection. `false` where there is no active connection to send it on.
pub fn set_input_region_rects<
    S,
    R,
    L: FnOnce(i32) -> Option<S>,
    K: FnOnce(&S) -> bool,
    F: FnOnce(X11Conn, &S, u32, Option<&[R]>) -> (X11Conn, bool),
>(
    state: &mut X11State,
    window: u32,
    rects: Option<&[R]>,
    sink_for: L,
    lock: K,
    set_input_region: F,
) -> (r: bool)
    requires
        forall|fd: i32| call_requires(sink_for, (fd,)),
        forall|sink: &S| call_requires(lock, (sink,)),
        forall|conn: X11Conn, sink: &S|
            call_requires(set_input_region, (conn, sink, window, rects)),
    ensures
        injected_into_active(
            |c: X11Conn, s: S, d: X11Conn, v: bool|
                call_ensures(set_input_region, (c, &s, window, rects), (d, v)),
            old(state)@,
            sink_for,
            lock,
            final(state)@,
            r,
        ),
{
    let f = |conn: X11Conn, sink: &S| -> (o: (X11Conn, bool))
        ensures
            call_ensures(set_input_region, (conn, sink, window, rects), o),
        { set_input_region(conn, sink, window, rects) };
    let sent = inject(state, sink_for, lock, f);
    proof {
        weaken_request(
            |c: X11Conn, s: S, d: X11Conn, v: bool| call_ensures(f, (c, &s), (d, v)),
            |c: X11Conn, s: S, d: X11Conn, v: bool|
                call_ensures(set_input_region, (c, &s, window, rects), (d, v)),
            old(state)@,
            sink_for,
            lock,
            state@,
            sent,
        );
    }
    sent
}

/// Where the pointer is in `window`, as `query` finds it.
pub fn query_pointer<F: FnOnce(u32) -> Option<(i16, i16)>>(window: u32, query: F) -> (r: Option<
    (i16, i16),
>)
    requires
        call_requires(query, (window,)),
    ensures
        call_ensures(query, (window,), r),
{
    query(window)
}

/// Before the first connection nothing can be injected.
pub proof fn nothing_to_inject_into<S, L: FnOnce(i32) -> Option<S>, K: FnOnce(&S) -> bool>(
    request: Injection<S, bool>,
    before: ProxyState,
    sink_for: L,
    lock: K,
    after: ProxyState,
    result: bool,
)
    requires
        before.last_active_fd is None,
        injected_into_active(request, before, sink_for, lock, after, result),
    ensures
        !result,
        after == before,
{
}

/// Injection leaves the connections of all other descriptors, and which descriptor is active,
/// as they were.
pub proof fn injection_is_local<S, L: FnOnce(i32) -> Option<S>, K: FnOnce(&S) -> bool>(
    request: Injection<S, bool>,
    before: ProxyState,
    sink_for: L,
    lock: K,
    after: ProxyState,
    result: bool,
    fd: i32,
)
    requires
        injected_into_active(request, before, sink_for, lock, after, result),
        before.last_active_fd != Some(fd),
    ensures
        after.is_x11 == before.is_x11,
        after.last_active_fd == before.last_active_fd,
        knows(after, fd) == knows(before, fd),
        knows(before, fd) ==> after.conns->0[fd] == before.conns->0[fd],
{
}

/// `sink` is the sink of `fd`, and the request made `conn` of its connection, with `result`.
pub open spec fn ran_on<S, L: FnOnce(i32) -> Option<S>>(
    request: Injection<S, bool>,
    before: ProxyState,
    sink_for: L,
    fd: i32,
    sink: S,
    conn: X11Conn,
    result: bool,
) -> bool {
    &&& call_ensures(sink_for, (fd,), Some(sink))
    &&& request(before.conns->0[fd], sink, conn, result)
}

/// A request reaches the latest connection: where that is known, its sink can be had and its write
/// lock taken, the request is run on it, the connection becomes what the request makes of it, and
/// the result is that of the request.
pub proof fn request_reaches_the_latest_connection<
    S,
    L: FnOnce(i32) -> Option<S>,
    K: FnOnce(&S) -> bool,
>(
    request: Injection<S, bool>,
    before: ProxyState,
    sink_for: L,
    lock: K,
    after: ProxyState,
    result: bool,
    fd: i32,
)
    requires
        injected_into_active(request, before, sink_for, lock, after, result),
        before.last_active_fd == Some(fd),
        before.conns is Some,
        before.conns->0.contains_key(fd),
        forall|sink: Option<S>| #[trigger] call_ensures(sink_for, (fd,), sink) ==> sink is Some,
        forall|sink: &S, locked: bool| #[trigger] call_ensures(lock, (sink,), locked) ==> locked,
    ensures
        exists|sink: S, conn: X11Conn| #[trigger]
            ran_on(request, before, sink_for, fd, sink, conn, result) && after.conns == Some(
                before.conns->0.insert(fd, conn),
            ),
        after.is_x11 == before.is_x11,
        after.last_active_fd == before.last_active_fd,
{
    let (handle, locked) = choose|handle: Option<X11Handle<S>>, locked: bool| #[trigger]
        injected(request, before, handle, locked, lock, after, result) && active_handle(
            before,
            sink_for,
            handle,
        );
    assert(handle is Some);
    let h = handle->0;
    let conn = choose|conn: X11Conn| #[trigger]
        request(before.conns->0[h.fd], h.sink, conn, result) && after == with_conn(
            before,
            h.fd,
            conn,
        );
    assert(ran_on(request, before, sink_for, fd, h.sink, conn, result));
}

/// A request that cannot be sent is answered with `false` and changes nothing: the latest
/// connection is gone, its sink is not there, or the write lock cannot be taken.
pub proof fn request_without_a_way_fails<S, L: FnOnce(i32) -> Option<S>, K: FnOnce(&S) -> bool>(
    request: Injection<S, bool>,
    before: ProxyState,
    sink_for: L,
    lock: K,
    after: ProxyState,
    result: bool,
    fd: i32,
)
    requires
        injected_into_active(request, before, sink_for, lock, after, result),
        before.last_active_fd == Some(fd),
        before.conns is None || !before.conns->0.contains_key(fd) || (forall|sink: Option<S>|
            #[trigger] call_ensures(sink_for, (fd,), sink) ==> sink is None) || (forall|
            sink: &S,
            locked: bool,
        | #[trigger] call_ensures(lock, (sink,), locked) ==> !locked),
    ensures
        !result,
        after == before,
{
    let (handle, locked) = choose|handle: Option<X11Handle<S>>, locked: bool| #[trigger]
        injected(request, before, handle, locked, lock, after, result) && active_handle(
            before,
            sink_for,
            handle,
        );
    if handle is Some {
        assert(call_ensures(sink_for, (fd,), Some(handle->0.sink)));
        assert(call_ensures(lock, (&handle->0.sink,), locked));
    }
}

} // verus!
