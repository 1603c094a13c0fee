//! What both QUIC endpoints agree on: transport settings, buffer sizes, how long to
//! wait, and which packet opens a connection. Times are nanoseconds.
use vstd::prelude::*;

verus! {

/// The largest packet that is sent or taken.
pub const MAX_DATAGRAM_SIZE: usize = 1350;

/// The size of the buffer that packets are read into.
pub const READ_BUF_SIZE: usize = 65535;

/// How long a handshake may take.
pub const HANDSHAKE_LIMIT: u128 = 5_000_000_000;

/// How many streams a connection allows beyond those that are used.
pub const SPARE_STREAMS: usize = 128;

/// How many streams the HTTP/3 server allows.
pub const H3_SERVER_STREAMS: usize = 1024;

/// The error code of a stream that is turned away.
pub const OVERLOAD_ERROR_CODE: u64 = 0x503;

/// The settings of a connection.
#[derive(Debug, Clone, Copy, PartialEq, Eq, Structural)]
pub struct QuicSettings {
    /// Whether the peer's certificate goes unchecked.
    pub trusts_any_peer: bool,
    pub max_idle_timeout_ms: u64,
    pub max_udp_payload_size: usize,
    pub initial_max_data: u64,
    pub initial_max_stream_data: u64,
    pub initial_max_streams: u64,
    pub disable_active_migration: bool,
}

/// The settings of a client or a server that allows so many streams.
pub open spec fn settings_of(client: bool, max_streams: nat) -> QuicSettings {
    QuicSettings {
        trusts_any_peer: client,
        max_idle_timeout_ms: 5000,
        max_udp_payload_size: MAX_DATAGRAM_SIZE,
        initial_max_data: 64_000_000,
        initial_max_stream_data: 4_000_000,
        initial_max_streams: max_streams as u64,
        disable_active_migration: true,
    }
}

/// The settings of a client or a server that allows so many streams.
pub fn quic_settings(client: bool, max_streams: usize) -> (r: QuicSettings)
    ensures
        r == settings_of(client, max_streams as nat),
{
    QuicSettings {
        trusts_any_peer: client,
        max_idle_timeout_ms: 5000,
        max_udp_payload_size: MAX_DATAGRAM_SIZE,
        initial_max_data: 64_000_000,
        initial_max_stream_data: 4_000_000,
        initial_max_streams: max_streams as u64,
        disable_active_migration: true,
    }
}

/// How many streams a connection allows where `used` are used at once.
pub fn stream_limit(used: usize) -> (r: usize)
    requires
        used + SPARE_STREAMS <= usize::MAX,
    ensures
        r == used + SPARE_STREAMS,
{
    used + SPARE_STREAMS
}

/// Whether a handshake has taken too long.
pub open spec fn handshake_over(started: u128, now: u128) -> bool {
    now - started > HANDSHAKE_LIMIT
}

/// Whether a handshake that began at `started` has taken too long.
pub fn handshake_timed_out(started: u128, now: u128) -> (r: bool)
    requires
        started + HANDSHAKE_LIMIT <= u128::MAX,
    ensures
        r == (now > started + HANDSHAKE_LIMIT),
        r == handshake_over(started, now),
{
    now > started + HANDSHAKE_LIMIT
}

/// How long a server waits for packets when its connection, if it has one, does not
/// say.
pub const SERVER_POLL: u128 = 10_000_000;

/// How long a server waits for packets while it processes requests.
pub const BUSY_POLL: u128 = 1_000_000;

/// How long the HTTP/3 server waits: as long as its connection says.
pub fn h3_server_timeout(connection: Option<u128>) -> (r: u128)
    ensures
        r == match connection {
            Some(t) => t,
            None => SERVER_POLL,
        },
        r == overload_timeout(connection, false),
{
    match connection {
        Some(t) => t,
        None => SERVER_POLL,
    }
}

/// How long the overload server waits: as long as its connection says, but no
/// longer than a busy server may while requests are processed.
pub open spec fn overload_timeout(connection: Option<u128>, busy: bool) -> u128 {
    match connection {
        Some(t) => if busy && t > BUSY_POLL {
            BUSY_POLL
        } else {
            t
        },
        None => if busy {
            BUSY_POLL
        } else {
            SERVER_POLL
        },
    }
}

/// How long the overload server waits.
pub fn overload_server_timeout(connection: Option<u128>, busy: bool) -> (r: u128)
    ensures
        r == overload_timeout(connection, busy),
{
    match connection {
        Some(t) => if busy && t > BUSY_POLL {
            BUSY_POLL
        } else {
            t
        },
        None => if busy {
            BUSY_POLL
        } else {
            SERVER_POLL
        },
    }
}

/// What a server does with a packet.
#[derive(Debug, Clone, Copy, PartialEq, Eq, Structural)]
pub enum PacketUse {
    /// Opens its connection, and feeds the packet to it.
    Accept,
    /// Feeds it to its connection.
    Feed,
    /// Nothing.
    Drop,
}

/// What a server does with a packet. It has one connection: the first packet whose
/// header can be read and that begins a handshake opens it, those before are dropped, and
/// all that come later are fed to it.
pub open spec fn use_of_packet(connected: bool, header_read: bool, initial: bool) -> PacketUse {
    if connected {
        PacketUse::Feed
    } else if header_read && initial {
        PacketUse::Accept
    } else {
        PacketUse::Drop
    }
}

/// What a server does with a packet.
pub fn packet_use(connected: bool, header_read: bool, initial: bool) -> (r: PacketUse)
    ensures
        r == use_of_packet(connected, header_read, initial),
{
    if connected {
        PacketUse::Feed
    } else if header_read && initial {
        PacketUse::Accept
    } else {
        PacketUse::Drop
    }
}

/// A packet, as a server sees it: whether its header can be read, and whether it begins a
/// handshake.
pub type PacketKind = (bool, bool);

/// Whether a server is connected after these packets.
pub open spec fn connected_after(packets: Seq<PacketKind>) -> bool
    decreases packets.len(),
{
    if packets.len() == 0 {
        false
    } else {
        let before = connected_after(packets.drop_last());
        before || use_of_packet(before, packets.last().0, packets.last().1) == PacketUse::Accept
    }
}

/// What a server does with the packet at `i`.
pub open spec fn use_at(packets: Seq<PacketKind>, i: int) -> PacketUse {
    use_of_packet(connected_after(packets.take(i)), packets[i].0, packets[i].1)
}

proof fn lemma_connected(packets: Seq<PacketKind>, i: int, j: int)
    requires
        0 <= i < j <= packets.len(),
        connected_after(packets.take(i)) || use_at(packets, i) == PacketUse::Accept,
    ensures
        connected_after(packets.take(j)),
    decreases j,
{
    let more = packets.take(j);
    assert(more.drop_last() =~= packets.take(j - 1));
    assert(more.last() == packets[j - 1]);
    if i < j - 1 {
        lemma_connected(packets, i, j - 1);
    }
}

/// A server takes one connection: of all the packets that come, at most one opens a
/// connection, those before it are dropped, and those after it are fed to it.
pub proof fn law_one_connection(packets: Seq<PacketKind>, i: int, j: int)
    requires
        0 <= i < packets.len(),
        0 <= j < packets.len(),
        use_at(packets, i) == PacketUse::Accept,
    ensures
        packets[i] == (true, true),
        j < i ==> use_at(packets, j) == PacketUse::Drop,
        j > i ==> use_at(packets, j) == PacketUse::Feed,
{
    if j < i && use_at(packets, j) != PacketUse::Drop {
        lemma_connected(packets, j, i);
    }
    if j > i {
        lemma_connected(packets, i, j);
    }
}

/// How long a connection's number is that a server makes up.
pub const MADE_UP_ID_LEN: usize = 16;

/// The number of the connection that a server opens for its first packet: the one
/// that the packet is addressed to, or one made up where it is addressed to none.
/// Only a packet that begins a handshake opens a connection.
pub open spec fn accepted_id(initial: bool, dcid: Seq<u8>, filler: u8) -> Option<Seq<u8>> {
    if !initial {
        None
    } else if dcid.len() == 0 {
        Some(Seq::new(MADE_UP_ID_LEN as nat, |i: int| filler))
    } else {
        Some(dcid)
    }
}

/// The number of the connection that a server opens for its first packet, if it
/// opens one.
pub fn accept_packet(initial: bool, dcid: Vec<u8>, filler: u8) -> (r: Option<Vec<u8>>)
    ensures
        match r {
            Some(id) => accepted_id(initial, dcid@, filler) == Some(id@),
            None => accepted_id(initial, dcid@, filler) is None,
        },
{
    if !initial {
        return None;
    }
    if dcid.len() > 0 {
        return Some(dcid);
    }
    let mut id: Vec<u8> = Vec::new();
    let mut i: usize = 0;
    while i < MADE_UP_ID_LEN
        invariant
            i <= MADE_UP_ID_LEN,
            id@ == Seq::new(i as nat, |j: int| filler),
        decreases MADE_UP_ID_LEN - i,
    {
        id.push(filler);
        i = i + 1;
        assert(id@ =~= Seq::new(i as nat, |j: int| filler));
    }
    Some(id)
}

/// A server that processes requests looks at them at least once a millisecond.
pub proof fn law_busy_server_wakes(connection: Option<u128>)
    ensures
        overload_timeout(connection, true) <= BUSY_POLL,
        overload_timeout(connection, true) <= overload_timeout(connection, false),
{
}

/// How long a server of the overload experiment waits: no longer than its connection asks,
/// nor than a millisecond while requests are being processed, and exactly the shorter of the
/// two; without a connection that asks, ten milliseconds stand for it.
pub proof fn law_overload_wait(connection: Option<u128>, busy: bool)
    ensures
        ({
            let asked = match connection {
                Some(t) => t,
                None => 10_000_000,
            };
            let wait = overload_timeout(connection, busy);
            &&& wait <= asked
            &&& busy ==> wait <= 1_000_000
            &&& wait == asked || busy && wait == 1_000_000
        }),
{
}

/// The first packet that opens a connection is accepted, whatever came before it: what came
/// before is dropped, as all is where none opens one.
pub proof fn law_first_initial_is_accepted(packets: Seq<PacketKind>, i: int)
    requires
        0 <= i < packets.len(),
        forall|k: int| 0 <= k < i ==> !((#[trigger] packets[k]).0 && packets[k].1),
    ensures
        use_at(packets, i) == if packets[i].0 && packets[i].1 {
            PacketUse::Accept
        } else {
            PacketUse::Drop
        },
{
    lemma_not_connected(packets, i);
}

proof fn lemma_not_connected(packets: Seq<PacketKind>, i: int)
    requires
        0 <= i <= packets.len(),
        forall|k: int| 0 <= k < i ==> !((#[trigger] packets[k]).0 && packets[k].1),
    ensures
        !connected_after(packets.take(i)),
    decreases i,
{
    if i > 0 {
        lemma_not_connected(packets, i - 1);
        assert(packets.take(i).drop_last() =~= packets.take(i - 1));
        assert(packets.take(i).last() == packets[i - 1]);
    }
}

/// A connection keeps the name that its client gave it; one without a name gets sixteen bytes.
/// What does not open a connection gets none.
pub proof fn law_accepted_id(initial: bool, dcid: Seq<u8>, filler: u8)
    ensures
        accepted_id(initial, dcid, filler) is Some <==> initial,
        initial && dcid.len() > 0 ==> accepted_id(initial, dcid, filler) == Some(dcid),
        initial && dcid.len() == 0 ==> accepted_id(initial, dcid, filler)->0.len() == 16 && forall|
            i: int,
        |
            0 <= i < 16 ==> #[trigger] accepted_id(initial, dcid, filler)->0[i] == filler,
{
}

/// Client and server agree in all but whom they trust: only a client trusts any peer. Neither
/// the time that a connection may be idle nor what it may carry depends on the number of
/// streams.
pub proof fn law_settings(client: bool, max_streams: nat)
    requires
        max_streams <= u64::MAX,
    ensures
        ({
            let s = settings_of(client, max_streams);
            &&& s.trusts_any_peer == client
            &&& s.initial_max_streams == max_streams
            &&& s.max_idle_timeout_ms == 5_000
            &&& s.max_udp_payload_size == 1_350
            &&& s.initial_max_data == 64_000_000
            &&& s.initial_max_stream_data == 4_000_000
            &&& s.disable_active_migration
        }),
{
}

/// A handshake may take five seconds and no longer, and one that has taken too long once has
/// done so ever after.
pub proof fn law_handshake(started: u128, now: u128, later: u128)
    ensures
        handshake_over(started, now) <==> now >= started + 5_000_000_001,
        handshake_over(started, now) && later >= now ==> handshake_over(started, later),
        !handshake_over(started, started),
{
}

} // verus!
