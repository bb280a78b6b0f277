//! The registry persistence format: a flat binary encoding of a `Config`,
//! written whole and read back whole, that round-trips exactly.
//!
//! Layout: the current daemon, then an 8-byte little-endian entry count,
//! then each entry. A daemon is its name as a length-prefixed field followed
//! by its address; an address is a 1-byte family tag (`4` or `6`), the
//! address bytes, and a 2-byte little-endian port.

use vstd::assert_seqs_equal;
use vstd::prelude::*;

use crate::codec::{framed_le, le16, le16_val, le64, le64_val, push_frame, push_le16, push_le64,
    read_le16, read_le64};
use crate::daemon::{unique_names, wf, Config, ConfigView, Daemon, DaemonView, IpAddress,
    SocketAddress};
use crate::errors::JokerError;

verus! {

/// The bytes of one socket address: family tag, address, port.
pub open spec fn addr_bytes(a: SocketAddress) -> Seq<u8> {
    match a.ip {
        IpAddress::V4(b0, b1, b2, b3) => seq![4u8, b0, b1, b2, b3] + le16(a.port),
        IpAddress::V6(hi, lo) => seq![6u8] + le64(hi) + le64(lo) + le16(a.port),
    }
}

/// The bytes of one registry entry: framed name, then address.
pub open spec fn daemon_bytes(d: DaemonView) -> Seq<u8> {
    framed_le(d.name) + addr_bytes(d.addr)
}

/// The bytes of an entry list, in order.
pub open spec fn daemons_bytes(s: Seq<DaemonView>) -> Seq<u8>
    decreases s.len(),
{
    if s.len() == 0 {
        Seq::<u8>::empty()
    } else {
        daemons_bytes(s.drop_last()) + daemon_bytes(s.last())
    }
}

/// The full encoding of a registry.
pub open spec fn config_bytes(v: ConfigView) -> Seq<u8> {
    daemon_bytes(v.current) + le64(v.daemons.len() as u64) + daemons_bytes(v.daemons)
}

/// Whether every length in the registry fits its 8-byte prefix. Any registry
/// held in memory satisfies this; the bound matters only for the
/// mathematical statement of the round trip.
pub open spec fn encodable(v: ConfigView) -> bool {
    &&& v.current.name.len() < 0x1_0000_0000_0000_0000
    &&& v.daemons.len() < 0x1_0000_0000_0000_0000
    &&& forall|k: int|
        0 <= k < v.daemons.len() ==> v.daemons[k].name.len() < 0x1_0000_0000_0000_0000
}

/// Appends the encoding of one socket address.
fn push_addr(out: &mut Vec<u8>, a: &SocketAddress)
    ensures
        final(out)@ == old(out)@ + addr_bytes(*a),
{
    match a.ip {
        IpAddress::V4(b0, b1, b2, b3) => {
            out.push(4);
            out.push(b0);
            out.push(b1);
            out.push(b2);
            out.push(b3);
            push_le16(out, a.port);
            proof {
                assert(out@ =~= old(out)@ + addr_bytes(*a));
            }
        },
        IpAddress::V6(hi, lo) => {
            out.push(6);
            push_le64(out, hi);
            push_le64(out, lo);
            push_le16(out, a.port);
            proof {
                assert(out@ =~= old(out)@ + addr_bytes(*a));
            }
        },
    }
}

/// Appends the encoding of one registry entry.
fn push_daemon(out: &mut Vec<u8>, d: &Daemon)
    ensures
        final(out)@ == old(out)@ + daemon_bytes(d@),
{
    push_frame(out, &d.name);
    push_addr(out, &d.socket_address);
    proof {
        assert(out@ =~= old(out)@ + daemon_bytes(d@));
    }
}

/// Serializes the full registry. The caller overwrites the configuration
/// file with exactly these bytes.
pub fn save_config(config: &Config) -> (r: Vec<u8>)
    ensures
        r@ == config_bytes(config@),
{
    let ghost s = config.daemons@.map_values(|d: Daemon| d@);
    let mut out: Vec<u8> = Vec::new();
    push_daemon(&mut out, &config.current_daemon);
    push_le64(&mut out, config.daemons.len() as u64);
    let ghost header = out@;
    let mut i: usize = 0;
    while i < config.daemons.len()
        invariant
            i <= s.len(),
            s == config.daemons@.map_values(|d: Daemon| d@),
            s.len() == config.daemons@.len(),
            out@ == header + daemons_bytes(s.take(i as int)),
            header == daemon_bytes(config@.current) + le64(s.len() as u64),
        decreases s.len() - i,
    {
        push_daemon(&mut out, &config.daemons[i]);
        proof {
            assert(s.take(i + 1).drop_last() =~= s.take(i as int));
            assert(s.take(i + 1).last() == s[i as int]);
            assert(out@ =~= header + daemons_bytes(s.take(i + 1)));
        }
        i += 1;
    }
    proof {
        assert(s.take(s.len() as int) =~= s);
        assert(out@ =~= config_bytes(config@));
    }
    out
}

/// The 64-bit integer at `i`, and the position after it.
pub open spec fn dec_u64(b: Seq<u8>, i: int) -> Option<(u64, int)> {
    if 0 <= i && i + 8 <= b.len() {
        Some((le64_val(b.subrange(i, i + 8)), i + 8))
    } else {
        None
    }
}

/// The length-prefixed field at `i`, and the position after it.
pub open spec fn dec_frame(b: Seq<u8>, i: int) -> Option<(Seq<u8>, int)> {
    match dec_u64(b, i) {
        Some((n, j)) => if j + n <= b.len() {
            Some((b.subrange(j, j + n), j + n))
        } else {
            None
        },
        None => None,
    }
}

/// The socket address at `i`, and the position after it.
pub open spec fn dec_addr(b: Seq<u8>, i: int) -> Option<(SocketAddress, int)> {
    if 0 <= i && i < b.len() {
        if b[i] == 4u8 && i + 7 <= b.len() {
            Some(
                (
                    SocketAddress {
                        ip: IpAddress::V4(b[i + 1], b[i + 2], b[i + 3], b[i + 4]),
                        port: le16_val(b.subrange(i + 5, i + 7)),
                    },
                    i + 7,
                ),
            )
        } else if b[i] == 6u8 && i + 19 <= b.len() {
            Some(
                (
                    SocketAddress {
                        ip: IpAddress::V6(
                            le64_val(b.subrange(i + 1, i + 9)),
                            le64_val(b.subrange(i + 9, i + 17)),
                        ),
                        port: le16_val(b.subrange(i + 17, i + 19)),
                    },
                    i + 19,
                ),
            )
        } else {
            None
        }
    } else {
        None
    }
}

/// The registry entry at `i`, and the position after it.
pub open spec fn dec_daemon(b: Seq<u8>, i: int) -> Option<(DaemonView, int)> {
    match dec_frame(b, i) {
        Some((name, j)) => match dec_addr(b, j) {
            Some((a, k)) => Some((DaemonView { name, addr: a }, k)),
            None => None,
        },
        None => None,
    }
}

/// `count` consecutive entries starting at `i`, and the position after them.
pub open spec fn dec_daemons(b: Seq<u8>, i: int, count: nat) -> Option<(Seq<DaemonView>, int)>
    decreases count,
{
    if count == 0 {
        Some((Seq::<DaemonView>::empty(), i))
    } else {
        match dec_daemon(b, i) {
            Some((d, j)) => match dec_daemons(b, j, (count - 1) as nat) {
                Some((rest, k)) => Some((seq![d] + rest, k)),
                None => None,
            },
            None => None,
        }
    }
}

/// The registry that a whole byte string decodes to: current daemon, entry
/// count, exactly that many entries filling the rest of the bytes, with no
/// two entries sharing a name.
pub open spec fn dec_config(b: Seq<u8>) -> Option<ConfigView> {
    match dec_daemon(b, 0) {
        Some((cur, i)) => match dec_u64(b, i) {
            Some((n, j)) => match dec_daemons(b, j, n as nat) {
                Some((list, end)) => if end == b.len() && unique_names(list) {
                    Some(ConfigView { current: cur, daemons: list })
                } else {
                    None
                },
                None => None,
            },
            None => None,
        },
        None => None,
    }
}

/// Decoding at a position that holds the little-endian bytes of `n` yields
/// `n`.
proof fn lemma_dec_u64_of_le64(b: Seq<u8>, i: int, n: u64)
    requires
        0 <= i,
        i + 8 <= b.len(),
        b.subrange(i, i + 8) == le64(n),
    ensures
        dec_u64(b, i) == Some((n, i + 8)),
{
    crate::codec::lemma_le64_round_trip(n);
}

/// A window of `b` known to hold `w` can be split: any sub-window holds the
/// matching part of `w`.
proof fn lemma_subrange_split(b: Seq<u8>, i: int, w: Seq<u8>, x: int, y: int)
    requires
        0 <= i,
        i + w.len() <= b.len(),
        b.subrange(i, i + w.len() as int) == w,
        0 <= x <= y <= w.len(),
    ensures
        b.subrange(i + x, i + y) == w.subrange(x, y),
{
    assert_seqs_equal!(b.subrange(i + x, i + y) == w.subrange(x, y), k => {
        assert(b.subrange(i, i + w.len() as int)[x + k] == b[i + x + k]);
    });
}

/// Decoding at a position that holds a framed payload yields the payload.
proof fn lemma_dec_frame_of(b: Seq<u8>, i: int, p: Seq<u8>)
    requires
        0 <= i,
        p.len() < 0x1_0000_0000_0000_0000,
        i + 8 + p.len() <= b.len(),
        b.subrange(i, i + 8 + p.len()) == framed_le(p),
    ensures
        dec_frame(b, i) == Some((p, i + 8 + p.len())),
{
    let n = p.len() as u64;
    assert(b.subrange(i, i + 8) =~= framed_le(p).subrange(0, 8));
    assert(framed_le(p).subrange(0, 8) =~= le64(n));
    lemma_dec_u64_of_le64(b, i, n);
    assert(b.subrange(i + 8, i + 8 + p.len()) =~= framed_le(p).subrange(8, 8 + p.len() as int));
    assert(framed_le(p).subrange(8, 8 + p.len() as int) =~= p);
}

/// Decoding at a position that holds an encoded address yields the address.
proof fn lemma_dec_addr_of(b: Seq<u8>, i: int, a: SocketAddress)
    requires
        0 <= i,
        i + addr_bytes(a).len() <= b.len(),
        b.subrange(i, i + addr_bytes(a).len()) == addr_bytes(a),
    ensures
        dec_addr(b, i) == Some((a, i + addr_bytes(a).len())),
{
    let w = addr_bytes(a);
    let l = w.len() as int;
    match a.ip {
        IpAddress::V4(b0, b1, b2, b3) => {
            assert(l == 7);
            assert forall|k: int| 0 <= k < 5 implies b[i + k] == w[k] by {
                lemma_subrange_split(b, i, w, k, k + 1);
                assert(b.subrange(i + k, i + k + 1)[0] == b[i + k]);
                assert(w.subrange(k, k + 1)[0] == w[k]);
            }
            assert(w[0] == 4u8);
            assert(w[1] == b0 && w[2] == b1 && w[3] == b2 && w[4] == b3);
            lemma_subrange_split(b, i, w, 5, 7);
            assert(w.subrange(5, 7) =~= le16(a.port));
            crate::codec::lemma_le16_round_trip(a.port);
        },
        IpAddress::V6(hi, lo) => {
            assert(l == 19);
            lemma_subrange_split(b, i, w, 0, 1);
            assert(b.subrange(i, i + 1)[0] == b[i]);
            assert(w.subrange(0, 1)[0] == w[0]);
            assert(w[0] == 6u8);
            lemma_subrange_split(b, i, w, 1, 9);
            assert(w.subrange(1, 9) =~= le64(hi));
            lemma_subrange_split(b, i, w, 9, 17);
            assert(w.subrange(9, 17) =~= le64(lo));
            lemma_subrange_split(b, i, w, 17, 19);
            assert(w.subrange(17, 19) =~= le16(a.port));
            crate::codec::lemma_le64_round_trip(hi);
            crate::codec::lemma_le64_round_trip(lo);
            crate::codec::lemma_le16_round_trip(a.port);
        },
    }
}

/// Decoding at a position that holds an encoded entry yields the entry.
proof fn lemma_dec_daemon_of(b: Seq<u8>, i: int, d: DaemonView)
    requires
        0 <= i,
        d.name.len() < 0x1_0000_0000_0000_0000,
        i + daemon_bytes(d).len() <= b.len(),
        b.subrange(i, i + daemon_bytes(d).len()) == daemon_bytes(d),
    ensures
        dec_daemon(b, i) == Some((d, i + daemon_bytes(d).len())),
{
    let w = daemon_bytes(d);
    let fl = 8 + d.name.len() as int;
    let al = addr_bytes(d.addr).len() as int;
    lemma_subrange_split(b, i, w, 0, fl);
    assert(w.subrange(0, fl) =~= framed_le(d.name));
    lemma_dec_frame_of(b, i, d.name);
    lemma_subrange_split(b, i, w, fl, fl + al);
    assert(w.subrange(fl, fl + al) =~= addr_bytes(d.addr));
    lemma_dec_addr_of(b, i + fl, d.addr);
    assert(dec_daemon(b, i)->Some_0.0 =~= d);
}

/// An entry list's bytes are its first entry's bytes followed by the bytes
/// of the rest.
proof fn lemma_daemons_bytes_first(s: Seq<DaemonView>)
    requires
        s.len() > 0,
    ensures
        daemons_bytes(s) == daemon_bytes(s[0]) + daemons_bytes(s.drop_first()),
    decreases s.len(),
{
    if s.len() == 1 {
        assert(s.drop_last() =~= Seq::<DaemonView>::empty());
        assert(s.drop_first() =~= Seq::<DaemonView>::empty());
        assert(daemons_bytes(s) =~= daemon_bytes(s[0]) + daemons_bytes(s.drop_first()));
    } else {
        lemma_daemons_bytes_first(s.drop_last());
        assert(s.drop_last()[0] == s[0]);
        assert(s.drop_last().drop_first() =~= s.drop_first().drop_last());
        assert(s.drop_first().last() == s.last());
        assert(daemons_bytes(s.drop_first()) == daemons_bytes(s.drop_first().drop_last())
            + daemon_bytes(s.drop_first().last()));
        assert(daemons_bytes(s) =~= daemon_bytes(s[0]) + daemons_bytes(s.drop_first()));
    }
}

/// Decoding at a position that holds an encoded entry list yields the list.
proof fn lemma_dec_daemons_of(b: Seq<u8>, i: int, s: Seq<DaemonView>)
    requires
        0 <= i,
        forall|k: int| 0 <= k < s.len() ==> s[k].name.len() < 0x1_0000_0000_0000_0000,
        i + daemons_bytes(s).len() <= b.len(),
        b.subrange(i, i + daemons_bytes(s).len()) == daemons_bytes(s),
    ensures
        dec_daemons(b, i, s.len()) == Some((s, i + daemons_bytes(s).len())),
    decreases s.len(),
{
    let w = daemons_bytes(s);
    if s.len() == 0 {
        assert(dec_daemons(b, i, 0) == Some((Seq::<DaemonView>::empty(), i)));
        assert(s =~= Seq::<DaemonView>::empty());
    } else {
        lemma_daemons_bytes_first(s);
        let d0 = s[0];
        let rest = s.drop_first();
        let l0 = daemon_bytes(d0).len() as int;
        let rl = daemons_bytes(rest).len() as int;
        lemma_subrange_split(b, i, w, 0, l0);
        assert(w.subrange(0, l0) =~= daemon_bytes(d0));
        lemma_dec_daemon_of(b, i, d0);
        lemma_subrange_split(b, i, w, l0, l0 + rl);
        assert(w.subrange(l0, l0 + rl) =~= daemons_bytes(rest));
        assert(forall|k: int| 0 <= k < rest.len() ==> rest[k] == s[k + 1]);
        lemma_dec_daemons_of(b, i + l0, rest);
        assert(seq![d0] + rest =~= s);
        assert(dec_daemons(b, i, s.len()) == Some((seq![d0] + rest, i + w.len())));
    }
}

/// The three parts of a three-way concatenation sit at their offsets.
proof fn lemma_concat3_parts(x: Seq<u8>, y: Seq<u8>, z: Seq<u8>)
    ensures
        (x + y + z).subrange(0, x.len() as int) == x,
        (x + y + z).subrange(x.len() as int, x.len() + y.len() as int) == y,
        (x + y + z).subrange(x.len() + y.len() as int, (x + y + z).len() as int) == z,
{
    assert_seqs_equal!((x + y + z).subrange(0, x.len() as int) == x);
    assert_seqs_equal!((x + y + z).subrange(x.len() as int, x.len() + y.len() as int) == y);
    assert_seqs_equal!((x + y + z).subrange(x.len() + y.len() as int, (x + y + z).len() as int) == z);
}

/// The persistence round trip: decoding the encoding of any well-formed
/// registry restores it exactly. With `save_config` and `load_config` tied
/// to `config_bytes` and `dec_config` by their contracts, loading what was
/// saved gives back the registry, and saving again writes identical bytes.
pub proof fn lemma_save_load_round_trip(v: ConfigView)
    requires
        wf(v),
        encodable(v),
    ensures
        dec_config(config_bytes(v)) == Some(v),
{
    let x = daemon_bytes(v.current);
    let y = le64(v.daemons.len() as u64);
    let z = daemons_bytes(v.daemons);
    let b = config_bytes(v);
    let n = v.daemons.len() as u64;
    let lx = x.len() as int;
    let lz = z.len() as int;
    assert(b == x + y + z);
    assert(y.len() == 8);
    lemma_concat3_parts(x, y, z);
    assert(dec_daemon(b, 0) == Some((v.current, lx))) by {
        lemma_dec_daemon_of(b, 0, v.current);
    }
    assert(dec_u64(b, lx) == Some((n, lx + 8))) by {
        lemma_dec_u64_of_le64(b, lx, n);
    }
    assert(dec_daemons(b, lx + 8, v.daemons.len()) == Some((v.daemons, lx + 8 + lz))) by {
        lemma_dec_daemons_of(b, lx + 8, v.daemons);
    }
    assert(n as nat == v.daemons.len());
    assert(b.len() == lx + 8 + lz);
    assert(unique_names(v.daemons));
    assert(dec_config(b)->Some_0 =~= v);
}

/// Reads the length-prefixed field at `i`.
fn read_frame(bytes: &Vec<u8>, i: usize) -> (r: Option<(Vec<u8>, usize)>)
    requires
        i <= bytes@.len(),
    ensures
        match r {
            Some(p) => dec_frame(bytes@, i as int) == Some((p.0@, p.1 as int)) && p.1
                <= bytes@.len(),
            None => dec_frame(bytes@, i as int) is None,
        },
{
    let len = bytes.len();
    if len - i < 8 {
        return None;
    }
    let n = read_le64(bytes, i);
    let j = i + 8;
    if n > (len - j) as u64 {
        return None;
    }
    let m = n as usize;
    let mut p: Vec<u8> = Vec::new();
    let mut k: usize = 0;
    while k < m
        invariant
            j + m <= bytes@.len(),
            k <= m,
            p@ == bytes@.subrange(j as int, j + k),
        decreases m - k,
    {
        // Pins the view length to usize, so the index sum below cannot overflow.
        let _l: usize = bytes.len();
        p.push(bytes[j + k]);
        proof {
            assert(p@ =~= bytes@.subrange(j as int, j + k + 1));
        }
        k += 1;
    }
    Some((p, j + m))
}

/// Reads the socket address at `i`.
fn read_addr(bytes: &Vec<u8>, i: usize) -> (r: Option<(SocketAddress, usize)>)
    requires
        i <= bytes@.len(),
    ensures
        match r {
            Some(p) => dec_addr(bytes@, i as int) == Some((p.0, p.1 as int)) && p.1
                <= bytes@.len(),
            None => dec_addr(bytes@, i as int) is None,
        },
{
    let len = bytes.len();
    if i >= len {
        return None;
    }
    let tag = bytes[i];
    if tag == 4 {
        if len - i < 7 {
            return None;
        }
        let port = read_le16(bytes, i + 5);
        Some(
            (
                SocketAddress {
                    ip: IpAddress::V4(bytes[i + 1], bytes[i + 2], bytes[i + 3], bytes[i + 4]),
                    port,
                },
                i + 7,
            ),
        )
    } else if tag == 6 {
        if len - i < 19 {
            return None;
        }
        let hi = read_le64(bytes, i + 1);
        let lo = read_le64(bytes, i + 9);
        let port = read_le16(bytes, i + 17);
        Some((SocketAddress { ip: IpAddress::V6(hi, lo), port }, i + 19))
    } else {
        None
    }
}

/// Reads the registry entry at `i`.
fn read_daemon(bytes: &Vec<u8>, i: usize) -> (r: Option<(Daemon, usize)>)
    requires
        i <= bytes@.len(),
    ensures
        match r {
            Some(p) => dec_daemon(bytes@, i as int) == Some((p.0@, p.1 as int)) && p.1
                <= bytes@.len(),
            None => dec_daemon(bytes@, i as int) is None,
        },
{
    match read_frame(bytes, i) {
        None => None,
        Some((name, j)) => match read_addr(bytes, j) {
            None => None,
            Some((addr, k)) => {
                let d = Daemon { name, socket_address: addr };
                proof {
                    assert(dec_daemon(bytes@, i as int)->Some_0.0 =~= d@);
                }
                Some((d, k))
            },
        },
    }
}

/// The entries already decoded, put in front of whatever a decode from `i`
/// yields.
pub open spec fn dec_daemons_then(
    b: Seq<u8>,
    i: int,
    count: nat,
    prefix: Seq<DaemonView>,
) -> Option<(Seq<DaemonView>, int)> {
    match dec_daemons(b, i, count) {
        Some((rest, end)) => Some((prefix + rest, end)),
        None => None,
    }
}

/// Consuming one decoded entry moves it from the pending part to the prefix.
proof fn lemma_dec_daemons_then_step(
    b: Seq<u8>,
    i: int,
    count: nat,
    prefix: Seq<DaemonView>,
    d: DaemonView,
    j: int,
)
    requires
        count > 0,
        dec_daemon(b, i) == Some((d, j)),
    ensures
        dec_daemons_then(b, i, count, prefix) == dec_daemons_then(
            b,
            j,
            (count - 1) as nat,
            prefix.push(d),
        ),
{
    match dec_daemons(b, j, (count - 1) as nat) {
        Some((rest, e)) => {
            assert(dec_daemons(b, i, count) == Some((seq![d] + rest, e)));
            assert(prefix + (seq![d] + rest) =~= prefix.push(d) + rest);
        },
        None => {
            assert(dec_daemons(b, i, count) is None);
        },
    }
}

/// Decodes a whole configuration file back into a registry. Fails with
/// `ConfigMalformed` exactly when the bytes are not the encoding of a
/// well-formed registry.
pub fn load_config(bytes: &Vec<u8>) -> (r: Result<Config, JokerError>)
    ensures
        match r {
            Ok(c) => dec_config(bytes@) == Some(c@) && wf(c@),
            Err(e) => e == JokerError::ConfigMalformed && dec_config(bytes@) is None,
        },
{
    let (current, first_end) = match read_daemon(bytes, 0) {
        None => {
            return Err(JokerError::ConfigMalformed);
        },
        Some(p) => p,
    };
    if bytes.len() - first_end < 8 {
        return Err(JokerError::ConfigMalformed);
    }
    let n = read_le64(bytes, first_end);
    let mut pos = first_end + 8;
    let ghost j0 = pos as int;
    let mut daemons: Vec<Daemon> = Vec::new();
    let mut k: u64 = 0;
    while k < n
        invariant
            pos <= bytes@.len(),
            k <= n,
            daemons@.len() == k,
            dec_daemon(bytes@, 0) == Some((current@, first_end as int)),
            dec_u64(bytes@, first_end as int) == Some((n, j0)),
            j0 == first_end + 8,
            dec_daemons_then(bytes@, j0, n as nat, Seq::<DaemonView>::empty()) == dec_daemons_then(
                bytes@,
                pos as int,
                (n - k) as nat,
                daemons@.map_values(|d: Daemon| d@),
            ),
        decreases n - k,
    {
        let ghost acc = daemons@.map_values(|d: Daemon| d@);
        match read_daemon(bytes, pos) {
            None => {
                proof {
                    assert(dec_daemons(bytes@, pos as int, (n - k) as nat) is None);
                    assert(dec_daemons(bytes@, j0, n as nat) is None);
                }
                return Err(JokerError::ConfigMalformed);
            },
            Some((d, next)) => {
                proof {
                    lemma_dec_daemons_then_step(
                        bytes@,
                        pos as int,
                        (n - k) as nat,
                        acc,
                        d@,
                        next as int,
                    );
                }
                daemons.push(d);
                proof {
                    assert(daemons@.map_values(|x: Daemon| x@) =~= acc.push(d@));
                }
                pos = next;
                k += 1;
            },
        }
    }
    let ghost acc = daemons@.map_values(|d: Daemon| d@);
    proof {
        assert(dec_daemons(bytes@, pos as int, 0) == Some((Seq::<DaemonView>::empty(), pos as int)));
        assert(acc + Seq::<DaemonView>::empty() =~= acc);
        assert(Seq::<DaemonView>::empty() + acc =~= acc);
        assert(dec_daemons(bytes@, j0, n as nat) == Some((acc, pos as int)));
    }
    if pos != bytes.len() {
        return Err(JokerError::ConfigMalformed);
    }
    if !crate::daemon::names_unique(&daemons) {
        return Err(JokerError::ConfigMalformed);
    }
    let c = Config { current_daemon: current, daemons };
    proof {
        assert(dec_config(bytes@)->Some_0 =~= c@);
    }
    Ok(c)
}

} // verus!
