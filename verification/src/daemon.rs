//! The daemon registry: named remote execution hosts, one of them current.
//!
//! Every operation takes a registry value and returns a new one; the swap
//! behaviour of `checkout_daemon` is explicit and provable rather than a side
//! effect on process-wide state. Keys of the daemon map are unique names; the
//! current daemon may also appear as a key, which callers must tolerate.

use vstd::prelude::*;

use crate::errors::JokerError;

verus! {

/// An IP address held as plain values: four octets, or the two 64-bit halves
/// of a 128-bit address.
#[derive(Clone, Copy, Debug, PartialEq, Eq, Structural)]
pub enum IpAddress {
    V4(u8, u8, u8, u8),
    V6(u64, u64),
}

/// A well-formed socket address: an IP address plus a port.
#[derive(Clone, Copy, Debug, PartialEq, Eq, Structural)]
pub struct SocketAddress {
    pub ip: IpAddress,
    pub port: u16,
}

/// One registered execution host: a name (UTF-8 bytes) and where to reach it.
/// An immutable value: replaced wholesale on update, never mutated field by
/// field.
#[derive(Clone, Debug)]
pub struct Daemon {
    pub name: Vec<u8>,
    pub socket_address: SocketAddress,
}

/// The mathematical value of a `Daemon`.
#[verifier::ext_equal]
pub ghost struct DaemonView {
    pub name: Seq<u8>,
    pub addr: SocketAddress,
}

impl View for Daemon {
    type V = DaemonView;

    open spec fn view(&self) -> DaemonView {
        DaemonView { name: self.name@, addr: self.socket_address }
    }
}

/// The registry: the current daemon plus the map of all known daemons,
/// held as a list of entries with unique names.
#[derive(Clone, Debug)]
pub struct Config {
    pub current_daemon: Daemon,
    pub daemons: Vec<Daemon>,
}

/// The mathematical value of a `Config`.
#[verifier::ext_equal]
pub ghost struct ConfigView {
    pub current: DaemonView,
    pub daemons: Seq<DaemonView>,
}

impl View for Config {
    type V = ConfigView;

    open spec fn view(&self) -> ConfigView {
        ConfigView {
            current: self.current_daemon@,
            daemons: self.daemons@.map_values(|d: Daemon| d@),
        }
    }
}

/// The address under `name` in the entry list, scanning from position `i`:
/// the first matching entry wins.
pub open spec fn lookup_from(s: Seq<DaemonView>, name: Seq<u8>, i: int) -> Option<SocketAddress>
    decreases s.len() - i,
{
    if i < 0 || i >= s.len() {
        None
    } else if s[i].name == name {
        Some(s[i].addr)
    } else {
        lookup_from(s, name, i + 1)
    }
}

/// The address stored under `name`, or `None` if the name is absent.
pub open spec fn lookup(s: Seq<DaemonView>, name: Seq<u8>) -> Option<SocketAddress> {
    lookup_from(s, name, 0)
}

/// The registry invariant: no two entries share a name.
pub open spec fn unique_names(s: Seq<DaemonView>) -> bool {
    forall|i: int, j: int| 0 <= i < j < s.len() ==> s[i].name != s[j].name
}

/// A well-formed registry.
pub open spec fn wf(v: ConfigView) -> bool {
    unique_names(v.daemons)
}

/// What a successful `checkout_daemon` promises: the new current daemon is
/// the one stored under `name`, the previous current daemon is re-inserted
/// under its own name, and every other mapping is untouched.
pub open spec fn checkout_rel(v: ConfigView, name: Seq<u8>, v1: ConfigView) -> bool {
    &&& lookup(v.daemons, name) is Some
    &&& v1.current.name == name
    &&& v1.current.addr == lookup(v.daemons, name)->Some_0
    &&& lookup(v1.daemons, v.current.name) == Some(v.current.addr)
    &&& forall|m: Seq<u8>| m != v.current.name ==> lookup(v1.daemons, m) == lookup(v.daemons, m)
}

/// Scanning from a position whose prefix holds no match gives the same
/// answer as scanning from the start.
proof fn lemma_lookup_skip(s: Seq<DaemonView>, name: Seq<u8>, i: int)
    requires
        0 <= i <= s.len(),
        forall|k: int| 0 <= k < i ==> s[k].name != name,
    ensures
        lookup(s, name) == lookup_from(s, name, i),
    decreases i,
{
    if i > 0 {
        lemma_lookup_skip(s, name, i - 1);
    }
}

/// Replacing the entry at `i` with one of the same name does not change the
/// lookup of any other name.
proof fn lemma_lookup_from_update_other(
    s: Seq<DaemonView>,
    i: int,
    d: DaemonView,
    m: Seq<u8>,
    j: int,
)
    requires
        0 <= i < s.len(),
        s[i].name == d.name,
        m != d.name,
        0 <= j <= s.len(),
    ensures
        lookup_from(s.update(i, d), m, j) == lookup_from(s, m, j),
    decreases s.len() - j,
{
    if j < s.len() {
        lemma_lookup_from_update_other(s, i, d, m, j + 1);
    }
}

/// Appending an entry changes only the lookup of names that were absent, and
/// of those only the appended name.
proof fn lemma_lookup_from_push(s: Seq<DaemonView>, d: DaemonView, m: Seq<u8>, j: int)
    requires
        0 <= j <= s.len(),
    ensures
        lookup_from(s.push(d), m, j) == (match lookup_from(s, m, j) {
            Some(a) => Some(a),
            None => if d.name == m {
                Some(d.addr)
            } else {
                None
            },
        }),
    decreases s.len() - j,
{
    if j < s.len() {
        assert(s.push(d)[j] == s[j]);
        lemma_lookup_from_push(s, d, m, j + 1);
    } else {
        assert(s.push(d)[j] == d);
        assert(lookup_from(s.push(d), m, j + 1) is None);
    }
}

/// A failed lookup means no entry at all carries the name.
proof fn lemma_lookup_none(s: Seq<DaemonView>, m: Seq<u8>, j: int)
    requires
        0 <= j <= s.len(),
        lookup_from(s, m, j) is None,
    ensures
        forall|k: int| j <= k < s.len() ==> s[k].name != m,
    decreases s.len() - j,
{
    if j < s.len() {
        lemma_lookup_none(s, m, j + 1);
    }
}

/// Byte-string equality, decided element by element.
fn bytes_eq(a: &Vec<u8>, b: &Vec<u8>) -> (r: bool)
    ensures
        r == (a@ == b@),
{
    if a.len() != b.len() {
        assert(a@ != b@);
        return false;
    }
    let mut i: usize = 0;
    while i < a.len()
        invariant
            i <= a@.len(),
            a@.len() == b@.len(),
            forall|k: int| 0 <= k < i ==> a@[k] == b@[k],
        decreases a@.len() - i,
    {
        if a[i] != b[i] {
            assert(a@ != b@);
            return false;
        }
        i += 1;
    }
    proof {
        assert(a@ =~= b@);
    }
    true
}

/// A fresh copy of a byte string.
fn clone_bytes(v: &Vec<u8>) -> (r: Vec<u8>)
    ensures
        r@ == v@,
{
    let mut r: Vec<u8> = Vec::new();
    let mut i: usize = 0;
    while i < v.len()
        invariant
            i <= v@.len(),
            r@ == v@.subrange(0, i as int),
        decreases v@.len() - i,
    {
        r.push(v[i]);
        proof {
            assert(r@ =~= v@.subrange(0, i + 1));
        }
        i += 1;
    }
    proof {
        assert(r@ =~= v@);
    }
    r
}

/// The position of the first entry named `name`, if any.
fn find_index(daemons: &Vec<Daemon>, name: &Vec<u8>) -> (r: Option<usize>)
    ensures
        ({
            let s = daemons@.map_values(|d: Daemon| d@);
            match r {
                Some(i) => {
                    &&& i < s.len()
                    &&& s[i as int].name == name@
                    &&& forall|k: int| 0 <= k < i ==> s[k].name != name@
                    &&& lookup(s, name@) == Some(s[i as int].addr)
                },
                None => lookup(s, name@) is None,
            }
        }),
{
    let ghost s = daemons@.map_values(|d: Daemon| d@);
    let mut i: usize = 0;
    while i < daemons.len()
        invariant
            i <= s.len(),
            s == daemons@.map_values(|d: Daemon| d@),
            s.len() == daemons@.len(),
            forall|k: int| 0 <= k < i ==> s[k].name != name@,
        decreases s.len() - i,
    {
        if bytes_eq(&daemons[i].name, name) {
            proof {
                lemma_lookup_skip(s, name@, i as int);
            }
            return Some(i);
        }
        i += 1;
    }
    proof {
        lemma_lookup_skip(s, name@, s.len() as int);
    }
    None
}

/// Decides whether no two entries share a name.
pub fn names_unique(daemons: &Vec<Daemon>) -> (r: bool)
    ensures
        r == unique_names(daemons@.map_values(|d: Daemon| d@)),
{
    let ghost s = daemons@.map_values(|d: Daemon| d@);
    let mut i: usize = 0;
    while i < daemons.len()
        invariant
            i <= s.len(),
            s == daemons@.map_values(|d: Daemon| d@),
            s.len() == daemons@.len(),
            forall|a: int, b: int| 0 <= a < b < i ==> s[a].name != s[b].name,
        decreases s.len() - i,
    {
        let mut j: usize = 0;
        while j < i
            invariant
                j <= i < s.len(),
                s == daemons@.map_values(|d: Daemon| d@),
                s.len() == daemons@.len(),
                forall|a: int| 0 <= a < j ==> s[a].name != s[i as int].name,
            decreases i - j,
        {
            if bytes_eq(&daemons[j].name, &daemons[i].name) {
                proof {
                    assert(s[j as int].name == s[i as int].name);
                    assert(0 <= j < i < s.len());
                    assert(!unique_names(s));
                }
                return false;
            }
            j += 1;
        }
        i += 1;
    }
    true
}

/// Inserts or overwrites the entry `name -> addr` in the entry list.
fn insert_entry(daemons: &Vec<Daemon>, name: Vec<u8>, addr: SocketAddress) -> (r: Vec<Daemon>)
    ensures
        ({
            let s = daemons@.map_values(|d: Daemon| d@);
            let t = r@.map_values(|d: Daemon| d@);
            &&& lookup(t, name@) == Some(addr)
            &&& forall|m: Seq<u8>| m != name@ ==> lookup(t, m) == lookup(s, m)
            &&& unique_names(s) ==> unique_names(t)
        }),
{
    let ghost s = daemons@.map_values(|d: Daemon| d@);
    let mut r: Vec<Daemon> = Vec::new();
    let mut i: usize = 0;
    while i < daemons.len()
        invariant
            i <= daemons@.len(),
            r@.len() == i,
            forall|k: int| 0 <= k < i ==> r@[k]@ == daemons@[k]@,
        decreases daemons@.len() - i,
    {
        let d = &daemons[i];
        r.push(Daemon { name: clone_bytes(&d.name), socket_address: d.socket_address });
        i += 1;
    }
    let ghost s2 = r@.map_values(|d: Daemon| d@);
    proof {
        assert(s2 =~= s) by {
            assert(forall|k: int| 0 <= k < s.len() ==> s2[k] == s[k]);
        }
    }
    match find_index(&r, &name) {
        Some(i) => {
            let new_entry = Daemon { name, socket_address: addr };
            let ghost d = new_entry@;
            r.set(i, new_entry);
            proof {
                let t = r@.map_values(|x: Daemon| x@);
                assert(t =~= s.update(i as int, d));
                lemma_lookup_skip(t, d.name, i as int);
                assert(forall|m: Seq<u8>| m != d.name ==> lookup(t, m) == lookup(s, m)) by {
                    assert forall|m: Seq<u8>| m != d.name implies lookup(t, m) == lookup(s, m) by {
                        lemma_lookup_from_update_other(s, i as int, d, m, 0);
                    }
                }
                assert(unique_names(s) ==> unique_names(t)) by {
                    if unique_names(s) {
                        assert(forall|k: int| 0 <= k < t.len() ==> t[k].name == s[k].name);
                    }
                }
            }
            r
        },
        None => {
            let new_entry = Daemon { name, socket_address: addr };
            let ghost d = new_entry@;
            r.push(new_entry);
            proof {
                let t = r@.map_values(|x: Daemon| x@);
                assert(t =~= s.push(d));
                lemma_lookup_from_push(s, d, d.name, 0);
                assert(forall|m: Seq<u8>| m != d.name ==> lookup(t, m) == lookup(s, m)) by {
                    assert forall|m: Seq<u8>| m != d.name implies lookup(t, m) == lookup(s, m) by {
                        lemma_lookup_from_push(s, d, m, 0);
                    }
                }
                assert(unique_names(s) ==> unique_names(t)) by {
                    if unique_names(s) {
                        lemma_lookup_none(s, d.name, 0);
                        assert(forall|k: int| 0 <= k < s.len() ==> t[k] == s[k]);
                        assert(t[s.len() as int] == d);
                    }
                }
            }
            r
        },
    }
}

/// Inserts or updates the mapping `name -> socket_address`. The policy is
/// idempotent overwrite: re-adding a present name replaces the stored
/// address, so an operator can correct a mistyped one. The current daemon is
/// untouched.
pub fn add_daemon(config: &Config, name: Vec<u8>, socket_address: SocketAddress) -> (r: Config)
    ensures
        r@.current == config@.current,
        lookup(r@.daemons, name@) == Some(socket_address),
        forall|m: Seq<u8>| m != name@ ==> lookup(r@.daemons, m) == lookup(config@.daemons, m),
        wf(config@) ==> wf(r@),
{
    Config {
        current_daemon: Daemon {
            name: clone_bytes(&config.current_daemon.name),
            socket_address: config.current_daemon.socket_address,
        },
        daemons: insert_entry(&config.daemons, name, socket_address),
    }
}

/// Switches the current daemon to the one registered under `name`. Fails
/// with `UnknownDaemon` when the name is absent, leaving the registry value
/// untouched. On success the previous current daemon is re-inserted into the
/// map under its own name, so no daemon is lost; the entry for `name` itself
/// remains as well.
pub fn checkout_daemon(config: &Config, name: &Vec<u8>) -> (r: Result<Config, JokerError>)
    ensures
        match r {
            Ok(c2) => checkout_rel(config@, name@, c2@) && (wf(config@) ==> wf(c2@)),
            Err(e) => e == JokerError::UnknownDaemon && lookup(config@.daemons, name@) is None,
        },
{
    match find_index(&config.daemons, name) {
        None => Err(JokerError::from(crate::errors::AbsentHashMapKeyError)),
        Some(i) => {
            let addr = config.daemons[i].socket_address;
            let previous = &config.current_daemon;
            let daemons = insert_entry(
                &config.daemons,
                clone_bytes(&previous.name),
                previous.socket_address,
            );
            Ok(Config {
                current_daemon: Daemon { name: clone_bytes(name), socket_address: addr },
                daemons,
            })
        },
    }
}

/// Switching to daemon `b` and then back to the original current daemon's
/// name restores the original current daemon exactly, whatever else the two
/// registries hold.
pub proof fn lemma_checkout_restores_current(
    v: ConfigView,
    v1: ConfigView,
    v2: ConfigView,
    b: Seq<u8>,
)
    requires
        checkout_rel(v, b, v1),
        checkout_rel(v1, v.current.name, v2),
    ensures
        v2.current == v.current,
{
    assert(lookup(v1.daemons, v.current.name) == Some(v.current.addr));
    assert(v2.current =~= v.current);
}

/// Repeating a checkout of the same name keeps the same current daemon —
/// provided the name is not the already-current daemon's own name. Checking
/// out the current name swaps the active address with the stored one, so
/// repeating it alternates between the two whenever they differ.
pub proof fn lemma_checkout_idempotent(
    v: ConfigView,
    v1: ConfigView,
    v2: ConfigView,
    name: Seq<u8>,
)
    requires
        name != v.current.name,
        checkout_rel(v, name, v1),
        checkout_rel(v1, name, v2),
    ensures
        v2.current == v1.current,
{
    assert(lookup(v1.daemons, name) == lookup(v.daemons, name));
    assert(v2.current =~= v1.current);
}

} // verus!
