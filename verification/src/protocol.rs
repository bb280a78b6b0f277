//! The protocol client codec: the exact bytes that each request puts on the
//! wire, and the interpretation of a framed response.
//!
//! A request is one logical message per connection: a 1-byte tag, then
//! variant-specific length-prefixed fields (8-byte little-endian prefixes).
//! `Trace` and `Logs` responses come back as one 8-byte big-endian length
//! prefix followed by that many bytes of UTF-8 text.

use vstd::prelude::*;

use crate::codec::{framed_le, push_frame};
use crate::errors::JokerError;

verus! {

/// The three kinds of request a daemon accepts.
#[derive(Clone, Copy, Debug, PartialEq, Eq, Structural)]
pub enum Requests {
    Run,
    Trace,
    Logs,
}

/// The single fixed byte that identifies a request kind on the wire.
pub open spec fn tag_byte(r: Requests) -> u8 {
    match r {
        Requests::Run => 0,
        Requests::Trace => 1,
        Requests::Logs => 2,
    }
}

/// The wire tag of a request kind.
pub fn request_tag(r: &Requests) -> (t: u8)
    ensures
        t == tag_byte(*r),
{
    match r {
        Requests::Run => 0,
        Requests::Trace => 1,
        Requests::Logs => 2,
    }
}

/// One container to run: the path given on the command line, the binary's
/// bytes read from that path, and the bytes of the `<path>.joker` sidecar
/// file. The caller reads the two files; this module only frames them.
pub struct ContainerPayload {
    pub path: Vec<u8>,
    pub binary: Vec<u8>,
    pub config: Vec<u8>,
}

/// The mathematical value of a `ContainerPayload`.
#[verifier::ext_equal]
pub ghost struct ContainerPayloadView {
    pub path: Seq<u8>,
    pub binary: Seq<u8>,
    pub config: Seq<u8>,
}

impl View for ContainerPayload {
    type V = ContainerPayloadView;

    open spec fn view(&self) -> ContainerPayloadView {
        ContainerPayloadView { path: self.path@, binary: self.binary@, config: self.config@ }
    }
}

/// The final segment of a `/`-separated path: the bytes after the last
/// separator. Empty when the path is empty or ends in a separator.
pub open spec fn basename(p: Seq<u8>) -> Seq<u8>
    decreases p.len(),
{
    if p.len() == 0 {
        Seq::<u8>::empty()
    } else if p.last() == 47u8 {
        Seq::<u8>::empty()
    } else {
        basename(p.drop_last()).push(p.last())
    }
}

/// Everything after the last separator is the basename.
proof fn lemma_basename_is_suffix(p: Seq<u8>, j: int)
    requires
        -1 <= j < p.len(),
        j >= 0 ==> p[j] == 47u8,
        forall|k: int| j < k < p.len() ==> p[k] != 47u8,
    ensures
        basename(p) == p.subrange(j + 1, p.len() as int),
    decreases p.len(),
{
    if p.len() == 0 {
        assert(basename(p) =~= p.subrange(j + 1, p.len() as int));
    } else if j == p.len() - 1 {
        assert(p.last() == 47u8);
        assert(basename(p) =~= p.subrange(j + 1, p.len() as int));
    } else {
        assert(p.last() != 47u8);
        lemma_basename_is_suffix(p.drop_last(), j);
        assert(basename(p) =~= p.subrange(j + 1, p.len() as int));
    }
}

/// Extracts the final path segment, or fails with `BadPath` when the path is
/// empty or ends in a separator, so that it has no final segment.
pub fn binary_name_of_path(path: &Vec<u8>) -> (r: Result<Vec<u8>, JokerError>)
    ensures
        match r {
            Ok(name) => name@ == basename(path@) && name@.len() > 0,
            Err(e) => e == JokerError::BadPath && basename(path@).len() == 0,
        },
{
    let n = path.len();
    let mut cut: usize = n;
    loop
        invariant
            cut <= n,
            n == path@.len(),
            forall|k: int| cut <= k < n ==> path@[k] != 47u8,
        ensures
            cut <= n,
            forall|k: int| cut <= k < n ==> path@[k] != 47u8,
            cut == 0 || path@[cut - 1] == 47u8,
        decreases cut,
    {
        if cut == 0 {
            break ;
        }
        if path[cut - 1] == 47 {
            break ;
        }
        cut = cut - 1;
    }
    proof {
        lemma_basename_is_suffix(path@, cut - 1);
    }
    if cut == n {
        return Err(JokerError::BadPath);
    }
    let mut name: Vec<u8> = Vec::new();
    let mut i: usize = cut;
    while i < n
        invariant
            cut <= i <= n,
            n == path@.len(),
            name@ == path@.subrange(cut as int, i as int),
        decreases n - i,
    {
        name.push(path[i]);
        proof {
            assert(name@ =~= path@.subrange(cut as int, i + 1));
        }
        i += 1;
    }
    Ok(name)
}

/// The bytes of one `Run` group: the binary name, the binary, and the
/// sidecar config, each as a length-prefixed field, in that order.
pub open spec fn run_group_bytes(c: ContainerPayloadView) -> Seq<u8> {
    framed_le(basename(c.path)) + framed_le(c.binary) + framed_le(c.config)
}

/// The groups of a `Run` request: one per container, back to back, with no
/// outer count prefix.
pub open spec fn run_groups_bytes(s: Seq<ContainerPayloadView>) -> Seq<u8>
    decreases s.len(),
{
    if s.len() == 0 {
        Seq::<u8>::empty()
    } else {
        run_groups_bytes(s.drop_last()) + run_group_bytes(s.last())
    }
}

/// The bytes of a whole `Run` request: the tag once, then the tag-less
/// 3-field groups.
pub open spec fn run_request_bytes(s: Seq<ContainerPayloadView>) -> Seq<u8> {
    seq![tag_byte(Requests::Run)] + run_groups_bytes(s)
}

/// The bytes of a `Trace` request: the tag alone.
pub open spec fn trace_request_bytes() -> Seq<u8> {
    seq![tag_byte(Requests::Trace)]
}

/// The bytes of a `Logs` request: the tag, then the container name as one
/// length-prefixed field.
pub open spec fn logs_request_bytes(name: Seq<u8>) -> Seq<u8> {
    seq![tag_byte(Requests::Logs)] + framed_le(name)
}

/// Frames a whole `Run` request for the wire: the tag byte once, then one
/// 3-field group per container, in the order given. Fails with `BadPath`
/// exactly when some container's path has no final segment; nothing else
/// can fail.
pub fn run_containers_request(containers: &Vec<ContainerPayload>) -> (r: Result<
    Vec<u8>,
    JokerError,
>)
    ensures
        ({
            let s = containers@.map_values(|c: ContainerPayload| c@);
            match r {
                Ok(bytes) => {
                    &&& bytes@ == run_request_bytes(s)
                    &&& forall|k: int| 0 <= k < s.len() ==> basename(s[k].path).len() > 0
                },
                Err(e) => {
                    &&& e == JokerError::BadPath
                    &&& exists|k: int| 0 <= k < s.len() && basename(s[k].path).len() == 0
                },
            }
        }),
{
    let ghost s = containers@.map_values(|c: ContainerPayload| c@);
    let mut out: Vec<u8> = Vec::new();
    out.push(request_tag(&Requests::Run));
    let ghost header = out@;
    proof {
        assert(header =~= seq![tag_byte(Requests::Run)]);
        assert(header + run_groups_bytes(s.take(0)) =~= header);
    }
    let mut i: usize = 0;
    while i < containers.len()
        invariant
            i <= s.len(),
            s == containers@.map_values(|c: ContainerPayload| c@),
            s.len() == containers@.len(),
            header == seq![tag_byte(Requests::Run)],
            out@ == header + run_groups_bytes(s.take(i as int)),
            forall|k: int| 0 <= k < i ==> basename(s[k].path).len() > 0,
        decreases s.len() - i,
    {
        let c = &containers[i];
        let name = match binary_name_of_path(&c.path) {
            Ok(name) => name,
            Err(e) => {
                proof {
                    assert(s[i as int].path == c.path@);
                    assert(0 <= i < s.len() && basename(s[i as int].path).len() == 0);
                }
                return Err(e);
            },
        };
        push_frame(&mut out, &name);
        push_frame(&mut out, &c.binary);
        push_frame(&mut out, &c.config);
        proof {
            assert(s.take(i + 1).drop_last() =~= s.take(i as int));
            assert(s.take(i + 1).last() == s[i as int]);
            assert(out@ =~= header + run_groups_bytes(s.take(i as int)) + run_group_bytes(
                s[i as int],
            ));
            assert(out@ =~= header + run_groups_bytes(s.take(i + 1)));
        }
        i += 1;
    }
    proof {
        assert(s.take(s.len() as int) =~= s);
        assert(out@ =~= run_request_bytes(s));
    }
    Ok(out)
}

/// Frames a `Trace` request: the tag byte alone, no payload.
pub fn daemon_trace_request() -> (r: Vec<u8>)
    ensures
        r@ == trace_request_bytes(),
{
    let mut out: Vec<u8> = Vec::new();
    out.push(request_tag(&Requests::Trace));
    proof {
        assert(out@ =~= trace_request_bytes());
    }
    out
}

/// Frames a `Logs` request: the tag byte, then the container name as one
/// length-prefixed field.
pub fn get_logs_request(container_name: &Vec<u8>) -> (r: Vec<u8>)
    ensures
        r@ == logs_request_bytes(container_name@),
{
    let mut out: Vec<u8> = Vec::new();
    out.push(request_tag(&Requests::Logs));
    push_frame(&mut out, container_name);
    proof {
        assert(out@ =~= logs_request_bytes(container_name@));
    }
    out
}

/// The characters that a byte sequence decodes to under UTF-8, if it is
/// valid; a function of the bytes alone.
pub uninterp spec fn utf8_decoded(b: Seq<u8>) -> Option<Seq<char>>;

/// Relies on std's String::from_utf8: succeeds exactly when the bytes are
/// valid UTF-8, and the decoded text depends on the bytes alone.
#[verifier::external_body]
fn string_from_utf8(b: Vec<u8>) -> (r: Option<String>)
    ensures
        r matches Some(s) ==> utf8_decoded(b@) == Some(s@),
        r is Some <==> utf8_decoded(b@) is Some,
{
    String::from_utf8(b).ok()
}

/// Decodes a response body into text, or fails with `Utf8DecodeFailure`
/// exactly when the bytes are not valid UTF-8.
pub fn decode_response_text(body: Vec<u8>) -> (r: Result<String, JokerError>)
    ensures
        match r {
            Ok(s) => utf8_decoded(body@) == Some(s@),
            Err(e) => e == JokerError::Utf8DecodeFailure && utf8_decoded(body@) is None,
        },
{
    match string_from_utf8(body) {
        Some(s) => Ok(s),
        None => Err(JokerError::Utf8DecodeFailure),
    }
}

} // verus!
