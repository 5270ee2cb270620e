//! How the client reaches a project's daemon: the socket and PID file names,
//! and the requests it sends.

use vstd::prelude::*;

use sha2::Digest;

use crate::daemon::protocol::{Request, Response};
use crate::text::{owned, push_char, push_str, str_eq};

verus! {

/// The SHA-256 digest of a byte string.
pub uninterp spec fn sha256_spec(data: Seq<u8>) -> Seq<u8>;

/// `sha2::Sha256` over `data`: the digest as its 32 bytes.
#[verifier::external_body]
fn sha256(data: &[u8]) -> (r: Vec<u8>)
    ensures
        r@ == sha256_spec(data@),
        r@.len() == 32,
{
    let mut hasher = sha2::Sha256::new();
    hasher.update(data);
    hasher.finalize().to_vec()
}

pub open spec fn hex_digit(d: u8) -> char {
    if d < 10 {
        (('0' as u8) + d) as char
    } else {
        (('a' as u8) + d - 10) as char
    }
}

/// Lower-case hexadecimal, two digits per byte.
pub open spec fn hex(b: Seq<u8>) -> Seq<char>
    decreases b.len(),
{
    if b.len() == 0 {
        seq![]
    } else {
        hex(b.drop_last()) + seq![hex_digit(b.last() / 16), hex_digit(b.last() % 16)]
    }
}

/// The daemon socket of a project: `/tmp/smartgrep-<h>.sock`, where `<h>` is
/// the first 16 hex digits of the SHA-256 of the project root's canonical
/// path.
pub open spec fn socket_path_spec(canonical_root: Seq<char>) -> Seq<char> {
    "/tmp/smartgrep-"@ + hex(sha256_spec(vstd::utf8::encode_utf8(canonical_root))).take(16) + ".sock"@
}

fn hex_char(d: u8) -> (c: char)
    requires
        d < 16,
    ensures
        c == hex_digit(d),
{
    if d < 10 {
        (('0' as u8) + d) as char
    } else {
        (('a' as u8) + d - 10) as char
    }
}

proof fn lemma_hex_len(b: Seq<u8>)
    ensures
        hex(b).len() == 2 * b.len(),
    decreases b.len(),
{
    if b.len() > 0 {
        lemma_hex_len(b.drop_last());
    }
}

/// Derive the daemon socket path from the canonical form of a project root
/// (the root itself when it cannot be canonicalized), so that each project
/// gets its own daemon.
pub fn socket_path(canonical_root: &str) -> (r: String)
    ensures
        r@ == socket_path_spec(canonical_root@),
{
    let digest = sha256(canonical_root.as_bytes());
    let ghost h = hex(digest@);
    let mut r = owned("/tmp/smartgrep-");
    let ghost base = r@;
    let mut i: usize = 0;
    assert(digest@.take(0) =~= Seq::<u8>::empty());
    while i < 8
        invariant
            i <= 8,
            digest@.len() == 32,
            h == hex(digest@),
            r@ == base + hex(digest@.take(i as int)),
        decreases 8 - i,
    {
        let b = digest[i];
        push_char(&mut r, hex_char(b / 16));
        push_char(&mut r, hex_char(b % 16));
        assert(digest@.take(i + 1).drop_last() =~= digest@.take(i as int));
        assert(digest@.take(i + 1).last() == b);
        i += 1;
    }
    proof {
        lemma_hex_prefix(digest@, 8);
    }
    push_str(&mut r, ".sock");
    r
}

proof fn lemma_hex_prefix(b: Seq<u8>, k: int)
    requires
        0 <= k <= b.len(),
    ensures
        hex(b).take(2 * k) == hex(b.take(k)),
    decreases b.len(),
{
    lemma_hex_len(b);
    lemma_hex_len(b.take(k));
    if k < b.len() {
        lemma_hex_prefix(b.drop_last(), k);
        assert(b.drop_last().take(k) =~= b.take(k));
        lemma_hex_len(b.drop_last());
        assert(hex(b).take(2 * k) =~= hex(b.drop_last()).take(2 * k));
    } else {
        assert(b.take(k) =~= b);
        assert(hex(b).take(2 * k) =~= hex(b));
    }
}

/// Derive the PID file path: the socket path with a `.pid` extension.
pub fn pid_path(canonical_root: &str) -> (r: String)
    ensures
        r@ == socket_path_spec(canonical_root@).take(socket_path_spec(canonical_root@).len() - 5) + ".pid"@,
{
    let sock = socket_path(canonical_root);
    let v = crate::text::chars_of(sock.as_str());
    proof {
        reveal_strlit(".sock");
        reveal_strlit("/tmp/smartgrep-");
    }
    let mut r = crate::text::string_of(&v, 0, v.len() - 5);
    push_str(&mut r, ".pid");
    r
}

/// The request that checks whether a daemon answers.
pub fn ping() -> (r: Request)
    ensures
        r.command@ == "ping"@,
        r.args@ == ""@,
        r.format@ == "text"@,
{
    Request::new("ping", "", "text")
}

/// What to ask the daemon for a command, or `None` when the daemon is not
/// to be used (the caller then runs the command directly).
pub fn try_daemon(project_root: &str, command: &str, args: &str, format: &str, no_daemon: bool) -> (r: Option<Request>)
    ensures
        no_daemon ==> r is None,
        !no_daemon ==> (r matches Some(q) && q.command@ == command@ && q.args@ == args@ && q.format@ == format@),
{
    if no_daemon {
        return None;
    }
    Some(Request::new(command, args, format))
}

/// The output of a daemon's reply, when it succeeded.
pub fn reply_output(resp: Response) -> (r: Option<String>)
    ensures
        r == (if resp.status@ == "ok"@ { resp.output } else { None }),
{
    if str_eq(resp.status.as_str(), "ok") {
        resp.output
    } else {
        None
    }
}

} // verus!
