//! `healthcheck`: whom it asks, what it asks, and what it makes of the reply.

use crate::cli::{failure, Report, Said, EXIT_INVALID_DATA, EXIT_OK};
use vstd::prelude::*;
use vstd::string::{StrSliceExecFns, StringExecFns};

verus! {

/// The host that stands for every interface, which a server can listen on but nobody can
/// connect to everywhere.
pub const ANY_HOST: &'static str = "0.0.0.0";

/// The host that a probe asks in its place.
pub const LOOPBACK_HOST: &'static str = "127.0.0.1";

/// The address has the host [`ANY_HOST`].
pub open spec fn binds_any_host(bind: Seq<char>) -> bool {
    let n = ANY_HOST@.len();
    ANY_HOST@.is_prefix_of(bind) && (bind.len() > n ==> bind[n as int] == ':')
}

/// The address to probe for a server that listens on `bind`.
pub open spec fn probed(bind: Seq<char>) -> Seq<char> {
    if binds_any_host(bind) {
        LOOPBACK_HOST@ + bind.skip(ANY_HOST@.len() as int)
    } else {
        bind
    }
}

/// The address to probe for a server that listens on `bind`.
pub fn probe_address(bind: &str) -> (addr: String)
    ensures
        addr@ == probed(bind@),
{
    let n: usize = ANY_HOST.unicode_len();
    let len: usize = bind.unicode_len();
    let mut i: usize = 0;
    while i < n && i < len && bind.get_char(i) == ANY_HOST.get_char(i)
        invariant
            n == ANY_HOST@.len(),
            len == bind@.len(),
            i <= n,
            i <= len,
            forall|j: int| 0 <= j < i ==> bind@[j] == ANY_HOST@[j],
        decreases n - i,
    {
        i += 1;
    }
    if i == n && (len == n || bind.get_char(n) == ':') {
        assert(binds_any_host(bind@)) by {
            assert(bind@.take(n as int) =~= ANY_HOST@);
        }
        let mut addr = String::new();
        addr.append(LOOPBACK_HOST);
        addr.append(bind.substring_char(n, len));
        assert(addr@ =~= probed(bind@));
        addr
    } else {
        assert(!binds_any_host(bind@)) by {
            if binds_any_host(bind@) && i < n {
                assert(bind@[i as int] == ANY_HOST@[i as int]);
            }
        }
        bind.to_owned()
    }
}

/// The request that a probe sends.
pub fn probe_request(addr: &str) -> (request: String)
    ensures
        request@ == "GET /health HTTP/1.1\r\nHost: "@ + addr@ + "\r\nConnection: close\r\n\r\n"@,
{
    let mut request = String::new();
    request.append("GET /health HTTP/1.1\r\nHost: ");
    request.append(addr);
    request.append("\r\nConnection: close\r\n\r\n");
    assert(request@ =~= "GET /health HTTP/1.1\r\nHost: "@ + addr@
        + "\r\nConnection: close\r\n\r\n"@);
    request
}

/// `HTTP/1.`, which every status line starts with.
pub const HTTP_1: [u8; 7] = [0x48, 0x54, 0x54, 0x50, 0x2f, 0x31, 0x2e];

/// The reply starts with a status line of HTTP/1 whose code is 200.
pub open spec fn is_ok_reply(reply: Seq<u8>) -> bool {
    &&& reply.len() >= 12
    &&& reply.take(7) == HTTP_1@
    &&& reply[8] == 0x20
    &&& reply[9] == 0x32
    &&& reply[10] == 0x30
    &&& reply[11] == 0x30
    &&& reply.len() > 12 ==> reply[12] == 0x20 || reply[12] == 0x0d
}

/// Whether the reply starts with a status line of HTTP/1 whose code is 200.
pub fn says_ok(reply: &[u8]) -> (r: bool)
    ensures
        r == is_ok_reply(reply@),
{
    let n: usize = reply.len();
    if n < 12 {
        return false;
    }
    let mut i: usize = 0;
    while i < 7
        invariant
            i <= 7,
            7 <= reply@.len(),
            forall|j: int| 0 <= j < i ==> reply@[j] == HTTP_1@[j],
        decreases 7 - i,
    {
        if reply[i] != HTTP_1[i] {
            assert(reply@.take(7)[i as int] != HTTP_1@[i as int]);
            return false;
        }
        i += 1;
    }
    assert(reply@.take(7) =~= HTTP_1@);
    reply[8] == 0x20 && reply[9] == 0x32 && reply[10] == 0x30 && reply[11] == 0x30 && (n == 12
        || reply[12] == 0x20 || reply[12] == 0x0d)
}

/// How `healthcheck` ends.
pub open spec fn healthcheck_says(addr: Seq<char>, reply: Result<Vec<u8>, String>) -> Said {
    match reply {
        Ok(reply) => if is_ok_reply(reply@) {
            Said { code: EXIT_OK, out: Seq::empty(), err: Seq::empty() }
        } else {
            failure(EXIT_INVALID_DATA, "error: "@ + addr + " is not healthy\n"@)
        },
        Err(message) => failure(
            EXIT_INVALID_DATA,
            "error: cannot reach "@ + addr + ": "@ + message@ + "\n"@,
        ),
    }
}

/// `healthcheck`, once the server at `addr` has replied or could not be reached.
pub fn cmd_healthcheck(addr: &str, reply: Result<Vec<u8>, String>) -> (r: Report)
    ensures
        r@ == healthcheck_says(addr@, reply),
{
    let mut err = String::new();
    let code: u8 = match reply {
        Ok(reply) => if says_ok(reply.as_slice()) {
            EXIT_OK
        } else {
            err.append("error: ");
            err.append(addr);
            err.append(" is not healthy\n");
            assert(err@ =~= "error: "@ + addr@ + " is not healthy\n"@);
            EXIT_INVALID_DATA
        },
        Err(message) => {
            err.append("error: cannot reach ");
            err.append(addr);
            err.append(": ");
            err.append(message.as_str());
            err.append("\n");
            assert(err@ =~= "error: cannot reach "@ + addr@ + ": "@ + message@ + "\n"@);
            EXIT_INVALID_DATA
        },
    };
    Report { code, out: String::new(), err }
}

/// Whatever port a server listens on at every interface, a probe asks the same port at
/// the loopback address; any other address is asked as it is.
pub proof fn law_only_the_host_of_an_address_is_rewritten(rest: Seq<char>, bind: Seq<char>)
    requires
        rest.len() > 0 ==> rest[0] == ':',
        !binds_any_host(bind),
    ensures
        probed(ANY_HOST@ + rest) == LOOPBACK_HOST@ + rest,
        probed(bind) == bind,
{
    let full = ANY_HOST@ + rest;
    assert(full.take(ANY_HOST@.len() as int) =~= ANY_HOST@);
    assert(full.skip(ANY_HOST@.len() as int) =~= rest);
}

} // verus!
