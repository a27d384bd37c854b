//! Where the client finds a lobby and its socket.

use vstd::prelude::*;

verus! {

/// `s` with every `http` replaced by `ws`, scanning from the left.
pub open spec fn http_to_ws(s: Seq<char>) -> Seq<char>
    decreases s.len(),
{
    if s.len() == 0 {
        s
    } else if s.len() >= 4 && s.take(4) == "http"@ {
        "ws"@ + http_to_ws(s.skip(4))
    } else {
        seq![s[0]] + http_to_ws(s.skip(1))
    }
}

/// The protocol of the lobby's socket, made from the page's protocol:
/// `http:` becomes `ws:` and `https:` becomes `wss:`.
pub fn socket_protocol(protocol: &str) -> (r: String)
    ensures
        r@ == http_to_ws(protocol@),
{
    let n = protocol.unicode_len();
    let mut r = String::new();
    let mut i: usize = 0;
    assert(protocol@.skip(0) =~= protocol@);
    while i < n
        invariant
            n == protocol@.len(),
            i <= n,
            http_to_ws(protocol@) == r@ + http_to_ws(protocol@.skip(i as int)),
        decreases n - i,
    {
        proof {
            reveal_strlit("http");
            reveal_strlit("ws");
        }
        let ghost rest = protocol@.skip(i as int);
        let starts = n - i >= 4 && protocol.get_char(i) == 'h' && protocol.get_char(i + 1) == 't'
            && protocol.get_char(i + 2) == 't' && protocol.get_char(i + 3) == 'p';
        if starts {
            assert(rest.take(4) =~= "http"@);
            assert(rest.skip(4) =~= protocol@.skip(i as int + 4));
            r.append("ws");
            i = i + 4;
        } else {
            assert(!(rest.len() >= 4 && rest.take(4) == "http"@)) by {
                if rest.len() >= 4 && rest.take(4) == "http"@ {
                    assert(rest.take(4)[0] == protocol@[i as int]);
                    assert(rest.take(4)[1] == protocol@[i as int + 1]);
                    assert(rest.take(4)[2] == protocol@[i as int + 2]);
                    assert(rest.take(4)[3] == protocol@[i as int + 3]);
                }
            }
            assert(rest.skip(1) =~= protocol@.skip(i as int + 1));
            assert(seq![rest[0]] =~= protocol@.subrange(i as int, i as int + 1));
            r.append(protocol.substring_char(i, i + 1));
            i = i + 1;
        }
    }
    assert(protocol@.skip(n as int) =~= Seq::<char>::empty());
    r
}

/// The path under which the server answers about the lobby `id`.
pub fn lobby_path(id: &String) -> (r: String)
    ensures
        r@ == "/api/lobby/"@ + id@,
{
    let mut r = String::from_str("/api/lobby/");
    r.append(id.as_str());
    r
}

/// The path of the socket of the lobby `id`.
pub fn socket_path(id: &String) -> (r: String)
    ensures
        r@ == "/api/lobby/"@ + id@ + "/ws"@,
{
    let mut r = lobby_path(id);
    r.append("/ws");
    r
}

} // verus!
