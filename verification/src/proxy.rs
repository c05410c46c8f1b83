//! Addresses of the session endpoint and of the proxy on the way to it.
use vstd::prelude::*;
use vstd::string::StringExecFns;

use crate::error::Error;
use crate::text::{
    begins, chars_of, decimal, decimal_reads_back, lemma_decimal, number, parse_number, string_of,
};

verus! {

/// A host and a port.
pub struct HostPort {
    pub host: Seq<char>,
    pub port: int,
}

/// The place of the last colon in `s` before place `n`; -1 where there is none.
pub open spec fn last_colon(s: Seq<char>, n: int) -> int
    decreases n,
{
    if n <= 0 {
        -1
    } else if s[n - 1] == ':' {
        n - 1
    } else {
        last_colon(s, n - 1)
    }
}

/// `s` without an `http://` in front and one `/` at the end.
pub open spec fn bare(s: Seq<char>) -> Seq<char> {
    let t = if begins(s, "http://"@) {
        s.subrange("http://"@.len() as int, s.len() as int)
    } else {
        s
    };
    if t.len() > 0 && t.last() == '/' {
        t.drop_last()
    } else {
        t
    }
}

/// What `host` or `host:port` names (the port follows the last colon), or why it names nothing.
pub open spec fn host_port(s: Seq<char>, default_port: int) -> Result<HostPort, Seq<char>> {
    let t = bare(s);
    let c = last_colon(t, t.len() as int);
    if c < 0 {
        if t.len() == 0 {
            Err("empty host"@)
        } else {
            Ok(HostPort { host: t, port: default_port })
        }
    } else {
        match number(t.subrange(c + 1, t.len() as int), 65535) {
            Some(port) => if c == 0 {
                Err("empty host in '"@ + t + "'"@)
            } else {
                Ok(HostPort { host: t.subrange(0, c), port })
            },
            None => Err("bad port in '"@ + t + "'"@),
        }
    }
}

/// Whether `c` ends the authority of a URL.
pub open spec fn ends_authority(c: char) -> bool {
    c == '/' || c == '?' || c == '#'
}

/// `s` up to the first character that ends an authority.
pub open spec fn authority(s: Seq<char>) -> Seq<char>
    decreases s.len(),
{
    if s.len() == 0 || ends_authority(s[0]) {
        Seq::empty()
    } else {
        seq![s[0]] + authority(s.drop_first())
    }
}

/// What a `ws://` or `wss://` URL names; the port is 80 or 443 where the URL gives none.
pub open spec fn target(url: Seq<char>) -> Result<HostPort, Seq<char>> {
    if begins(url, "wss://"@) {
        host_port(authority(url.subrange("wss://"@.len() as int, url.len() as int)), 443)
    } else if begins(url, "ws://"@) {
        host_port(authority(url.subrange("ws://"@.len() as int, url.len() as int)), 80)
    } else {
        Err("not a ws/wss url: "@ + url)
    }
}

/// Whether `r` reports what `want` says.
pub open spec fn reports(r: Result<(String, u16), Error>, want: Result<HostPort, Seq<char>>) -> bool {
    match want {
        Ok(hp) => r is Ok && r->Ok_0.0@ == hp.host && r->Ok_0.1 == hp.port,
        Err(m) => r is Err && r->Err_0 is Connect && r->Err_0->Connect_0@ == m,
    }
}

/// Whether `chars` begins with `pat`.
fn has_prefix(chars: &Vec<char>, pat: &Vec<char>) -> (r: bool)
    ensures
        r == begins(chars@, pat@),
{
    if chars.len() < pat.len() {
        return false;
    }
    let mut i: usize = 0;
    while i < pat.len()
        invariant
            i <= pat@.len() <= chars@.len(),
            forall|j: int| 0 <= j < i ==> chars@[j] == pat@[j],
        decreases pat@.len() - i,
    {
        if chars[i] != pat[i] {
            assert(chars@.subrange(0, pat@.len() as int)[i as int] != pat@[i as int]);
            return false;
        }
        i = i + 1;
    }
    assert(chars@.subrange(0, pat@.len() as int) =~= pat@);
    true
}

/// `what`, `detail`, `end` as a connect error.
fn connect_error(what: &str, detail: &str, end: &str) -> (r: Error)
    ensures
        r is Connect,
        r->Connect_0@ == what@ + detail@ + end@,
{
    let mut s: String = what.to_owned();
    s.append(detail);
    s.append(end);
    Error::Connect(s)
}

/// Extract `(host, port)` from a `ws://`/`wss://` URL. Defaults to 443 for `wss` and 80 for `ws`
/// when no explicit port is present.
pub fn target_host_port(url: &str) -> (r: Result<(String, u16), Error>)
    ensures
        reports(r, target(url@)),
{
    let chars: Vec<char> = chars_of(url);
    let secure: Vec<char> = chars_of("wss://");
    let plain: Vec<char> = chars_of("ws://");
    let is_secure: bool = has_prefix(&chars, &secure);
    if !is_secure && !has_prefix(&chars, &plain) {
        proof {
            reveal_strlit("");
            assert("not a ws/wss url: "@ + url@ + ""@ =~= "not a ws/wss url: "@ + url@);
        }
        return Err(connect_error("not a ws/wss url: ", url, ""));
    }
    let from: usize = if is_secure {
        secure.len()
    } else {
        plain.len()
    };
    let default_port: u16 = if is_secure {
        443
    } else {
        80
    };
    let ghost rest = url@.subrange(from as int, url@.len() as int);
    let mut to: usize = from;
    assert(url@.subrange(from as int, from as int) =~= Seq::empty());
    assert(Seq::<char>::empty() + authority(rest) =~= authority(rest));
    while to < chars.len() && !(chars[to] == '/' || chars[to] == '?' || chars[to] == '#')
        invariant
            chars@ == url@,
            from <= to <= chars@.len(),
            rest == url@.subrange(from as int, url@.len() as int),
            authority(rest) == url@.subrange(from as int, to as int) + authority(
                url@.subrange(to as int, url@.len() as int),
            ),
        decreases chars@.len() - to,
    {
        proof {
            let tail = url@.subrange(to as int, url@.len() as int);
            assert(tail.drop_first() =~= url@.subrange(to + 1, url@.len() as int));
            assert(url@.subrange(from as int, to + 1) =~= url@.subrange(from as int, to as int)
                + seq![tail[0]]);
            assert(authority(rest) =~= url@.subrange(from as int, to + 1) + authority(
                tail.drop_first(),
            ));
        }
        to = to + 1;
    }
    assert(authority(rest) =~= url@.subrange(from as int, to as int));
    let name: String = string_of(&chars, from, to);
    parse_host_port(name.as_str(), default_port)
}

/// Parse `host` or `host:port`, applying `default_port` when the port is absent. Accepts an
/// optional `http://` prefix (proxy URLs carry one).
pub fn parse_host_port(s: &str, default_port: u16) -> (r: Result<(String, u16), Error>)
    ensures
        reports(r, host_port(s@, default_port as int)),
{
    let chars: Vec<char> = chars_of(s);
    let http: Vec<char> = chars_of("http://");
    let from: usize = if has_prefix(&chars, &http) {
        http.len()
    } else {
        0
    };
    let mut to: usize = chars.len();
    let ghost t = if begins(s@, "http://"@) {
        s@.subrange("http://"@.len() as int, s@.len() as int)
    } else {
        s@
    };
    assert(t =~= s@.subrange(from as int, s@.len() as int));
    if to > from && chars[to - 1] == '/' {
        assert(t.last() == '/');
        to = to - 1;
        assert(t.drop_last() =~= s@.subrange(from as int, to as int));
    }
    let name: Vec<char> = chars_of(string_of(&chars, from, to).as_str());
    assert(name@ == bare(s@));
    let n: usize = name.len();
    let mut c: usize = n;
    while c > 0 && name[c - 1] != ':'
        invariant
            n == name@.len(),
            c <= n,
            last_colon(name@, n as int) == last_colon(name@, c as int),
        decreases c,
    {
        c = c - 1;
    }
    if c == 0 {
        assert(last_colon(name@, n as int) == -1);
        if n == 0 {
            return Err(Error::Connect("empty host".to_owned()));
        }
        let host: String = string_of(&name, 0, n);
        assert(host@ =~= name@);
        return Ok((host, default_port));
    }
    assert(last_colon(name@, n as int) == c - 1);
    let text: String = string_of(&name, 0, n);
    assert(text@ =~= name@);
    let digits: String = string_of(&name, c, n);
    match parse_number(digits.as_str(), 65535) {
        Some(port) => {
            if c == 1 {
                return Err(connect_error("empty host in '", text.as_str(), "'"));
            }
            let host: String = string_of(&name, 0, c - 1);
            Ok((host, port as u16))
        },
        None => Err(connect_error("bad port in '", text.as_str(), "'")),
    }
}

proof fn lemma_last_colon(s: Seq<char>, k: int, n: int)
    requires
        -1 <= k < n <= s.len() || k == -1 && n == 0,
        k >= 0 ==> s[k] == ':',
        forall|i: int| k < i < n ==> #[trigger] s[i] != ':',
    ensures
        last_colon(s, n) == k,
    decreases n,
{
    if n > 0 && n - 1 > k {
        assert(s[n - 1] != ':');
        lemma_last_colon(s, k, n - 1);
    }
}

/// A host and a port, written with a colon between them, read back: the host is what is before the
/// last colon, even where it holds colons itself.
pub proof fn host_and_port_read_back(host: Seq<char>, port: int, default_port: int)
    requires
        host.len() > 0,
        0 <= port <= 65535,
        !begins(host + ":"@ + decimal(port), "http://"@),
    ensures
        host_port(host + ":"@ + decimal(port), default_port) == Ok::<HostPort, Seq<char>>(
            HostPort { host, port },
        ),
{
    reveal_strlit(":");
    lemma_decimal(port);
    decimal_reads_back(port, 65535);
    let s = host + ":"@ + decimal(port);
    let k = host.len() as int;
    assert(s[k] == ':');
    assert forall|i: int| k < i < s.len() implies #[trigger] s[i] != ':' by {
        assert(s[i] == decimal(port)[i - k - 1]);
        assert(':' as u32 == 58);
    }
    assert(s.last() == decimal(port).last());
    assert(s.last() != '/') by {
        assert('/' as u32 == 47);
    }
    assert(bare(s) == s);
    lemma_last_colon(s, k, s.len() as int);
    assert(s.subrange(k + 1, s.len() as int) =~= decimal(port));
    assert(s.subrange(0, k) =~= host);
}

/// A host without a port gets the default one.
pub proof fn host_alone_gets_the_default(host: Seq<char>, default_port: int)
    requires
        host.len() > 0,
        forall|i: int| 0 <= i < host.len() ==> #[trigger] host[i] != ':',
        host.last() != '/',
    ensures
        host_port(host, default_port) == Ok::<HostPort, Seq<char>>(
            HostPort { host, port: default_port },
        ),
{
    reveal_strlit("http://");
    if begins(host, "http://"@) {
        assert(host.subrange(0, 7)[4] == "http://"@[4]);
        assert(host[4] == ':');
    }
    lemma_last_colon(host, -1, host.len() as int);
}

/// An `http://` in front and a slash at the end make no difference.
pub proof fn scheme_and_slash_are_ignored(s: Seq<char>, default_port: int)
    requires
        !begins(s, "http://"@),
        s.len() > 0,
        s.last() != '/',
    ensures
        host_port("http://"@ + s, default_port) == host_port(s, default_port),
        host_port("http://"@ + s + "/"@, default_port) == host_port(s, default_port),
{
    reveal_strlit("http://");
    reveal_strlit("/");
    let a = "http://"@ + s;
    let b = a + "/"@;
    assert(a.subrange(0, 7) =~= "http://"@);
    assert(b.subrange(0, 7) =~= "http://"@);
    assert(a.subrange(7, a.len() as int) =~= s);
    let t = b.subrange(7, b.len() as int);
    assert(t =~= s + "/"@);
    assert(t.last() == '/');
    assert(t.drop_last() =~= s);
}

proof fn lemma_authority(name: Seq<char>, rest: Seq<char>)
    requires
        forall|i: int| 0 <= i < name.len() ==> !ends_authority(#[trigger] name[i]),
        rest.len() > 0 ==> ends_authority(rest[0]),
    ensures
        authority(name + rest) == name,
    decreases name.len(),
{
    let s = name + rest;
    if name.len() == 0 {
        assert(s =~= rest);
        assert(authority(s) =~= name);
    } else {
        assert(s[0] == name[0]);
        let t = name.drop_first();
        assert forall|i: int| 0 <= i < t.len() implies !ends_authority(#[trigger] t[i]) by {
            assert(t[i] == name[i + 1]);
        }
        assert(s.drop_first() =~= t + rest);
        lemma_authority(t, rest);
        assert(seq![name[0]] + t =~= name);
    }
}

/// A URL's target is what is between its scheme and the path, the query or the fragment: with the
/// default port of a secure URL (443) or of a plain one (80) where it names none. Any other scheme
/// is refused.
pub proof fn url_names_its_authority(name: Seq<char>, rest: Seq<char>)
    requires
        forall|i: int| 0 <= i < name.len() ==> !ends_authority(#[trigger] name[i]),
        rest.len() > 0 ==> rest[0] == '/' || rest[0] == '?' || rest[0] == '#',
    ensures
        target("wss://"@ + name + rest) == host_port(name, 443),
        target("ws://"@ + name + rest) == host_port(name, 80),
{
    reveal_strlit("wss://");
    reveal_strlit("ws://");
    lemma_authority(name, rest);
    let a = "wss://"@ + name + rest;
    assert(a.subrange(0, 6) =~= "wss://"@);
    assert(a.subrange(6, a.len() as int) =~= name + rest);
    let b = "ws://"@ + name + rest;
    assert(b.subrange(0, 5) =~= "ws://"@);
    assert(b.subrange(5, b.len() as int) =~= name + rest);
    if begins(b, "wss://"@) {
        assert(b.subrange(0, 6)[2] == "wss://"@[2]);
        assert(b[2] == ':');
    }
}

/// A URL of another scheme has no target.
pub proof fn other_schemes_are_refused(url: Seq<char>)
    requires
        !begins(url, "wss://"@),
        !begins(url, "ws://"@),
    ensures
        target(url) is Err,
{
}

} // verus!
