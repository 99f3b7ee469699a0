//! Configuration model: upstreams, domain lists, IP ranges and rules,
//! together with the builder that validates a raw configuration.

use vstd::prelude::*;
use crate::bridge::cidr_of;
use crate::bridge::chars_of;
use crate::bridge::parse_cidr;
use crate::bridge::parse_record_type;
use crate::bridge::record_type_code_of;
use crate::bridge::string_from_chars;
use crate::domain::Domains;
use crate::domain::spec_regexes;
use crate::domain::spec_suffixes;
use crate::ip::Cidr;
use crate::ip::IpAddress;
use crate::ip::IpRange;
use crate::text::count_char;
use crate::text::find_char;
use crate::text::lemma_find_char_at;
use crate::text::lemma_find_char_none;
use crate::text::parse_port_chars;
use crate::text::spec_parse_port;
use crate::text::string_of_range;
use crate::text::trim;
use crate::text::trim_bounds;
use crate::text::trimmed_lines;

verus! {

/// Errors that make a configuration unusable.
#[derive(Debug)]
pub enum ConfigError {
    /// No upstream is marked as a default.
    NoUpstream,
    /// An address, CIDR or record type that does not parse.
    InvalidAddress(String),
    /// A TLS or HTTPS upstream without a TLS host name.
    NoTlsHost,
}

/// The transport of an upstream.
#[derive(Debug, Clone, Copy, PartialEq, Eq, Structural)]
pub enum NetworkType {
    Tcp,
    Udp,
    Tls,
    Https,
}

impl NetworkType {
    /// 53 for plain DNS, 853 for DoT, 443 for DoH.
    pub open spec fn spec_default_port(self) -> u16 {
        match self {
            NetworkType::Tcp => 53,
            NetworkType::Udp => 53,
            NetworkType::Tls => 853,
            NetworkType::Https => 443,
        }
    }

    /// The port used when the address names none.
    pub fn default_port(&self) -> (r: u16)
        ensures
            r == self.spec_default_port(),
    {
        match self {
            NetworkType::Tcp => 53,
            NetworkType::Udp => 53,
            NetworkType::Tls => 853,
            NetworkType::Https => 443,
        }
    }
}

/// A numeric socket address of either family.
#[derive(Debug, Clone, Copy, PartialEq, Eq, Structural)]
pub struct SocketAddress {
    pub ip: IpAddress,
    pub port: u16,
}

/// A configured upstream resolver.
#[derive(Debug)]
pub enum Upstream {
    UdpUpstream { address: Vec<SocketAddress> },
    TcpUpstream { address: Vec<SocketAddress>, proxy: Option<String> },
    TlsUpstream { address: Vec<SocketAddress>, tls_host: String, proxy: Option<String> },
    HttpsUpstream { address: Vec<SocketAddress>, tls_host: String, proxy: Option<String> },
}

/// The tail appended to a host string so the CIDR parser reads it as a
/// plain address.
pub open spec fn slash_zero() -> Seq<char> {
    seq!['/', '0']
}

/// The socket address built from a parsed family flag, address and port.
pub open spec fn sock_from(fam6: bool, addr: u128, port: u16) -> SocketAddress {
    SocketAddress {
        ip: if fam6 {
            IpAddress::V6(addr)
        } else {
            IpAddress::V4(addr as u32)
        },
        port,
    }
}

/// The grammar of an address string: `[v6]:port`, `v4:port` (exactly one
/// colon), or — when `bare_port` allows it — a bare address, whose port
/// is then `bare_port`. Host parts are read by the CIDR parser with a
/// `/0` tail.
pub open spec fn spec_parse_sock(s: Seq<char>, bare_port: Option<u16>) -> Option<SocketAddress> {
    if s.len() > 0 && s[0] == '[' {
        match find_char(s, ']') {
            Some(j) => if j + 1 < s.len() && s[j + 1] == ':' {
                match (cidr_of(s.subrange(1, j) + slash_zero()), spec_parse_port(s.skip(j + 2))) {
                    (Some(p), Some(port)) => if p.0 {
                        Some(sock_from(true, p.1, port))
                    } else {
                        None
                    },
                    _ => None,
                }
            } else {
                None
            },
            None => None,
        }
    } else {
        match find_char(s, ':') {
            Some(k) => if count_char(s, ':') == 1 {
                match (cidr_of(s.take(k) + slash_zero()), spec_parse_port(s.skip(k + 1))) {
                    (Some(p), Some(port)) => if !p.0 {
                        Some(sock_from(false, p.1, port))
                    } else {
                        None
                    },
                    _ => None,
                }
            } else {
                // Two or more colons: a bare v6 address.
                match bare_port {
                    Some(dp) => match cidr_of(s + slash_zero()) {
                        Some(p) => if p.0 {
                            Some(sock_from(true, p.1, dp))
                        } else {
                            None
                        },
                        None => None,
                    },
                    None => None,
                }
            },
            None => match bare_port {
                Some(dp) => match cidr_of(s + slash_zero()) {
                    Some(p) => Some(sock_from(p.0, p.1, dp)),
                    None => None,
                },
                None => None,
            },
        }
    }
}

/// The characters `s[a..b]` followed by `/0`, as a string.
fn slash_zero_string(s: &Vec<char>, a: usize, b: usize) -> (r: String)
    requires
        a <= b <= s@.len(),
    ensures
        r@ == s@.subrange(a as int, b as int) + slash_zero(),
{
    let mut v: Vec<char> = Vec::new();
    let mut m: usize = a;
    while m < b
        invariant
            a <= m <= b <= s@.len(),
            v@ =~= s@.subrange(a as int, m as int),
        decreases b - m,
    {
        v.push(s[m]);
        proof {
            assert(v@ =~= s@.subrange(a as int, m + 1));
        }
        m += 1;
    }
    v.push('/');
    v.push('0');
    proof {
        assert(v@ =~= s@.subrange(a as int, b as int) + slash_zero());
    }
    string_from_chars(v.as_slice())
}

/// Parse an address string per `spec_parse_sock`.
pub(crate) fn parse_sock(s: &str, bare_port: Option<u16>) -> (r: Option<SocketAddress>)
    ensures
        r == spec_parse_sock(s@, bare_port),
{
    let cs = chars_of(s);
    let n = cs.len();
    if n > 0 && cs[0] == '[' {
        let mut j: usize = 0;
        while j < n && cs[j] != ']'
            invariant
                n == cs@.len(),
                j <= n,
                forall|m: int| 0 <= m < j ==> cs@[m] != ']',
            decreases n - j,
        {
            j += 1;
        }
        if j == n {
            proof {
                lemma_find_char_none(cs@, ']');
            }
            return None;
        }
        proof {
            lemma_find_char_at(cs@, ']', j as int);
        }
        if j + 1 >= n || cs[j + 1] != ':' {
            return None;
        }
        let host = slash_zero_string(&cs, 1, j);
        let port = parse_port_chars(&cs, j + 2);
        match (parse_cidr(host.as_str()), port) {
            (Some(p), Some(pt)) => if p.0 {
                Some(SocketAddress { ip: IpAddress::V6(p.1), port: pt })
            } else {
                None
            },
            _ => None,
        }
    } else {
        let mut cnt: usize = 0;
        let mut first: usize = n;
        let mut m: usize = 0;
        while m < n
            invariant
                n == cs@.len(),
                m <= n,
                cnt <= m,
                cnt == count_char(cs@.take(m as int), ':'),
                first <= n,
                first == n ==> cnt == 0,
                first == n ==> forall|q: int| 0 <= q < m ==> cs@[q] != ':',
                first < n ==> cnt >= 1 && first < m && cs@[first as int] == ':' && (forall|q: int|
                    0 <= q < first ==> cs@[q] != ':'),
            decreases n - m,
        {
            proof {
                assert(cs@.take(m + 1).drop_last() =~= cs@.take(m as int));
                assert(cs@.take(m + 1).last() == cs@[m as int]);
            }
            if cs[m] == ':' {
                if first == n {
                    first = m;
                }
                cnt += 1;
            }
            m += 1;
        }
        proof {
            assert(cs@.take(n as int) =~= cs@);
        }
        if cnt == 1 {
            proof {
                lemma_find_char_at(cs@, ':', first as int);
                assert(cs@.subrange(0, first as int) =~= cs@.take(first as int));
            }
            let host = slash_zero_string(&cs, 0, first);
            match (parse_cidr(host.as_str()), parse_port_chars(&cs, first + 1)) {
                (Some(p), Some(pt)) => if !p.0 {
                    Some(SocketAddress { ip: IpAddress::V4(p.1 as u32), port: pt })
                } else {
                    None
                },
                _ => None,
            }
        } else {
            proof {
                if cnt == 0 {
                    lemma_find_char_none(cs@, ':');
                } else {
                    lemma_find_char_at(cs@, ':', first as int);
                }
            }
            match bare_port {
                None => None,
                Some(dp) => {
                    let whole = slash_zero_string(&cs, 0, n);
                    proof {
                        assert(cs@.subrange(0, n as int) =~= cs@);
                    }
                    match parse_cidr(whole.as_str()) {
                        Some(p) => {
                            if cnt == 0 {
                                if p.0 {
                                    Some(SocketAddress { ip: IpAddress::V6(p.1), port: dp })
                                } else {
                                    Some(SocketAddress { ip: IpAddress::V4(p.1 as u32), port: dp })
                                }
                            } else {
                                if p.0 {
                                    Some(SocketAddress { ip: IpAddress::V6(p.1), port: dp })
                                } else {
                                    None
                                }
                            }
                        },
                        None => None,
                    }
                },
            }
        }
    }
}

/// View equality of optional strings.
pub open spec fn opt_str_eq(a: Option<String>, b: Option<String>) -> bool {
    match (a, b) {
        (Option::None, Option::None) => true,
        (Option::Some(x), Option::Some(y)) => x@ == y@,
        _ => false,
    }
}

fn clone_opt_string(o: &Option<String>) -> (r: Option<String>)
    ensures
        opt_str_eq(r, *o),
{
    match o {
        Option::Some(p) => Option::Some(p.clone()),
        Option::None => Option::None,
    }
}

/// The raw form of one upstream.
#[derive(Debug)]
pub struct UpstreamConfig {
    pub address: String,
    pub network: NetworkType,
    pub proxy: Option<String>,
    pub tls_host: Option<String>,
    pub default: bool,
}

/// Whether a raw upstream builds: its address parses, and a TLS host is
/// present where the transport needs one.
pub open spec fn upstream_conf_ok(c: UpstreamConfig) -> bool {
    &&& spec_parse_sock(c.address@, Some(c.network.spec_default_port())) is Some
    &&& ((c.network == NetworkType::Tls || c.network == NetworkType::Https) ==> c.tls_host is Some)
}

/// What the built upstream holds: the parsed address as its single
/// server, and the transport's extra fields copied from the raw form.
pub open spec fn upstream_built(c: UpstreamConfig, u: Upstream) -> bool {
    match spec_parse_sock(c.address@, Some(c.network.spec_default_port())) {
        Some(sa) => {
            match c.network {
                NetworkType::Udp => u matches Upstream::UdpUpstream { address } && address@ == seq![
                    sa,
                ],
                NetworkType::Tcp => u matches Upstream::TcpUpstream { address, proxy } && address@
                    == seq![sa] && opt_str_eq(proxy, c.proxy),
                NetworkType::Tls => u matches Upstream::TlsUpstream { address, tls_host, proxy }
                    && address@ == seq![sa] && opt_str_eq(proxy, c.proxy) && c.tls_host is Some
                    && tls_host@ == c.tls_host->0@,
                NetworkType::Https => u matches Upstream::HttpsUpstream {
                    address,
                    tls_host,
                    proxy,
                } && address@ == seq![sa] && opt_str_eq(proxy, c.proxy) && c.tls_host is Some
                    && tls_host@ == c.tls_host->0@,
            }
        },
        None => false,
    }
}

impl UpstreamConfig {
    /// An upstream not marked otherwise is a default upstream.
    pub fn default_default() -> (r: bool)
        ensures
            r == true,
    {
        true
    }

    /// Build one upstream: parse its address (with the transport's
    /// default port for a bare address) and check the TLS host.
    pub fn build(&self) -> (r: Result<Upstream, ConfigError>)
        ensures
            r is Ok <==> upstream_conf_ok(*self),
            r is Ok ==> upstream_built(*self, r->Ok_0),
            match r {
                Result::Err(ConfigError::InvalidAddress(a)) => a@ == self.address@
                    && spec_parse_sock(
                    self.address@,
                    Some(self.network.spec_default_port()),
                ) is None,
                Result::Err(ConfigError::NoTlsHost) => spec_parse_sock(
                    self.address@,
                    Some(self.network.spec_default_port()),
                ) is Some && self.tls_host is None && (self.network == NetworkType::Tls
                    || self.network == NetworkType::Https),
                Result::Err(ConfigError::NoUpstream) => false,
                Result::Ok(_) => true,
            },
    {
        let dport = self.network.default_port();
        let parsed = parse_sock(self.address.as_str(), Some(dport));
        match parsed {
            Option::None => Result::Err(ConfigError::InvalidAddress(self.address.clone())),
            Option::Some(sa) => {
                let mut address: Vec<SocketAddress> = Vec::new();
                address.push(sa);
                proof {
                    assert(address@ =~= seq![sa]);
                }
                match self.network {
                    NetworkType::Udp => Result::Ok(Upstream::UdpUpstream { address }),
                    NetworkType::Tcp => Result::Ok(
                        Upstream::TcpUpstream { address, proxy: clone_opt_string(&self.proxy) },
                    ),
                    NetworkType::Tls => {
                        match &self.tls_host {
                            Option::Some(h) => Result::Ok(
                                Upstream::TlsUpstream {
                                    address,
                                    tls_host: h.clone(),
                                    proxy: clone_opt_string(&self.proxy),
                                },
                            ),
                            Option::None => Result::Err(ConfigError::NoTlsHost),
                        }
                    },
                    NetworkType::Https => {
                        match &self.tls_host {
                            Option::Some(h) => Result::Ok(
                                Upstream::HttpsUpstream {
                                    address,
                                    tls_host: h.clone(),
                                    proxy: clone_opt_string(&self.proxy),
                                },
                            ),
                            Option::None => Result::Err(ConfigError::NoTlsHost),
                        }
                    },
                }
            },
        }
    }
}

/// View equality of string vectors.
pub open spec fn str_vec_eq(a: Seq<String>, b: Seq<String>) -> bool {
    a.len() == b.len() && forall|i: int| 0 <= i < a.len() ==> (#[trigger] a[i])@ == b[i]@
}

/// View equality of optional string vectors.
pub open spec fn opt_str_vec_eq(a: Option<Vec<String>>, b: Option<Vec<String>>) -> bool {
    match (a, b) {
        (Option::None, Option::None) => true,
        (Option::Some(x), Option::Some(y)) => str_vec_eq(x@, y@),
        _ => false,
    }
}

pub(crate) fn clone_strings(v: &Vec<String>) -> (r: Vec<String>)
    ensures
        str_vec_eq(r@, v@),
{
    let mut out: Vec<String> = Vec::new();
    let mut i: usize = 0;
    while i < v.len()
        invariant
            i <= v@.len(),
            out@.len() == i,
            forall|j: int| 0 <= j < i ==> (#[trigger] out@[j])@ == v@[j]@,
        decreases v@.len() - i,
    {
        out.push(v[i].clone());
        i += 1;
    }
    out
}

fn clone_opt_strings(o: &Option<Vec<String>>) -> (r: Option<Vec<String>>)
    ensures
        opt_str_vec_eq(r, *o),
{
    match o {
        Option::Some(v) => Option::Some(clone_strings(v)),
        Option::None => Option::None,
    }
}

/// One request-routing rule, as configured: record types still strings.
#[derive(Debug)]
pub struct RequestRuleConfig {
    pub domains: Option<Vec<String>>,
    pub types: Option<Vec<String>>,
    pub upstreams: Vec<String>,
}

/// One request-routing rule: record types as wire codes.
#[derive(Debug)]
pub struct RequestRule {
    pub domains: Option<Vec<String>>,
    pub types: Option<Vec<u16>>,
    pub upstreams: Vec<String>,
}

/// Every configured record type is written without ASCII lowercase and
/// names a known type.
pub open spec fn types_ok(ts: Seq<String>) -> bool {
    forall|i: int|
        0 <= i < ts.len() ==> crate::text::no_ascii_lower((#[trigger] ts[i])@)
            && record_type_code_of(ts[i]@) is Some
}

/// Whether a raw request rule builds.
pub open spec fn rule_conf_ok(c: RequestRuleConfig) -> bool {
    match c.types {
        Option::Some(ts) => types_ok(ts@),
        Option::None => true,
    }
}

/// What the built request rule holds: domains and upstreams copied, each
/// record type replaced by its wire code.
pub open spec fn rule_built(c: RequestRuleConfig, r: RequestRule) -> bool {
    &&& opt_str_vec_eq(r.domains, c.domains)
    &&& str_vec_eq(r.upstreams@, c.upstreams@)
    &&& match (c.types, r.types) {
        (Option::None, Option::None) => true,
        (Option::Some(ts), Option::Some(codes)) => codes@.len() == ts@.len() && forall|i: int|
            0 <= i < ts@.len() ==> Some(#[trigger] codes@[i]) == record_type_code_of(ts@[i]@),
        _ => false,
    }
}

impl RequestRuleConfig {
    /// Build one request rule, resolving its record-type names.
    pub fn build(&self) -> (r: Result<RequestRule, ConfigError>)
        ensures
            r is Ok <==> rule_conf_ok(*self),
            r is Ok ==> rule_built(*self, r->Ok_0),
            match r {
                Result::Err(ConfigError::InvalidAddress(a)) => match self.types {
                    Option::Some(ts) => exists|i: int|
                        0 <= i < ts@.len() && a@ == (#[trigger] ts@[i])@ && (
                        !crate::text::no_ascii_lower(ts@[i]@) || record_type_code_of(
                            ts@[i]@,
                        ) is None),
                    Option::None => false,
                },
                Result::Err(_) => false,
                Result::Ok(_) => true,
            },
    {
        let types: Option<Vec<u16>> = match &self.types {
            Option::None => Option::None,
            Option::Some(ts) => {
                let mut codes: Vec<u16> = Vec::new();
                let mut i: usize = 0;
                while i < ts.len()
                    invariant
                        self.types == Some(*ts),
                        i <= ts@.len(),
                        codes@.len() == i,
                        forall|j: int|
                            0 <= j < i ==> crate::text::no_ascii_lower((#[trigger] ts@[j])@),
                        forall|j: int|
                            0 <= j < i ==> Some(#[trigger] codes@[j]) == record_type_code_of(
                                ts@[j]@,
                            ),
                    decreases ts@.len() - i,
                {
                    // A lowercase letter can match no record-type name, and
                    // the parser does not admit one.
                    if crate::text::has_ascii_lower(ts[i].as_str()) {
                        let bad = ts[i].clone();
                        proof {
                            assert(0 <= i < ts@.len() && bad@ == (ts@[i as int])@
                                && !crate::text::no_ascii_lower(ts@[i as int]@));
                        }
                        return Result::Err(ConfigError::InvalidAddress(bad));
                    }
                    match parse_record_type(ts[i].as_str()) {
                        Option::Some(code) => codes.push(code),
                        Option::None => {
                            let bad = ts[i].clone();
                            proof {
                                assert(0 <= i < ts@.len() && bad@ == (ts@[i as int])@
                                    && record_type_code_of(ts@[i as int]@) is None);
                            }
                            return Result::Err(ConfigError::InvalidAddress(bad));
                        },
                    }
                    i += 1;
                }
                proof {
                    assert forall|j: int|
                        0 <= j < ts@.len() implies crate::text::no_ascii_lower(
                        (#[trigger] ts@[j])@,
                    ) && record_type_code_of(ts@[j]@) is Some by {
                        assert(Some(codes@[j]) == record_type_code_of(ts@[j]@));
                        assert(crate::text::no_ascii_lower(ts@[j]@));
                    }
                }
                Option::Some(codes)
            },
        };
        Result::Ok(
            RequestRule {
                domains: clone_opt_strings(&self.domains),
                types,
                upstreams: clone_strings(&self.upstreams),
            },
        )
    }
}

/// The verdict of a response rule.
#[derive(Debug, Clone, Copy, PartialEq, Eq, Structural)]
pub enum RuleAction {
    Accept,
    Drop,
}

/// One response-filter rule; absent predicates are wildcards.
#[derive(Debug)]
pub struct ResponseRule {
    pub upstreams: Option<Vec<String>>,
    pub ranges: Option<Vec<String>>,
    pub domains: Option<Vec<String>>,
    pub action: RuleAction,
}

/// The CIDR text of a range-list line: `None` when the trimmed line is
/// blank or a comment.
pub open spec fn range_line_entry(l: Seq<char>) -> Option<Seq<char>> {
    let t = trim(l);
    if t.len() == 0 || t[0] == '#' {
        Option::None
    } else {
        Option::Some(t)
    }
}

/// Whether a range-list line is acceptable: skipped, or a parseable CIDR.
pub open spec fn range_line_ok(l: Seq<char>) -> bool {
    match range_line_entry(l) {
        Option::None => true,
        Option::Some(t) => cidr_of(t) is Some,
    }
}

/// The CIDR block of parsed parts.
pub open spec fn cidr_from_parts(p: (bool, u128, u8)) -> Cidr {
    Cidr { is_v6: p.0, addr: p.1, prefix: p.2 }
}

/// Whether one range-list line covers the address.
pub open spec fn range_line_covers(l: Seq<char>, ip: IpAddress) -> bool {
    match range_line_entry(l) {
        Option::Some(t) => match cidr_of(t) {
            Option::Some(p) => IpRange::cidr_covers(cidr_from_parts(p), ip),
            Option::None => false,
        },
        Option::None => false,
    }
}

/// Whether any line of a range list covers the address.
pub open spec fn range_lines_cover(ls: Seq<String>, ip: IpAddress) -> bool {
    exists|j: int| 0 <= j < ls.len() && range_line_covers((#[trigger] ls[j])@, ip)
}

/// Every line of the list is acceptable.
pub open spec fn range_lines_ok(ls: Seq<String>) -> bool {
    forall|j: int| 0 <= j < ls.len() ==> range_line_ok((#[trigger] ls[j])@)
}

proof fn lemma_cover_extend(ls: Seq<String>, i: int, ip: IpAddress)
    requires
        0 <= i < ls.len(),
    ensures
        range_lines_cover(ls.take(i + 1), ip) <==> (range_lines_cover(ls.take(i), ip)
            || range_line_covers(ls[i]@, ip)),
{
    let a = ls.take(i + 1);
    let b = ls.take(i);
    if range_lines_cover(a, ip) {
        let j = choose|j: int| 0 <= j < a.len() && range_line_covers((#[trigger] a[j])@, ip);
        if j < i {
            assert(b[j] == a[j]);
            assert(range_lines_cover(b, ip));
        } else {
            assert(a[j] == ls[i]);
        }
    }
    if range_lines_cover(b, ip) {
        let j = choose|j: int| 0 <= j < b.len() && range_line_covers((#[trigger] b[j])@, ip);
        assert(a[j] == b[j]);
        assert(range_lines_cover(a, ip));
    }
    if range_line_covers(ls[i]@, ip) {
        assert(a[i] == ls[i]);
        assert(range_lines_cover(a, ip));
    }
}

/// Build one canonical IP range from its list lines.
pub(crate) fn build_range(lines: &Vec<String>) -> (r: Result<IpRange, ConfigError>)
    ensures
        r is Ok <==> range_lines_ok(lines@),
        r is Ok ==> r->Ok_0.wf() && (forall|ip: IpAddress| #[trigger]
            r->Ok_0.spec_contains(ip) <==> range_lines_cover(lines@, ip)),
        match r {
            Result::Err(ConfigError::InvalidAddress(a)) => exists|j: int|
                0 <= j < lines@.len() && range_line_entry((#[trigger] lines@[j])@) == Option::Some(
                    a@,
                ) && cidr_of(a@) is None,
            Result::Err(_) => false,
            Result::Ok(_) => true,
        },
{
    let mut range = IpRange::new();
    let mut i: usize = 0;
    while i < lines.len()
        invariant
            range.loading_wf(),
            i <= lines@.len(),
            forall|j: int| 0 <= j < i ==> range_line_ok((#[trigger] lines@[j])@),
            forall|ip: IpAddress| #[trigger]
                range.spec_contains(ip) <==> range_lines_cover(lines@.take(i as int), ip),
        decreases lines@.len() - i,
    {
        let ghost prev = range;
        let cs = chars_of(lines[i].as_str());
        let (a, b) = trim_bounds(&cs);
        let ghost t_view = trim(lines@[i as int]@);
        proof {
            assert(t_view == cs@.subrange(a as int, b as int));
        }
        if a == b || cs[a] == '#' {
            proof {
                if a != b {
                    assert(t_view[0] == cs@[a as int]);
                }
                assert(range_line_entry(lines@[i as int]@) is None);
            }
        } else {
            let t = string_of_range(&cs, a, b);
            proof {
                assert(t_view.len() > 0);
                assert(t_view[0] == cs@[a as int]);
                assert(range_line_entry(lines@[i as int]@) == Option::Some(t_view));
            }
            match parse_cidr(t.as_str()) {
                Option::Some(p) => {
                    proof {
                        assert(cidr_of(t_view) == Option::Some(p));
                    }
                    range.add(Cidr { is_v6: p.0, addr: p.1, prefix: p.2 });
                    proof {
                        assert forall|ip: IpAddress| range_line_covers(
                            lines@[i as int]@,
                            ip,
                        ) <==> IpRange::cidr_covers(cidr_from_parts(p), ip) by {}
                    }
                },
                Option::None => {
                    proof {
                        assert(cidr_of(t_view) is None);
                        assert(!range_line_ok(lines@[i as int]@));
                    }
                    return Result::Err(ConfigError::InvalidAddress(t));
                },
            }
        }
        proof {
            assert forall|ip: IpAddress| #[trigger]
                range.spec_contains(ip) <==> range_lines_cover(
                lines@.take(i + 1),
                ip,
            ) by {
                lemma_cover_extend(lines@, i as int, ip);
                assert(prev.spec_contains(ip) <==> range_lines_cover(lines@.take(i as int), ip));
            }
        }
        i += 1;
    }
    proof {
        assert(lines@.take(lines@.len() as int) =~= lines@);
    }
    range.simplify();
    Result::Ok(range)
}

/// The lines of a list, each trimmed, as sequences of characters.
pub open spec fn trimmed_views(ls: Seq<String>) -> Seq<Seq<char>> {
    Seq::new(ls.len(), |i: int| trim(ls[i]@))
}

/// What a built domain list holds: the regex and suffix entries of the
/// trimmed lines, in order.
pub open spec fn domains_built(ls: Seq<String>, d: Domains) -> bool {
    &&& d.regex_set@.len() == spec_regexes(trimmed_views(ls)).len()
    &&& d.suffix_set@.len() == spec_suffixes(trimmed_views(ls)).len()
    &&& forall|k: int|
        0 <= k < d.regex_set@.len() ==> (#[trigger] d.regex_set@[k])@ == spec_regexes(
            trimmed_views(ls),
        )[k]
    &&& forall|k: int|
        0 <= k < d.suffix_set@.len() ==> (#[trigger] d.suffix_set@[k])@ == spec_suffixes(
            trimmed_views(ls),
        )[k]
}

/// Build one domain list from its lines, trimming each line first.
pub(crate) fn build_domains_entry(lines: &Vec<String>) -> (d: Domains)
    ensures
        domains_built(lines@, d),
{
    let t = trimmed_lines(lines);
    let d = Domains::build(&t);
    proof {
        assert(t.deep_view() =~= trimmed_views(lines@));
    }
    d
}

/// The verified configuration, immutable once built.
#[derive(Debug)]
pub struct Config {
    pub bind: SocketAddress,
    pub default_upstreams: Vec<String>,
    pub upstreams: Vec<(String, Upstream)>,
    pub domains: Vec<(String, Domains)>,
    pub ranges: Vec<(String, IpRange)>,
    pub request_rules: Vec<RequestRule>,
    pub response_rules: Vec<ResponseRule>,
}

impl Config {
    /// Every stored range is canonical, so containment queries are valid.
    pub open spec fn wf(self) -> bool {
        forall|i: int| 0 <= i < self.ranges@.len() ==> (#[trigger] self.ranges@[i]).1.wf()
    }
}

/// The raw configuration, as the file parser delivers it: domain and
/// range lists as their lines, addresses as strings.
#[derive(Debug)]
pub struct ConfigBuilder {
    pub bind: String,
    pub upstreams: Vec<(String, UpstreamConfig)>,
    pub domains: Vec<(String, Vec<String>)>,
    pub ranges: Vec<(String, Vec<String>)>,
    pub requests: Vec<RequestRuleConfig>,
    pub responses: Vec<ResponseRule>,
}

/// The names of the upstreams marked default, in configuration order.
pub open spec fn spec_defaults(ups: Seq<(String, UpstreamConfig)>) -> Seq<Seq<char>>
    decreases ups.len(),
{
    if ups.len() == 0 {
        Seq::empty()
    } else {
        let rest = spec_defaults(ups.drop_last());
        if ups.last().1.default {
            rest.push(ups.last().0@)
        } else {
            rest
        }
    }
}

/// Whether a raw configuration builds: the bind address parses, every
/// upstream builds, some upstream is a default, every range line parses,
/// and every request rule builds.
pub open spec fn builder_ok(b: ConfigBuilder) -> bool {
    &&& spec_parse_sock(b.bind@, Option::None) is Some
    &&& forall|i: int|
        0 <= i < b.upstreams@.len() ==> upstream_conf_ok((#[trigger] b.upstreams@[i]).1)
    &&& spec_defaults(b.upstreams@).len() > 0
    &&& forall|i: int| 0 <= i < b.ranges@.len() ==> range_lines_ok((#[trigger] b.ranges@[i]).1@)
    &&& forall|i: int| 0 <= i < b.requests@.len() ==> rule_conf_ok(#[trigger] b.requests@[i])
}

/// What the built configuration holds, piece by piece.
pub open spec fn config_built(b: ConfigBuilder, c: Config) -> bool {
    &&& Option::Some(c.bind) == spec_parse_sock(b.bind@, Option::None)
    &&& c.default_upstreams.deep_view() == spec_defaults(b.upstreams@)
    &&& c.upstreams@.len() == b.upstreams@.len()
    &&& forall|i: int|
        0 <= i < b.upstreams@.len() ==> (#[trigger] c.upstreams@[i]).0@ == b.upstreams@[i].0@
            && upstream_built(b.upstreams@[i].1, c.upstreams@[i].1)
    &&& c.domains@.len() == b.domains@.len()
    &&& forall|i: int|
        0 <= i < b.domains@.len() ==> (#[trigger] c.domains@[i]).0@ == b.domains@[i].0@
            && domains_built(b.domains@[i].1@, c.domains@[i].1)
    &&& c.ranges@.len() == b.ranges@.len()
    &&& forall|i: int|
        0 <= i < b.ranges@.len() ==> (#[trigger] c.ranges@[i]).0@ == b.ranges@[i].0@
            && c.ranges@[i].1.wf() && (forall|ip: IpAddress| #[trigger]
            c.ranges@[i].1.spec_contains(ip) <==> range_lines_cover(b.ranges@[i].1@, ip))
    &&& c.request_rules@.len() == b.requests@.len()
    &&& forall|i: int|
        0 <= i < b.requests@.len() ==> rule_built(
            b.requests@[i],
            #[trigger] c.request_rules@[i],
        )
    &&& c.response_rules == b.responses
}

impl ConfigBuilder {
    /// Validate and build the configuration.
    pub fn build(self) -> (r: Result<Config, ConfigError>)
        ensures
            r is Ok <==> builder_ok(self),
            r is Ok ==> config_built(self, r->Ok_0) && r->Ok_0.wf(),
            match r {
                Result::Err(ConfigError::NoUpstream) => spec_defaults(self.upstreams@).len() == 0,
                Result::Err(ConfigError::NoTlsHost) => exists|i: int|
                    0 <= i < self.upstreams@.len() && !upstream_conf_ok(
                        (#[trigger] self.upstreams@[i]).1,
                    ),
                Result::Err(ConfigError::InvalidAddress(a)) => (a@ == self.bind@ && spec_parse_sock(
                    self.bind@,
                    Option::None,
                ) is None) || (exists|i: int|
                    0 <= i < self.upstreams@.len() && !upstream_conf_ok(
                        (#[trigger] self.upstreams@[i]).1,
                    )) || (exists|i: int|
                    0 <= i < self.ranges@.len() && !range_lines_ok((#[trigger] self.ranges@[i]).1@))
                    || (exists|i: int|
                    0 <= i < self.requests@.len() && !rule_conf_ok(#[trigger] self.requests@[i])),
                Result::Ok(_) => true,
            },
    {
        let ConfigBuilder { bind, upstreams, domains, ranges, requests, responses } = self;
        let bind_addr = match parse_sock(bind.as_str(), Option::None) {
            Option::Some(sa) => sa,
            Option::None => {
                return Result::Err(ConfigError::InvalidAddress(bind));
            },
        };
        let mut built_ups: Vec<(String, Upstream)> = Vec::new();
        let mut default_upstreams: Vec<String> = Vec::new();
        let mut i: usize = 0;
        while i < upstreams.len()
            invariant
                upstreams == self.upstreams,
                i <= upstreams@.len(),
                built_ups@.len() == i,
                forall|j: int| 0 <= j < i ==> upstream_conf_ok((#[trigger] upstreams@[j]).1),
                forall|j: int|
                    0 <= j < i ==> (#[trigger] built_ups@[j]).0@ == upstreams@[j].0@
                        && upstream_built(upstreams@[j].1, built_ups@[j].1),
                default_upstreams.deep_view() == spec_defaults(upstreams@.take(i as int)),
            decreases upstreams@.len() - i,
        {
            proof {
                assert(upstreams@.take(i + 1).drop_last() =~= upstreams@.take(i as int));
                assert(upstreams@.take(i + 1).last() == upstreams@[i as int]);
            }
            let pair = &upstreams[i];
            let ghost dv0 = default_upstreams.deep_view();
            if pair.1.default {
                default_upstreams.push(pair.0.clone());
                proof {
                    assert(default_upstreams.deep_view() =~= dv0.push(pair.0@));
                }
            }
            let up = match pair.1.build() {
                Result::Ok(u) => u,
                Result::Err(e) => {
                    return Result::Err(e);
                },
            };
            built_ups.push((pair.0.clone(), up));
            i += 1;
        }
        proof {
            assert(upstreams@.take(upstreams@.len() as int) =~= upstreams@);
        }
        if default_upstreams.is_empty() {
            proof {
                assert(default_upstreams.deep_view().len() == 0);
            }
            return Result::Err(ConfigError::NoUpstream);
        }
        let mut built_doms: Vec<(String, Domains)> = Vec::new();
        let mut i: usize = 0;
        while i < domains.len()
            invariant
                domains == self.domains,
                i <= domains@.len(),
                built_doms@.len() == i,
                forall|j: int|
                    0 <= j < i ==> (#[trigger] built_doms@[j]).0@ == domains@[j].0@ && domains_built(
                        domains@[j].1@,
                        built_doms@[j].1,
                    ),
            decreases domains@.len() - i,
        {
            let pair = &domains[i];
            let d = build_domains_entry(&pair.1);
            built_doms.push((pair.0.clone(), d));
            i += 1;
        }
        let mut built_ranges: Vec<(String, IpRange)> = Vec::new();
        let mut i: usize = 0;
        while i < ranges.len()
            invariant
                ranges == self.ranges,
                i <= ranges@.len(),
                built_ranges@.len() == i,
                forall|j: int| 0 <= j < i ==> range_lines_ok((#[trigger] ranges@[j]).1@),
                forall|j: int|
                    0 <= j < i ==> (#[trigger] built_ranges@[j]).0@ == ranges@[j].0@
                        && built_ranges@[j].1.wf() && (forall|ip: IpAddress| #[trigger]
                        built_ranges@[j].1.spec_contains(ip) <==> range_lines_cover(
                        ranges@[j].1@,
                        ip,
                    )),
            decreases ranges@.len() - i,
        {
            let pair = &ranges[i];
            let rg = match build_range(&pair.1) {
                Result::Ok(rg) => rg,
                Result::Err(e) => {
                    proof {
                        assert(!range_lines_ok(ranges@[i as int].1@));
                    }
                    return Result::Err(e);
                },
            };
            built_ranges.push((pair.0.clone(), rg));
            i += 1;
        }
        let mut request_rules: Vec<RequestRule> = Vec::new();
        let mut i: usize = 0;
        while i < requests.len()
            invariant
                requests == self.requests,
                i <= requests@.len(),
                request_rules@.len() == i,
                forall|j: int| 0 <= j < i ==> rule_conf_ok(#[trigger] requests@[j]),
                forall|j: int|
                    0 <= j < i ==> rule_built(requests@[j], #[trigger] request_rules@[j]),
            decreases requests@.len() - i,
        {
            let rule = match requests[i].build() {
                Result::Ok(rule) => rule,
                Result::Err(e) => {
                    return Result::Err(e);
                },
            };
            request_rules.push(rule);
            i += 1;
        }
        Result::Ok(
            Config {
                bind: bind_addr,
                default_upstreams,
                upstreams: built_ups,
                domains: built_doms,
                ranges: built_ranges,
                request_rules,
                response_rules: responses,
            },
        )
    }
}

} // verus!
