//! Settings the proxy is started from, and the addresses derived from them.

use vstd::prelude::*;
use vstd::string::StringExecFns;

verus! {

/// The decimal digit for `d` (expects `d < 10`).
pub open spec fn digit_char(d: nat) -> char {
    if d == 0 { '0' }
    else if d == 1 { '1' }
    else if d == 2 { '2' }
    else if d == 3 { '3' }
    else if d == 4 { '4' }
    else if d == 5 { '5' }
    else if d == 6 { '6' }
    else if d == 7 { '7' }
    else if d == 8 { '8' }
    else { '9' }
}

/// The decimal notation of `n`, without leading zeros.
pub open spec fn decimal(n: nat) -> Seq<char>
    decreases n,
{
    if n < 10 {
        seq![digit_char(n)]
    } else {
        decimal(n / 10) + seq![digit_char(n % 10)]
    }
}

/// `host:port`, the form in which addresses are handed to listeners and peers.
pub open spec fn host_port(host: Seq<char>, port: nat) -> Seq<char> {
    host + seq![':'] + decimal(port)
}

fn digit_str(d: u16) -> (r: &'static str)
    requires
        d < 10,
    ensures
        r@ == seq![digit_char(d as nat)],
{
    proof {
        reveal_strlit("0");
        reveal_strlit("1");
        reveal_strlit("2");
        reveal_strlit("3");
        reveal_strlit("4");
        reveal_strlit("5");
        reveal_strlit("6");
        reveal_strlit("7");
        reveal_strlit("8");
        reveal_strlit("9");
    }
    let r = if d == 0 { "0" }
    else if d == 1 { "1" }
    else if d == 2 { "2" }
    else if d == 3 { "3" }
    else if d == 4 { "4" }
    else if d == 5 { "5" }
    else if d == 6 { "6" }
    else if d == 7 { "7" }
    else if d == 8 { "8" }
    else { "9" };
    assert(r@ =~= seq![digit_char(d as nat)]);
    r
}

fn push_decimal(s: &mut String, n: u16)
    ensures
        final(s)@ == old(s)@ + decimal(n as nat),
    decreases n,
{
    if n >= 10 {
        push_decimal(s, n / 10);
    }
    s.append(digit_str(n % 10));
    assert(final(s)@ =~= old(s)@ + decimal(n as nat));
}

/// Joins a host and a port into `host:port`.
pub fn join_host_port(host: &str, port: u16) -> (r: String)
    ensures
        r@ == host_port(host@, port as nat),
{
    let mut r = String::from_str(host);
    proof { reveal_strlit(":"); }
    r.append(":");
    push_decimal(&mut r, port);
    assert(r@ =~= host_port(host@, port as nat));
    r
}

pub struct GeneralSettings {
    pub log_level: String,
    pub health_check_interval_secs: u64,
    pub cert_file: String,
    pub key_file: String,
}

pub struct ServerSettings {
    pub address: String,
    pub port: u16,
    pub tls_port: u16,
}

pub struct UpstreamSettings {
    pub address: String,
    pub port: u16,
}

/// The named upstreams are kept in the order in which they were configured.
pub struct Settings {
    pub general: GeneralSettings,
    pub server: ServerSettings,
    pub upstreams: Vec<(String, UpstreamSettings)>,
}

/// The `host:port` of each configured upstream, in configuration order.
pub open spec fn upstream_addresses(ups: Seq<(String, UpstreamSettings)>) -> Seq<Seq<char>> {
    Seq::new(ups.len(), |i: int| host_port(ups[i].1.address@, ups[i].1.port as nat))
}

impl Settings {
    pub fn get_log_level(&self) -> (r: &str)
        ensures
            r@ == self.general.log_level@,
    {
        self.general.log_level.as_str()
    }

    pub fn get_health_check_interval_secs(&self) -> (r: u64)
        ensures
            r == self.general.health_check_interval_secs,
    {
        self.general.health_check_interval_secs
    }

    pub fn get_upstream_addresses(&self) -> (r: Vec<String>)
        ensures
            r@.len() == self.upstreams@.len(),
            forall|i: int| 0 <= i < r@.len() ==> #[trigger] r@[i]@ == upstream_addresses(self.upstreams@)[i],
    {
        let mut r: Vec<String> = Vec::new();
        let mut i: usize = 0;
        while i < self.upstreams.len()
            invariant
                i <= self.upstreams@.len(),
                r@.len() == i,
                forall|k: int| 0 <= k < i ==> #[trigger] r@[k]@ == upstream_addresses(self.upstreams@)[k],
            decreases self.upstreams@.len() - i,
        {
            let up = &self.upstreams[i].1;
            r.push(join_host_port(up.address.as_str(), up.port));
            i = i + 1;
        }
        r
    }

    pub fn get_server_addr(&self) -> (r: String)
        ensures
            r@ == host_port(self.server.address@, self.server.port as nat),
    {
        join_host_port(self.server.address.as_str(), self.server.port)
    }

    pub fn get_tls_server_addr(&self) -> (r: String)
        ensures
            r@ == host_port(self.server.address@, self.server.tls_port as nat),
    {
        join_host_port(self.server.address.as_str(), self.server.tls_port)
    }

    pub fn get_cert_file(&self) -> (r: &str)
        ensures
            r@ == self.general.cert_file@,
    {
        self.general.cert_file.as_str()
    }

    pub fn get_key_file(&self) -> (r: &str)
        ensures
            r@ == self.general.key_file@,
    {
        self.general.key_file.as_str()
    }
}

} // verus!
