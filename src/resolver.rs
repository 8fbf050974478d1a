use vstd::prelude::*;

verus! {

/// The outcome of resolving one host: `status` is "success", "error" or
/// "timeout".
#[derive(Debug, Clone)]
pub struct DnsResult {
    pub host: String,
    pub ip_addresses: Vec<String>,
    pub status: String,
    pub error: Option<String>,
}

/// A request to resolve several hosts.
#[derive(Debug, Clone)]
pub struct DnsRequest {
    pub hosts: Vec<String>,
}

/// The outcomes of a request, with how many hosts resolved and how many did
/// not.
#[derive(Debug, Clone)]
pub struct DnsResponse {
    pub results: Vec<DnsResult>,
    pub total_resolved: usize,
    pub total_errors: usize,
}

/// How many of the results succeeded.
pub open spec fn count_success(rs: Seq<DnsResult>) -> nat
    decreases rs.len(),
{
    if rs.len() == 0 {
        0
    } else {
        count_success(rs.drop_last()) + if rs.last().status@ == "success"@ {
            1nat
        } else {
            0nat
        }
    }
}

impl DnsResult {
    /// A host that resolved to these addresses.
    pub fn success(host: String, ip_addresses: Vec<String>) -> (r: DnsResult)
        ensures
            r.host == host,
            r.ip_addresses == ip_addresses,
            r.status@ == "success"@,
            r.error.is_none(),
    {
        DnsResult { host, ip_addresses, status: String::from_str("success"), error: None }
    }

    /// A host whose lookup failed with this message.
    pub fn failure(host: String, message: String) -> (r: DnsResult)
        ensures
            r.host == host,
            r.ip_addresses@.len() == 0,
            r.status@ == "error"@,
            r.error == Some(message),
    {
        DnsResult { host, ip_addresses: Vec::new(), status: String::from_str("error"), error: Some(message) }
    }

    /// A host whose lookup did not finish in time.
    pub fn timeout(host: String) -> (r: DnsResult)
        ensures
            r.host == host,
            r.ip_addresses@.len() == 0,
            r.status@ == "timeout"@,
            r.error matches Some(e) && e@ == "DNS resolution timeout"@,
    {
        DnsResult {
            host,
            ip_addresses: Vec::new(),
            status: String::from_str("timeout"),
            error: Some(String::from_str("DNS resolution timeout")),
        }
    }
}

/// Gathers the results of a request, in order: a result counts as resolved
/// when its status is "success" and as an error otherwise.
pub fn summarize_results(results: Vec<DnsResult>) -> (r: DnsResponse)
    ensures
        r.results@ == results@,
        r.total_resolved == count_success(results@),
        r.total_resolved + r.total_errors == results@.len(),
{
    let success = String::from_str("success");
    let mut resolved: usize = 0;
    let mut i: usize = 0;
    while i < results.len()
        invariant
            i <= results@.len(),
            success@ == "success"@,
            resolved == count_success(results@.subrange(0, i as int)),
            resolved <= i,
        decreases results@.len() - i,
    {
        proof {
            assert(results@.subrange(0, i + 1).drop_last() =~= results@.subrange(0, i as int));
        }
        if results[i].status == success {
            resolved = resolved + 1;
        }
        i += 1;
    }
    proof {
        assert(results@.subrange(0, results@.len() as int) =~= results@);
    }
    let errors = results.len() - resolved;
    DnsResponse { results, total_resolved: resolved, total_errors: errors }
}

/// Why a request cannot be served: it names no host.
pub fn request_error(request: &DnsRequest) -> (r: Option<String>)
    ensures
        request.hosts@.len() == 0 ==> (r matches Some(m) && m@ == "No hosts provided"@),
        request.hosts@.len() > 0 ==> r is None,
{
    if request.hosts.len() == 0 {
        Some(String::from_str("No hosts provided"))
    } else {
        None
    }
}

} // verus!
