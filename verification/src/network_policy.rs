//! What an artifact may reach: allow rules over hosts, and the grants the capsule operator's own
//! manifest lowers to. A hook starts from nothing; a tool or driver starts from the capsule
//! ceiling and can only be narrowed.

use crate::errors::RuntimeError;
use crate::paths;
use crate::text;
use crate::workdir;
use crate::workdir::WorkdirSubpathRejection;
use vstd::prelude::*;

verus! {

// ── Rules ────────────────────────────────────────────────────────────────────

/// One entry of a network allow-list. An unset scheme or port is a wildcard.
#[derive(Debug, PartialEq, Eq)]
pub struct NetworkAllowRule {
    pub scheme: Option<String>,
    pub host: String,
    pub port: Option<u16>,
}

/// What a [`NetworkAllowRule`] stands for.
#[verifier::ext_equal]
pub struct NetRule {
    pub scheme: Option<Seq<char>>,
    pub host: Seq<char>,
    pub port: Option<u16>,
}

impl View for NetworkAllowRule {
    type V = NetRule;

    open spec fn view(&self) -> NetRule {
        NetRule { scheme: text::opt_text(self.scheme), host: self.host@, port: self.port }
    }
}

/// What a list of rules stands for.
pub open spec fn rules_view(v: Seq<NetworkAllowRule>) -> Seq<NetRule> {
    v.map_values(|r: NetworkAllowRule| r@)
}

/// Where a request goes.
#[derive(Debug, PartialEq, Eq)]
pub struct RequestTarget {
    pub scheme: String,
    pub host: String,
    pub port: Option<u16>,
}

/// What a [`RequestTarget`] stands for.
#[verifier::ext_equal]
pub struct TargetView {
    pub scheme: Seq<char>,
    pub host: Seq<char>,
    pub port: Option<u16>,
}

impl View for RequestTarget {
    type V = TargetView;

    open spec fn view(&self) -> TargetView {
        TargetView { scheme: self.scheme@, host: self.host@, port: self.port }
    }
}

impl NetRule {
    /// Whether this rule permits a request.
    pub open spec fn permits(self, target: TargetView) -> bool {
        &&& self.host == target.host
        &&& self.scheme is Some ==> self.scheme->0 == target.scheme
        &&& self.port is Some ==> target.port == self.port
    }

    /// Whether this rule already permits everything `narrower` would. An unset scheme or port is a
    /// wildcard here and a wish there, so clamping errs toward denial.
    pub open spec fn spans(self, narrower: NetRule) -> bool {
        &&& self.host == narrower.host
        &&& self.scheme is Some ==> narrower.scheme == self.scheme
        &&& self.port is Some ==> narrower.port == self.port
    }
}

/// The default port of a scheme.
pub open spec fn scheme_port(scheme: Seq<char>) -> Option<u16> {
    if scheme == "http"@ {
        Some(80)
    } else if scheme == "https"@ {
        Some(443)
    } else {
        None
    }
}

proof fn lemma_schemes()
    ensures
        "http"@ != "https"@,
{
    reveal_strlit("http");
    reveal_strlit("https");
    assert("http"@.len() == 4 && "https"@.len() == 5);
}

/// The default port of a scheme.
pub fn default_port_for_scheme(scheme: &str) -> (r: Option<u16>)
    ensures
        r == scheme_port(scheme@),
        scheme@ == "http"@ ==> r == Some(80u16),
        scheme@ == "https"@ ==> r == Some(443u16),
        scheme@ != "http"@ && scheme@ != "https"@ ==> r is None,
{
    proof {
        lemma_schemes();
    }
    if text::same(scheme, "http") {
        Some(80)
    } else if text::same(scheme, "https") {
        Some(443)
    } else {
        None
    }
}

// ── URLs ─────────────────────────────────────────────────────────────────────

/// The parts of a URL that a rule is made from.
#[derive(Debug, PartialEq, Eq)]
pub struct UrlParts {
    pub scheme: String,
    pub host: Option<String>,
    /// The port, when it is written and not the scheme's own.
    pub port: Option<u16>,
    pub path: String,
    pub has_query: bool,
    pub has_fragment: bool,
}

/// What a [`UrlParts`] stands for.
pub struct UrlView {
    pub scheme: Seq<char>,
    pub host: Option<Seq<char>>,
    pub port: Option<u16>,
    pub path: Seq<char>,
    pub has_query: bool,
    pub has_fragment: bool,
}

impl View for UrlParts {
    type V = UrlView;

    open spec fn view(&self) -> UrlView {
        UrlView {
            scheme: self.scheme@,
            host: text::opt_text(self.host),
            port: self.port,
            path: self.path@,
            has_query: self.has_query,
            has_fragment: self.has_fragment,
        }
    }
}

/// What a parse of a URL stands for.
pub open spec fn parse_view(r: Result<UrlParts, String>) -> Result<UrlView, Seq<char>> {
    match r {
        Ok(parts) => Ok(parts@),
        Err(e) => Err(e@),
    }
}

/// What `url::Url::parse` makes of a text: the parts of the URL, or the words of its error.
pub uninterp spec fn parsed_url(input: Seq<char>) -> Result<UrlView, Seq<char>>;

/// Trusted: `url::Url::parse` and the accessors of its result depend on the text alone.
#[verifier::external_body]
fn parse_url(input: &str) -> (r: Result<UrlParts, String>)
    ensures
        parse_view(r) == parsed_url(input@),
{
    match url::Url::parse(input) {
        Ok(url) => Ok(UrlParts {
            scheme: url.scheme().to_owned(),
            host: url.host_str().map(str::to_owned),
            port: url.port(),
            path: url.path().to_owned(),
            has_query: url.query().is_some(),
            has_fragment: url.fragment().is_some(),
        }),
        Err(err) => Err(err.to_string()),
    }
}

/// Why an allow entry is no rule: the entry as it is reported, and the words.
pub struct EntryFault {
    pub entry: Seq<char>,
    pub message: Seq<char>,
}

/// The rule of an entry with a scheme, from what parsing it as a URL gave.
pub open spec fn url_rule(entry: Seq<char>, parsed: Result<UrlView, Seq<char>>) -> Result<
    NetRule,
    EntryFault,
> {
    match parsed {
        Err(e) => Err(EntryFault { entry, message: "invalid URL: "@ + e }),
        Ok(url) => {
            let scheme = text::lowered(url.scheme);
            if scheme != "http"@ && scheme != "https"@ {
                Err(
                    EntryFault {
                        entry,
                        message: "unsupported URL scheme '"@ + scheme
                            + "' (expected http or https)"@,
                    },
                )
            } else if url.has_query || url.has_fragment || (url.path != ""@ && url.path != "/"@) {
                Err(
                    EntryFault {
                        entry,
                        message: "URL allow entries must not include path, query, or fragment"@,
                    },
                )
            } else {
                match url.host {
                    None => Err(
                        EntryFault {
                            entry,
                            message: "URL allow entries must include a host"@,
                        },
                    ),
                    Some(host) => Ok(
                        NetRule {
                            scheme: Some(scheme),
                            host: text::lowered(host),
                            port: match url.port {
                                Some(p) => Some(p),
                                None => scheme_port(scheme),
                            },
                        },
                    ),
                }
            }
        },
    }
}

/// The rule of an entry without a scheme, from what parsing it behind `http://` gave.
pub open spec fn host_rule(entry: Seq<char>, parsed: Result<UrlView, Seq<char>>) -> Result<
    NetRule,
    EntryFault,
> {
    match parsed {
        Err(e) => Err(EntryFault { entry, message: "invalid host allow entry: "@ + e }),
        Ok(url) => if url.path != "/"@ || url.has_query || url.has_fragment {
            Err(
                EntryFault {
                    entry,
                    message: "host allow entries must be host or host:port only"@,
                },
            )
        } else {
            match url.host {
                None => Err(
                    EntryFault { entry, message: "host allow entries must include a host"@ },
                ),
                Some(host) => Ok(
                    NetRule { scheme: None, host: text::lowered(host), port: url.port },
                ),
            }
        },
    }
}

/// The rule an entry declares.
pub open spec fn rule_of(entry: Seq<char>) -> Result<NetRule, EntryFault> {
    let trimmed = text::trim(entry);
    if trimmed.len() == 0 {
        Err(EntryFault { entry, message: "entry must not be empty"@ })
    } else if text::holds(trimmed, "://"@) {
        url_rule(trimmed, parsed_url(trimmed))
    } else {
        host_rule(trimmed, parsed_url("http://"@ + trimmed))
    }
}

/// Whether an error reports a fault of an entry.
pub open spec fn reports(e: RuntimeError, fault: EntryFault) -> bool {
    match e {
        RuntimeError::InvalidNetworkAllowEntry { entry, message } => entry@ == fault.entry
            && message@ == fault.message,
        _ => false,
    }
}

/// Whether a result is the rule wanted, or reports the fault wanted.
pub open spec fn is_rule(r: Result<NetworkAllowRule, RuntimeError>, wanted: Result<
    NetRule,
    EntryFault,
>) -> bool {
    match (r, wanted) {
        (Ok(rule), Ok(w)) => rule@ == w,
        (Err(e), Err(fault)) => reports(e, fault),
        _ => false,
    }
}

fn entry_fault<T>(entry: &str, message: &str) -> (r: Result<T, RuntimeError>)
    ensures
        r is Err,
        reports(r->Err_0, EntryFault { entry: entry@, message: message@ }),
{
    Err(
        RuntimeError::InvalidNetworkAllowEntry {
            entry: entry.to_owned(),
            message: message.to_owned(),
        },
    )
}

/// The rule of an entry with a scheme, from what parsing it as a URL gave.
pub fn rule_from_url(entry: &str, parsed: Result<UrlParts, String>) -> (r: Result<
    NetworkAllowRule,
    RuntimeError,
>)
    ensures
        is_rule(r, url_rule(entry@, parse_view(parsed))),
        r is Ok ==> {
            let url = parsed->Ok_0;
            let rule = r->Ok_0;
            &&& parsed is Ok
            &&& rule.scheme is Some && rule.scheme->0@ == text::lowered(url.scheme@)
            &&& rule.scheme->0@ == "http"@ || rule.scheme->0@ == "https"@
            &&& url.host is Some && rule.host@ == text::lowered(url.host->0@)
            &&& url.port is Some ==> rule.port == url.port
            &&& url.port is None && rule.scheme->0@ == "http"@ ==> rule.port == Some(80u16)
            &&& url.port is None && rule.scheme->0@ == "https"@ ==> rule.port == Some(443u16)
            &&& !url.has_query && !url.has_fragment
            &&& url.path@ == ""@ || url.path@ == "/"@
        },
        r is Err <==> !(parsed is Ok && parsed->Ok_0.host is Some && !parsed->Ok_0.has_query
            && !parsed->Ok_0.has_fragment && (parsed->Ok_0.path@ == ""@ || parsed->Ok_0.path@
            == "/"@) && (text::lowered(parsed->Ok_0.scheme@) == "http"@ || text::lowered(
            parsed->Ok_0.scheme@,
        ) == "https"@)),
{
    let url = match parsed {
        Ok(url) => url,
        Err(e) => return entry_fault(entry, text::cat2("invalid URL: ", e.as_str()).as_str()),
    };
    proof {
        lemma_schemes();
    }
    let scheme = text::ascii_lowered(url.scheme.as_str());
    if !text::same(scheme.as_str(), "http") && !text::same(scheme.as_str(), "https") {
        let words = text::cat3(
            "unsupported URL scheme '",
            scheme.as_str(),
            "' (expected http or https)",
        );
        return entry_fault(entry, words.as_str());
    }
    if url.has_query || url.has_fragment || (!text::same(url.path.as_str(), "") && !text::same(
        url.path.as_str(),
        "/",
    )) {
        return entry_fault(
            entry,
            "URL allow entries must not include path, query, or fragment",
        );
    }
    match url.host {
        None => entry_fault(entry, "URL allow entries must include a host"),
        Some(host) => {
            let port = match url.port {
                Some(p) => Some(p),
                None => default_port_for_scheme(scheme.as_str()),
            };
            Ok(
                NetworkAllowRule {
                    scheme: Some(scheme),
                    host: text::ascii_lowered(host.as_str()),
                    port,
                },
            )
        },
    }
}

/// The rule of an entry without a scheme, from what parsing it behind `http://` gave.
pub fn rule_from_host(entry: &str, parsed: Result<UrlParts, String>) -> (r: Result<
    NetworkAllowRule,
    RuntimeError,
>)
    ensures
        is_rule(r, host_rule(entry@, parse_view(parsed))),
        r is Ok ==> {
            let url = parsed->Ok_0;
            let rule = r->Ok_0;
            &&& rule.scheme is None
            &&& url.host is Some && rule.host@ == text::lowered(url.host->0@)
            &&& rule.port == url.port
        },
        r is Ok <==> (parsed is Ok && parsed->Ok_0.host is Some && !parsed->Ok_0.has_query
            && !parsed->Ok_0.has_fragment && parsed->Ok_0.path@ == "/"@),
{
    let url = match parsed {
        Ok(url) => url,
        Err(e) => return entry_fault(
            entry,
            text::cat2("invalid host allow entry: ", e.as_str()).as_str(),
        ),
    };
    if !text::same(url.path.as_str(), "/") || url.has_query || url.has_fragment {
        return entry_fault(entry, "host allow entries must be host or host:port only");
    }
    match url.host {
        None => entry_fault(entry, "host allow entries must include a host"),
        Some(host) => Ok(
            NetworkAllowRule {
                scheme: None,
                host: text::ascii_lowered(host.as_str()),
                port: url.port,
            },
        ),
    }
}

impl NetworkAllowRule {
    /// The rule an entry declares.
    pub fn parse(entry: &str) -> (r: Result<Self, RuntimeError>)
        ensures
            is_rule(r, rule_of(entry@)),
            text::trim(entry@).len() == 0 ==> r is Err,
            text::trim(entry@).len() > 0 && text::holds(text::trim(entry@), "://"@) ==> is_rule(
                r,
                url_rule(text::trim(entry@), parsed_url(text::trim(entry@))),
            ),
            text::trim(entry@).len() > 0 && !text::holds(text::trim(entry@), "://"@) ==> is_rule(
                r,
                host_rule(text::trim(entry@), parsed_url("http://"@ + text::trim(entry@))),
            ),
            r is Err ==> r->Err_0 is InvalidNetworkAllowEntry,
    {
        if text::is_blank(entry) {
            return entry_fault(entry, "entry must not be empty");
        }
        let trimmed = text::trimmed(entry);
        if text::contains(trimmed.as_str(), "://") {
            rule_from_url(trimmed.as_str(), parse_url(trimmed.as_str()))
        } else {
            let prefixed = text::cat2("http://", trimmed.as_str());
            rule_from_host(trimmed.as_str(), parse_url(prefixed.as_str()))
        }
    }

    /// Whether this rule already permits everything `narrower` would.
    pub fn covers(&self, narrower: &NetworkAllowRule) -> (r: bool)
        ensures
            r == self@.spans(narrower@),
            r ==> self.host@ == narrower.host@,
            r && self.scheme is Some ==> narrower.scheme is Some && narrower.scheme->0@
                == self.scheme->0@,
            r && self.port is Some ==> narrower.port == self.port,
            self.host@ == narrower.host@ && (self.scheme is None || (narrower.scheme is Some
                && narrower.scheme->0@ == self.scheme->0@)) && (self.port is None || self.port
                == narrower.port) ==> r,
    {
        if !text::same(self.host.as_str(), narrower.host.as_str()) {
            return false;
        }
        if let Some(expected) = &self.scheme {
            let same = match &narrower.scheme {
                Some(s) => text::same(s.as_str(), expected.as_str()),
                None => false,
            };
            if !same {
                return false;
            }
        }
        match (self.port, narrower.port) {
            (Some(expected), Some(port)) => port == expected,
            (Some(_), None) => false,
            (None, _) => true,
        }
    }

    /// Whether this rule permits a request.
    pub fn matches(&self, target: &RequestTarget) -> (r: bool)
        ensures
            r == self@.permits(target@),
            r ==> self.host@ == target.host@,
            r && self.scheme is Some ==> target.scheme@ == self.scheme->0@,
            r && self.port is Some ==> target.port == self.port,
            self.host@ == target.host@ && (self.scheme is None || self.scheme->0@
                == target.scheme@) && (self.port is None || self.port == target.port) ==> r,
    {
        if !text::same(self.host.as_str(), target.host.as_str()) {
            return false;
        }
        if let Some(expected) = &self.scheme {
            if !text::same(expected.as_str(), target.scheme.as_str()) {
                return false;
            }
        }
        match (self.port, target.port) {
            (Some(expected), Some(port)) => port == expected,
            (Some(_), None) => false,
            (None, _) => true,
        }
    }
}

/// The rules a list of entries declares, or the fault of the first that declares none.
pub open spec fn rules_of(entries: Seq<Seq<char>>) -> Result<Seq<NetRule>, EntryFault>
    decreases entries.len(),
{
    if entries.len() == 0 {
        Ok(Seq::empty())
    } else {
        match rules_of(entries.drop_last()) {
            Err(fault) => Err(fault),
            Ok(rules) => match rule_of(entries.last()) {
                Ok(rule) => Ok(rules.push(rule)),
                Err(fault) => Err(fault),
            },
        }
    }
}

/// Whether a result is the list of rules wanted, or reports the fault wanted.
pub open spec fn are_rules(r: Result<Vec<NetworkAllowRule>, RuntimeError>, wanted: Result<
    Seq<NetRule>,
    EntryFault,
>) -> bool {
    match (r, wanted) {
        (Ok(rules), Ok(w)) => rules_view(rules@) == w,
        (Err(e), Err(fault)) => reports(e, fault),
        _ => false,
    }
}

proof fn lemma_rules_fault(entries: Seq<Seq<char>>, n: int)
    requires
        0 <= n <= entries.len(),
        rules_of(entries.take(n)) is Err,
    ensures
        rules_of(entries) == rules_of(entries.take(n)),
    decreases entries.len() - n,
{
    if n < entries.len() {
        assert(entries.take(n + 1).drop_last() =~= entries.take(n));
        lemma_rules_fault(entries, n + 1);
    } else {
        assert(entries.take(n) =~= entries);
    }
}

/// The rules a list of entries declares. The first entry that declares none is reported.
pub fn parse_network_allow_rules(entries: &[String]) -> (r: Result<
    Vec<NetworkAllowRule>,
    RuntimeError,
>)
    ensures
        are_rules(r, rules_of(text::texts(entries@))),
        r is Ok ==> r->Ok_0@.len() == entries@.len(),
        r is Ok ==> forall|i: int|
            0 <= i < entries@.len() ==> rule_of(entries@[i]@) == Ok::<NetRule, EntryFault>(
                (#[trigger] r->Ok_0@[i])@,
            ),
{
    let ghost all = text::texts(entries@);
    let mut rules: Vec<NetworkAllowRule> = Vec::new();
    let mut i: usize = 0;
    proof {
        assert(rules_view(rules@) =~= Seq::<NetRule>::empty());
        assert(all.take(0).len() == 0);
    }
    while i < entries.len()
        invariant
            i <= entries@.len(),
            all == text::texts(entries@),
            rules_of(all.take(i as int)) == Ok::<Seq<NetRule>, EntryFault>(rules_view(rules@)),
            rules@.len() == i,
            forall|j: int|
                0 <= j < i ==> rule_of(entries@[j]@) == Ok::<NetRule, EntryFault>(
                    (#[trigger] rules@[j])@,
                ),
        decreases entries@.len() - i,
    {
        proof {
            assert(all.take(i + 1).drop_last() =~= all.take(i as int));
            assert(all.take(i + 1).last() == entries@[i as int]@);
        }
        match NetworkAllowRule::parse(entries[i].as_str()) {
            Ok(rule) => {
                let ghost before = rules@;
                let ghost added = rule@;
                rules.push(rule);
                proof {
                    assert(rules_view(rules@) =~= rules_view(before).push(added));
                }
            },
            Err(e) => {
                proof {
                    lemma_rules_fault(all, i + 1);
                }
                return Err(e);
            },
        }
        i += 1;
    }
    proof {
        assert(all.take(all.len() as int) =~= all);
    }
    Ok(rules)
}

// ── Requests ─────────────────────────────────────────────────────────────────

/// The parts of a request URI that decide where it goes: its scheme, and the host and port of its
/// authority when it has one.
#[derive(Debug, PartialEq, Eq)]
pub struct UriParts {
    pub scheme: Option<String>,
    pub authority: Option<(String, Option<u16>)>,
}

/// What a [`UriParts`] stands for.
pub struct UriView {
    pub scheme: Option<Seq<char>>,
    pub authority: Option<(Seq<char>, Option<u16>)>,
}

impl View for UriParts {
    type V = UriView;

    open spec fn view(&self) -> UriView {
        UriView {
            scheme: text::opt_text(self.scheme),
            authority: match self.authority {
                Some(a) => Some((a.0@, a.1)),
                None => None,
            },
        }
    }
}

/// What an optional URI stands for.
pub open spec fn opt_uri(o: Option<UriParts>) -> Option<UriView> {
    match o {
        Some(u) => Some(u@),
        None => None,
    }
}

/// What `http::Uri` makes of a text.
pub uninterp spec fn parsed_uri(input: Seq<char>) -> Option<UriView>;

/// Trusted: parsing a text as an `http::Uri`, and the scheme, host and port of the result, depend
/// on the text alone.
#[verifier::external_body]
fn parse_uri(input: &str) -> (r: Option<UriParts>)
    ensures
        opt_uri(r) == parsed_uri(input@),
{
    match input.parse::<http::Uri>() {
        Ok(uri) => Some(UriParts {
            scheme: uri.scheme_str().map(str::to_owned),
            authority: uri.authority().map(|a| (a.host().to_owned(), a.port_u16())),
        }),
        Err(_) => None,
    }
}

/// Where a request goes. Without an authority it goes nowhere; without a scheme, TLS decides; and
/// without a port, the scheme does.
pub open spec fn target_of(uri: UriView, use_tls: bool) -> Option<TargetView> {
    match uri.authority {
        None => None,
        Some((host, port)) => {
            let scheme = match uri.scheme {
                Some(s) => text::lowered(s),
                None => if use_tls {
                    "https"@
                } else {
                    "http"@
                },
            };
            Some(
                TargetView {
                    scheme,
                    host: text::lowered(host),
                    port: match port {
                        Some(p) => Some(p),
                        None => scheme_port(scheme),
                    },
                },
            )
        },
    }
}

/// What an optional target stands for.
pub open spec fn opt_target(o: Option<RequestTarget>) -> Option<TargetView> {
    match o {
        Some(t) => Some(t@),
        None => None,
    }
}

impl RequestTarget {
    /// Where a request goes, from the parts of its URI.
    pub fn from_parts(uri: &UriParts, use_tls: bool) -> (r: Option<Self>)
        ensures
            opt_target(r) == target_of(uri@, use_tls),
            r is Some <==> uri.authority is Some,
            r is Some ==> {
                let target = r->0;
                let authority = uri.authority->0;
                &&& target.host@ == text::lowered(authority.0@)
                &&& uri.scheme is Some ==> target.scheme@ == text::lowered(uri.scheme->0@)
                &&& uri.scheme is None && use_tls ==> target.scheme@ == "https"@
                &&& uri.scheme is None && !use_tls ==> target.scheme@ == "http"@
                &&& authority.1 is Some ==> target.port == authority.1
                &&& authority.1 is None && target.scheme@ == "http"@ ==> target.port == Some(80u16)
                &&& authority.1 is None && target.scheme@ == "https"@ ==> target.port == Some(
                    443u16,
                )
                &&& authority.1 is None && target.scheme@ != "http"@ && target.scheme@ != "https"@
                    ==> target.port is None
            },
    {
        match &uri.authority {
            None => None,
            Some(authority) => {
                proof {
                    lemma_schemes();
                }
                let scheme = match &uri.scheme {
                    Some(s) => text::ascii_lowered(s.as_str()),
                    None => if use_tls {
                        "https".to_owned()
                    } else {
                        "http".to_owned()
                    },
                };
                let port = match authority.1 {
                    Some(p) => Some(p),
                    None => default_port_for_scheme(scheme.as_str()),
                };
                Some(
                    RequestTarget { host: text::ascii_lowered(authority.0.as_str()), scheme, port },
                )
            },
        }
    }

    /// Where a request goes.
    pub fn from_request(uri: &str, use_tls: bool) -> (r: Option<Self>)
        ensures
            opt_target(r) == (match parsed_uri(uri@) {
                Some(parts) => target_of(parts, use_tls),
                None => None,
            }),
    {
        match parse_uri(uri) {
            Some(parts) => RequestTarget::from_parts(&parts, use_tls),
            None => None,
        }
    }
}

// ── Declared capabilities ────────────────────────────────────────────────────

/// `capabilities.network`.
#[derive(Debug, PartialEq, Eq)]
pub struct NetworkCapabilities {
    pub allow: Vec<String>,
}

/// `capabilities.filesystem`.
#[derive(Debug, PartialEq, Eq)]
pub struct FilesystemCapabilities {
    pub scope: Option<String>,
}

/// `capabilities.state`.
#[derive(Debug, PartialEq, Eq)]
pub struct StateCapabilities {
    pub store: Option<String>,
}

/// `capabilities.task_io`.
#[derive(Debug, PartialEq, Eq)]
pub struct TaskIoCapabilities {
    pub read: bool,
}

/// `capabilities.conversation`.
#[derive(Debug, PartialEq, Eq)]
pub struct ConversationCapabilities {
    pub read: bool,
}

/// The sub-blocks of a `capabilities:` entry that a per-artifact grant reads.
#[derive(Debug, PartialEq, Eq)]
pub struct Capabilities {
    pub network: Option<NetworkCapabilities>,
    pub filesystem: Option<FilesystemCapabilities>,
    pub state: Option<StateCapabilities>,
    pub task_io: Option<TaskIoCapabilities>,
    pub conversation: Option<ConversationCapabilities>,
}

/// The filesystem scope a block declares.
pub open spec fn declared_scope(c: Capabilities) -> Option<Seq<char>> {
    match c.filesystem {
        Some(f) => text::opt_text(f.scope),
        None => None,
    }
}

/// Whether a name is a single usable path segment: not empty, no separator in it, and not hidden.
pub open spec fn usable_store(name: Seq<char>) -> bool {
    name.len() > 0 && !name.contains('/') && !text::begins(name, '.')
}

/// The store a block asks for: the one it names, else the capsule's own name.
pub open spec fn asked_store(c: Capabilities, capsule_name: Seq<char>) -> Option<Seq<char>> {
    match c.state {
        Some(s) => match text::opt_text(s.store) {
            Some(name) => Some(name),
            None => Some(capsule_name),
        },
        None => None,
    }
}

/// Why a block cannot be granted.
pub enum GrantFault {
    Entry(EntryFault),
    Scope(Seq<char>, WorkdirSubpathRejection),
    Store(Seq<char>),
}

/// The fault of a declared scope or store, if any.
pub open spec fn scope_or_store_fault(c: Capabilities, capsule_name: Seq<char>) -> Option<
    GrantFault,
> {
    match declared_scope(c) {
        Some(scope) => match workdir::lowered_subpath(scope) {
            Err(why) => Some(GrantFault::Scope(scope, why)),
            Ok(_) => store_fault(c, capsule_name),
        },
        None => store_fault(c, capsule_name),
    }
}

/// The fault of a declared store, if any.
pub open spec fn store_fault(c: Capabilities, capsule_name: Seq<char>) -> Option<GrantFault> {
    match asked_store(c, capsule_name) {
        Some(name) => if usable_store(name) {
            None
        } else {
            Some(GrantFault::Store(name))
        },
        None => None,
    }
}

/// Whether a block's scope stays below the workdir, and its store is one plain path segment.
pub open spec fn is_sound_block(c: Capabilities, capsule_name: Seq<char>) -> bool {
    &&& c.filesystem is Some && c.filesystem->0.scope is Some ==> {
        let scope = c.filesystem->0.scope->0@;
        !text::begins(scope, '/') && paths::settled(paths::path_of(scope).parts) is Some
    }
    &&& c.state is Some && c.state->0.store is Some ==> {
        let store = c.state->0.store->0@;
        store.len() > 0 && !store.contains('/') && store[0] != '.'
    }
    &&& c.state is Some && c.state->0.store is None ==> capsule_name.len() > 0
        && !capsule_name.contains('/') && capsule_name[0] != '.'
}

/// Whether an error reports the fault of a block.
pub open spec fn reports_grant(e: RuntimeError, fault: GrantFault) -> bool {
    match fault {
        GrantFault::Entry(f) => reports(e, f),
        GrantFault::Scope(scope, why) => workdir::says_scope_rejected(e, scope, why),
        GrantFault::Store(name) => match e {
            RuntimeError::InvalidStateStore { store, message } => store@ == name && message@
                == "a store name is one path segment that does not start with a dot"@,
            _ => false,
        },
    }
}

/// Validates a store name.
pub fn validate_store_name(name: &str) -> (r: Result<(), RuntimeError>)
    ensures
        match r {
            Ok(_) => usable_store(name@),
            Err(e) => !usable_store(name@) && reports_grant(e, GrantFault::Store(name@)),
        },
        r is Ok <==> name@.len() > 0 && !name@.contains('/') && name@[0] != '.',
        r is Err ==> r->Err_0 is InvalidStateStore,
{
    proof {
        reveal_strlit("");
        if name@.len() == 0 {
            assert(name@ =~= ""@);
        }
    }
    if text::same(name, "") || text::contains_char(name, '/') || text::begins_with(name, '.') {
        Err(
            RuntimeError::InvalidStateStore {
                store: name.to_owned(),
                message: "a store name is one path segment that does not start with a dot".to_owned(),
            },
        )
    } else {
        Ok(())
    }
}

fn scope_and_store(c: &Capabilities, capsule_name: &str) -> (r: Result<
    (Option<String>, Option<String>),
    RuntimeError,
>)
    ensures
        match (r, scope_or_store_fault(*c, capsule_name@)) {
            (Ok(pair), None) => text::opt_text(pair.0) == declared_scope(*c) && text::opt_text(
                pair.1,
            ) == asked_store(*c, capsule_name@),
            (Err(e), Some(fault)) => reports_grant(e, fault),
            _ => false,
        },
{
    let scope = match &c.filesystem {
        Some(f) => text::clone_opt(&f.scope),
        None => None,
    };
    if let Some(s) = &scope {
        if let Err(e) = workdir::validate_filesystem_scope(s.as_str()) {
            return Err(e);
        }
    }
    let store = match &c.state {
        None => None,
        Some(state) => {
            let name = match &state.store {
                Some(name) => name.clone(),
                None => capsule_name.to_owned(),
            };
            if let Err(e) = validate_store_name(name.as_str()) {
                return Err(e);
            }
            Some(name)
        },
    };
    Ok((scope, store))
}

// ── Grants ───────────────────────────────────────────────────────────────────

/// A hook's grant. Its default is to deny everything.
#[derive(Debug, PartialEq, Eq)]
pub struct HookCapabilityGrant {
    /// Hosts this hook may reach. Empty means none.
    pub network_allow_rules: Vec<NetworkAllowRule>,
    /// Path below the hook's working directory to preopen. `None` preopens nothing.
    pub filesystem_scope: Option<String>,
    /// Whether the hook may read the task's input and result.
    pub task_io_read: bool,
    /// Whether the hook may read the conversation record.
    pub conversation_read: bool,
    /// The name of the durable store, when one is granted.
    pub state_store: Option<String>,
    /// Where that store is, once staging has made it.
    pub state_dir: Option<String>,
    /// The hook's own configuration, filled by staging.
    pub config_json: Option<String>,
}

/// What a [`HookCapabilityGrant`] stands for.
#[verifier::ext_equal]
pub struct HookGrantView {
    pub network_allow_rules: Seq<NetRule>,
    pub filesystem_scope: Option<Seq<char>>,
    pub task_io_read: bool,
    pub conversation_read: bool,
    pub state_store: Option<Seq<char>>,
    pub state_dir: Option<Seq<char>>,
    pub config_json: Option<Seq<char>>,
}

impl View for HookCapabilityGrant {
    type V = HookGrantView;

    open spec fn view(&self) -> HookGrantView {
        HookGrantView {
            network_allow_rules: rules_view(self.network_allow_rules@),
            filesystem_scope: text::opt_text(self.filesystem_scope),
            task_io_read: self.task_io_read,
            conversation_read: self.conversation_read,
            state_store: text::opt_text(self.state_store),
            state_dir: text::opt_text(self.state_dir),
            config_json: text::opt_text(self.config_json),
        }
    }
}

/// The grant of a hook that is granted nothing.
pub open spec fn no_hook_grant() -> HookGrantView {
    HookGrantView {
        network_allow_rules: Seq::empty(),
        filesystem_scope: None,
        task_io_read: false,
        conversation_read: false,
        state_store: None,
        state_dir: None,
        config_json: None,
    }
}

/// The grant a hook's block lowers to, or why it does not. Each axis is its own: none widens
/// another.
pub open spec fn hook_grant(c: Option<Capabilities>, capsule_name: Seq<char>) -> Result<
    HookGrantView,
    GrantFault,
> {
    match c {
        None => Ok(no_hook_grant()),
        Some(c) => {
            let rules = match c.network {
                Some(network) => rules_of(text::texts(network.allow@)),
                None => Ok(Seq::empty()),
            };
            match rules {
                Err(fault) => Err(GrantFault::Entry(fault)),
                Ok(rules) => match scope_or_store_fault(c, capsule_name) {
                    Some(fault) => Err(fault),
                    None => Ok(
                        HookGrantView {
                            network_allow_rules: rules,
                            filesystem_scope: declared_scope(c),
                            task_io_read: match c.task_io {
                                Some(t) => t.read,
                                None => false,
                            },
                            conversation_read: match c.conversation {
                                Some(t) => t.read,
                                None => false,
                            },
                            state_store: asked_store(c, capsule_name),
                            state_dir: None,
                            config_json: None,
                        },
                    ),
                },
            }
        },
    }
}

/// Whether a result is the hook grant wanted, or reports the fault wanted.
pub open spec fn is_hook_grant(r: Result<HookCapabilityGrant, RuntimeError>, wanted: Result<
    HookGrantView,
    GrantFault,
>) -> bool {
    match (r, wanted) {
        (Ok(grant), Ok(w)) => grant@ == w,
        (Err(e), Err(fault)) => reports_grant(e, fault),
        _ => false,
    }
}

/// The block a reference points at.
pub open spec fn block_of(c: Option<&Capabilities>) -> Option<Capabilities> {
    match c {
        Some(c) => Some(*c),
        None => None,
    }
}

impl HookCapabilityGrant {
    /// The grant of a hook that is granted nothing.
    pub fn none() -> (r: Self)
        ensures
            r@ == no_hook_grant(),
            r.network_allow_rules@.len() == 0,
    {
        let rules: Vec<NetworkAllowRule> = Vec::new();
        proof {
            assert(rules_view(rules@) =~= Seq::<NetRule>::empty());
        }
        HookCapabilityGrant {
            network_allow_rules: rules,
            filesystem_scope: None,
            task_io_read: false,
            conversation_read: false,
            state_store: None,
            state_dir: None,
            config_json: None,
        }
    }

    /// Lowers a hook's block into a grant. No block, and an empty one, grant nothing.
    pub fn derive(capabilities: Option<&Capabilities>, capsule_name: &str) -> (r: Result<
        Self,
        RuntimeError,
    >)
        ensures
            is_hook_grant(r, hook_grant(block_of(capabilities), capsule_name@)),
            r is Ok && capabilities is Some ==> {
                let c = capabilities->0;
                let grant = r->Ok_0;
                &&& grant.task_io_read <==> c.task_io is Some && c.task_io->0.read
                &&& grant.conversation_read <==> c.conversation is Some && c.conversation->0.read
                &&& grant.filesystem_scope is Some <==> c.filesystem is Some
                    && c.filesystem->0.scope is Some
                &&& grant.filesystem_scope is Some ==> grant.filesystem_scope->0@
                    == c.filesystem->0.scope->0@
                &&& grant.state_store is Some <==> c.state is Some
                &&& c.state is Some && c.state->0.store is Some ==> grant.state_store->0@
                    == c.state->0.store->0@
                &&& c.state is Some && c.state->0.store is None ==> grant.state_store->0@
                    == capsule_name@
                &&& c.network is None ==> grant.network_allow_rules@.len() == 0
                &&& c.network is Some ==> grant.network_allow_rules@.len()
                    == c.network->0.allow@.len()
                &&& c.network is Some ==> forall|i: int|
                    0 <= i < c.network->0.allow@.len() ==> rule_of(c.network->0.allow@[i]@)
                        == Ok::<NetRule, EntryFault>((#[trigger] grant.network_allow_rules@[i])@)
                &&& grant.state_dir is None && grant.config_json is None
            },
            capabilities is None ==> r is Ok && r->Ok_0.network_allow_rules@.len() == 0
                && r->Ok_0.filesystem_scope is None && !r->Ok_0.task_io_read
                && !r->Ok_0.conversation_read && r->Ok_0.state_store is None,
            r is Ok && capabilities is Some ==> is_sound_block(*capabilities->0, capsule_name@),
            capabilities is Some && is_sound_block(*capabilities->0, capsule_name@) && (
            capabilities->0.network is None || capabilities->0.network->0.allow@.len() == 0)
                ==> r is Ok,
            capabilities is Some && is_sound_block(*capabilities->0, capsule_name@) && (
            capabilities->0.network is Some ==> forall|i: int|
                0 <= i < capabilities->0.network->0.allow@.len() ==> rule_of(
                    (#[trigger] capabilities->0.network->0.allow@[i])@,
                ) is Ok) ==> r is Ok,
    {
        let c = match capabilities {
            None => return Ok(HookCapabilityGrant::none()),
            Some(c) => c,
        };
        proof {
            if c.network is Some {
                lemma_all_read(Seq::empty(), c.network->0.allow@);
            }
        }
        let rules = match &c.network {
            Some(network) => match parse_network_allow_rules(network.allow.as_slice()) {
                Ok(rules) => rules,
                Err(e) => return Err(e),
            },
            None => Vec::new(),
        };
        proof {
            if c.network is None {
                assert(rules_view(rules@) =~= Seq::<NetRule>::empty());
            }
        }
        match scope_and_store(c, capsule_name) {
            Err(e) => Err(e),
            Ok((scope, store)) => Ok(
                HookCapabilityGrant {
                    network_allow_rules: rules,
                    filesystem_scope: scope,
                    task_io_read: match &c.task_io {
                        Some(t) => t.read,
                        None => false,
                    },
                    conversation_read: match &c.conversation {
                        Some(t) => t.read,
                        None => false,
                    },
                    state_store: store,
                    state_dir: None,
                    config_json: None,
                },
            ),
        }
    }
}

/// A tool's or driver's grant. Its default is to inherit the capsule ceiling.
#[derive(Debug, PartialEq, Eq)]
pub struct ToolCapabilityGrant {
    /// The rules of this artifact, clamped to the ceiling. `None` inherits the ceiling; an empty
    /// list is a narrowing to nothing.
    pub network_allow_rules: Option<Vec<NetworkAllowRule>>,
    /// Path below the accessible workdir to preopen in its place. `None` preopens all of it.
    pub filesystem_scope: Option<String>,
    /// Declared entries that no ceiling rule covers.
    pub dropped_network_entries: Vec<String>,
    /// The name of the durable store, when one is granted.
    pub state_store: Option<String>,
    /// Where that store is, once staging has made it.
    pub state_dir: Option<String>,
    /// The artifact's own configuration, filled by staging.
    pub config_json: Option<String>,
}

/// What a [`ToolCapabilityGrant`] stands for.
#[verifier::ext_equal]
pub struct ToolGrantView {
    pub network_allow_rules: Option<Seq<NetRule>>,
    pub filesystem_scope: Option<Seq<char>>,
    pub dropped_network_entries: Seq<Seq<char>>,
    pub state_store: Option<Seq<char>>,
    pub state_dir: Option<Seq<char>>,
    pub config_json: Option<Seq<char>>,
}

impl View for ToolCapabilityGrant {
    type V = ToolGrantView;

    open spec fn view(&self) -> ToolGrantView {
        ToolGrantView {
            network_allow_rules: match self.network_allow_rules {
                Some(rules) => Some(rules_view(rules@)),
                None => None,
            },
            filesystem_scope: text::opt_text(self.filesystem_scope),
            dropped_network_entries: text::texts(self.dropped_network_entries@),
            state_store: text::opt_text(self.state_store),
            state_dir: text::opt_text(self.state_dir),
            config_json: text::opt_text(self.config_json),
        }
    }
}

/// The grant that inherits everything.
pub open spec fn whole_ceiling() -> ToolGrantView {
    ToolGrantView {
        network_allow_rules: None,
        filesystem_scope: None,
        dropped_network_entries: Seq::empty(),
        state_store: None,
        state_dir: None,
        config_json: None,
    }
}

/// Whether one of the ceiling rules covers a rule.
pub open spec fn under_ceiling(ceiling: Seq<NetRule>, rule: NetRule) -> bool {
    exists|i: int| 0 <= i < ceiling.len() && (#[trigger] ceiling[i]).spans(rule)
}

/// The declared rules that a ceiling covers and the entries that it does not, or the fault of the
/// first entry that declares no rule.
pub open spec fn clamped(ceiling: Seq<NetRule>, entries: Seq<Seq<char>>) -> Result<
    (Seq<NetRule>, Seq<Seq<char>>),
    EntryFault,
>
    decreases entries.len(),
{
    if entries.len() == 0 {
        Ok((Seq::empty(), Seq::empty()))
    } else {
        match clamped(ceiling, entries.drop_last()) {
            Err(fault) => Err(fault),
            Ok((kept, dropped)) => match rule_of(entries.last()) {
                Err(fault) => Err(fault),
                Ok(rule) => if under_ceiling(ceiling, rule) {
                    Ok((kept.push(rule), dropped))
                } else {
                    Ok((kept, dropped.push(entries.last())))
                },
            },
        }
    }
}

/// The grant a tool's or driver's block lowers to, or why it does not.
pub open spec fn tool_grant(
    c: Option<Capabilities>,
    ceiling: Seq<NetRule>,
    capsule_name: Seq<char>,
) -> Result<ToolGrantView, GrantFault> {
    match c {
        None => Ok(whole_ceiling()),
        Some(c) => {
            let network = match c.network {
                Some(network) => match clamped(ceiling, text::texts(network.allow@)) {
                    Ok((kept, dropped)) => Ok((Some(kept), dropped)),
                    Err(fault) => Err(fault),
                },
                None => Ok((None, Seq::empty())),
            };
            match network {
                Err(fault) => Err(GrantFault::Entry(fault)),
                Ok((rules, dropped)) => match scope_or_store_fault(c, capsule_name) {
                    Some(fault) => Err(fault),
                    None => Ok(
                        ToolGrantView {
                            network_allow_rules: rules,
                            filesystem_scope: declared_scope(c),
                            dropped_network_entries: dropped,
                            state_store: asked_store(c, capsule_name),
                            state_dir: None,
                            config_json: None,
                        },
                    ),
                },
            }
        },
    }
}

/// Whether a result is the tool grant wanted, or reports the fault wanted.
pub open spec fn is_tool_grant(r: Result<ToolCapabilityGrant, RuntimeError>, wanted: Result<
    ToolGrantView,
    GrantFault,
>) -> bool {
    match (r, wanted) {
        (Ok(grant), Ok(w)) => grant@ == w,
        (Err(e), Err(fault)) => reports_grant(e, fault),
        _ => false,
    }
}

proof fn lemma_clamped_fault(ceiling: Seq<NetRule>, entries: Seq<Seq<char>>, n: int)
    requires
        0 <= n <= entries.len(),
        clamped(ceiling, entries.take(n)) is Err,
    ensures
        clamped(ceiling, entries) == clamped(ceiling, entries.take(n)),
    decreases entries.len() - n,
{
    if n < entries.len() {
        assert(entries.take(n + 1).drop_last() =~= entries.take(n));
        lemma_clamped_fault(ceiling, entries, n + 1);
    } else {
        assert(entries.take(n) =~= entries);
    }
}

fn covered(ceiling: &[NetworkAllowRule], rule: &NetworkAllowRule) -> (r: bool)
    ensures
        r == under_ceiling(rules_view(ceiling@), rule@),
{
    let ghost all = rules_view(ceiling@);
    let mut i: usize = 0;
    while i < ceiling.len()
        invariant
            i <= ceiling@.len(),
            all == rules_view(ceiling@),
            forall|j: int| 0 <= j < i ==> !(#[trigger] all[j]).spans(rule@),
        decreases ceiling@.len() - i,
    {
        if ceiling[i].covers(rule) {
            proof {
                assert(all[i as int].spans(rule@));
            }
            return true;
        }
        proof {
            assert(all[i as int] == ceiling@[i as int]@);
        }
        i += 1;
    }
    false
}

fn clamp(ceiling: &[NetworkAllowRule], entries: &[String]) -> (r: Result<
    (Vec<NetworkAllowRule>, Vec<String>),
    RuntimeError,
>)
    ensures
        match (r, clamped(rules_view(ceiling@), text::texts(entries@))) {
            (Ok(pair), Ok((kept, dropped))) => rules_view(pair.0@) == kept && text::texts(pair.1@)
                == dropped,
            (Err(e), Err(fault)) => reports(e, fault),
            _ => false,
        },
{
    let ghost all = text::texts(entries@);
    let ghost top = rules_view(ceiling@);
    let mut kept: Vec<NetworkAllowRule> = Vec::new();
    let mut dropped: Vec<String> = Vec::new();
    let mut i: usize = 0;
    proof {
        assert(rules_view(kept@) =~= Seq::<NetRule>::empty());
        assert(text::texts(dropped@) =~= Seq::<Seq<char>>::empty());
        assert(all.take(0).len() == 0);
    }
    while i < entries.len()
        invariant
            i <= entries@.len(),
            all == text::texts(entries@),
            top == rules_view(ceiling@),
            clamped(top, all.take(i as int)) == Ok::<(Seq<NetRule>, Seq<Seq<char>>), EntryFault>(
                (rules_view(kept@), text::texts(dropped@)),
            ),
        decreases entries@.len() - i,
    {
        proof {
            assert(all.take(i + 1).drop_last() =~= all.take(i as int));
            assert(all.take(i + 1).last() == entries@[i as int]@);
        }
        match NetworkAllowRule::parse(entries[i].as_str()) {
            Err(e) => {
                proof {
                    lemma_clamped_fault(top, all, i + 1);
                }
                return Err(e);
            },
            Ok(rule) => {
                if covered(ceiling, &rule) {
                    let ghost before = kept@;
                    let ghost added = rule@;
                    kept.push(rule);
                    proof {
                        assert(rules_view(kept@) =~= rules_view(before).push(added));
                    }
                } else {
                    let ghost before = dropped@;
                    dropped.push(entries[i].clone());
                    proof {
                        assert(text::texts(dropped@) =~= text::texts(before).push(
                            entries@[i as int]@,
                        ));
                    }
                }
            },
        }
        i += 1;
    }
    proof {
        assert(all.take(all.len() as int) =~= all);
    }
    Ok((kept, dropped))
}

impl ToolCapabilityGrant {
    /// The grant that inherits everything.
    pub fn inherit() -> (r: Self)
        ensures
            r@ == whole_ceiling(),
    {
        let r = ToolCapabilityGrant {
            network_allow_rules: None,
            filesystem_scope: None,
            dropped_network_entries: Vec::new(),
            state_store: None,
            state_dir: None,
            config_json: None,
        };
        proof {
            assert(r@ =~= whole_ceiling());
        }
        r
    }

    /// Lowers a tool's or driver's block into a grant that is never wider than the ceiling. No
    /// block inherits the ceiling wholesale.
    pub fn derive(
        capabilities: Option<&Capabilities>,
        ceiling_network_allow_rules: &[NetworkAllowRule],
        capsule_name: &str,
    ) -> (r: Result<Self, RuntimeError>)
        ensures
            is_tool_grant(
                r,
                tool_grant(
                    block_of(capabilities),
                    rules_view(ceiling_network_allow_rules@),
                    capsule_name@,
                ),
            ),
            capabilities is None ==> r is Ok && r->Ok_0.network_allow_rules is None
                && r->Ok_0.filesystem_scope is None && r->Ok_0.state_store is None,
            r is Ok && capabilities is Some ==> {
                let c = capabilities->0;
                let grant = r->Ok_0;
                &&& grant.network_allow_rules is Some <==> c.network is Some
                &&& c.network is None ==> grant.dropped_network_entries@.len() == 0
                &&& c.network is Some ==> clamped(
                    rules_view(ceiling_network_allow_rules@),
                    text::texts(c.network->0.allow@),
                ) == Ok::<(Seq<NetRule>, Seq<Seq<char>>), EntryFault>(
                    (
                        rules_view(grant.network_allow_rules->0@),
                        text::texts(grant.dropped_network_entries@),
                    ),
                )
                &&& grant.filesystem_scope is Some <==> c.filesystem is Some
                    && c.filesystem->0.scope is Some
                &&& grant.filesystem_scope is Some ==> grant.filesystem_scope->0@
                    == c.filesystem->0.scope->0@
                &&& grant.state_store is Some <==> c.state is Some
                &&& c.state is Some && c.state->0.store is Some ==> grant.state_store->0@
                    == c.state->0.store->0@
                &&& c.state is Some && c.state->0.store is None ==> grant.state_store->0@
                    == capsule_name@
                &&& grant.state_dir is None && grant.config_json is None
            },
            r is Ok && capabilities is Some ==> is_sound_block(*capabilities->0, capsule_name@),
            capabilities is Some && is_sound_block(*capabilities->0, capsule_name@) && (
            capabilities->0.network is None || capabilities->0.network->0.allow@.len() == 0)
                ==> r is Ok,
            capabilities is Some && is_sound_block(*capabilities->0, capsule_name@) && (
            capabilities->0.network is Some ==> forall|i: int|
                0 <= i < capabilities->0.network->0.allow@.len() ==> rule_of(
                    (#[trigger] capabilities->0.network->0.allow@[i])@,
                ) is Ok) ==> r is Ok,
    {
        let c = match capabilities {
            None => return Ok(ToolCapabilityGrant::inherit()),
            Some(c) => c,
        };
        let mut dropped: Vec<String> = Vec::new();
        proof {
            assert(text::texts(dropped@) =~= Seq::<Seq<char>>::empty());
            if c.network is Some {
                lemma_all_read(rules_view(ceiling_network_allow_rules@), c.network->0.allow@);
            }
        }
        let rules = match &c.network {
            None => None,
            Some(network) => match clamp(ceiling_network_allow_rules, network.allow.as_slice()) {
                Ok((kept, left)) => {
                    dropped = left;
                    Some(kept)
                },
                Err(e) => return Err(e),
            },
        };
        match scope_and_store(c, capsule_name) {
            Err(e) => Err(e),
            Ok((scope, store)) => Ok(
                ToolCapabilityGrant {
                    network_allow_rules: rules,
                    filesystem_scope: scope,
                    dropped_network_entries: dropped,
                    state_store: store,
                    state_dir: None,
                    config_json: None,
                },
            ),
        }
    }
}

/// The rules enforced for one dispatch: the artifact's own when it declared a network block, else
/// the ceiling.
pub open spec fn effective(grant: Option<ToolGrantView>, ceiling: Seq<NetRule>) -> Seq<NetRule> {
    match grant {
        Some(g) => match g.network_allow_rules {
            Some(rules) => rules,
            None => ceiling,
        },
        None => ceiling,
    }
}

/// What an optional grant stands for.
pub open spec fn opt_grant(o: Option<&ToolCapabilityGrant>) -> Option<ToolGrantView> {
    match o {
        Some(g) => Some(g@),
        None => None,
    }
}

/// The rules enforced for one dispatch. An artifact without a grant lands on the ceiling, never on
/// an empty list.
pub fn effective_tool_network_rules<'a>(
    grant: Option<&'a ToolCapabilityGrant>,
    ceiling_network_allow_rules: &'a [NetworkAllowRule],
) -> (r: &'a [NetworkAllowRule])
    ensures
        rules_view(r@) == effective(opt_grant(grant), rules_view(ceiling_network_allow_rules@)),
        grant is Some && grant->0.network_allow_rules is Some ==> r@
            == grant->0.network_allow_rules->0@,
        grant is None || grant->0.network_allow_rules is None ==> r@
            == ceiling_network_allow_rules@,
{
    match grant {
        Some(g) => match &g.network_allow_rules {
            Some(rules) => rules.as_slice(),
            None => ceiling_network_allow_rules,
        },
        None => ceiling_network_allow_rules,
    }
}

// ── Preopens ─────────────────────────────────────────────────────────────────

/// What an artifact is.
#[derive(Debug, Clone, Copy, PartialEq, Eq, Structural)]
pub enum ArtifactRuntime {
    Tool,
    Driver,
    Hook,
    Skill,
}

impl ArtifactRuntime {
    /// The word for a role.
    pub open spec fn word(self) -> Seq<char> {
        match self {
            ArtifactRuntime::Tool => "tool"@,
            ArtifactRuntime::Driver => "driver"@,
            ArtifactRuntime::Hook => "hook"@,
            ArtifactRuntime::Skill => "skill"@,
        }
    }

    /// The word for a role.
    pub fn as_str(&self) -> (r: &'static str)
        ensures
            r@ == self.word(),
            self is Tool ==> r@ == "tool"@,
            self is Driver ==> r@ == "driver"@,
            self is Hook ==> r@ == "hook"@,
            self is Skill ==> r@ == "skill"@,
    {
        match self {
            ArtifactRuntime::Tool => "tool",
            ArtifactRuntime::Driver => "driver",
            ArtifactRuntime::Hook => "hook",
            ArtifactRuntime::Skill => "skill",
        }
    }
}

/// What a guest's descriptor reaches.
#[derive(Debug, Clone, Copy, PartialEq, Eq, Structural)]
pub enum PreopenSurface {
    WholeWorkdir,
    ScopedSubtree,
    Nothing,
}

impl PreopenSurface {
    /// The stable wire name of a surface.
    pub fn wire_name(&self) -> (r: &'static str)
        ensures
            r@ == (match *self {
                PreopenSurface::WholeWorkdir => "whole-workdir"@,
                PreopenSurface::ScopedSubtree => "scoped-subtree"@,
                PreopenSurface::Nothing => "nothing"@,
            }),
    {
        match self {
            PreopenSurface::WholeWorkdir => "whole-workdir",
            PreopenSurface::ScopedSubtree => "scoped-subtree",
            PreopenSurface::Nothing => "nothing",
        }
    }
}

/// The filesystem surface one artifact is preopened into.
#[derive(Debug, PartialEq, Eq)]
pub struct PreopenReport {
    pub artifact: String,
    pub role: String,
    pub scope: Option<String>,
    pub surface: PreopenSurface,
}

/// What a [`PreopenReport`] stands for.
#[verifier::ext_equal]
pub struct ReportView {
    pub artifact: Seq<char>,
    pub role: Seq<char>,
    pub scope: Option<Seq<char>>,
    pub surface: PreopenSurface,
}

impl View for PreopenReport {
    type V = ReportView;

    open spec fn view(&self) -> ReportView {
        ReportView {
            artifact: self.artifact@,
            role: self.role@,
            scope: text::opt_text(self.scope),
            surface: self.surface,
        }
    }
}

/// What a list of reports stands for.
pub open spec fn report_views(v: Seq<PreopenReport>) -> Seq<ReportView> {
    v.map_values(|r: PreopenReport| r@)
}

/// An artifact with the block its entry declares.
#[derive(Debug, PartialEq, Eq)]
pub struct DeclaredArtifact {
    pub name: String,
    pub runtime: ArtifactRuntime,
    pub capabilities: Option<Capabilities>,
}

/// The scope an artifact's entry declares.
pub open spec fn artifact_scope(a: DeclaredArtifact) -> Option<Seq<char>> {
    match a.capabilities {
        Some(c) => declared_scope(c),
        None => None,
    }
}

/// The surface of an artifact: a declared scope narrows every role alike; without one a hook
/// holds nothing, and every other role the whole workdir.
pub open spec fn surface_of(a: DeclaredArtifact) -> PreopenSurface {
    if artifact_scope(a) is Some {
        PreopenSurface::ScopedSubtree
    } else if a.runtime == ArtifactRuntime::Hook {
        PreopenSurface::Nothing
    } else {
        PreopenSurface::WholeWorkdir
    }
}

/// The reports of a list of artifacts, or the first scope that is refused. A skill has no guest
/// and no report.
pub open spec fn reports_of(artifacts: Seq<DeclaredArtifact>) -> Result<
    Seq<ReportView>,
    (Seq<char>, WorkdirSubpathRejection),
>
    decreases artifacts.len(),
{
    if artifacts.len() == 0 {
        Ok(Seq::empty())
    } else {
        let a = artifacts.last();
        match reports_of(artifacts.drop_last()) {
            Err(e) => Err(e),
            Ok(before) => if a.runtime == ArtifactRuntime::Skill {
                Ok(before)
            } else {
                let report = ReportView {
                    artifact: a.name@,
                    role: a.runtime.word(),
                    scope: artifact_scope(a),
                    surface: surface_of(a),
                };
                match artifact_scope(a) {
                    Some(scope) => match workdir::lowered_subpath(scope) {
                        Err(why) => Err((scope, why)),
                        Ok(_) => Ok(before.push(report)),
                    },
                    None => Ok(before.push(report)),
                }
            },
        }
    }
}

proof fn lemma_reports_refused(artifacts: Seq<DeclaredArtifact>, n: int)
    requires
        0 <= n <= artifacts.len(),
        reports_of(artifacts.take(n)) is Err,
    ensures
        reports_of(artifacts) == reports_of(artifacts.take(n)),
    decreases artifacts.len() - n,
{
    if n < artifacts.len() {
        assert(artifacts.take(n + 1).drop_last() =~= artifacts.take(n));
        lemma_reports_refused(artifacts, n + 1);
    } else {
        assert(artifacts.take(n) =~= artifacts);
    }
}

/// The filesystem surface each artifact will be preopened into, resolved but not opened. A scope
/// that a launch would refuse is refused here too.
pub fn preopen_reports(artifacts: &[DeclaredArtifact]) -> (r: Result<
    Vec<PreopenReport>,
    RuntimeError,
>)
    ensures
        match (r, reports_of(artifacts@)) {
            (Ok(reports), Ok(wanted)) => report_views(reports@) == wanted,
            (Err(e), Err((scope, why))) => workdir::says_scope_rejected(e, scope, why),
            _ => false,
        },
{
    let mut out: Vec<PreopenReport> = Vec::new();
    let mut i: usize = 0;
    proof {
        assert(report_views(out@) =~= Seq::<ReportView>::empty());
        assert(artifacts@.take(0).len() == 0);
    }
    while i < artifacts.len()
        invariant
            i <= artifacts@.len(),
            reports_of(artifacts@.take(i as int)) == Ok::<
                Seq<ReportView>,
                (Seq<char>, WorkdirSubpathRejection),
            >(report_views(out@)),
        decreases artifacts@.len() - i,
    {
        proof {
            assert(artifacts@.take(i + 1).drop_last() =~= artifacts@.take(i as int));
        }
        let a = &artifacts[i];
        let is_skill = match a.runtime {
            ArtifactRuntime::Skill => true,
            _ => false,
        };
        if !is_skill {
            let scope = match &a.capabilities {
                Some(c) => match &c.filesystem {
                    Some(f) => text::clone_opt(&f.scope),
                    None => None,
                },
                None => None,
            };
            if let Some(s) = &scope {
                if let Err(e) = workdir::validate_filesystem_scope(s.as_str()) {
                    proof {
                        lemma_reports_refused(artifacts@, i + 1);
                    }
                    return Err(e);
                }
            }
            let surface = if scope.is_some() {
                PreopenSurface::ScopedSubtree
            } else {
                match a.runtime {
                    ArtifactRuntime::Hook => PreopenSurface::Nothing,
                    _ => PreopenSurface::WholeWorkdir,
                }
            };
            let ghost before = out@;
            let report = PreopenReport {
                artifact: a.name.clone(),
                role: a.runtime.as_str().to_owned(),
                scope,
                surface,
            };
            let ghost added = report@;
            out.push(report);
            proof {
                assert(report_views(out@) =~= report_views(before).push(added));
            }
        }
        i += 1;
    }
    proof {
        assert(artifacts@.take(artifacts@.len() as int) =~= artifacts@);
    }
    Ok(out)
}

// ── Laws ─────────────────────────────────────────────────────────────────────

/// Whether a list of rules permits a request.
pub open spec fn permitted(rules: Seq<NetRule>, target: TargetView) -> bool {
    exists|i: int| 0 <= i < rules.len() && (#[trigger] rules[i]).permits(target)
}

/// A rule permits whatever a rule it covers permits.
pub proof fn covering_is_wider(wide: NetRule, narrow: NetRule, target: TargetView)
    requires
        wide.spans(narrow),
        narrow.permits(target),
    ensures
        wide.permits(target),
{
}

/// Every rule kept under a ceiling is covered by it.
proof fn lemma_kept_under_ceiling(ceiling: Seq<NetRule>, entries: Seq<Seq<char>>)
    requires
        clamped(ceiling, entries) is Ok,
    ensures
        ({
            let kept = clamped(ceiling, entries)->Ok_0.0;
            forall|i: int| 0 <= i < kept.len() ==> under_ceiling(ceiling, #[trigger] kept[i])
        }),
    decreases entries.len(),
{
    if entries.len() > 0 {
        lemma_kept_under_ceiling(ceiling, entries.drop_last());
    }
}

/// A grant never widens: what a tool or driver may reach, the capsule ceiling already permits.
pub proof fn a_grant_never_widens_the_ceiling(
    c: Option<Capabilities>,
    ceiling: Seq<NetRule>,
    capsule_name: Seq<char>,
    target: TargetView,
)
    requires
        tool_grant(c, ceiling, capsule_name) is Ok,
        permitted(effective(Some(tool_grant(c, ceiling, capsule_name)->Ok_0), ceiling), target),
    ensures
        permitted(ceiling, target),
{
    let grant = tool_grant(c, ceiling, capsule_name)->Ok_0;
    if grant.network_allow_rules is Some {
        let entries = text::texts(c->0.network->0.allow@);
        lemma_kept_under_ceiling(ceiling, entries);
        let kept = grant.network_allow_rules->0;
        let i = choose|i: int| 0 <= i < kept.len() && (#[trigger] kept[i]).permits(target);
        assert(under_ceiling(ceiling, kept[i]));
        let j = choose|j: int| 0 <= j < ceiling.len() && (#[trigger] ceiling[j]).spans(kept[i]);
        covering_is_wider(ceiling[j], kept[i], target);
    }
}

/// The two opposite baselines: a hook without a block is granted nothing, and a tool without one
/// keeps the whole ceiling.
pub proof fn baselines(ceiling: Seq<NetRule>, capsule_name: Seq<char>, target: TargetView)
    ensures
        hook_grant(None, capsule_name) == Ok::<HookGrantView, GrantFault>(no_hook_grant()),
        !permitted(no_hook_grant().network_allow_rules, target),
        tool_grant(None, ceiling, capsule_name) == Ok::<ToolGrantView, GrantFault>(
            whole_ceiling(),
        ),
        effective(Some(whole_ceiling()), ceiling) == ceiling,
        effective(None, ceiling) == ceiling,
{
}

/// Each declared entry ends up kept or dropped, and nothing else does.
pub proof fn every_entry_is_kept_or_dropped(ceiling: Seq<NetRule>, entries: Seq<Seq<char>>)
    requires
        clamped(ceiling, entries) is Ok,
    ensures
        clamped(ceiling, entries)->Ok_0.0.len() + clamped(ceiling, entries)->Ok_0.1.len()
            == entries.len(),
    decreases entries.len(),
{
    if entries.len() > 0 {
        every_entry_is_kept_or_dropped(ceiling, entries.drop_last());
    }
}

/// One rule covers another exactly when it permits every request that the other permits.
pub proof fn covering_is_inclusion(wide: NetRule, narrow: NetRule)
    ensures
        wide.spans(narrow) <==> forall|target: TargetView|
            #[trigger] narrow.permits(target) ==> wide.permits(target),
{
    let scheme = match narrow.scheme {
        Some(s) => s,
        None => match wide.scheme {
            Some(s) => s.push('x'),
            None => Seq::empty(),
        },
    };
    let target = TargetView { scheme, host: narrow.host, port: narrow.port };
    assert(narrow.permits(target));
    if forall|t: TargetView| #[trigger] narrow.permits(t) ==> wide.permits(t) {
        assert(wide.permits(target));
        if narrow.scheme is None && wide.scheme is Some {
            assert(wide.scheme->0.push('x').len() == wide.scheme->0.len() + 1);
        }
    }
}

/// What a rule permits is on its host, and with its scheme and its port where it sets them.
pub proof fn a_rule_permits_only_what_it_names(rule: NetRule, target: TargetView)
    ensures
        rule.permits(target) <==> target.host == rule.host && (rule.scheme is None || rule.scheme
            == Some(target.scheme)) && (rule.port is None || rule.port == target.port),
{
}

/// A request without a port of its own goes to its scheme's, and one to the URL that a rule was
/// made from is permitted by that rule.
pub proof fn a_url_rule_permits_its_own_url(
    entry: Seq<char>,
    url: UrlView,
    host: Seq<char>,
    uri: UriView,
    use_tls: bool,
)
    requires
        url_rule(entry, Ok::<UrlView, Seq<char>>(url)) is Ok,
        url.host == Some(host),
        uri.scheme == Some(url.scheme),
        uri.authority == Some((host, url.port)),
    ensures
        target_of(uri, use_tls) is Some,
        url_rule(entry, Ok::<UrlView, Seq<char>>(url))->Ok_0.permits(target_of(uri, use_tls)->0),
        forall|other: TargetView|
            #[trigger] url_rule(entry, Ok::<UrlView, Seq<char>>(url))->Ok_0.permits(other) ==> other
                == target_of(uri, use_tls)->0,
{
    lemma_schemes();
    let rule = url_rule(entry, Ok::<UrlView, Seq<char>>(url))->Ok_0;
    let target = target_of(uri, use_tls)->0;
    assert(rule.port is Some && target.port == rule.port);
    assert forall|other: TargetView| #[trigger] rule.permits(other) implies other == target by {
        assert(other =~= target);
    }
}

/// The rules of a longer list are those of a shorter one with the last entry's behind them: every
/// entry has one rule, in its own place.
pub proof fn every_entry_has_its_rule(entries: Seq<Seq<char>>, i: int)
    requires
        rules_of(entries) is Ok,
        0 <= i < entries.len(),
    ensures
        rules_of(entries)->Ok_0.len() == entries.len(),
        rule_of(entries[i]) == Ok::<NetRule, EntryFault>(rules_of(entries)->Ok_0[i]),
    decreases entries.len(),
{
    if i < entries.len() - 1 {
        every_entry_has_its_rule(entries.drop_last(), i);
    } else if entries.len() > 1 {
        every_entry_has_its_rule(entries.drop_last(), 0);
    } else {
        assert(rules_of(entries.drop_last()) == Ok::<Seq<NetRule>, EntryFault>(Seq::empty()));
    }
}

/// A declared entry is dropped exactly when no ceiling rule covers its rule.
pub proof fn an_entry_is_dropped_only_for_the_ceiling(
    ceiling: Seq<NetRule>,
    entries: Seq<Seq<char>>,
    i: int,
)
    requires
        clamped(ceiling, entries) is Ok,
        0 <= i < entries.len(),
    ensures
        rule_of(entries[i]) is Ok,
        ({
            let rule = rule_of(entries[i])->Ok_0;
            let (kept, dropped) = clamped(ceiling, entries)->Ok_0;
            &&& (exists|j: int| 0 <= j < ceiling.len() && (#[trigger] ceiling[j]).spans(rule))
                ==> kept.contains(rule)
            &&& !(exists|j: int| 0 <= j < ceiling.len() && (#[trigger] ceiling[j]).spans(rule))
                ==> dropped.contains(entries[i])
        }),
    decreases entries.len(),
{
    let (kept, dropped) = clamped(ceiling, entries)->Ok_0;
    let rule = rule_of(entries[i])->Ok_0;
    if i < entries.len() - 1 {
        an_entry_is_dropped_only_for_the_ceiling(ceiling, entries.drop_last(), i);
        let (before, gone) = clamped(ceiling, entries.drop_last())->Ok_0;
        if before.contains(rule) {
            let k = choose|k: int| 0 <= k < before.len() && before[k] == rule;
            assert(kept[k] == rule);
        }
        if gone.contains(entries[i]) {
            let k = choose|k: int| 0 <= k < gone.len() && gone[k] == entries[i];
            assert(dropped[k] == entries[i]);
        }
    } else if under_ceiling(ceiling, rule) {
        assert(kept.last() == rule);
    } else {
        assert(dropped.last() == entries[i]);
    }
}

/// Each artifact but a skill has one report under its own name and role, in order; a skill has
/// none.
pub proof fn each_guest_has_its_report(artifacts: Seq<DeclaredArtifact>)
    requires
        artifacts.len() > 0,
        reports_of(artifacts) is Ok,
    ensures
        reports_of(artifacts.drop_last()) is Ok,
        ({
            let before = reports_of(artifacts.drop_last())->Ok_0;
            let now = reports_of(artifacts)->Ok_0;
            let last = artifacts.last();
            let scope = match last.capabilities {
                Some(c) => match c.filesystem {
                    Some(f) => text::opt_text(f.scope),
                    None => None,
                },
                None => None,
            };
            &&& last.runtime is Skill ==> now == before
            &&& last.runtime !is Skill ==> {
                &&& now.len() == before.len() + 1
                &&& now.drop_last() == before
                &&& now.last().artifact == last.name@
                &&& now.last().scope == scope
                &&& scope is Some ==> now.last().surface is ScopedSubtree
                &&& scope is None && last.runtime is Hook ==> now.last().surface is Nothing
                &&& scope is None && last.runtime !is Hook ==> now.last().surface is WholeWorkdir
                &&& last.runtime is Tool ==> now.last().role == "tool"@
                &&& last.runtime is Driver ==> now.last().role == "driver"@
                &&& last.runtime is Hook ==> now.last().role == "hook"@
            }
        }),
{
    let before = reports_of(artifacts.drop_last())->Ok_0;
    let now = reports_of(artifacts)->Ok_0;
    if artifacts.last().runtime !is Skill {
        assert(now.drop_last() =~= before);
    }
}

/// A list of entries is refused for the first entry that is no rule, and for nothing else.
pub proof fn the_first_bad_entry_is_reported(ceiling: Seq<NetRule>, entries: Seq<Seq<char>>, i: int)
    requires
        0 <= i <= entries.len(),
        forall|j: int| 0 <= j < i ==> rule_of(#[trigger] entries[j]) is Ok,
    ensures
        i == entries.len() ==> rules_of(entries) is Ok && clamped(ceiling, entries) is Ok,
        i < entries.len() && rule_of(entries[i]) is Err ==> rules_of(entries) == Err::<
            Seq<NetRule>,
            EntryFault,
        >(rule_of(entries[i])->Err_0) && clamped(ceiling, entries) == Err::<
            (Seq<NetRule>, Seq<Seq<char>>),
            EntryFault,
        >(rule_of(entries[i])->Err_0),
    decreases entries.len(),
{
    if entries.len() > 0 {
        let front = entries.drop_last();
        assert forall|j: int| 0 <= j < i && j < front.len() implies rule_of(
            #[trigger] front[j],
        ) is Ok by {
            assert(front[j] == entries[j]);
        }
        if i < entries.len() {
            the_first_bad_entry_is_reported(ceiling, front, i);
        } else {
            the_first_bad_entry_is_reported(ceiling, front, front.len() as int);
            assert(entries[entries.len() - 1] == entries.last());
        }
    }
}

proof fn lemma_all_read(ceiling: Seq<NetRule>, allow: Seq<String>)
    ensures
        (forall|i: int| 0 <= i < allow.len() ==> rule_of((#[trigger] allow[i])@) is Ok) ==> rules_of(
            text::texts(allow),
        ) is Ok && clamped(ceiling, text::texts(allow)) is Ok,
{
    if forall|i: int| 0 <= i < allow.len() ==> rule_of((#[trigger] allow[i])@) is Ok {
        let entries = text::texts(allow);
        assert forall|j: int| 0 <= j < entries.len() implies rule_of(#[trigger] entries[j]) is Ok by {
            assert(entries[j] == allow[j]@);
        }
        the_first_bad_entry_is_reported(ceiling, entries, entries.len() as int);
    }
}

} // verus!
