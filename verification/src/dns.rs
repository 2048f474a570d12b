//! The DNS provider client's decision logic: bearer-credential checking,
//! request URLs and bodies, reading the provider's JSON answers into
//! plain records, and selecting the record to update. The HTTP exchange
//! itself is the caller's business; JSON is read through trusted calls
//! into serde_json, and everything after them is verified on plain
//! values.
use vstd::prelude::*;
use crate::ip::{Ipv4, ipv4_text, spec_parse_ipv4, parse_ipv4, format_ipv4};
use crate::text::{spec_escape, escape_json};

verus! {

#[verifier::external_type_specification]
#[verifier::external_body]
pub struct ExValue(serde_json::Value);

/// What serde_json::from_str::<Value> returns for a text: the parsed
/// value, or nothing when the text is not JSON. A function of the text
/// alone.
pub uninterp spec fn jv_of(s: Seq<char>) -> Option<serde_json::Value>;

/// What serde_json::Value::get returns: the object's member under the
/// key, or nothing when absent or not an object.
pub uninterp spec fn jv_get(v: serde_json::Value, key: Seq<char>) -> Option<serde_json::Value>;

/// What serde_json::Value::as_array returns: the elements when the
/// value is an array, nothing otherwise.
pub uninterp spec fn jv_array(v: serde_json::Value) -> Option<Seq<serde_json::Value>>;

/// What serde_json::Value::as_str returns: the text when the value is
/// a string, nothing otherwise.
pub uninterp spec fn jv_str(v: serde_json::Value) -> Option<Seq<char>>;

/// Relies on serde_json::from_str::<Value>, whose result depends on the
/// text alone; `jv_of` names it.
#[verifier::external_body]
fn json_parse(s: &str) -> (r: Option<serde_json::Value>)
    ensures
        r == jv_of(s@),
{
    serde_json::from_str(s).ok()
}

/// Relies on serde_json::Value::get, whose result depends on the value
/// and key alone; `jv_get` names it.
#[verifier::external_body]
fn json_get<'a>(v: &'a serde_json::Value, key: &str) -> (r: Option<&'a serde_json::Value>)
    ensures
        match r {
            Some(m) => jv_get(*v, key@) == Some(*m),
            None => jv_get(*v, key@) is None,
        },
{
    v.get(key)
}

/// Relies on serde_json::Value::as_array, whose result depends on the
/// value alone; `jv_array` names it.
#[verifier::external_body]
fn json_as_array<'a>(v: &'a serde_json::Value) -> (r: Option<&'a Vec<serde_json::Value>>)
    ensures
        match r {
            Some(a) => jv_array(*v) == Some(a@),
            None => jv_array(*v) is None,
        },
{
    v.as_array()
}

/// Relies on serde_json::Value::as_str, whose result depends on the
/// value alone; `jv_str` names it.
#[verifier::external_body]
fn json_as_str(v: &serde_json::Value) -> (r: Option<String>)
    ensures
        match r {
            Some(t) => jv_str(*v) == Some(t@),
            None => jv_str(*v) is None,
        },
{
    v.as_str().map(|s| s.to_owned())
}

/// Why a provider exchange failed.
#[derive(Clone, Debug, PartialEq, Eq)]
pub enum DnsError {
    /// The credential holds a character no header value may hold.
    InvalidApiKey,
    /// The provider's answer is not JSON.
    MalformedResponse,
    /// The provider reported an error; its first message is kept.
    ApiError(String),
    /// The provider's answer has no result array.
    MissingResult,
    /// No A record for the requested domain is in the answer.
    RecordNotFound,
    /// The matching record's content is not dotted-decimal IPv4 text.
    InvalidIp,
    /// An update was asked for before any record was fetched.
    MissingRecordId,
    /// The provider refused the update; its response body is kept.
    UpdateFailed(String),
}

/// One A-record row as read from the provider's answer.
#[derive(Clone, Debug, PartialEq, Eq)]
pub struct DnsRecord {
    pub id: String,
    pub rtype: String,
    pub name: String,
    pub content: String,
}

/// The record rows an update run cares about: type "A" under the
/// requested domain.
pub open spec fn record_matches(r: DnsRecord, domain: Seq<char>) -> bool {
    r.rtype@ == "A"@ && r.name@ == domain
}

/// Ghost image of a record row, with its fields as sequences.
pub ghost struct RecordView {
    pub id: Seq<char>,
    pub rtype: Seq<char>,
    pub name: Seq<char>,
    pub content: Seq<char>,
}

pub open spec fn record_view(r: DnsRecord) -> RecordView {
    RecordView { id: r.id@, rtype: r.rtype@, name: r.name@, content: r.content@ }
}

pub open spec fn record_views(rs: Seq<DnsRecord>) -> Seq<RecordView> {
    rs.map_values(|r: DnsRecord| record_view(r))
}

/// The member's text under a key, when it is present and a string.
pub open spec fn jv_str_field(v: serde_json::Value, key: Seq<char>) -> Option<Seq<char>> {
    match jv_get(v, key) {
        Some(f) => jv_str(f),
        None => None,
    }
}

/// The record row a JSON value yields: all four fields present as
/// strings, else nothing.
pub open spec fn spec_record_of(v: serde_json::Value) -> Option<RecordView> {
    match jv_str_field(v, "id"@) {
        Some(id) => match jv_str_field(v, "type"@) {
            Some(rtype) => match jv_str_field(v, "name"@) {
                Some(name) => match jv_str_field(v, "content"@) {
                    Some(content) => Some(RecordView { id, rtype, name, content }),
                    None => None,
                },
                None => None,
            },
            None => None,
        },
        None => None,
    }
}

/// The record rows of the answer's array from position `i` on; values
/// that do not yield a row are skipped.
pub open spec fn spec_records_from(items: Seq<serde_json::Value>, i: int) -> Seq<RecordView>
    recommends
        0 <= i <= items.len(),
    decreases items.len() - i,
{
    if i < 0 || i >= items.len() {
        Seq::empty()
    } else {
        (match spec_record_of(items[i]) {
            Some(r) => seq![r],
            None => Seq::empty(),
        }) + spec_records_from(items, i + 1)
    }
}

pub open spec fn rv_matches(r: RecordView, domain: Seq<char>) -> bool {
    r.rtype == "A"@ && r.name == domain
}

/// The position of the first row of type "A" under the domain.
pub open spec fn spec_first_match(rs: Seq<RecordView>, domain: Seq<char>) -> Option<int>
    decreases rs.len(),
{
    if rs.len() == 0 {
        None
    } else if rv_matches(rs[0], domain) {
        Some(0int)
    } else {
        match spec_first_match(rs.drop_first(), domain) {
            Some(i) => Some(i + 1),
            None => None,
        }
    }
}

/// The message of the first reported error, when the answer carries a
/// non-empty errors array; a missing or non-string message reads as
/// empty text.
pub open spec fn spec_api_error(v: serde_json::Value) -> Option<Seq<char>> {
    match jv_get(v, "errors"@) {
        Some(ev) => match jv_array(ev) {
            Some(errs) => if errs.len() > 0 {
                Some(spec_error_message(errs[0]))
            } else {
                None
            },
            None => None,
        },
        None => None,
    }
}

pub open spec fn spec_error_message(e: serde_json::Value) -> Seq<char> {
    match jv_str_field(e, "message"@) {
        Some(m) => m,
        None => Seq::empty(),
    }
}

/// The answer's record array, when it has one.
pub open spec fn spec_result_items(v: serde_json::Value) -> Option<Seq<serde_json::Value>> {
    match jv_get(v, "result"@) {
        Some(rv) => jv_array(rv),
        None => None,
    }
}

proof fn lemma_first_match_found(rs: Seq<RecordView>, domain: Seq<char>, i: int)
    requires
        0 <= i < rs.len(),
        rv_matches(rs[i], domain),
        forall|k: int| 0 <= k < i ==> !rv_matches(#[trigger] rs[k], domain),
    ensures
        spec_first_match(rs, domain) == Some(i),
    decreases i,
{
    if i > 0 {
        let rest = rs.drop_first();
        assert forall|k: int| 0 <= k < rest.len() implies #[trigger] rest[k] == rs[k + 1] by {}
        lemma_first_match_found(rest, domain, i - 1);
    }
}

proof fn lemma_first_match_none(rs: Seq<RecordView>, domain: Seq<char>)
    requires
        forall|k: int| 0 <= k < rs.len() ==> !rv_matches(#[trigger] rs[k], domain),
    ensures
        spec_first_match(rs, domain) is None,
    decreases rs.len(),
{
    if rs.len() > 0 {
        let rest = rs.drop_first();
        assert forall|k: int| 0 <= k < rest.len() implies #[trigger] rest[k] == rs[k + 1] by {}
        lemma_first_match_none(rest, domain);
    }
}

/// A character a header value may hold: the tab, or anything at or
/// above the space that is not the delete character.
pub open spec fn header_char_ok(c: char) -> bool {
    c == '\t' || ((c as u32) >= 32 && (c as u32) != 127)
}

/// What http's HeaderValue::from_str accepts, per byte of the text;
/// every character outside the controls passes.
pub open spec fn header_text_ok(s: Seq<char>) -> bool {
    forall|k: int| 0 <= k < s.len() ==> header_char_ok(#[trigger] s[k])
}

fn check_header_text(s: &str) -> (r: bool)
    ensures
        r == header_text_ok(s@),
{
    let n = s.unicode_len();
    let mut i: usize = 0;
    while i < n
        invariant
            i <= n,
            n == s@.len(),
            forall|k: int| 0 <= k < i ==> header_char_ok(#[trigger] s@[k]),
        decreases n - i,
    {
        let c = s.get_char(i);
        let v = c as u32;
        if !(c == '\t' || (v >= 32 && v != 127)) {
            return false;
        }
        i = i + 1;
    }
    true
}

/// The provider client's state: the zone addressed, the bearer header
/// to send, and the identifier of the record fetched last, once one was.
#[derive(Clone, Debug, PartialEq, Eq)]
pub struct Handler {
    pub zone_id: String,
    pub auth_header: String,
    pub record_id: Option<String>,
}

pub open spec fn base_url() -> Seq<char> {
    "https://api.cloudflare.com/client/v4/zones"@
}

impl Handler {
    /// Accepts the credential exactly when every character may stand in
    /// a header value, and then carries the bearer header to send.
    pub fn try_new(api_key: &str, zone_id: &str) -> (r: Result<Handler, DnsError>)
        ensures
            match r {
                Ok(h) => {
                    &&& header_text_ok(api_key@)
                    &&& h.zone_id@ == zone_id@
                    &&& h.auth_header@ == "Bearer "@ + api_key@
                    &&& h.record_id is None
                },
                Err(e) => !header_text_ok(api_key@) && e == DnsError::InvalidApiKey,
            },
    {
        if !check_header_text(api_key) {
            return Err(DnsError::InvalidApiKey);
        }
        let mut auth_header = String::new();
        auth_header.append("Bearer ");
        auth_header.append(api_key);
        Ok(Handler { zone_id: String::from_str(zone_id), auth_header, record_id: None })
    }

    /// The URL that lists the zone's A records for a domain.
    pub fn records_url(&self, domain: &str) -> (r: String)
        ensures
            r@ == base_url() + "/"@ + self.zone_id@ + "/dns_records?type=A&name="@ + domain@,
    {
        let mut out = String::new();
        out.append("https://api.cloudflare.com/client/v4/zones");
        out.append("/");
        out.append(self.zone_id.as_str());
        out.append("/dns_records?type=A&name=");
        out.append(domain);
        assert(out@ =~= base_url() + "/"@ + self.zone_id@ + "/dns_records?type=A&name="@
            + domain@);
        out
    }
}

fn record_from_json(item: &serde_json::Value) -> (r: Option<DnsRecord>)
    ensures
        match r {
            Some(rec) => spec_record_of(*item) == Some(record_view(rec)),
            None => spec_record_of(*item) is None,
        },
{
    let id = match json_get(item, "id") {
        Some(f) => match json_as_str(f) {
            Some(s) => s,
            None => {
                return None;
            },
        },
        None => {
            return None;
        },
    };
    let rtype = match json_get(item, "type") {
        Some(f) => match json_as_str(f) {
            Some(s) => s,
            None => {
                return None;
            },
        },
        None => {
            return None;
        },
    };
    let name = match json_get(item, "name") {
        Some(f) => match json_as_str(f) {
            Some(s) => s,
            None => {
                return None;
            },
        },
        None => {
            return None;
        },
    };
    let content = match json_get(item, "content") {
        Some(f) => match json_as_str(f) {
            Some(s) => s,
            None => {
                return None;
            },
        },
        None => {
            return None;
        },
    };
    Some(DnsRecord { id, rtype, name, content })
}

fn records_from_json(items: &Vec<serde_json::Value>) -> (r: Vec<DnsRecord>)
    ensures
        record_views(r@) == spec_records_from(items@, 0),
{
    let mut out: Vec<DnsRecord> = Vec::new();
    let n = items.len();
    let mut i: usize = 0;
    proof {
        assert(record_views(out@) =~= Seq::empty());
        assert(record_views(out@) + spec_records_from(items@, 0) =~= spec_records_from(
            items@,
            0,
        ));
    }
    while i < n
        invariant
            i <= n,
            n == items@.len(),
            record_views(out@) + spec_records_from(items@, i as int) == spec_records_from(
                items@,
                0,
            ),
        decreases n - i,
    {
        let ghost pre = out@;
        let ghost head = match spec_record_of(items@[i as int]) {
            Some(rv) => seq![rv],
            None => Seq::empty(),
        };
        match record_from_json(&items[i]) {
            Some(rec) => {
                out.push(rec);
                proof {
                    assert(record_views(out@) =~= record_views(pre) + head);
                }
            },
            None => {
                proof {
                    assert(record_views(out@) =~= record_views(pre) + head);
                }
            },
        }
        proof {
            assert(spec_records_from(items@, i as int) == head + spec_records_from(
                items@,
                i + 1 as int,
            ));
            assert(record_views(out@) + spec_records_from(items@, i + 1 as int)
                =~= record_views(pre) + spec_records_from(items@, i as int));
        }
        i = i + 1;
    }
    proof {
        assert(spec_records_from(items@, n as int).len() == 0);
        assert(record_views(out@) =~= record_views(out@) + spec_records_from(
            items@,
            n as int,
        ));
    }
    out
}

/// The position of the first row that is an A record for the domain.
pub fn find_a_record(records: &Vec<DnsRecord>, domain: &str) -> (r: Option<usize>)
    ensures
        match r {
            Some(i) => {
                &&& i < records@.len()
                &&& record_matches(records@[i as int], domain@)
                &&& forall|k: int| 0 <= k < i ==> !record_matches(#[trigger] records@[k], domain@)
            },
            None => forall|k: int|
                0 <= k < records@.len() ==> !record_matches(#[trigger] records@[k], domain@),
        },
{
    let n = records.len();
    let mut i: usize = 0;
    while i < n
        invariant
            i <= n,
            n == records@.len(),
            forall|k: int| 0 <= k < i ==> !record_matches(#[trigger] records@[k], domain@),
        decreases n - i,
    {
        let rec = &records[i];
        if crate::text::str_eq(rec.rtype.as_str(), "A") && crate::text::str_eq(
            rec.name.as_str(),
            domain,
        ) {
            return Some(i);
        }
        i = i + 1;
    }
    None
}

impl Handler {
    /// Reads the provider's record-list answer and picks the A record
    /// for the domain. Over the names of the JSON reads, the contract
    /// pins every outcome: a non-JSON body, a reported provider error
    /// (surfacing its first message), a missing result array, no
    /// matching row, and unreadable address text each fail in their own
    /// way and only then; the first matching row's identifier is stored
    /// for the update, whatever its content then yields, and its
    /// content read as dotted-decimal text is what success returns.
    pub fn get_a_record(&mut self, domain: &str, body: &str) -> (r: Result<Ipv4, DnsError>)
        ensures
            final(self).zone_id == old(self).zone_id,
            final(self).auth_header == old(self).auth_header,
            match jv_of(body@) {
                None => r == Err::<Ipv4, DnsError>(DnsError::MalformedResponse) && final(self).record_id == old(self).record_id,
                Some(v) => match spec_api_error(v) {
                    Some(m) => (r matches Err(DnsError::ApiError(msg)) && msg@ == m) && final(self).record_id == old(self).record_id,
                    None => match spec_result_items(v) {
                        None => r == Err::<Ipv4, DnsError>(DnsError::MissingResult) && final(self).record_id == old(self).record_id,
                        Some(items) => {
                            let rs = spec_records_from(items, 0);
                            match spec_first_match(rs, domain@) {
                                None => r == Err::<Ipv4, DnsError>(DnsError::RecordNotFound)
                                    && final(self).record_id == old(self).record_id,
                                Some(i) => {
                                    &&& final(self).record_id matches Some(rid) && rid@
                                        == rs[i].id
                                    &&& match spec_parse_ipv4(rs[i].content) {
                                        Some(ip) => r == Ok::<Ipv4, DnsError>(ip),
                                        None => r == Err::<Ipv4, DnsError>(DnsError::InvalidIp),
                                    }
                                },
                            }
                        },
                    },
                },
            },
    {
        let v = match json_parse(body) {
            Some(v) => v,
            None => {
                return Err(DnsError::MalformedResponse);
            },
        };
        match json_get(&v, "errors") {
            Some(ev) => {
                match json_as_array(ev) {
                    Some(errs) => {
                        if errs.len() > 0 {
                            let msg = match json_get(&errs[0], "message") {
                                Some(m) => match json_as_str(m) {
                                    Some(s) => s,
                                    None => String::new(),
                                },
                                None => String::new(),
                            };
                            assert(spec_api_error(v) == Some(msg@));
                            return Err(DnsError::ApiError(msg));
                        }
                    },
                    None => {},
                }
            },
            None => {},
        }
        assert(spec_api_error(v) is None);
        let items = match json_get(&v, "result") {
            Some(rv) => match json_as_array(rv) {
                Some(items) => items,
                None => {
                    return Err(DnsError::MissingResult);
                },
            },
            None => {
                return Err(DnsError::MissingResult);
            },
        };
        let records = records_from_json(items);
        let ghost rs = spec_records_from(items@, 0);
        proof {
            assert forall|j: int| 0 <= j < records@.len() implies #[trigger] rs[j]
                == record_view(records@[j]) by {
                assert(record_views(records@)[j] == record_view(records@[j]));
            }
        }
        match find_a_record(&records, domain) {
            Some(i) => {
                proof {
                    assert(rv_matches(rs[i as int], domain@));
                    assert forall|k: int| 0 <= k < i implies !rv_matches(
                        #[trigger] rs[k],
                        domain@,
                    ) by {
                        assert(!record_matches(records@[k], domain@));
                    }
                    lemma_first_match_found(rs, domain@, i as int);
                }
                self.record_id = Some(records[i].id.clone());
                match parse_ipv4(records[i].content.as_str()) {
                    Some(ip) => Ok(ip),
                    None => Err(DnsError::InvalidIp),
                }
            },
            None => {
                proof {
                    assert forall|k: int| 0 <= k < rs.len() implies !rv_matches(
                        #[trigger] rs[k],
                        domain@,
                    ) by {
                        assert(!record_matches(records@[k], domain@));
                    }
                    lemma_first_match_none(rs, domain@);
                }
                Err(DnsError::RecordNotFound)
            },
        }
    }
}

/// The JSON body of an update call for a domain and address.
pub open spec fn spec_update_body(domain: Seq<char>, ip: Ipv4) -> Seq<char> {
    "{\"type\":\"A\",\"name\":\""@ + spec_escape(domain) + "\",\"content\":\""@ + ipv4_text(ip)
        + "\"}"@
}

/// An update call ready to send: where to PUT and what.
#[derive(Clone, Debug, PartialEq, Eq)]
pub struct UpdateRequest {
    pub url: String,
    pub body: String,
}

impl Handler {
    /// The update call for a domain and address: owed exactly when a
    /// record was fetched first; its URL names the stored record and
    /// its body carries the new address.
    pub fn set_a_record_request(&self, domain: &str, ip: &Ipv4) -> (r: Result<
        UpdateRequest,
        DnsError,
    >)
        ensures
            match r {
                Ok(rq) => {
                    &&& self.record_id matches Some(rid) && rq.url@ == base_url() + "/"@
                        + self.zone_id@ + "/dns_records/"@ + rid@
                    &&& rq.body@ == spec_update_body(domain@, *ip)
                },
                Err(e) => self.record_id is None && e == DnsError::MissingRecordId,
            },
    {
        let rid = match &self.record_id {
            Some(rid) => rid,
            None => {
                return Err(DnsError::MissingRecordId);
            },
        };
        let mut url = String::new();
        url.append("https://api.cloudflare.com/client/v4/zones");
        url.append("/");
        url.append(self.zone_id.as_str());
        url.append("/dns_records/");
        url.append(rid.as_str());
        assert(url@ =~= base_url() + "/"@ + self.zone_id@ + "/dns_records/"@ + rid@);
        let esc = escape_json(domain);
        let ip_text = format_ipv4(ip);
        let mut body = String::new();
        body.append("{\"type\":\"A\",\"name\":\"");
        body.append(esc.as_str());
        body.append("\",\"content\":\"");
        body.append(ip_text.as_str());
        body.append("\"}");
        assert(body@ =~= spec_update_body(domain@, *ip));
        Ok(UpdateRequest { url, body })
    }
}

/// What the provider's answer to an update means: any status in the
/// 200s is success; anything else fails, keeping the response body.
pub fn set_a_record_result(status: u16, body: &str) -> (r: Result<(), DnsError>)
    ensures
        (200 <= status < 300) ==> r == Ok::<(), DnsError>(()),
        !(200 <= status < 300) ==> (match r {
            Err(e) => e matches DnsError::UpdateFailed(t) && t@ == body@,
            Ok(_) => false,
        }),
{
    if 200 <= status && status < 300 {
        Ok(())
    } else {
        Err(DnsError::UpdateFailed(String::from_str(body)))
    }
}

/// The text `describe` gives each failure; the update-refused case
/// carries the provider's response body whole.
pub open spec fn spec_error_text(e: DnsError) -> Seq<char> {
    match e {
        DnsError::InvalidApiKey => "API key is not a valid header value"@,
        DnsError::MalformedResponse => "Failed to parse JSON response from Cloudflare API"@,
        DnsError::ApiError(m) => "Cloudflare API error: "@ + m@,
        DnsError::MissingResult => "No 'result' field found in JSON response"@,
        DnsError::RecordNotFound => "A record not found for domain"@,
        DnsError::InvalidIp => "Invalid IP address"@,
        DnsError::MissingRecordId => "Missing record_id"@,
        DnsError::UpdateFailed(t) => "Failed to update A record: "@ + t@,
    }
}

impl DnsError {
    /// A plain-text account of the failure.
    pub fn describe(&self) -> (r: String)
        ensures
            r@ == spec_error_text(*self),
    {
        let mut out = String::new();
        match self {
            DnsError::InvalidApiKey => {
                out.append("API key is not a valid header value");
            },
            DnsError::MalformedResponse => {
                out.append("Failed to parse JSON response from Cloudflare API");
            },
            DnsError::ApiError(m) => {
                out.append("Cloudflare API error: ");
                out.append(m.as_str());
            },
            DnsError::MissingResult => {
                out.append("No 'result' field found in JSON response");
            },
            DnsError::RecordNotFound => {
                out.append("A record not found for domain");
            },
            DnsError::InvalidIp => {
                out.append("Invalid IP address");
            },
            DnsError::MissingRecordId => {
                out.append("Missing record_id");
            },
            DnsError::UpdateFailed(t) => {
                out.append("Failed to update A record: ");
                out.append(t.as_str());
            },
        }
        assert(out@ =~= spec_error_text(*self));
        out
    }
}

} // verus!
