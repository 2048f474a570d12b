//! The notifier's payloads: the JSON body a webhook receives and the
//! message announcing an update. Posting them is the caller's business.
use vstd::prelude::*;
use crate::ip::{Ipv4, ipv4_text, format_ipv4};
use crate::text::{spec_escape, escape_json};

verus! {

/// The JSON payload for a webhook message.
pub fn webhook_body(message: &str) -> (r: String)
    ensures
        r@ == "{\"content\":\""@ + spec_escape(message@) + "\"}"@,
{
    let esc = escape_json(message);
    let mut out = String::new();
    out.append("{\"content\":\"");
    out.append(esc.as_str());
    out.append("\"}");
    assert(out@ =~= "{\"content\":\""@ + spec_escape(message@) + "\"}"@);
    out
}

/// The text announcing that a domain's A record now holds an address.
pub fn update_message(domain: &str, ip: &Ipv4) -> (r: String)
    ensures
        r@ == "Updated A record of "@ + domain@ + " to "@ + ipv4_text(*ip),
{
    let ip_text = format_ipv4(ip);
    let mut out = String::new();
    out.append("Updated A record of ");
    out.append(domain);
    out.append(" to ");
    out.append(ip_text.as_str());
    assert(out@ =~= "Updated A record of "@ + domain@ + " to "@ + ipv4_text(*ip));
    out
}

} // verus!
