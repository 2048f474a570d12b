//! Persisted state: the configuration record, its line-based text codec
//! (`key = "value"` lines), and the merge a load performs. Reading and
//! writing the file itself is the caller's business; this module turns
//! text into fields and back, with a proved round trip.
use vstd::prelude::*;
use crate::ip::{Ipv4, ipv4_text, spec_parse_ipv4, parse_ipv4, format_ipv4};
use crate::text::{
    spec_trim, find_char, wf_text, is_wf_text, trim, find_char_exec, str_eq, lemma_find_char,
    is_space, lemma_find_char_exact, lemma_trim_range, lemma_trim_identity,
};
use crate::ip::{is_digit, lemma_ipv4_text_chars, lemma_text_parses};
use crate::timestamp::{spec_is_timestamp, is_valid_timestamp, current_timestamp};

verus! {

/// The durable state of the updater, held in memory during a run.
pub struct Config {
    pub outside_ip: Option<Ipv4>,
    pub cloudflare_ip: Option<Ipv4>,
    pub last_updated: String,
    pub save_dir: String,
    pub file_name: String,
    pub webhook_url: Option<String>,
}

impl Config {
    /// String fields are printable and unquoted, so they can stand
    /// verbatim in the state file, and the timestamp has its shape.
    pub open spec fn wf(self) -> bool {
        &&& spec_is_timestamp(self.last_updated@)
        &&& wf_text(self.last_updated@)
        &&& wf_text(self.save_dir@)
        &&& wf_text(self.file_name@)
        &&& match self.webhook_url {
            Some(u) => wf_text(u@),
            None => true,
        }
    }

    /// The path of the state file under this configuration's directory.
    pub fn config_path(&self) -> (r: String)
        ensures
            r@ == self.save_dir@ + "/"@ + self.file_name@,
    {
        let mut out = self.save_dir.clone();
        out.append("/");
        out.append(self.file_name.as_str());
        out
    }

    /// A plain-text account of this state, for logs.
    pub fn describe(&self) -> (r: String)
        ensures
            r@ == spec_describe(*self),
    {
        let mut out = String::new();
        out.append("Config { outside_ip: ");
        append_opt_ip(&mut out, &self.outside_ip);
        out.append(", cloudflare_ip: ");
        append_opt_ip(&mut out, &self.cloudflare_ip);
        out.append(", last_updated: ");
        out.append(self.last_updated.as_str());
        out.append(", save_dir: ");
        out.append(self.save_dir.as_str());
        out.append(", file_name: ");
        out.append(self.file_name.as_str());
        out.append(", webhook_url: ");
        match &self.webhook_url {
            Some(u) => out.append(u.as_str()),
            None => out.append("None"),
        }
        out.append(" }");
        assert(out@ =~= spec_describe(*self));
        out
    }
}

/// An optional address as logged: its text, or the word "None".
pub open spec fn opt_ip_text(o: Option<Ipv4>) -> Seq<char> {
    match o {
        Some(ip) => ipv4_text(ip),
        None => "None"@,
    }
}

/// The log line `describe` produces.
pub open spec fn spec_describe(c: Config) -> Seq<char> {
    "Config { outside_ip: "@ + opt_ip_text(c.outside_ip) + ", cloudflare_ip: "@ + opt_ip_text(
        c.cloudflare_ip,
    ) + ", last_updated: "@ + c.last_updated@ + ", save_dir: "@ + c.save_dir@ + ", file_name: "@
        + c.file_name@ + ", webhook_url: "@ + (match c.webhook_url {
        Some(u) => u@,
        None => "None"@,
    }) + " }"@
}

fn append_opt_ip(out: &mut String, o: &Option<Ipv4>)
    ensures
        final(out)@ == old(out)@ + opt_ip_text(*o),
{
    match o {
        Some(ip) => {
            let t = format_ipv4(ip);
            out.append(t.as_str());
        },
        None => {
            out.append("None");
        },
    }
}

impl Default for Config {
    /// First-run state: no addresses seen, the current time, the local
    /// directory and the usual file name, no webhook.
    fn default() -> (r: Self)
        ensures
            r.outside_ip is None,
            r.cloudflare_ip is None,
            r.save_dir@ == "."@,
            r.file_name@ == "cdu.toml"@,
            r.webhook_url is None,
            r.wf(),
    {
        let save_dir = String::from_str(".");
        let file_name = String::from_str("cdu.toml");
        proof {
            reveal_strlit(".");
            reveal_strlit("cdu.toml");
            assert(wf_text(save_dir@));
            assert(wf_text(file_name@));
        }
        Config {
            outside_ip: None,
            cloudflare_ip: None,
            last_updated: current_timestamp(),
            save_dir,
            file_name,
            webhook_url: None,
        }
    }
}

/// Why a state text was rejected.
#[derive(Clone, Copy, Debug, PartialEq, Eq, Structural)]
pub enum LoadError {
    /// A line is not an empty line or a `key = "value"` line.
    Syntax,
    /// An address field does not hold dotted-decimal IPv4 text.
    InvalidIp,
    /// The timestamp field does not have the accepted shape.
    InvalidTimestamp,
    /// A field occurs twice.
    DuplicateKey,
}

/// The fields a state text yields; absent fields stay `None`.
pub struct LoadedFields {
    pub outside_ip: Option<Ipv4>,
    pub cloudflare_ip: Option<Ipv4>,
    pub last_updated: Option<String>,
    pub save_dir: Option<String>,
    pub file_name: Option<String>,
    pub webhook_url: Option<String>,
}

/// Ghost image of `LoadedFields`, with text as sequences.
pub ghost struct FieldsView {
    pub outside_ip: Option<Ipv4>,
    pub cloudflare_ip: Option<Ipv4>,
    pub last_updated: Option<Seq<char>>,
    pub save_dir: Option<Seq<char>>,
    pub file_name: Option<Seq<char>>,
    pub webhook_url: Option<Seq<char>>,
}

pub open spec fn view_of(f: LoadedFields) -> FieldsView {
    FieldsView {
        outside_ip: f.outside_ip,
        cloudflare_ip: f.cloudflare_ip,
        last_updated: match f.last_updated {
            Some(t) => Some(t@),
            None => None,
        },
        save_dir: match f.save_dir {
            Some(t) => Some(t@),
            None => None,
        },
        file_name: match f.file_name {
            Some(t) => Some(t@),
            None => None,
        },
        webhook_url: match f.webhook_url {
            Some(t) => Some(t@),
            None => None,
        },
    }
}

pub open spec fn empty_fields() -> FieldsView {
    FieldsView {
        outside_ip: None,
        cloudflare_ip: None,
        last_updated: None,
        save_dir: None,
        file_name: None,
        webhook_url: None,
    }
}

/// Every text field a parse has produced is printable, and the timestamp
/// has its shape.
pub open spec fn fields_wf(f: FieldsView) -> bool {
    &&& match f.last_updated {
        Some(t) => spec_is_timestamp(t) && wf_text(t),
        None => true,
    }
    &&& match f.save_dir {
        Some(t) => wf_text(t),
        None => true,
    }
    &&& match f.file_name {
        Some(t) => wf_text(t),
        None => true,
    }
    &&& match f.webhook_url {
        Some(t) => wf_text(t),
        None => true,
    }
}

/// What one `key = "value"` pair does to the fields gathered so far:
/// known keys are checked and recorded once, unknown keys are ignored.
pub open spec fn spec_dispatch(key: Seq<char>, inner: Seq<char>, acc: FieldsView) -> Result<
    FieldsView,
    LoadError,
> {
    if key == "outside_ip"@ {
        if acc.outside_ip is Some {
            Err(LoadError::DuplicateKey)
        } else {
            match spec_parse_ipv4(inner) {
                Some(ip) => Ok(FieldsView { outside_ip: Some(ip), ..acc }),
                None => Err(LoadError::InvalidIp),
            }
        }
    } else if key == "cloudflare_ip"@ {
        if acc.cloudflare_ip is Some {
            Err(LoadError::DuplicateKey)
        } else {
            match spec_parse_ipv4(inner) {
                Some(ip) => Ok(FieldsView { cloudflare_ip: Some(ip), ..acc }),
                None => Err(LoadError::InvalidIp),
            }
        }
    } else if key == "last_updated"@ {
        if acc.last_updated is Some {
            Err(LoadError::DuplicateKey)
        } else if spec_is_timestamp(inner) {
            Ok(FieldsView { last_updated: Some(inner), ..acc })
        } else {
            Err(LoadError::InvalidTimestamp)
        }
    } else if key == "save_dir"@ {
        if acc.save_dir is Some {
            Err(LoadError::DuplicateKey)
        } else {
            Ok(FieldsView { save_dir: Some(inner), ..acc })
        }
    } else if key == "file_name"@ {
        if acc.file_name is Some {
            Err(LoadError::DuplicateKey)
        } else {
            Ok(FieldsView { file_name: Some(inner), ..acc })
        }
    } else if key == "webhook_url"@ {
        if acc.webhook_url is Some {
            Err(LoadError::DuplicateKey)
        } else {
            Ok(FieldsView { webhook_url: Some(inner), ..acc })
        }
    } else {
        Ok(acc)
    }
}

/// One line of state text: blank lines pass, anything else must be
/// `key = "value"` with a printable value.
pub open spec fn spec_parse_line(line: Seq<char>, acc: FieldsView) -> Result<
    FieldsView,
    LoadError,
> {
    let t = spec_trim(line);
    if t.len() == 0 {
        Ok(acc)
    } else {
        let p = find_char(t, '=', 0);
        if p == t.len() {
            Err(LoadError::Syntax)
        } else {
            let key = spec_trim(t.subrange(0, p));
            let v = spec_trim(t.subrange(p + 1, t.len() as int));
            if v.len() < 2 || v[0] != '"' || v[v.len() - 1] != '"' {
                Err(LoadError::Syntax)
            } else {
                let inner = v.subrange(1, v.len() - 1);
                if !wf_text(inner) {
                    Err(LoadError::Syntax)
                } else {
                    spec_dispatch(key, inner, acc)
                }
            }
        }
    }
}

/// Parse of the whole text, one newline-terminated line at a time.
pub open spec fn spec_parse_from(s: Seq<char>, i: int, acc: FieldsView) -> Result<
    FieldsView,
    LoadError,
>
    recommends
        0 <= i <= s.len(),
    decreases s.len() - i,
{
    if i < 0 || i >= s.len() {
        Ok(acc)
    } else {
        let e = find_char(s, '\n', i);
        let next = if i <= e && e + 1 <= s.len() {
            e + 1
        } else {
            s.len() as int
        };
        match spec_parse_line(s.subrange(i, e), acc) {
            Ok(acc2) => spec_parse_from(s, next, acc2),
            Err(x) => Err(x),
        }
    }
}

pub open spec fn spec_parse_state(s: Seq<char>) -> Result<FieldsView, LoadError> {
    spec_parse_from(s, 0, empty_fields())
}

fn parse_line(line: &str, acc: LoadedFields) -> (r: Result<LoadedFields, LoadError>)
    ensures
        match r {
            Ok(acc2) => spec_parse_line(line@, view_of(acc)) == Ok::<FieldsView, LoadError>(
                view_of(acc2),
            ),
            Err(x) => spec_parse_line(line@, view_of(acc)) == Err::<FieldsView, LoadError>(x),
        },
{
    let t = trim(line);
    let n = t.unicode_len();
    if n == 0 {
        return Ok(acc);
    }
    let p = find_char_exec(t, '=', 0, n);
    proof {
        lemma_find_char(t@, '=', 0);
    }
    if p == n {
        return Err(LoadError::Syntax);
    }
    let key_part = t.substring_char(0, p);
    let key = trim(key_part);
    let val_part = t.substring_char(p + 1, n);
    let v = trim(val_part);
    let vn = v.unicode_len();
    if vn < 2 || v.get_char(0) != '"' || v.get_char(vn - 1) != '"' {
        return Err(LoadError::Syntax);
    }
    let inner = v.substring_char(1, vn - 1);
    if !is_wf_text(inner) {
        return Err(LoadError::Syntax);
    }
    if str_eq(key, "outside_ip") {
        if acc.outside_ip.is_some() {
            Err(LoadError::DuplicateKey)
        } else {
            match parse_ipv4(inner) {
                Some(ip) => Ok(LoadedFields { outside_ip: Some(ip), ..acc }),
                None => Err(LoadError::InvalidIp),
            }
        }
    } else if str_eq(key, "cloudflare_ip") {
        if acc.cloudflare_ip.is_some() {
            Err(LoadError::DuplicateKey)
        } else {
            match parse_ipv4(inner) {
                Some(ip) => Ok(LoadedFields { cloudflare_ip: Some(ip), ..acc }),
                None => Err(LoadError::InvalidIp),
            }
        }
    } else if str_eq(key, "last_updated") {
        if acc.last_updated.is_some() {
            Err(LoadError::DuplicateKey)
        } else if is_valid_timestamp(inner) {
            Ok(LoadedFields { last_updated: Some(String::from_str(inner)), ..acc })
        } else {
            Err(LoadError::InvalidTimestamp)
        }
    } else if str_eq(key, "save_dir") {
        if acc.save_dir.is_some() {
            Err(LoadError::DuplicateKey)
        } else {
            Ok(LoadedFields { save_dir: Some(String::from_str(inner)), ..acc })
        }
    } else if str_eq(key, "file_name") {
        if acc.file_name.is_some() {
            Err(LoadError::DuplicateKey)
        } else {
            Ok(LoadedFields { file_name: Some(String::from_str(inner)), ..acc })
        }
    } else if str_eq(key, "webhook_url") {
        if acc.webhook_url.is_some() {
            Err(LoadError::DuplicateKey)
        } else {
            Ok(LoadedFields { webhook_url: Some(String::from_str(inner)), ..acc })
        }
    } else {
        Ok(acc)
    }
}

fn parse_from(s: &str, i: usize, n: usize, acc: LoadedFields) -> (r: Result<
    LoadedFields,
    LoadError,
>)
    requires
        i <= n,
        n == s@.len(),
    ensures
        match r {
            Ok(f) => spec_parse_from(s@, i as int, view_of(acc)) == Ok::<FieldsView, LoadError>(
                view_of(f),
            ),
            Err(x) => spec_parse_from(s@, i as int, view_of(acc)) == Err::<FieldsView, LoadError>(
                x,
            ),
        },
    decreases n - i,
{
    if i >= n {
        return Ok(acc);
    }
    let e = find_char_exec(s, '\n', i, n);
    proof {
        lemma_find_char(s@, '\n', i as int);
    }
    let line = s.substring_char(i, e);
    match parse_line(line, acc) {
        Ok(acc2) => {
            let next = if e < n {
                e + 1
            } else {
                n
            };
            parse_from(s, next, n, acc2)
        },
        Err(x) => Err(x),
    }
}

/// Parses a whole state text into its fields.
pub fn parse_state(s: &str) -> (r: Result<LoadedFields, LoadError>)
    ensures
        match r {
            Ok(f) => spec_parse_state(s@) == Ok::<FieldsView, LoadError>(view_of(f)),
            Err(x) => spec_parse_state(s@) == Err::<FieldsView, LoadError>(x),
        },
{
    let n = s.unicode_len();
    let acc = LoadedFields {
        outside_ip: None,
        cloudflare_ip: None,
        last_updated: None,
        save_dir: None,
        file_name: None,
        webhook_url: None,
    };
    parse_from(s, 0, n, acc)
}

/// How a successful load changes a configuration: address and webhook
/// fields are replaced by what the file holds (absent means none), the
/// timestamp is replaced only when present, and the file's location
/// fields are left as they were.
pub open spec fn merged(c0: Config, f: FieldsView, c1: Config) -> bool {
    &&& c1.outside_ip == f.outside_ip
    &&& c1.cloudflare_ip == f.cloudflare_ip
    &&& match f.last_updated {
        Some(t) => c1.last_updated@ == t,
        None => c1.last_updated == c0.last_updated,
    }
    &&& match f.webhook_url {
        Some(u) => match c1.webhook_url {
            Some(w) => w@ == u,
            None => false,
        },
        None => c1.webhook_url is None,
    }
    &&& c1.save_dir == c0.save_dir
    &&& c1.file_name == c0.file_name
}

impl Config {
    /// Takes the state file's content, absent when the file does not
    /// exist: absence is a quiet first run, a parsed text is merged in,
    /// and a rejected text changes nothing and reports why.
    pub fn load(&mut self, content: Option<&str>) -> (r: Result<(), LoadError>)
        ensures
            match content {
                None => r is Ok && *final(self) == *old(self),
                Some(s) => match spec_parse_state(s@) {
                    Ok(f) => r is Ok && merged(*old(self), f, *final(self)),
                    Err(x) => r == Err::<(), LoadError>(x) && *final(self) == *old(self),
                },
            },
            old(self).wf() ==> final(self).wf(),
    {
        match content {
            None => Ok(()),
            Some(s) => {
                match parse_state(s) {
                    Ok(f) => {
                        proof {
                            lemma_parse_state_wf(s@);
                        }
                        self.outside_ip = f.outside_ip;
                        self.cloudflare_ip = f.cloudflare_ip;
                        match f.last_updated {
                            Some(t) => {
                                self.last_updated = t;
                            },
                            None => {},
                        }
                        self.webhook_url = f.webhook_url;
                        Ok(())
                    },
                    Err(x) => Err(x),
                }
            },
        }
    }
}

proof fn lemma_parse_line_wf(line: Seq<char>, acc: FieldsView)
    requires
        fields_wf(acc),
        spec_parse_line(line, acc) is Ok,
    ensures
        fields_wf(spec_parse_line(line, acc)->Ok_0),
{
}

proof fn lemma_parse_from_wf(s: Seq<char>, i: int, acc: FieldsView)
    requires
        0 <= i <= s.len(),
        fields_wf(acc),
        spec_parse_from(s, i, acc) is Ok,
    ensures
        fields_wf(spec_parse_from(s, i, acc)->Ok_0),
    decreases s.len() - i,
{
    if i < s.len() {
        let e = find_char(s, '\n', i);
        lemma_find_char(s, '\n', i);
        let next = if e + 1 <= s.len() {
            e + 1
        } else {
            s.len() as int
        };
        match spec_parse_line(s.subrange(i, e), acc) {
            Ok(acc2) => {
                lemma_parse_line_wf(s.subrange(i, e), acc);
                lemma_parse_from_wf(s, next, acc2);
            },
            Err(_) => {},
        }
    }
}

/// A parse only yields printable fields and a shapely timestamp.
pub proof fn lemma_parse_state_wf(s: Seq<char>)
    requires
        spec_parse_state(s) is Ok,
    ensures
        fields_wf(spec_parse_state(s)->Ok_0),
{
    lemma_parse_from_wf(s, 0, empty_fields());
}

/// One serialized line: `key = "value"` and a newline.
pub open spec fn kv_line(key: Seq<char>, val: Seq<char>) -> Seq<char> {
    key + " = \""@ + val + "\"\n"@
}

/// A key as the serializer writes one: non-empty, and free of spaces,
/// '=' and line breaks, so the parser cuts the line at the right places.
pub open spec fn key_ok(key: Seq<char>) -> bool {
    key.len() > 0 && forall|j: int| 0 <= j < key.len() ==> !is_space(#[trigger] key[j]) && key[j]
        != '=' && key[j] != '\n'
}

pub open spec fn seg_outside(c: Config) -> Seq<char> {
    match c.outside_ip {
        Some(ip) => kv_line("outside_ip"@, ipv4_text(ip)),
        None => Seq::empty(),
    }
}

pub open spec fn seg_cloudflare(c: Config) -> Seq<char> {
    match c.cloudflare_ip {
        Some(ip) => kv_line("cloudflare_ip"@, ipv4_text(ip)),
        None => Seq::empty(),
    }
}

pub open spec fn seg_webhook(c: Config) -> Seq<char> {
    match c.webhook_url {
        Some(u) => kv_line("webhook_url"@, u@),
        None => Seq::empty(),
    }
}

/// The serialized state: one line per present field, fixed order.
pub open spec fn spec_save(c: Config) -> Seq<char> {
    seg_outside(c) + seg_cloudflare(c) + kv_line("last_updated"@, c.last_updated@) + kv_line(
        "save_dir"@,
        c.save_dir@,
    ) + kv_line("file_name"@, c.file_name@) + seg_webhook(c)
}

fn append_kv(out: &mut String, key: &str, val: &str)
    ensures
        final(out)@ == old(out)@ + kv_line(key@, val@),
{
    out.append(key);
    out.append(" = \"");
    out.append(val);
    out.append("\"\n");
    assert(final(out)@ =~= old(out)@ + kv_line(key@, val@));
}

impl Config {
    /// Serializes this state as the text `load` accepts.
    pub fn save(&self) -> (r: String)
        ensures
            r@ == spec_save(*self),
    {
        let mut out = String::new();
        match &self.outside_ip {
            Some(ip) => {
                let t = format_ipv4(ip);
                append_kv(&mut out, "outside_ip", t.as_str());
            },
            None => {},
        }
        match &self.cloudflare_ip {
            Some(ip) => {
                let t = format_ipv4(ip);
                append_kv(&mut out, "cloudflare_ip", t.as_str());
            },
            None => {},
        }
        append_kv(&mut out, "last_updated", self.last_updated.as_str());
        append_kv(&mut out, "save_dir", self.save_dir.as_str());
        append_kv(&mut out, "file_name", self.file_name.as_str());
        match &self.webhook_url {
            Some(u) => {
                append_kv(&mut out, "webhook_url", u.as_str());
            },
            None => {},
        }
        assert(out@ =~= spec_save(*self));
        out
    }
}

/// A well-formed `key = "value"` line body parses to what `spec_dispatch`
/// says of the pair.
proof fn lemma_line_parses(key: Seq<char>, val: Seq<char>, acc: FieldsView)
    requires
        key_ok(key),
        wf_text(val),
    ensures
        spec_parse_line(key + " = \""@ + val + "\""@, acc) == spec_dispatch(key, val, acc),
{
    reveal_strlit(" = \"");
    reveal_strlit("\"");
    let mid = " = \""@;
    let q = "\""@;
    let line = key + mid + val + q;
    let kl = key.len() as int;
    let ll = line.len() as int;
    assert(ll == kl + 4 + val.len() + 1);
    assert(line[0] == key[0]);
    assert(!is_space(line[0]));
    assert(line[ll - 1] == '"');
    lemma_trim_identity(line);
    let t = spec_trim(line);
    assert(t == line);
    assert(line[kl + 1] == '=');
    assert forall|k: int| 0 <= k < kl + 1 implies line[k] != '=' by {
        if k < kl {
            assert(line[k] == key[k]);
        } else {
            assert(line[k] == ' ');
        }
    }
    lemma_find_char_exact(line, '=', 0, kl + 1);
    let p = find_char(t, '=', 0);
    assert(p == kl + 1);
    let kp = t.subrange(0, p);
    assert(kp =~= key + seq![' ']);
    assert(!is_space(kp[0]));
    assert(!is_space(kp[kl - 1]));
    lemma_trim_range(kp, 0, kl);
    assert(kp.subrange(0, kl) =~= key);
    assert(spec_trim(kp) == key);
    let vp = t.subrange(p + 1, ll);
    assert(vp =~= seq![' ', '"'] + val + seq!['"']);
    assert(vp[1] == '"');
    assert(vp[vp.len() - 1] == '"');
    lemma_trim_range(vp, 1, vp.len() as int);
    let v = spec_trim(vp);
    assert(v =~= seq!['"'] + val + seq!['"']);
    assert(v.len() == val.len() + 2);
    assert(v[0] == '"' && v[v.len() - 1] == '"');
    let inner = v.subrange(1, v.len() - 1);
    assert(inner =~= val);
    assert(spec_parse_line(line, acc) == spec_dispatch(key, val, acc));
}

/// Parsing from the start of a serialized line consumes exactly that
/// line and continues behind it.
proof fn lemma_parse_from_step(s: Seq<char>, i: int, key: Seq<char>, val: Seq<char>, acc: FieldsView)
    requires
        0 <= i,
        i + kv_line(key, val).len() <= s.len(),
        s.subrange(i, i + kv_line(key, val).len() as int) == kv_line(key, val),
        key_ok(key),
        wf_text(val),
    ensures
        spec_parse_from(s, i, acc) == match spec_dispatch(key, val, acc) {
            Ok(a2) => spec_parse_from(s, i + kv_line(key, val).len() as int, a2),
            Err(x) => Err(x),
        },
{
    reveal_strlit(" = \"");
    reveal_strlit("\"\n");
    reveal_strlit("\"");
    let el = kv_line(key, val);
    let ll = el.len() as int;
    let kl = key.len() as int;
    assert(ll == kl + 4 + val.len() + 2);
    assert forall|k: int| 0 <= k < ll implies s[i + k] == #[trigger] el[k] by {
        assert(s.subrange(i, i + ll)[k] == s[i + k]);
    }
    assert(el[ll - 1] == '\n');
    assert(s[i + ll - 1] == '\n');
    assert forall|k: int| i <= k < i + ll - 1 implies s[k] != '\n' by {
        let j = k - i;
        assert(s[k] == el[j]);
        if j < kl {
            assert(el[j] == key[j]);
        } else if j < kl + 4 {
            assert(el[j] == (" = \""@)[j - kl]);
        } else if j < kl + 4 + val.len() {
            assert(el[j] == val[j - kl - 4]);
            assert(' ' <= val[j - kl - 4]);
        } else {
            assert(el[j] == ("\"\n"@)[j - kl - 4 - val.len()]);
        }
    }
    lemma_find_char_exact(s, '\n', i, i + ll - 1);
    let e = find_char(s, '\n', i);
    assert(e == i + ll - 1);
    let line = s.subrange(i, e);
    assert(line =~= key + " = \""@ + val + "\""@);
    lemma_line_parses(key, val, acc);
    assert(spec_parse_line(line, acc) == spec_dispatch(key, val, acc));
    assert(i < s.len());
    assert(spec_parse_from(s, i, acc) == match spec_parse_line(line, acc) {
        Ok(a2) => spec_parse_from(s, i + ll, a2),
        Err(x) => Err(x),
    });
}

/// The fields a parse of a saved state yields.
pub open spec fn round_trip_fields(c: Config) -> FieldsView {
    FieldsView {
        outside_ip: c.outside_ip,
        cloudflare_ip: c.cloudflare_ip,
        last_updated: Some(c.last_updated@),
        save_dir: Some(c.save_dir@),
        file_name: Some(c.file_name@),
        webhook_url: match c.webhook_url {
            Some(u) => Some(u@),
            None => None,
        },
    }
}

proof fn lemma_wf_val(val: Seq<char>, ip: Ipv4)
    requires
        val == ipv4_text(ip),
    ensures
        wf_text(val),
{
    lemma_ipv4_text_chars(ip);
    assert forall|k: int| 0 <= k < val.len() implies ' ' <= #[trigger] val[k] <= '~' && val[k]
        != '"' && val[k] != '\\' by {
        assert(is_digit(val[k]) || val[k] == '.');
    }
}

/// Saving a state and loading the text back yields every field again:
/// the addresses and the webhook as saved, the timestamp as saved, and
/// a merge of those fields into the saved state changes nothing.
proof fn lemma_keys_ok()
    ensures
        key_ok("outside_ip"@),
        key_ok("cloudflare_ip"@),
        key_ok("last_updated"@),
        key_ok("save_dir"@),
        key_ok("file_name"@),
        key_ok("webhook_url"@),
        "outside_ip"@.len() == 10,
        "cloudflare_ip"@.len() == 13,
        "last_updated"@.len() == 12,
        "save_dir"@.len() == 8,
        "file_name"@.len() == 9,
        "webhook_url"@.len() == 11,
{
    reveal_strlit("outside_ip");
    reveal_strlit("cloudflare_ip");
    reveal_strlit("last_updated");
    reveal_strlit("save_dir");
    reveal_strlit("file_name");
    reveal_strlit("webhook_url");
}

#[verifier::rlimit(60)]
proof fn lemma_six_parts(
    sa: Seq<char>,
    sb: Seq<char>,
    s3: Seq<char>,
    s4: Seq<char>,
    s5: Seq<char>,
    sf: Seq<char>,
)
    ensures
        ({
            let s = sa + sb + s3 + s4 + s5 + sf;
            let i1 = sa.len() as int;
            let i2 = i1 + sb.len() as int;
            let i3 = i2 + s3.len() as int;
            let i4 = i3 + s4.len() as int;
            let i5 = i4 + s5.len() as int;
            let i6 = i5 + sf.len() as int;
            &&& s.len() == i6
            &&& s.subrange(0, i1) == sa
            &&& s.subrange(i1, i2) == sb
            &&& s.subrange(i2, i3) == s3
            &&& s.subrange(i3, i4) == s4
            &&& s.subrange(i4, i5) == s5
            &&& s.subrange(i5, i6) == sf
        }),
{
    let s = sa + sb + s3 + s4 + s5 + sf;
    let i1 = sa.len() as int;
    let i2 = i1 + sb.len() as int;
    let i3 = i2 + s3.len() as int;
    let i4 = i3 + s4.len() as int;
    let i5 = i4 + s5.len() as int;
    let i6 = i5 + sf.len() as int;
    assert(s.subrange(0, i1) =~= sa);
    assert(s.subrange(i1, i2) =~= sb);
    assert(s.subrange(i5, i6) =~= sf);
}

#[verifier::rlimit(100)]
pub proof fn lemma_save_load_round_trip(c: Config)
    requires
        c.wf(),
    ensures
        spec_parse_state(spec_save(c)) == Ok::<FieldsView, LoadError>(round_trip_fields(c)),
        merged(c, round_trip_fields(c), c),
{
    lemma_keys_ok();
    let s = spec_save(c);
    let sa = seg_outside(c);
    let sb = seg_cloudflare(c);
    let s3 = kv_line("last_updated"@, c.last_updated@);
    let s4 = kv_line("save_dir"@, c.save_dir@);
    let s5 = kv_line("file_name"@, c.file_name@);
    let sf = seg_webhook(c);
    let i1 = sa.len() as int;
    let i2 = i1 + sb.len() as int;
    let i3 = i2 + s3.len() as int;
    let i4 = i3 + s4.len() as int;
    let i5 = i4 + s5.len() as int;
    let i6 = i5 + sf.len() as int;
    lemma_six_parts(sa, sb, s3, s4, s5, sf);
    assert(s == sa + sb + s3 + s4 + s5 + sf);
    assert(s.len() == i6);
    let a0 = empty_fields();
    let a1 = match c.outside_ip {
        Some(ip) => FieldsView { outside_ip: Some(ip), ..a0 },
        None => a0,
    };
    match c.outside_ip {
        Some(ip) => {
            lemma_wf_val(ipv4_text(ip), ip);
            lemma_text_parses(ip);
            lemma_parse_from_step(s, 0, "outside_ip"@, ipv4_text(ip), a0);
            assert(spec_parse_from(s, 0, a0) == spec_parse_from(s, i1, a1));
        },
        None => {
            assert(i1 == 0 && a1 == a0);
        },
    }
    let a2 = match c.cloudflare_ip {
        Some(ip) => FieldsView { cloudflare_ip: Some(ip), ..a1 },
        None => a1,
    };
    match c.cloudflare_ip {
        Some(ip) => {
            lemma_wf_val(ipv4_text(ip), ip);
            lemma_text_parses(ip);
            lemma_parse_from_step(s, i1, "cloudflare_ip"@, ipv4_text(ip), a1);
            assert(spec_parse_from(s, i1, a1) == spec_parse_from(s, i2, a2));
        },
        None => {
            assert(i2 == i1 && a2 == a1);
        },
    }
    let a3 = FieldsView { last_updated: Some(c.last_updated@), ..a2 };
    lemma_parse_from_step(s, i2, "last_updated"@, c.last_updated@, a2);
    assert(spec_dispatch("last_updated"@, c.last_updated@, a2) == Ok::<FieldsView, LoadError>(a3));
    assert(spec_parse_from(s, i2, a2) == spec_parse_from(s, i3, a3));
    let a4 = FieldsView { save_dir: Some(c.save_dir@), ..a3 };
    lemma_parse_from_step(s, i3, "save_dir"@, c.save_dir@, a3);
    assert(spec_parse_from(s, i3, a3) == spec_parse_from(s, i4, a4));
    let a5 = FieldsView { file_name: Some(c.file_name@), ..a4 };
    lemma_parse_from_step(s, i4, "file_name"@, c.file_name@, a4);
    assert(spec_parse_from(s, i4, a4) == spec_parse_from(s, i5, a5));
    let a6 = match c.webhook_url {
        Some(u) => FieldsView { webhook_url: Some(u@), ..a5 },
        None => a5,
    };
    match c.webhook_url {
        Some(u) => {
            lemma_parse_from_step(s, i5, "webhook_url"@, u@, a5);
            assert(spec_parse_from(s, i5, a5) == spec_parse_from(s, i6, a6));
        },
        None => {
            assert(i6 == i5 && a6 == a5);
        },
    }
    assert(spec_parse_from(s, i6, a6) == Ok::<FieldsView, LoadError>(a6));
    assert(a6 == round_trip_fields(c));
}

} // verus!
