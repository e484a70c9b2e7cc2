//! bash.ws as the leak-test service.
//!
//! Protocol:
//! 1. A random session id.
//! 2. `N` probe hostnames of the form `{i}.{id}.{probe_domain}`; resolving
//!    them through the system resolver is what causes bash.ws's authoritative
//!    nameserver to record which resolvers asked.
//! 3. `GET {base_url}/dnsleak/test/{id}?json`, which returns either a JSON
//!    array of result entries, or `{"error": "..."}` if queried before the
//!    probe lookups have been recorded.
use vstd::prelude::*;
use vstd::slice::slice_subrange;

use super::{DnsLeakError, LeakSession, ServiceEntry};
use crate::http::{is_success, status_message};
use crate::json;
use crate::json::{parse_json, JsonReply};
use crate::text;
use crate::text::{chars_of, decimal_text, same_text, string_of, trim_end_matches};

verus! {

/// Number of probe hostnames resolved per test.
pub const DEFAULT_PROBE_COUNT: u32 = 8;

/// Length of the session id, in lower-case hexadecimal characters.
pub const SESSION_ID_LEN: usize = 12;

/// A lower-case hexadecimal digit.
pub open spec fn lower_hex(c: char) -> bool {
    '0' <= c <= '9' || 'a' <= c <= 'f'
}

pub open spec fn all_lower_hex(s: Seq<char>) -> bool {
    forall|i: int| 0 <= i < s.len() ==> lower_hex(#[trigger] s[i])
}

/// `Uuid::new_v4` of the `uuid` crate, rendered by `Uuid::simple`: 32
/// lower-case hexadecimal digits, of which the thirteenth is the version `4`
/// and the seventeenth is the variant, one of `8`, `9`, `a` and `b`. The
/// others are random; nothing is claimed of them. The call ends the program
/// where the system has no source of randomness.
#[verifier::external_body]
fn random_uuid() -> (r: String)
    ensures
        r@.len() == 32,
        all_lower_hex(r@),
        r@[12] == '4',
        r@[16] == '8' || r@[16] == '9' || r@[16] == 'a' || r@[16] == 'b',
{
    uuid::Uuid::new_v4().simple().to_string()
}

/// The session id that a rendered UUID gives: its first twelve digits.
pub fn session_id_of(uuid: &str) -> (r: String)
    requires
        uuid@.len() >= SESSION_ID_LEN,
    ensures
        r@ == uuid@.take(SESSION_ID_LEN as int),
{
    let chars = chars_of(uuid);
    let r = string_of(slice_subrange(chars.as_slice(), 0, SESSION_ID_LEN));
    assert(r@ == uuid@.take(SESSION_ID_LEN as int));
    r
}

/// A random 12-character lower-case hexadecimal session id. Random rather
/// than anything timestamp-derived: a predictable id could collide with
/// another user's concurrent test and return their resolvers instead of ours.
pub fn generate_session_id() -> (r: String)
    ensures
        r@.len() == SESSION_ID_LEN,
        r@.len() == 12,
        all_lower_hex(r@),
{
    let full = random_uuid();
    let r = session_id_of(full.as_str());
    assert(all_lower_hex(r@)) by {
        assert forall|i: int| 0 <= i < r@.len() implies lower_hex(#[trigger] r@[i]) by {
            assert(r@[i] == full@[i]);
        }
    }
    r
}

#[derive(Debug, PartialEq)]
pub struct BashWs {
    /// Base URL for the results HTTP endpoint, e.g. `https://bash.ws`.
    pub base_url: String,
    /// Domain the numbered probe hostnames are generated under, e.g.
    /// `bash.ws`. Kept separate from `base_url` because it names something
    /// resolved over DNS, not fetched over HTTP.
    pub probe_domain: String,
    pub probe_count: u32,
}

impl Default for BashWs {
    fn default() -> (r: Self)
        ensures
            r.base_url@ == "https://bash.ws"@,
            r.probe_domain@ == "bash.ws"@,
            r.probe_count == DEFAULT_PROBE_COUNT,
            r.probe_count == 8,
    {
        BashWs {
            base_url: "https://bash.ws".to_string(),
            probe_domain: "bash.ws".to_string(),
            probe_count: DEFAULT_PROBE_COUNT,
        }
    }
}

/// The `i`-th probe hostname of a session.
pub open spec fn probe_name(i: nat, id: Seq<char>, domain: Seq<char>) -> Seq<char> {
    text::decimal(i) + "."@ + id + "."@ + domain
}

/// The probe hostnames of a session, numbered from 1.
pub open spec fn probe_names(count: nat, id: Seq<char>, domain: Seq<char>) -> Seq<Seq<char>> {
    Seq::new(count, |i: int| probe_name((i + 1) as nat, id, domain))
}

impl BashWs {
    /// Points the results HTTP call at another base URL. The probe domain
    /// (used only for DNS hostnames, never fetched) is left at the real
    /// `bash.ws`.
    pub fn with_base_url(base_url: &str) -> (r: Self)
        ensures
            r.base_url@ == base_url@,
            r.probe_domain@ == "bash.ws"@,
            r.probe_count == DEFAULT_PROBE_COUNT,
            r.probe_count == 8,
    {
        BashWs {
            base_url: base_url.to_string(),
            probe_domain: "bash.ws".to_string(),
            probe_count: DEFAULT_PROBE_COUNT,
        }
    }

    pub fn name(&self) -> (r: &'static str)
        ensures
            r@ == "bash.ws"@,
    {
        "bash.ws"
    }

    /// The URL under which the results of a session are fetched.
    pub fn results_url(&self, session_id: &str) -> (r: String)
        ensures
            r@ == text::without_trailing(self.base_url@, '/') + "/dnsleak/test/"@ + session_id@
                + "?json"@,
    {
        trim_end_matches(self.base_url.as_str(), '/').concat("/dnsleak/test/").concat(
            session_id,
        ).concat("?json")
    }

    /// The session under a given id.
    pub fn session(&self, id: String) -> (r: LeakSession)
        ensures
            r.id == id,
            text::texts(r.hostnames@) == probe_names(
                self.probe_count as nat,
                id@,
                self.probe_domain@,
            ),
            r.hostnames@.len() == self.probe_count,
            forall|i: int|
                0 <= i < r.hostnames@.len() ==> (#[trigger] r.hostnames@[i])@ == text::decimal(
                    (i + 1) as nat,
                ) + "."@ + id@ + "."@ + self.probe_domain@,
    {
        let mut hostnames: Vec<String> = Vec::new();
        let ghost names = probe_names(self.probe_count as nat, id@, self.probe_domain@);
        for i in 0..self.probe_count
            invariant
                names == probe_names(self.probe_count as nat, id@, self.probe_domain@),
                text::texts(hostnames@) == names.take(i as int),
        {
            let ghost before = hostnames@;
            let host = decimal_text(i as u64 + 1).concat(".").concat(id.as_str()).concat(
                ".",
            ).concat(self.probe_domain.as_str());
            hostnames.push(host);
            assert(text::texts(hostnames@) == text::texts(before).push(host@));
            assert(host@ == names[i as int]);
        }
        assert(names.take(self.probe_count as int) == names);
        assert(text::texts(hostnames@).len() == hostnames@.len());
        assert forall|i: int| 0 <= i < hostnames@.len() implies (#[trigger] hostnames@[i])@
            == text::decimal((i + 1) as nat) + "."@ + id@ + "."@ + self.probe_domain@ by {
            assert(text::texts(hostnames@)[i] == names[i]);
        }
        LeakSession { id, hostnames }
    }

    /// Starts a fresh test session: a random id and the hostnames to resolve.
    pub fn new_session(&self) -> (r: LeakSession)
        ensures
            r.id@.len() == SESSION_ID_LEN,
            all_lower_hex(r.id@),
            text::texts(r.hostnames@) == probe_names(
                self.probe_count as nat,
                r.id@,
                self.probe_domain@,
            ),
    {
        self.session(generate_session_id())
    }
}

/// Decides whether the body of the service's answer is worth reading. `sent`
/// is the status of the answer, or why there is none.
pub fn admit_results(sent: Result<u16, String>) -> (r: Result<(), DnsLeakError>)
    ensures
        match sent {
            Err(detail) => r == Err::<(), DnsLeakError>(DnsLeakError::Http(detail)),
            Ok(status) => if crate::http::success(status) {
                r is Ok
            } else {
                r matches Err(DnsLeakError::Http(detail)) && detail@ == "HTTP "@
                    + crate::http::status_text(status)
            },
        },
        sent matches Ok(status) ==> (r is Ok <==> 200 <= status <= 299),
{
    match sent {
        Err(detail) => Err(DnsLeakError::Http(detail)),
        Ok(status) => if is_success(status) {
            Ok(())
        } else {
            Err(DnsLeakError::Http(status_message(status)))
        },
    }
}

/// The text of the first member called `name`, where there is such a member
/// and it is a string.
pub open spec fn member_text(
    members: Seq<(Seq<char>, Option<Seq<char>>)>,
    name: Seq<char>,
) -> Option<Seq<char>>
    decreases members.len(),
{
    if members.len() == 0 {
        None
    } else if members[0].0 == name {
        members[0].1
    } else {
        member_text(members.skip(1), name)
    }
}

fn find_member(members: &Vec<(String, Option<String>)>, name: &str) -> (r: Option<String>)
    ensures
        JsonReply::Object(*members)@ matches json::ReplyShape::Object(all) && text::opt_text(r)
            == member_text(all, name@),
{
    let ghost all = Seq::new(
        members@.len(),
        |i: int| (members@[i].0@, text::opt_text(members@[i].1)),
    );
    assert(all.skip(0) == all);
    for i in 0..members.len()
        invariant
            all == Seq::new(
                members@.len(),
                |i: int| (members@[i].0@, text::opt_text(members@[i].1)),
            ),
            member_text(all.skip(i as int), name@) == member_text(all, name@),
    {
        proof {
            assert(all.skip(i as int)[0] == all[i as int]);
            assert(all.skip(i as int).skip(1) == all.skip(i + 1));
        }
        if same_text(members[i].0.as_str(), name) {
            return members[i].1.clone();
        }
    }
    None
}

/// Whether `r` is what an answer of the given shape comes to: the JSON texts
/// of the entries, or why there are none.
pub open spec fn response_is(shape: json::ReplyShape, r: Result<Vec<String>, DnsLeakError>) -> bool {
    match shape {
        json::ReplyShape::Array(items) => r matches Ok(texts) && text::texts(texts@) == items,
        json::ReplyShape::Object(members) => r matches Err(DnsLeakError::ServiceError(message))
            && message@ == (match member_text(members, "error"@) {
            Some(message) => message,
            None => "service returned an object response with no recognizable error field"@,
        }),
        json::ReplyShape::Other(value) => r matches Err(DnsLeakError::Parse(detail)) && detail@
            == "unexpected top-level JSON shape: "@ + value,
    }
}

/// Interprets the results endpoint's body, handling both documented shapes
/// explicitly: an array of result entries (the success case), or an object
/// carrying `{"error": "..."}` (returned when queried before the probe lookups
/// have propagated).
pub fn parse_response(value: JsonReply) -> (r: Result<Vec<String>, DnsLeakError>)
    ensures
        response_is(value@, r),
        value matches JsonReply::Array(items) ==> r == Ok::<Vec<String>, DnsLeakError>(items),
        value is Object ==> (r matches Err(DnsLeakError::ServiceError(_))),
        value matches JsonReply::Other(shape) ==> (r matches Err(DnsLeakError::Parse(detail))
            && detail@ == "unexpected top-level JSON shape: "@ + shape@),
{
    match value {
        JsonReply::Array(items) => Ok(items),
        JsonReply::Object(members) => {
            let message = match find_member(&members, "error") {
                Some(message) => message,
                None => "service returned an object response with no recognizable error field".to_string(),
            };
            Err(DnsLeakError::ServiceError(message))
        },
        JsonReply::Other(shape) => Err(
            DnsLeakError::Parse(
                "unexpected top-level JSON shape: ".to_string().concat(shape.as_str()),
            ),
        ),
    }
}

/// Reads the service's answer down to the JSON texts of its entries. `body` is
/// the body as it came, or why it could not be received.
pub fn read_results(body: Result<Vec<u8>, String>) -> (r: Result<Vec<String>, DnsLeakError>)
    ensures
        match body {
            Err(detail) => r == Err::<Vec<String>, DnsLeakError>(DnsLeakError::Parse(detail)),
            Ok(bytes) => match json::json_shape(bytes@) {
                Some(shape) => response_is(shape, r),
                None => r matches Err(DnsLeakError::Parse(detail)) && detail@
                    == "error decoding response body"@,
            },
        },
{
    let bytes = match body {
        Ok(bytes) => bytes,
        Err(detail) => {
            return Err(DnsLeakError::Parse(detail));
        },
    };
    match parse_json(bytes.as_slice()) {
        Some(value) => parse_response(value),
        None => Err(DnsLeakError::Parse("error decoding response body".to_string())),
    }
}

/// The position of the first item that could not be read; the length where
/// all could.
pub open spec fn first_bad(items: Seq<Result<ServiceEntry, String>>) -> nat
    decreases items.len(),
{
    if items.len() == 0 || items[0] is Err {
        0
    } else {
        1 + first_bad(items.skip(1))
    }
}

/// The first item that could not be read is the one with only readable ones
/// before it; where all could be read there is none.
pub proof fn lemma_first_bad(items: Seq<Result<ServiceEntry, String>>, n: nat)
    requires
        n <= items.len(),
        n < items.len() ==> items[n as int] is Err,
        forall|i: int| 0 <= i < n ==> (#[trigger] items[i]) is Ok,
    ensures
        first_bad(items) == n,
    decreases n,
{
    if n > 0 {
        assert(items[0] is Ok);
        let rest = items.skip(1);
        assert forall|i: int| 0 <= i < n - 1 implies (#[trigger] rest[i]) is Ok by {
            assert(rest[i] == items[i + 1]);
        }
        lemma_first_bad(rest, (n - 1) as nat);
    }
}

impl Clone for ServiceEntry {
    fn clone(&self) -> (r: Self)
        ensures
            r == *self,
    {
        ServiceEntry {
            ip: self.ip.clone(),
            country_name: self.country_name.clone(),
            asn: self.asn.clone(),
            kind: self.kind.clone(),
        }
    }
}

/// Gathers the entries of an answer, each of them decoded or why it could not
/// be. The first one that could not fails the whole answer.
pub fn collect_entries(items: Vec<Result<ServiceEntry, String>>) -> (r: Result<
    Vec<ServiceEntry>,
    DnsLeakError,
>)
    ensures
        if first_bad(items@) < items@.len() {
            r == Err::<Vec<ServiceEntry>, DnsLeakError>(
                DnsLeakError::Parse(items@[first_bad(items@) as int]->Err_0),
            )
        } else {
            r matches Ok(entries) && entries@ == Seq::new(
                items@.len(),
                |i: int| items@[i]->Ok_0,
            )
        },
        r is Ok <==> forall|i: int| 0 <= i < items@.len() ==> (#[trigger] items@[i]) is Ok,
        r matches Ok(entries) ==> entries@.len() == items@.len() && forall|i: int|
            0 <= i < items@.len() ==> (#[trigger] items@[i]) == Ok::<ServiceEntry, String>(
                entries@[i],
            ),
{
    let mut entries: Vec<ServiceEntry> = Vec::new();
    for i in 0..items.len()
        invariant
            entries@.len() == i,
            forall|j: int| 0 <= j < i ==> (#[trigger] items@[j]) == Ok::<ServiceEntry, String>(
                entries@[j],
            ),
    {
        match &items[i] {
            Ok(entry) => entries.push(entry.clone()),
            Err(detail) => {
                proof {
                    assert(items@[i as int] == Err::<ServiceEntry, String>(*detail));
                    lemma_first_bad(items@, i as nat);
                }
                return Err(DnsLeakError::Parse(detail.clone()));
            },
        }
    }
    proof {
        lemma_first_bad(items@, items@.len());
        assert(entries@ =~= Seq::new(items@.len(), |i: int| items@[i]->Ok_0));
    }
    Ok(entries)
}

/// Every session asks under names of its own, one for each probe: two of them
/// are the same only if their numbers are.
pub proof fn lemma_probe_names_are_distinct(i: nat, j: nat, id: Seq<char>, domain: Seq<char>)
    requires
        probe_name(i, id, domain) == probe_name(j, id, domain),
    ensures
        i == j,
{
    lemma_probe_number(i, id, domain);
    lemma_probe_number(j, id, domain);
    text::lemma_decimal(i);
    text::lemma_decimal(j);
}

proof fn lemma_probe_number(i: nat, id: Seq<char>, domain: Seq<char>)
    ensures
        text::find(probe_name(i, id, domain), '.') == text::decimal(i).len(),
        probe_name(i, id, domain).take(text::decimal(i).len() as int) == text::decimal(i),
{
    reveal_strlit(".");
    text::lemma_decimal(i);
    let d = text::decimal(i);
    let name = probe_name(i, id, domain);
    assert forall|k: int| 0 <= k < d.len() implies name[k] != '.' by {
        assert(name[k] == d[k]);
        assert(text::is_digit(d[k]));
    }
    assert(name[d.len() as int] == '.');
    text::lemma_find_is(name, '.', d.len());
    assert(name.take(d.len() as int) =~= d);
}

/// The probe names are numbered from 1 up to their count, each below the
/// session's own name in the probe domain.
pub proof fn lemma_probe_names(count: nat, id: Seq<char>, domain: Seq<char>, i: int)
    requires
        0 <= i < count,
    ensures
        probe_names(count, id, domain).len() == count,
        probe_names(count, id, domain)[i] == text::decimal((i + 1) as nat) + "."@ + id + "."@
            + domain,
{
}

/// The error that the service reports is the text of the first member of that
/// name; there is none where no member has that name.
pub proof fn lemma_first_member_counts(
    members: Seq<(Seq<char>, Option<Seq<char>>)>,
    name: Seq<char>,
    k: int,
)
    requires
        0 <= k <= members.len(),
        k < members.len() ==> members[k].0 == name,
        forall|i: int| 0 <= i < k ==> (#[trigger] members[i]).0 != name,
    ensures
        member_text(members, name) == (if k < members.len() {
            members[k].1
        } else {
            None
        }),
    decreases k,
{
    if k > 0 {
        assert(members[0].0 != name);
        let rest = members.skip(1);
        assert forall|i: int| 0 <= i < k - 1 implies (#[trigger] rest[i]).0 != name by {
            assert(rest[i] == members[i + 1]);
        }
        if k < members.len() {
            assert(rest[k - 1] == members[k]);
        }
        lemma_first_member_counts(rest, name, k - 1);
    }
}

} // verus!
