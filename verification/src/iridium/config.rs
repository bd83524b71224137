//! The SOAP interface of an Iridium-Go: the requests that read its status and open or
//! close its firewall, and what its answers say.

use vstd::prelude::*;
use crate::common::{GribError, GribErrorV, IntErrorKind, generic};
use crate::pattern::{group1_all, regex_group1s};
use crate::text::{dec, parse_usize, parse_usize_spec, push_dec, str_chars, strings_view};

verus! {

/// The address of the Iridium-Go's SOAP interface.
pub const SDK_URL: &'static str = "http://192.168.0.1/sdk/sdk.php";

/// The start of a status request, before the options asked for.
pub const BODY_STATUS_START: &'static str = r#"
<soapenv:Envelope 
  xmlns:soapenv="http://schemas.xmlsoap.org/soap/envelope/" 
  xmlns:sdk="http://192.168.0.1/sdk/">
   <soapenv:Header/>
   <soapenv:Body>
      <sdk:getStatus>
         <userCredentials>
            <userName>guest</userName>
            <password>guest</password>
         </userCredentials>
         <request>
            <options>
"#;

/// The end of a status request.
pub const BODY_STATUS_END: &'static str = r#"
               <value></value>
               <dataType>null</dataType>
            </options>
         </request>
      </sdk:getStatus>
   </soapenv:Body>
</soapenv:Envelope>
"#;

/// The start of a task request, before the state to set.
pub const BODY_TASK_1: &'static str = r#"
<soapenv:Envelope 
  xmlns:soapenv="http://schemas.xmlsoap.org/soap/envelope/" 
  xmlns:sdk="http://192.168.0.1/sdk/">
   <soapenv:Header/>
   <soapenv:Body>
<sdk:performTask>
         <userCredentials>
            <userName>guest</userName>
            <password>guest</password>
         </userCredentials>
         <taskList>
            <requestList>
               <taskID>2</taskID>
               <options>
                  <name>set state</name>
"#;

/// The middle of a task request, before the firewall exceptions.
pub const BODY_TASK_2: &'static str = r#"
                  <dataType>boolean</dataType>
               </options>
               <options>
                   <name>Firewall allow all traffic</name>
                   <value>false</value>
                   <dataType>boolean</dataType>
               </options>
               <options>
                   <name>Firewall exceptions</name>
"#;

/// The end of a task request.
pub const BODY_TASK_3: &'static str = r#"
                   <dataType>string</dataType>
               </options>
               <options>
                   <name>Enable DNS forwarding</name>
                   <value>false</value>
                   <dataType>boolean</dataType>
               </options>
            </requestList>
         </taskList>
      </sdk:performTask>   </soapenv:Body>
</soapenv:Envelope>
"#;

} // verus!

verus! {

/// What a request to the Iridium-Go does: read its status, or perform a task.
#[derive(Clone, Copy, Debug, PartialEq, Eq, Structural)]
pub enum UrlType {
    GetStatus,
    PerformTask,
}

/// An IPv4 address and a port, as `a.b.c.d-port-all` in a firewall exception.
pub open spec fn exception_text(a: (u8, u8, u8, u8, u16)) -> Seq<char> {
    dec(a.0 as nat) + "."@ + dec(a.1 as nat) + "."@ + dec(a.2 as nat) + "."@ + dec(a.3 as nat) + "-"@
        + dec(a.4 as nat) + "-all"@
}

/// The firewall exceptions, separated by `;`.
pub open spec fn exceptions_text(vs: Seq<(u8, u8, u8, u8, u16)>) -> Seq<char>
    decreases vs.len(),
{
    if vs.len() == 0 {
        seq![]
    } else if vs.len() == 1 {
        exception_text(vs[0])
    } else {
        exceptions_text(vs.drop_last()) + ";"@ + exception_text(vs.last())
    }
}

/// The body of a request: a status request for all options, or a task that sets the state
/// `action` (1 to open the connection, 0 to close it) with the firewall exceptions `vs`;
/// an error for any other combination.
pub open spec fn spec_request_body(url_type: UrlType, options: Option<(Seq<(u8, u8, u8, u8, u16)>, int)>) -> Result<Seq<char>, GribErrorV> {
    match (url_type, options) {
        (UrlType::GetStatus, None) => Ok(BODY_STATUS_START@ + "<name>all</name>"@ + BODY_STATUS_END@),
        (UrlType::PerformTask, Some((vs, a))) => Ok(
            BODY_TASK_1@ + "<value>"@ + dec(a as nat) + "</value>"@ + BODY_TASK_2@ + "<value>"@
                + exceptions_text(vs) + "</value>"@ + BODY_TASK_3@,
        ),
        _ => Err(GribErrorV::Generic("Unexpected get_req parameter combinaison"@)),
    }
}

/// The `SOAPAction` header of a request.
pub open spec fn spec_soap_action(url_type: UrlType) -> Seq<char> {
    match url_type {
        UrlType::GetStatus => "http://192.168.0.1/sdk/getStatus"@,
        UrlType::PerformTask => "http://192.168.0.1/sdk/performTask"@,
    }
}

/// The `SOAPAction` header of a request.
pub fn soap_action(url_type: UrlType) -> (s: &'static str)
    ensures
        s@ == spec_soap_action(url_type),
{
    match url_type {
        UrlType::GetStatus => "http://192.168.0.1/sdk/getStatus",
        UrlType::PerformTask => "http://192.168.0.1/sdk/performTask",
    }
}

/// Appends a firewall exception.
fn push_exception(s: &mut String, a: (u8, u8, u8, u8, u16))
    ensures
        final(s)@ == old(s)@ + exception_text(a),
{
    push_dec(s, a.0 as u64);
    s.append(".");
    push_dec(s, a.1 as u64);
    s.append(".");
    push_dec(s, a.2 as u64);
    s.append(".");
    push_dec(s, a.3 as u64);
    s.append("-");
    push_dec(s, a.4 as u64);
    s.append("-all");
    assert(final(s)@ =~= old(s)@ + exception_text(a));
}

/// The body of a request to the Iridium-Go.
pub fn request_body(url_type: UrlType, options: Option<(&Vec<(u8, u8, u8, u8, u16)>, usize)>) -> (r: Result<String, GribError>)
    ensures
        spec_request_body(url_type, match options {
            Some((vs, a)) => Some((vs@, a as int)),
            None => None,
        }) == (match r {
            Ok(s) => Ok(s@),
            Err(e) => Err(e@),
        }),
{
    match (url_type, options) {
        (UrlType::GetStatus, None) => {
            let mut b = String::from_str(BODY_STATUS_START);
            b.append("<name>all</name>");
            b.append(BODY_STATUS_END);
            Ok(b)
        },
        (UrlType::PerformTask, Some((vs, a))) => {
            let mut param = String::new();
            let mut i: usize = 0;
            while i < vs.len()
                invariant
                    i <= vs@.len(),
                    param@ == exceptions_text(vs@.take(i as int)),
                decreases vs.len() - i,
            {
                let ghost before = param@;
                if i > 0 {
                    param.append(";");
                }
                push_exception(&mut param, vs[i]);
                assert(vs@.take(i + 1).drop_last() =~= vs@.take(i as int));
                assert(param@ =~= exceptions_text(vs@.take(i + 1))) by {
                    if i == 0 {
                        assert(exceptions_text(vs@.take(0)) =~= Seq::<char>::empty());
                    }
                }
                i = i + 1;
            }
            assert(vs@.take(i as int) =~= vs@);
            let mut b = String::from_str(BODY_TASK_1);
            b.append("<value>");
            push_dec(&mut b, a as u64);
            b.append("</value>");
            b.append(BODY_TASK_2);
            b.append("<value>");
            b.append(param.as_str());
            b.append("</value>");
            b.append(BODY_TASK_3);
            assert(b@ =~= BODY_TASK_1@ + "<value>"@ + dec(a as nat) + "</value>"@ + BODY_TASK_2@ + "<value>"@
                + exceptions_text(vs@) + "</value>"@ + BODY_TASK_3@);
            Ok(b)
        },
        _ => Err(generic(String::from_str("Unexpected get_req parameter combinaison"))),
    }
}

/// A request to the Iridium-Go, as plain values: where it goes, its headers (name and
/// value), and its body. It is sent as a POST.
pub struct SoapRequest {
    pub url: String,
    pub headers: Vec<(String, String)>,
    pub body: String,
}

/// A request taken by its values.
pub open spec fn soap_view(q: SoapRequest) -> (Seq<char>, Seq<(Seq<char>, Seq<char>)>, Seq<char>) {
    (q.url@, q.headers@.map_values(|h: (String, String)| (h.0@, h.1@)), q.body@)
}

/// The headers of every request: an XML body in English for the device's address, kept
/// alive, gzip accepted, and the SOAP action of the request.
pub open spec fn soap_headers(url_type: UrlType) -> Seq<(Seq<char>, Seq<char>)> {
    seq![
        ("content-type"@, "text/xml"@),
        ("content-language"@, "en-US"@),
        ("host"@, "192.168.0.1"@),
        ("connection"@, "Keep-Alive"@),
        ("accept-encoding"@, "gzip"@),
        ("SOAPAction"@, spec_soap_action(url_type)),
    ]
}

/// The request for `url_type` with `options` (see `spec_request_body`).
pub open spec fn spec_get_req(url_type: UrlType, options: Option<(Seq<(u8, u8, u8, u8, u16)>, int)>) -> Result<(Seq<char>, Seq<(Seq<char>, Seq<char>)>, Seq<char>), GribErrorV> {
    match spec_request_body(url_type, options) {
        Ok(body) => Ok((SDK_URL@, soap_headers(url_type), body)),
        Err(e) => Err(e),
    }
}

/// A header as plain values.
fn header(name: &str, value: &str) -> (h: (String, String))
    ensures
        h.0@ == name@,
        h.1@ == value@,
{
    (String::from_str(name), String::from_str(value))
}

/// The request to the Iridium-Go for `url_type` with `options`: a status request takes no
/// options, a task takes the firewall exceptions and the state to set.
pub fn get_req(url_type: UrlType, options: Option<(&Vec<(u8, u8, u8, u8, u16)>, usize)>) -> (r: Result<SoapRequest, GribError>)
    ensures
        spec_get_req(url_type, match options {
            Some((vs, a)) => Some((vs@, a as int)),
            None => None,
        }) == (match r {
            Ok(q) => Ok(soap_view(q)),
            Err(e) => Err(e@),
        }),
{
    let body = match request_body(url_type, options) {
        Ok(b) => b,
        Err(e) => return Err(e),
    };
    let mut headers: Vec<(String, String)> = Vec::new();
    headers.push(header("content-type", "text/xml"));
    headers.push(header("content-language", "en-US"));
    headers.push(header("host", "192.168.0.1"));
    headers.push(header("connection", "Keep-Alive"));
    headers.push(header("accept-encoding", "gzip"));
    headers.push(header("SOAPAction", soap_action(url_type)));
    let q = SoapRequest { url: String::from_str(SDK_URL), headers, body };
    assert(soap_view(q).1 =~= soap_headers(url_type));
    Ok(q)
}

/// The patterns that read an answer: the connection status and the signal strength of a
/// status answer, the `A2:` word of any other.
pub open spec fn response_patterns(url: UrlType) -> Seq<Seq<char>> {
    match url {
        UrlType::GetStatus => seq![
            r"Internet connection status</name><value>(\d+)"@,
            r"Iridium signal strength</name><value>(\d+)"@,
        ],
        UrlType::PerformTask => seq![r"\bA2:\s*(\w+)\b"@],
    }
}

/// The captures of `groups`, in order; an error at the first match without one.
pub open spec fn captures_of(groups: Seq<Option<Seq<char>>>) -> Result<Seq<Seq<char>>, GribErrorV>
    decreases groups.len(),
{
    if groups.len() == 0 {
        Ok(seq![])
    } else {
        match groups[0] {
            None => Err(GribErrorV::Generic("Failed to parse iridium response"@)),
            Some(g) => match captures_of(groups.drop_first()) {
                Ok(rest) => Ok(seq![g] + rest),
                Err(e) => Err(e),
            },
        }
    }
}

/// What an answer says: every capture of the first pattern, then of the second; an error
/// when a pattern does not compile (both are compiled first) or a match lacks its capture.
pub open spec fn spec_parse_response(body: Seq<char>, url: UrlType) -> Result<Seq<Seq<char>>, GribErrorV> {
    let ps = response_patterns(url);
    if ps.len() == 2 {
        match (regex_group1s(ps[0], body), regex_group1s(ps[1], body)) {
            (Err(e), _) => Err(GribErrorV::Regex(e)),
            (Ok(_), Err(e)) => Err(GribErrorV::Regex(e)),
            (Ok(g0), Ok(g1)) => match captures_of(g0) {
                Err(e) => Err(e),
                Ok(c0) => match captures_of(g1) {
                    Err(e) => Err(e),
                    Ok(c1) => Ok(c0 + c1),
                },
            },
        }
    } else {
        match regex_group1s(ps[0], body) {
            Err(e) => Err(GribErrorV::Regex(e)),
            Ok(g0) => captures_of(g0),
        }
    }
}

/// The captures of `groups`.
fn collect_captures(groups: Vec<Option<String>>) -> (r: Result<Vec<String>, GribError>)
    ensures
        captures_of(groups@.map_values(|o: Option<String>| match o { Some(s) => Some(s@), None => None })) == (match r {
            Ok(v) => Ok(strings_view(v@)),
            Err(e) => Err(e@),
        }),
{
    let ghost gv = groups@.map_values(|o: Option<String>| match o { Some(s) => Some(s@), None => None });
    let mut out: Vec<String> = Vec::new();
    let mut pending = groups;
    let n = pending.len();
    let mut rev: Vec<Option<String>> = Vec::new();
    while pending.len() > 0
        invariant
            pending@.len() + rev@.len() == n,
            n == gv.len(),
            forall|k: int| 0 <= k < pending@.len() ==> (match #[trigger] pending@[k] { Some(s) => Some(s@), None => None }) == gv[k],
            forall|k: int| 0 <= k < rev@.len() ==> (match #[trigger] rev@[k] { Some(s) => Some(s@), None => None }) == gv[n - 1 - k],
        decreases pending.len(),
    {
        let g = pending.pop().unwrap();
        rev.push(g);
    }
    let mut i: usize = 0;
    assert(gv.skip(0) =~= gv);
    assert(captures_of(gv) == (match captures_of(gv.skip(0)) { Ok(rest) => Ok(strings_view(out@) + rest), Err(e) => Err(e) })) by {
        match captures_of(gv) {
            Ok(x) => { assert(strings_view(out@) + x =~= x); },
            Err(_) => {},
        }
    }
    while i < n
        invariant
            i <= n,
            n == gv.len(),
            gv == groups@.map_values(|o: Option<String>| match o { Some(s) => Some(s@), None => None }),
            rev@.len() == n - i,
            forall|k: int| 0 <= k < rev@.len() ==> (match #[trigger] rev@[k] { Some(s) => Some(s@), None => None }) == gv[n - 1 - k],
            captures_of(gv) == (match captures_of(gv.skip(i as int)) {
                Ok(rest) => Ok(strings_view(out@) + rest),
                Err(e) => Err(e),
            }),
        decreases n - i,
    {
        let g = rev.pop().unwrap();
        let ghost rest = gv.skip(i as int);
        assert(rest[0] == gv[i as int]);
        assert(rest.drop_first() =~= gv.skip(i + 1));
        match g {
            None => {
                return Err(generic(String::from_str("Failed to parse iridium response")));
            },
            Some(s) => {
                let ghost before = strings_view(out@);
                out.push(s);
                proof {
                    match captures_of(gv.skip(i + 1)) {
                        Ok(t) => {
                            assert(strings_view(out@) + t =~= before + (seq![rest[0]->Some_0] + t));
                        },
                        Err(_) => {},
                    }
                }
            },
        }
        i = i + 1;
    }
    assert(gv.skip(i as int) =~= Seq::<Option<Seq<char>>>::empty());
    assert(strings_view(out@) + Seq::<Seq<char>>::empty() =~= strings_view(out@));
    Ok(out)
}

/// What an answer of the Iridium-Go says: the connection status then the signal strength
/// for a status request, the `A2:` words for a task.
pub fn parse_response(body: String, url: UrlType) -> (r: Result<Vec<String>, GribError>)
    ensures
        spec_parse_response(body@, url) == (match r {
            Ok(v) => Ok(strings_view(v@)),
            Err(e) => Err(e@),
        }),
{
    match url {
        UrlType::GetStatus => {
            let g0 = group1_all(r"Internet connection status</name><value>(\d+)", body.as_str());
            let g1 = group1_all(r"Iridium signal strength</name><value>(\d+)", body.as_str());
            let g0 = match g0 {
                Err(e) => return Err(GribError::Regex(e)),
                Ok(g) => g,
            };
            let g1 = match g1 {
                Err(e) => return Err(GribError::Regex(e)),
                Ok(g) => g,
            };
            let c0 = match collect_captures(g0) {
                Err(e) => return Err(e),
                Ok(c) => c,
            };
            let c1 = match collect_captures(g1) {
                Err(e) => return Err(e),
                Ok(c) => c,
            };
            let mut out = c0;
            let ghost first = strings_view(out@);
            let mut i: usize = 0;
            while i < c1.len()
                invariant
                    i <= c1@.len(),
                    strings_view(out@) == first + strings_view(c1@).take(i as int),
                decreases c1.len() - i,
            {
                let ghost before = strings_view(out@);
                out.push(c1[i].clone());
                assert(strings_view(out@) =~= before.push(c1@[i as int]@));
                assert(strings_view(c1@).take(i + 1) =~= strings_view(c1@).take(i as int).push(c1@[i as int]@));
                i = i + 1;
                assert(strings_view(out@) =~= first + strings_view(c1@).take(i as int));
            }
            assert(strings_view(c1@).take(i as int) =~= strings_view(c1@));
            Ok(out)
        },
        UrlType::PerformTask => {
            let g0 = match group1_all(r"\bA2:\s*(\w+)\b", body.as_str()) {
                Err(e) => return Err(GribError::Regex(e)),
                Ok(g) => g,
            };
            collect_captures(g0)
        },
    }
}

/// The connection status and the signal strength of a status answer's captures; an error
/// when one is not a number, and `Malformed` when there are fewer than two.
pub open spec fn spec_status_values(parsed: Seq<Seq<char>>) -> Result<(int, int), GribErrorV> {
    if parsed.len() < 1 {
        Err(GribErrorV::Malformed)
    } else {
        match parse_usize_spec(parsed[0]) {
            Err(k) => Err(GribErrorV::ParseIntError(k)),
            Ok(conn) => if parsed.len() < 2 {
                Err(GribErrorV::Malformed)
            } else {
                match parse_usize_spec(parsed[1]) {
                    Err(k) => Err(GribErrorV::ParseIntError(k)),
                    Ok(sig) => Ok((conn, sig)),
                }
            },
        }
    }
}

/// The connection status and the signal strength that a status answer gives.
pub fn status_values(parsed: &Vec<String>) -> (r: Result<(usize, usize), GribError>)
    ensures
        spec_status_values(strings_view(parsed@)) == (match r {
            Ok((c, s)) => Ok((c as int, s as int)),
            Err(e) => Err(e@),
        }),
{
    if parsed.len() < 1 {
        return Err(GribError::Malformed);
    }
    let c0 = str_chars(parsed[0].as_str());
    let conn = match parse_usize(c0.as_slice()) {
        Err(k) => return Err(GribError::ParseIntError(k)),
        Ok(v) => v,
    };
    if parsed.len() < 2 {
        return Err(GribError::Malformed);
    }
    let c1 = str_chars(parsed[1].as_str());
    let sig = match parse_usize(c1.as_slice()) {
        Err(k) => return Err(GribError::ParseIntError(k)),
        Ok(v) => v,
    };
    Ok((conn, sig))
}

} // verus!

verus! {

/// The part of `s` from `i` on, of the length of `x`, is `x`.
pub open spec fn occurs_at(s: Seq<char>, x: Seq<char>, i: int) -> bool {
    0 <= i && i + x.len() <= s.len() && s.subrange(i, i + x.len()) == x
}

proof fn lemma_middle(pre: Seq<char>, mid: Seq<char>, post: Seq<char>)
    ensures
        occurs_at(pre + mid + post, mid, pre.len() as int),
{
    assert((pre + mid + post).subrange(pre.len() as int, (pre.len() + mid.len()) as int) =~= mid);
}

/// The task templates as written: the first ends with the name of the state option, the
/// second with that of the firewall exceptions option, the third closes the envelope.
proof fn lemma_task_templates()
    ensures
        BODY_TASK_1@.take(18) == "\n<soapenv:Envelope"@,
        BODY_TASK_1@.len() >= 23 + 18,
        BODY_TASK_1@.skip(BODY_TASK_1@.len() - 23) == "<name>set state</name>\n"@,
        BODY_TASK_2@.len() >= 33,
        BODY_TASK_2@.skip(BODY_TASK_2@.len() - 33) == "<name>Firewall exceptions</name>\n"@,
        BODY_TASK_3@.len() >= 20,
        BODY_TASK_3@.skip(BODY_TASK_3@.len() - 20) == "</soapenv:Envelope>\n"@,
{
    reveal_strlit(r#"
<soapenv:Envelope 
  xmlns:soapenv="http://schemas.xmlsoap.org/soap/envelope/" 
  xmlns:sdk="http://192.168.0.1/sdk/">
   <soapenv:Header/>
   <soapenv:Body>
<sdk:performTask>
         <userCredentials>
            <userName>guest</userName>
            <password>guest</password>
         </userCredentials>
         <taskList>
            <requestList>
               <taskID>2</taskID>
               <options>
                  <name>set state</name>
"#);
    reveal_strlit(r#"
                  <dataType>boolean</dataType>
               </options>
               <options>
                   <name>Firewall allow all traffic</name>
                   <value>false</value>
                   <dataType>boolean</dataType>
               </options>
               <options>
                   <name>Firewall exceptions</name>
"#);
    reveal_strlit(r#"
                   <dataType>string</dataType>
               </options>
               <options>
                   <name>Enable DNS forwarding</name>
                   <value>false</value>
                   <dataType>boolean</dataType>
               </options>
            </requestList>
         </taskList>
      </sdk:performTask>   </soapenv:Body>
</soapenv:Envelope>
"#);
    reveal_strlit("\n<soapenv:Envelope");
    reveal_strlit("<name>set state</name>\n");
    reveal_strlit("<name>Firewall exceptions</name>\n");
    reveal_strlit("</soapenv:Envelope>\n");
    assert(BODY_TASK_1@.take(18) =~= "\n<soapenv:Envelope"@);
    assert(BODY_TASK_1@.skip(BODY_TASK_1@.len() - 23) =~= "<name>set state</name>\n"@);
    assert(BODY_TASK_2@.skip(BODY_TASK_2@.len() - 33) =~= "<name>Firewall exceptions</name>\n"@);
    assert(BODY_TASK_3@.skip(BODY_TASK_3@.len() - 20) =~= "</soapenv:Envelope>\n"@);
}

/// Law: a task request is one SOAP envelope, which opens the body and closes it at its
/// very end; within it, the state to set is the value that directly follows the name of
/// the `set state` option, and the firewall exceptions are the value that directly follows
/// the name of the `Firewall exceptions` option, both before the envelope closes.
pub proof fn law_task_body_one_envelope(vs: Seq<(u8, u8, u8, u8, u16)>, a: int)
    ensures
        spec_request_body(UrlType::PerformTask, Some((vs, a))) is Ok,
        ({
            let b = spec_request_body(UrlType::PerformTask, Some((vs, a)))->Ok_0;
            let opening = "\n<soapenv:Envelope"@;
            let closing = "</soapenv:Envelope>\n"@;
            let state = "<name>set state</name>\n<value>"@ + dec(a as nat) + "</value>"@;
            let exceptions = "<name>Firewall exceptions</name>\n<value>"@ + exceptions_text(vs) + "</value>"@;
            &&& b.len() >= opening.len() + closing.len()
            &&& b.take(opening.len() as int) == opening
            &&& b.skip(b.len() - closing.len()) == closing
            &&& exists|i: int| #[trigger] occurs_at(b, state, i) && i + state.len() <= b.len() - closing.len()
            &&& exists|i: int| #[trigger] occurs_at(b, exceptions, i) && i + exceptions.len() <= b.len() - closing.len()
        }),
{
    lemma_task_templates();
    reveal_strlit("\n<soapenv:Envelope");
    reveal_strlit("</soapenv:Envelope>\n");
    let t1 = BODY_TASK_1@;
    let t2 = BODY_TASK_2@;
    let t3 = BODY_TASK_3@;
    let v1 = "<value>"@ + dec(a as nat) + "</value>"@;
    let v2 = "<value>"@ + exceptions_text(vs) + "</value>"@;
    let b = spec_request_body(UrlType::PerformTask, Some((vs, a)))->Ok_0;
    assert(b =~= t1 + v1 + t2 + v2 + t3);
    let n1 = "<name>set state</name>\n"@;
    let n2 = "<name>Firewall exceptions</name>\n"@;
    let p1 = t1.take(t1.len() - 23);
    let p2 = t2.take(t2.len() - 33);
    assert(t1 =~= p1 + n1);
    assert(t2 =~= p2 + n2);
    let state = "<name>set state</name>\n<value>"@ + dec(a as nat) + "</value>"@;
    let exceptions = "<name>Firewall exceptions</name>\n<value>"@ + exceptions_text(vs) + "</value>"@;
    reveal_strlit("<name>set state</name>\n<value>");
    reveal_strlit("<name>Firewall exceptions</name>\n<value>");
    reveal_strlit("<name>set state</name>\n");
    reveal_strlit("<name>Firewall exceptions</name>\n");
    reveal_strlit("<value>");
    assert(state =~= n1 + v1);
    assert(exceptions =~= n2 + v2);
    assert(b =~= p1 + state + (t2 + v2 + t3));
    lemma_middle(p1, state, t2 + v2 + t3);
    assert(b =~= (t1 + v1 + p2) + exceptions + t3);
    lemma_middle(t1 + v1 + p2, exceptions, t3);
    assert(b.take(18) =~= t1.take(18));
    assert(b.skip(b.len() - 20) =~= t3.skip(t3.len() - 20));
}

} // verus!

verus! {

/// The status templates as written: the first opens the envelope and ends with the start
/// of the options, the second closes the envelope.
proof fn lemma_status_templates()
    ensures
        BODY_STATUS_START@.len() >= 18 + 10,
        BODY_STATUS_START@.take(18) == "\n<soapenv:Envelope"@,
        BODY_STATUS_START@.skip(BODY_STATUS_START@.len() - 10) == "<options>\n"@,
        BODY_STATUS_END@.len() >= 20,
        BODY_STATUS_END@.skip(BODY_STATUS_END@.len() - 20) == "</soapenv:Envelope>\n"@,
{
    reveal_strlit(r#"
<soapenv:Envelope 
  xmlns:soapenv="http://schemas.xmlsoap.org/soap/envelope/" 
  xmlns:sdk="http://192.168.0.1/sdk/">
   <soapenv:Header/>
   <soapenv:Body>
      <sdk:getStatus>
         <userCredentials>
            <userName>guest</userName>
            <password>guest</password>
         </userCredentials>
         <request>
            <options>
"#);
    reveal_strlit(r#"
               <value></value>
               <dataType>null</dataType>
            </options>
         </request>
      </sdk:getStatus>
   </soapenv:Body>
</soapenv:Envelope>
"#);
    reveal_strlit("\n<soapenv:Envelope");
    reveal_strlit("<options>\n");
    reveal_strlit("</soapenv:Envelope>\n");
    assert(BODY_STATUS_START@.take(18) =~= "\n<soapenv:Envelope"@);
    assert(BODY_STATUS_START@.skip(BODY_STATUS_START@.len() - 10) =~= "<options>\n"@);
    assert(BODY_STATUS_END@.skip(BODY_STATUS_END@.len() - 20) =~= "</soapenv:Envelope>\n"@);
}

/// Law: a status request is one SOAP envelope, which opens the body and closes it at its
/// very end; within it, the option asked for is `all`, named right at the start of the
/// options.
pub proof fn law_status_body_one_envelope()
    ensures
        spec_request_body(UrlType::GetStatus, None) is Ok,
        ({
            let b = spec_request_body(UrlType::GetStatus, None)->Ok_0;
            let opening = "\n<soapenv:Envelope"@;
            let closing = "</soapenv:Envelope>\n"@;
            let all = "<options>\n<name>all</name>"@;
            &&& b.len() >= opening.len() + closing.len()
            &&& b.take(opening.len() as int) == opening
            &&& b.skip(b.len() - closing.len()) == closing
            &&& exists|i: int| #[trigger] occurs_at(b, all, i) && i + all.len() <= b.len() - closing.len()
        }),
{
    lemma_status_templates();
    reveal_strlit("\n<soapenv:Envelope");
    reveal_strlit("</soapenv:Envelope>\n");
    reveal_strlit("<options>\n<name>all</name>");
    reveal_strlit("<options>\n");
    reveal_strlit("<name>all</name>");
    let ts = BODY_STATUS_START@;
    let te = BODY_STATUS_END@;
    let b = spec_request_body(UrlType::GetStatus, None)->Ok_0;
    let o = "<options>\n"@;
    let p = ts.take(ts.len() - 10);
    assert(ts =~= p + o);
    let all = "<options>\n<name>all</name>"@;
    assert(all =~= o + "<name>all</name>"@);
    assert(b =~= p + all + te);
    lemma_middle(p, all, te);
    assert(b.take(18) =~= ts.take(18));
    assert(b.skip(b.len() - 20) =~= te.skip(te.len() - 20));
}

} // verus!
