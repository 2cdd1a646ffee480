//! Queries in JSON.

use crate::content_type::DoHType;
use crate::errors::{DoHError, StatusCode};
use crate::limits::Limits;
use crate::response;
use crate::response::H3Response;
use crate::text;
use vstd::prelude::*;
use vstd::utf8::*;

verus! {

/// A query by its parameters.
#[derive(Clone, Debug)]
pub struct DnsJsonQuery {
    pub name: String,
    pub qtype: Option<u16>,
    pub cd: Option<bool>,
    pub ct: Option<String>,
    pub do_: Option<bool>,
    pub edns_client_subnet: Option<String>,
}

/// What a query asks.
pub struct JsonQueryView {
    pub name: Seq<char>,
    pub qtype: Option<u16>,
    pub cd: Option<bool>,
    pub ct: Option<Seq<char>>,
    pub do_: Option<bool>,
    pub edns_client_subnet: Option<Seq<char>>,
}

impl View for DnsJsonQuery {
    type V = JsonQueryView;

    open spec fn view(&self) -> JsonQueryView {
        JsonQueryView {
            name: self.name@,
            qtype: self.qtype,
            cd: self.cd,
            ct: text::opt_text(self.ct),
            do_: self.do_,
            edns_client_subnet: text::opt_text(self.edns_client_subnet),
        }
    }
}

/// The value of a hexadecimal digit.
pub open spec fn hex_value(b: u8) -> Option<int> {
    if 48 <= b <= 57 {
        Some(b - 48)
    } else if 65 <= b <= 70 {
        Some(b - 55)
    } else if 97 <= b <= 102 {
        Some(b - 87)
    } else {
        None
    }
}

/// Bytes with each percent sign and the two hexadecimal digits after it replaced by the byte that
/// they stand for; a percent sign without two digits after it stays.
pub open spec fn percent_decoded(s: Seq<u8>) -> Seq<u8>
    decreases s.len(),
{
    if s.len() == 0 {
        s
    } else if s[0] == 37 && s.len() >= 3 && hex_value(s[1]) is Some && hex_value(s[2]) is Some {
        seq![(hex_value(s[1])->0 * 16 + hex_value(s[2])->0) as u8] + percent_decoded(s.skip(3))
    } else {
        seq![s[0]] + percent_decoded(s.skip(1))
    }
}

/// The text that a percent-encoded text stands for, where the bytes are text.
pub open spec fn url_decoded(s: Seq<char>) -> Option<Seq<char>> {
    let bytes = percent_decoded(encode_utf8(s));
    if valid_utf8(bytes) {
        Some(decode_utf8(bytes))
    } else {
        None
    }
}

/// `urlencoding::decode`, with the text copied: the text with its percent-encoded bytes decoded,
/// or nothing where the bytes are then no UTF-8. A percent sign without two hexadecimal digits
/// after it stays, and so does a plus sign.
#[verifier::external_body]
fn url_decode(s: &str) -> (r: Option<String>)
    ensures
        text::opt_text(r) == url_decoded(s@),
{
    urlencoding::decode(s).ok().map(|decoded| decoded.into_owned())
}

/// A flag is set by these two texts.
pub open spec fn flag_text(v: Seq<char>) -> bool {
    v == "1"@ || v == "true"@
}

fn flag_of(v: &str) -> (set: bool)
    ensures
        set == flag_text(v@),
{
    text::same_text(v, "1") || text::same_text(v, "true")
}

/// A query with one parameter more. Others than those of a query do not count; nor does one
/// without an equals sign, and of the value only what stands before a second one does.
pub open spec fn with_param(q: JsonQueryView, part: Seq<char>) -> JsonQueryView {
    let pair = text::split_on(part, '=');
    if pair.len() < 2 {
        q
    } else {
        let (k, v) = (pair[0], pair[1]);
        if k == "name"@ {
            JsonQueryView {
                name: match url_decoded(v) {
                    Some(name) => name,
                    None => Seq::empty(),
                },
                ..q
            }
        } else if k == "type"@ {
            JsonQueryView {
                qtype: match text::parsed_number(v, 65535) {
                    Some(n) => Some(n as u16),
                    None => None,
                },
                ..q
            }
        } else if k == "cd"@ {
            JsonQueryView { cd: Some(flag_text(v)), ..q }
        } else if k == "ct"@ {
            JsonQueryView { ct: Some(v), ..q }
        } else if k == "do"@ {
            JsonQueryView { do_: Some(flag_text(v)), ..q }
        } else if k == "edns_client_subnet"@ {
            JsonQueryView { edns_client_subnet: Some(v), ..q }
        } else {
            q
        }
    }
}

/// The query that asks for nothing.
pub open spec fn empty_query() -> JsonQueryView {
    JsonQueryView {
        name: Seq::empty(),
        qtype: None,
        cd: None,
        ct: None,
        do_: None,
        edns_client_subnet: None,
    }
}

/// The query of parameters, one after the other.
pub open spec fn query_of(parts: Seq<Seq<char>>) -> JsonQueryView
    decreases parts.len(),
{
    if parts.len() == 0 {
        empty_query()
    } else {
        with_param(query_of(parts.drop_last()), parts.last())
    }
}

fn add_param(query: &mut DnsJsonQuery, part: &str)
    ensures
        final(query)@ == with_param(old(query)@, part@),
{
    let pair = text::split(part, '=');
    if pair.len() < 2 {
        return;
    }
    assert(text::texts(pair@)[0] == pair@[0]@ && text::texts(pair@)[1] == pair@[1]@);
    let k = pair[0].as_str();
    let v = pair[1].as_str();
    if text::same_text(k, "name") {
        query.name = match url_decode(v) {
            Some(name) => name,
            None => String::new(),
        };
    } else if text::same_text(k, "type") {
        query.qtype = match text::parse_number(v, 65535) {
            Some(n) => Some(n as u16),
            None => None,
        };
    } else if text::same_text(k, "cd") {
        query.cd = Some(flag_of(v));
    } else if text::same_text(k, "ct") {
        query.ct = Some(v.to_owned());
    } else if text::same_text(k, "do") {
        query.do_ = Some(flag_of(v));
    } else if text::same_text(k, "edns_client_subnet") {
        query.edns_client_subnet = Some(v.to_owned());
    }
}

/// The query of a query string.
pub fn parse_json_query(query_params: &str) -> (query: DnsJsonQuery)
    ensures
        query@ == query_of(text::split_on(query_params@, '&')),
{
    let mut query = DnsJsonQuery {
        name: String::new(),
        qtype: None,
        cd: None,
        ct: None,
        do_: None,
        edns_client_subnet: None,
    };
    let parts = text::split(query_params, '&');
    let ghost all = text::texts(parts@);
    let mut i: usize = 0;
    assert(all.take(0) =~= Seq::empty());
    assert(query@ == empty_query());
    while i < parts.len()
        invariant
            i <= parts@.len(),
            all == text::texts(parts@),
            query@ == query_of(all.take(i as int)),
        decreases parts@.len() - i,
    {
        proof {
            assert(all.take(i + 1).drop_last() =~= all.take(i as int));
            assert(all.take(i + 1).last() == parts@[i as int]@);
        }
        add_param(&mut query, parts[i].as_str());
        i = i + 1;
    }
    assert(all.take(i as int) =~= all);
    query
}

/// The text of a JSON object with a number and a text.
pub uninterp spec fn json_object_text(
    number_key: Seq<char>,
    number: u16,
    text_key: Seq<char>,
    value: Seq<char>,
) -> Seq<char>;

/// `serde_json`'s text of an object with one number and one text, made by `Map::insert` and
/// `Value::to_string`.
#[verifier::external_body]
fn json_object(number_key: &str, number: u16, text_key: &str, value: &str) -> (s: String)
    ensures
        s@ == json_object_text(number_key@, number, text_key@, value@),
{
    let mut object = serde_json::Map::new();
    object.insert(String::from(number_key), serde_json::Value::from(number));
    object.insert(String::from(text_key), serde_json::Value::from(value));
    serde_json::Value::Object(object).to_string()
}

/// A response in JSON with this text and nothing said of how long it may be kept.
pub open spec fn is_json(r: H3Response, status: u16, body: Seq<char>) -> bool {
    &&& r.status.code == status
    &&& r.content_type@ == DoHType::Json.name()
    &&& r.body@ == encode_utf8(body)
    &&& r.cache_control is None
}

/// The response with a JSON text.
pub fn json_response(status: u16, body: String) -> (r: H3Response)
    ensures
        is_json(r, status, body@),
{
    H3Response {
        status: StatusCode { code: status },
        content_type: DoHType::Json.as_str().to_owned(),
        body: bytes_of(body.as_str()),
        cache_control: None,
    }
}

fn bytes_of(s: &str) -> (bytes: Vec<u8>)
    ensures
        bytes@ == encode_utf8(s@),
{
    vstd::slice::slice_to_vec(s.as_bytes())
}

/// The text of an error with its status.
pub open spec fn error_text(status: u16, comment: Seq<char>) -> Seq<char> {
    json_object_text("Status"@, status, "Comment"@, comment)
}

/// The response that tells of an error.
pub fn json_error(status: u16, comment: &str) -> (r: H3Response)
    ensures
        is_json(r, status, error_text(status, comment@)),
{
    json_response(status, json_object("Status", status, "Comment", comment))
}

/// How a request goes on: it is answered, or its query is to be sent.
#[derive(Debug)]
pub enum JsonStart {
    Respond(H3Response),
    Send(DnsJsonQuery),
}

/// Starts a request. A query has to name what it asks for.
pub fn start_json_query(query_params: &str) -> (start: JsonStart)
    ensures
        ({
            let asked = query_of(text::split_on(query_params@, '&'));
            if asked.name.len() == 0 {
                start matches JsonStart::Respond(r) && is_json(
                    r,
                    400,
                    error_text(400, "Missing 'name' parameter"@),
                )
            } else {
                start matches JsonStart::Send(q) && q@ == asked
            }
        }),
{
    let query = parse_json_query(query_params);
    let chars = text::chars_of(query.name.as_str());
    if chars.len() == 0 {
        JsonStart::Respond(json_error(400, "Missing 'name' parameter"))
    } else {
        JsonStart::Send(query)
    }
}

/// Answers a query that no packet could be made of.
pub fn json_invalid_query(err: &str) -> (r: H3Response)
    ensures
        is_json(r, 400, error_text(400, "Invalid query: "@ + err@)),
{
    json_error(400, text::joined("Invalid query: ", err).as_str())
}

/// Answers a query with the text of the response: `parsed` is that text (nothing where it could
/// not be written), or why the response could not be read.
pub fn serve_json_query(
    parsed: Result<Option<String>, String>,
    ttl: u32,
    limits: &Limits,
) -> (r: Result<H3Response, DoHError>)
    ensures
        match parsed {
            Ok(Some(json)) => r matches Ok(answer) && answer.status.code == 200
                && answer.content_type@ == DoHType::Json.name() && answer.body@ == encode_utf8(
                json@,
            ) && text::opt_text(answer.cache_control) == Some(
                response::cache_control_text(ttl, *limits),
            ),
            Ok(None) => r matches Err(e) && e is InvalidData,
            Err(err) => r matches Ok(answer) && is_json(
                answer,
                500,
                error_text(500, "Failed to parse DNS response: "@ + err@),
            ),
        },
{
    match parsed {
        Ok(Some(json)) => {
            let mut answer = json_response(200, json);
            answer.cache_control = Some(response::cache_control(ttl, limits));
            Ok(answer)
        },
        Ok(None) => Err(DoHError::InvalidData),
        Err(err) => Ok(
            json_error(500, text::joined("Failed to parse DNS response: ", err.as_str()).as_str()),
        ),
    }
}

/// Text without percent signs decodes to itself.
pub proof fn law_plain_text_decodes_to_itself(s: Seq<char>)
    requires
        !encode_utf8(s).contains(37),
    ensures
        url_decoded(s) == Some(s),
{
    lemma_plain_bytes(encode_utf8(s));
    encode_utf8_valid_utf8(s);
    encode_utf8_decode_utf8(s);
}

proof fn lemma_plain_bytes(b: Seq<u8>)
    requires
        !b.contains(37),
    ensures
        percent_decoded(b) == b,
    decreases b.len(),
{
    if b.len() > 0 {
        assert(b.contains(b[0]));
        assert forall|i: int| 0 <= i < b.skip(1).len() implies b.skip(1)[i] != 37 by {
            assert(b.contains(b[i + 1]));
        }
        lemma_plain_bytes(b.skip(1));
        assert(seq![b[0]] + b.skip(1) =~= b);
    }
}

/// The text of a parameter and its value.
pub open spec fn assigned(name: Seq<char>, value: Seq<char>) -> Seq<char> {
    name.push('=') + value
}

proof fn lemma_assigned(name: Seq<char>, value: Seq<char>, rest: Seq<char>)
    requires
        !name.contains('='),
        !value.contains('='),
    ensures
        text::split_on(assigned(name, value), '=') == seq![name, value],
        text::split_on(assigned(assigned(name, value), rest), '=').len() >= 2,
        text::split_on(assigned(assigned(name, value), rest), '=')[0] == name,
        text::split_on(assigned(assigned(name, value), rest), '=')[1] == value,
        text::split_on(name, '=') == seq![name],
{
    text::law_join_split(seq![name], '=');
    assert(text::join_with(seq![name], '=') =~= name);
    text::law_join_split(seq![value], '=');
    assert(text::join_with(seq![value], '=') =~= value);
    text::law_split_at_separator(name, value, '=');
    text::law_split_at_separator(assigned(name, value), rest, '=');
    assert(text::split_on(assigned(name, value), '=') =~= seq![name, value]);
    text::law_split_join(rest, '=');
}

/// Each parameter sets what it names, and nothing else.
pub proof fn law_parameters_set_what_they_name(q: JsonQueryView, value: Seq<char>)
    requires
        !value.contains('='),
    ensures
        with_param(q, assigned("name"@, value)) == (JsonQueryView {
            name: match url_decoded(value) {
                Some(name) => name,
                None => Seq::empty(),
            },
            ..q
        }),
        with_param(q, assigned("type"@, value)) == (JsonQueryView {
            qtype: match text::parsed_number(value, 65535) {
                Some(n) => Some(n as u16),
                None => None,
            },
            ..q
        }),
        with_param(q, assigned("cd"@, value)) == (JsonQueryView {
            cd: Some(value == "1"@ || value == "true"@),
            ..q
        }),
        with_param(q, assigned("ct"@, value)) == (JsonQueryView { ct: Some(value), ..q }),
        with_param(q, assigned("do"@, value)) == (JsonQueryView {
            do_: Some(value == "1"@ || value == "true"@),
            ..q
        }),
        with_param(q, assigned("edns_client_subnet"@, value)) == (JsonQueryView {
            edns_client_subnet: Some(value),
            ..q
        }),
{
    reveal_strlit("name");
    reveal_strlit("type");
    reveal_strlit("cd");
    reveal_strlit("ct");
    reveal_strlit("do");
    reveal_strlit("edns_client_subnet");
    assert("name"@[0] == 'n' && "type"@[0] == 't' && "cd"@[1] == 'd' && "cd"@[0] == 'c' && "ct"@[1]
        == 't' && "do"@[0] == 'd');
    assert("name"@.len() == 4 && "type"@.len() == 4 && "cd"@.len() == 2 && "ct"@.len() == 2
        && "do"@.len() == 2 && "edns_client_subnet"@.len() == 18);
    lemma_assigned("name"@, value, value);
    lemma_assigned("type"@, value, value);
    lemma_assigned("cd"@, value, value);
    lemma_assigned("ct"@, value, value);
    lemma_assigned("do"@, value, value);
    lemma_assigned("edns_client_subnet"@, value, value);
}

/// Parameters of other names do not count, nor does one without a value; and of a value only what
/// stands before another equals sign counts.
pub proof fn law_other_parameters_do_not_count(
    q: JsonQueryView,
    name: Seq<char>,
    value: Seq<char>,
    rest: Seq<char>,
)
    requires
        !name.contains('='),
        !value.contains('='),
    ensures
        name != "name"@ && name != "type"@ && name != "cd"@ && name != "ct"@ && name != "do"@
            && name != "edns_client_subnet"@ ==> with_param(q, assigned(name, value)) == q,
        with_param(q, name) == q,
        with_param(q, assigned(assigned(name, value), rest)) == with_param(
            q,
            assigned(name, value),
        ),
{
    lemma_assigned(name, value, rest);
}

/// Parameters are taken one after the other, so that the last of a name counts.
pub proof fn law_parameters_are_taken_in_order(parts: Seq<Seq<char>>, part: Seq<char>)
    ensures
        query_of(Seq::empty()) == (JsonQueryView {
            name: Seq::empty(),
            qtype: None,
            cd: None,
            ct: None,
            do_: None,
            edns_client_subnet: None,
        }),
        query_of(parts.push(part)) == with_param(query_of(parts), part),
{
    assert(parts.push(part).drop_last() =~= parts);
}

/// Two hexadecimal digits after a percent sign, in either case, stand for one byte, and what
/// follows is decoded likewise.
pub proof fn law_percent_signs_are_decoded(hi: u8, lo: u8, h: u8, l: u8, rest: Seq<u8>)
    requires
        h < 16,
        l < 16,
        hi == (if h < 10 {
            48 + h
        } else {
            55 + h
        }) || (h >= 10 && hi == 87 + h),
        lo == (if l < 10 {
            48 + l
        } else {
            55 + l
        }) || (l >= 10 && lo == 87 + l),
    ensures
        percent_decoded(seq![37u8, hi, lo] + rest) == seq![(h * 16 + l) as u8] + percent_decoded(
            rest,
        ),
{
    let all = seq![37u8, hi, lo] + rest;
    assert(all.skip(3) =~= rest);
    assert(all[0] == 37 && all[1] == hi && all[2] == lo);
    assert(hex_value(hi) == Some(h as int) && hex_value(lo) == Some(l as int));
}

/// Any other byte stays what it is.
pub proof fn law_other_bytes_stay(b: u8, rest: Seq<u8>)
    requires
        b != 37,
    ensures
        percent_decoded(seq![b] + rest) == seq![b] + percent_decoded(rest),
{
    assert((seq![b] + rest).skip(1) =~= rest);
}

/// A JSON response says its status and that it is JSON, and its body is the text.
pub proof fn law_json_responses(r: H3Response, status: u16, body: Seq<char>)
    ensures
        is_json(r, status, body) ==> r.status.code == status && r.content_type@
            == "application/dns-json"@ && r.body@ == encode_utf8(body) && r.cache_control is None,
        error_text(status, body) == json_object_text("Status"@, status, "Comment"@, body),
{
}

} // verus!
