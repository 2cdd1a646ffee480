//! Which kind of query a request is, by its content type and what it accepts.

use crate::errors::StatusCode;
use crate::text;
use vstd::prelude::*;

verus! {

/// The kinds of queries.
#[derive(Clone, Copy, Debug, PartialEq, Eq, Structural)]
pub enum DoHType {
    Standard,
    Oblivious,
    Json,
}

impl DoHType {
    /// The content type of a kind.
    pub open spec fn name(self) -> Seq<char> {
        match self {
            DoHType::Standard => "application/dns-message"@,
            DoHType::Oblivious => "application/oblivious-dns-message"@,
            DoHType::Json => "application/dns-json"@,
        }
    }

    pub fn as_str(&self) -> (s: &'static str)
        ensures
            s@ == self.name(),
    {
        match self {
            DoHType::Standard => "application/dns-message",
            DoHType::Oblivious => "application/oblivious-dns-message",
            DoHType::Json => "application/dns-json",
        }
    }
}

/// Every kind has a content type of its own.
pub proof fn law_content_types_are_distinct(a: DoHType, b: DoHType)
    ensures
        a.name() == b.name() ==> a == b,
{
    reveal_strlit("application/dns-message");
    reveal_strlit("application/oblivious-dns-message");
    reveal_strlit("application/dns-json");
    assert("application/dns-message"@[12] == 'd' && "application/oblivious-dns-message"@[12] == 'o'
        && "application/dns-json"@[12] == 'd');
    assert("application/dns-message"@.len() != "application/dns-json"@.len());
}

/// The kind of a content type that is written as it should be.
pub open spec fn type_named(s: Seq<char>) -> Option<DoHType> {
    if s == DoHType::Standard.name() {
        Some(DoHType::Standard)
    } else if s == DoHType::Oblivious.name() {
        Some(DoHType::Oblivious)
    } else if s == DoHType::Json.name() {
        Some(DoHType::Json)
    } else {
        None
    }
}

fn find_type(s: &str) -> (t: Option<DoHType>)
    ensures
        t == type_named(s@),
{
    if text::same_text(s, "application/dns-message") {
        Some(DoHType::Standard)
    } else if text::same_text(s, "application/oblivious-dns-message") {
        Some(DoHType::Oblivious)
    } else if text::same_text(s, "application/dns-json") {
        Some(DoHType::Json)
    } else {
        None
    }
}

/// A media type without its parameters, in lower case.
pub open spec fn bare_type(s: Seq<char>) -> Seq<char> {
    text::lower(text::trimmed(text::split_on(s, ';')[0]))
}

fn bare_type_of(s: &str) -> (r: String)
    ensures
        r@ == bare_type(s@),
{
    let parts = text::split(s, ';');
    assert(text::texts(parts@)[0] == parts@[0]@);
    text::to_ascii_lowercase(text::trim(parts[0].as_str()).as_str())
}

/// The kind of the first of the media types that is one of a query.
pub open spec fn first_type(parts: Seq<Seq<char>>) -> Option<DoHType>
    decreases parts.len(),
{
    if parts.len() == 0 {
        None
    } else {
        match type_named(bare_type(text::trimmed(parts[0]))) {
            Some(t) => Some(t),
            None => first_type(parts.skip(1)),
        }
    }
}

/// The kind of answer that a list of accepted media types asks for.
pub open spec fn accepted_type(accept: Seq<char>) -> Option<DoHType> {
    first_type(text::split_on(accept, ','))
}

/// The kind of answer that a list of accepted media types asks for.
pub fn acceptable_content_type(accept: &str) -> (t: Option<DoHType>)
    ensures
        t == accepted_type(accept@),
{
    let parts = text::split(accept, ',');
    let ghost all = text::texts(parts@);
    let mut i: usize = 0;
    assert(all.skip(0) =~= all);
    while i < parts.len()
        invariant
            i <= parts@.len(),
            all == text::texts(parts@),
            all == text::split_on(accept@, ','),
            first_type(all) == first_type(all.skip(i as int)),
        decreases parts@.len() - i,
    {
        assert(all.skip(i as int)[0] == parts@[i as int]@);
        assert(all.skip(i as int).skip(1) =~= all.skip(i + 1));
        let found = bare_type_of(text::trim(parts[i].as_str()).as_str());
        match find_type(found.as_str()) {
            Some(t) => {
                return Some(t);
            },
            None => {},
        }
        i = i + 1;
    }
    None
}

/// A byte that the text of a header value may hold: a visible one, a space or a tab.
pub open spec fn visible(b: u8) -> bool {
    32 <= b < 127 || b == 9
}

/// The text of a header value, where every byte is visible.
pub open spec fn value_text(bytes: Seq<u8>) -> Option<Seq<char>> {
    if forall|i: int| 0 <= i < bytes.len() ==> visible(#[trigger] bytes[i]) {
        Some(bytes.map_values(|b: u8| b as char))
    } else {
        None
    }
}

/// `HeaderValue::to_str` of the `http` crate, on the value of these bytes, with the text copied:
/// the bytes as characters where each is a visible ASCII byte, a space or a tab, and nothing
/// otherwise. (`HeaderValue::from_bytes` refuses no bytes of that kind.)
#[verifier::external_body]
fn header_value_text(bytes: &[u8]) -> (r: Option<String>)
    ensures
        text::opt_text(r) == value_text(bytes@),
{
    let value = hyper::header::HeaderValue::from_bytes(bytes).ok()?;
    value.to_str().ok().map(String::from)
}

/// The kind of a query over HTTP/1 or HTTP/2, or the status that answers it: by its content type,
/// which has to be that of a kind in any case, or else by what it accepts.
pub open spec fn request_type(content_type: Option<Seq<u8>>, accept: Option<Seq<u8>>) -> Result<
    DoHType,
    StatusCode,
> {
    match content_type {
        Some(value) => match value_text(value) {
            None => Err(StatusCode { code: 400 }),
            Some(name) => match type_named(text::lower(name)) {
                Some(t) => Ok(t),
                None => Err(StatusCode { code: 415 }),
            },
        },
        None => match accept {
            None => Err(StatusCode { code: 406 }),
            Some(value) => match accepted_type(
                match value_text(value) {
                    Some(list) => list,
                    None => Seq::empty(),
                },
            ) {
                Some(t) => Ok(t),
                None => Err(StatusCode { code: 406 }),
            },
        },
    }
}

/// The bytes of an optional value.
pub open spec fn opt_bytes(v: Option<&[u8]>) -> Option<Seq<u8>> {
    match v {
        Some(bytes) => Some(bytes@),
        None => None,
    }
}

/// The kind of a query over HTTP/1 or HTTP/2, or the status that answers it.
pub fn parse_content_type(content_type: Option<&[u8]>, accept: Option<&[u8]>) -> (r: Result<
    DoHType,
    StatusCode,
>)
    ensures
        r == request_type(opt_bytes(content_type), opt_bytes(accept)),
{
    match content_type {
        Some(value) => match header_value_text(value) {
            None => Err(StatusCode { code: 400 }),
            Some(name) => match find_type(text::to_ascii_lowercase(name.as_str()).as_str()) {
                Some(t) => Ok(t),
                None => Err(StatusCode { code: 415 }),
            },
        },
        None => match accept {
            None => Err(StatusCode { code: 406 }),
            Some(value) => {
                let list = match header_value_text(value) {
                    Some(list) => list,
                    None => String::new(),
                };
                match acceptable_content_type(list.as_str()) {
                    Some(t) => Ok(t),
                    None => Err(StatusCode { code: 406 }),
                }
            },
        },
    }
}

proof fn lemma_lower_names()
    ensures
        forall|t: DoHType| text::lower(#[trigger] t.name()) == t.name(),
{
    reveal_strlit("application/dns-message");
    reveal_strlit("application/oblivious-dns-message");
    reveal_strlit("application/dns-json");
    assert forall|t: DoHType| text::lower(#[trigger] t.name()) == t.name() by {
        assert(text::lower(t.name()) =~= t.name());
    }
}

/// The kind of a query over HTTP/3, or the status that answers it. Parameters of the content type
/// do not count.
pub open spec fn h3_request_type(
    content_type: Option<Seq<char>>,
    accept: Option<Seq<char>>,
) -> Result<DoHType, StatusCode> {
    match content_type {
        Some(value) => match type_named(bare_type(value)) {
            Some(t) => Ok(t),
            None => Err(StatusCode { code: 415 }),
        },
        None => match accept {
            None => Err(StatusCode { code: 406 }),
            Some(list) => match accepted_type(list) {
                Some(t) => Ok(t),
                None => Err(StatusCode { code: 406 }),
            },
        },
    }
}

/// The kind of a query over HTTP/3, or the status that answers it.
pub fn parse_h3_content_type(content_type: Option<&str>, accept: Option<&str>) -> (r: Result<
    DoHType,
    StatusCode,
>)
    ensures
        r == h3_request_type(text::opt_str(content_type), text::opt_str(accept)),
{
    match content_type {
        Some(value) => match find_type(bare_type_of(value).as_str()) {
            Some(t) => Ok(t),
            None => Err(StatusCode { code: 415 }),
        },
        None => match accept {
            None => Err(StatusCode { code: 406 }),
            Some(list) => match acceptable_content_type(list) {
                Some(t) => Ok(t),
                None => Err(StatusCode { code: 406 }),
            },
        },
    }
}

/// A request that names its kind in full is of that kind, over every version of HTTP, whatever it
/// accepts.
pub proof fn law_named_type_is_taken(
    t: DoHType,
    accept: Option<Seq<char>>,
    accept_bytes: Option<Seq<u8>>,
)
    ensures
        h3_request_type(Some(t.name()), accept) == Ok::<DoHType, StatusCode>(t),
        forall|bytes: Seq<u8>| #[trigger]
            value_text(bytes) == Some(t.name()) ==> request_type(Some(bytes), accept_bytes)
                == Ok::<DoHType, StatusCode>(t),
{
    let s = t.name();
    law_content_types_are_distinct(t, DoHType::Standard);
    law_content_types_are_distinct(t, DoHType::Oblivious);
    law_content_types_are_distinct(t, DoHType::Json);
    lemma_lower_names();
    reveal_strlit("application/dns-message");
    reveal_strlit("application/oblivious-dns-message");
    reveal_strlit("application/dns-json");
    assert(forall|i: int| 0 <= i < s.len() ==> s[i] != ';');
    text::lemma_first_at(s, ';');
    assert(text::first_at(s, ';') == s.len());
    assert(text::split_on(s, ';') =~= seq![s]);
    assert(s[0] == 'a' && (s.last() == 'e' || s.last() == 'n'));
    assert(text::trim_start(s) == s && text::trim_end(s) == s);
    assert(bare_type(s) == s);
}

/// The content types by which queries are told apart.
pub proof fn law_content_type_names(s: Seq<char>)
    ensures
        type_named(s) == Some(DoHType::Standard) <==> s == "application/dns-message"@,
        type_named(s) == Some(DoHType::Oblivious) <==> s == "application/oblivious-dns-message"@,
        type_named(s) == Some(DoHType::Json) <==> s == "application/dns-json"@,
        DoHType::Standard.name() == "application/dns-message"@,
        DoHType::Oblivious.name() == "application/oblivious-dns-message"@,
        DoHType::Json.name() == "application/dns-json"@,
{
    law_content_types_are_distinct(DoHType::Standard, DoHType::Oblivious);
    law_content_types_are_distinct(DoHType::Standard, DoHType::Json);
    law_content_types_are_distinct(DoHType::Oblivious, DoHType::Json);
}

/// The case of a media type, the white space around it and its parameters do not matter.
pub proof fn law_parameters_do_not_matter(
    before: Seq<char>,
    name: Seq<char>,
    after: Seq<char>,
    params: Seq<char>,
)
    requires
        !name.contains(';'),
        name.len() > 0 ==> !text::white_space(name[0]) && !text::white_space(name.last()),
        forall|i: int| 0 <= i < before.len() ==> text::white_space(#[trigger] before[i]),
        forall|i: int| 0 <= i < after.len() ==> text::white_space(#[trigger] after[i]),
    ensures
        bare_type(before + name + after) == text::lower(name),
        bare_type((before + name + after).push(';') + params) == text::lower(name),
{
    let s = before + name + after;
    assert forall|i: int| 0 <= i < s.len() implies s[i] != ';' by {
        if i < before.len() {
            assert(s[i] == before[i]);
        } else if i < before.len() + name.len() {
            assert(s[i] == name[i - before.len()]);
        } else {
            assert(s[i] == after[i - before.len() - name.len()]);
        }
    }
    assert(!s.contains(';'));
    text::law_join_split(seq![s], ';');
    assert(text::join_with(seq![s], ';') =~= s);
    text::law_split_at_separator(s, params, ';');
    text::law_split_join(params, ';');
    text::law_trimming_takes_white_space(before, name, after);
}

/// The first media type of a list that is one of a query decides, and nothing does where there is
/// none.
pub proof fn law_first_accepted_type_counts(parts: Seq<Seq<char>>, k: int)
    requires
        forall|i: int| 0 <= i < parts.len() ==> !(#[trigger] parts[i]).contains(','),
        parts.len() >= 1,
        0 <= k <= parts.len(),
        forall|j: int|
            0 <= j < k ==> type_named(bare_type(text::trimmed(#[trigger] parts[j]))) is None,
    ensures
        k == parts.len() ==> accepted_type(text::join_with(parts, ',')) is None,
        k < parts.len() ==> (type_named(bare_type(text::trimmed(parts[k]))) matches Some(t)
            ==> accepted_type(text::join_with(parts, ',')) == Some(t)),
{
    text::law_join_split(parts, ',');
    lemma_first_type(parts, k);
}

proof fn lemma_first_type(parts: Seq<Seq<char>>, k: int)
    requires
        0 <= k <= parts.len(),
        forall|j: int|
            0 <= j < k ==> type_named(bare_type(text::trimmed(#[trigger] parts[j]))) is None,
    ensures
        k == parts.len() ==> first_type(parts) is None,
        k < parts.len() ==> (type_named(bare_type(text::trimmed(parts[k]))) matches Some(t)
            ==> first_type(parts) == Some(t)),
    decreases parts.len(),
{
    if k > 0 {
        let rest = parts.skip(1);
        assert(type_named(bare_type(text::trimmed(parts[0]))) is None);
        assert forall|j: int| 0 <= j < k - 1 implies type_named(
            bare_type(text::trimmed(#[trigger] rest[j])),
        ) is None by {
            assert(rest[j] == parts[j + 1]);
        }
        lemma_first_type(rest, k - 1);
        if k < parts.len() {
            assert(rest[k - 1] == parts[k]);
        }
    }
}

/// The kind of a request is told by its content type alone where it has one, and by what it
/// accepts otherwise; and why a request has no kind is told by its status.
pub proof fn law_kinds_of_requests(
    name: Seq<char>,
    bytes: Seq<u8>,
    accept: Option<Seq<char>>,
    accept_bytes: Option<Seq<u8>>,
)
    ensures
        h3_request_type(Some(name), accept) == (match type_named(bare_type(name)) {
            Some(t) => Ok::<DoHType, StatusCode>(t),
            None => Err(StatusCode { code: 415 }),
        }),
        value_text(bytes) is None ==> request_type(Some(bytes), accept_bytes) == Err::<
            DoHType,
            StatusCode,
        >(StatusCode { code: 400 }),
        value_text(bytes) matches Some(value) ==> request_type(Some(bytes), accept_bytes) == (
        match type_named(text::lower(value)) {
            Some(t) => Ok::<DoHType, StatusCode>(t),
            None => Err(StatusCode { code: 415 }),
        }),
        h3_request_type(None, None) == Err::<DoHType, StatusCode>(StatusCode { code: 406 }),
        request_type(None, None) == Err::<DoHType, StatusCode>(StatusCode { code: 406 }),
        h3_request_type(None, Some(name)) == (match accepted_type(name) {
            Some(t) => Ok::<DoHType, StatusCode>(t),
            None => Err(StatusCode { code: 406 }),
        }),
        value_text(bytes) matches Some(list) ==> request_type(None, Some(bytes))
            == h3_request_type(None, Some(list)),
{
}

/// Without text, or with an empty one, nothing is accepted.
pub proof fn law_unreadable_lists_accept_nothing(bytes: Seq<u8>)
    ensures
        value_text(bytes) is None || bytes.len() == 0 ==> request_type(None, Some(bytes)) == Err::<
            DoHType,
            StatusCode,
        >(StatusCode { code: 406 }),
{
    let nothing = Seq::<char>::empty();
    let parts = seq![nothing];
    text::law_join_split(parts, ',');
    assert(text::join_with(parts, ',') =~= nothing);
    assert(nothing + nothing + nothing =~= nothing);
    text::law_trimming_takes_white_space(nothing, nothing, nothing);
    law_parameters_do_not_matter(nothing, nothing, nothing, nothing);
    assert(text::lower(nothing) =~= nothing);
    reveal_strlit("application/dns-message");
    reveal_strlit("application/oblivious-dns-message");
    reveal_strlit("application/dns-json");
    assert("application/dns-message"@.len() > 0 && "application/oblivious-dns-message"@.len() > 0
        && "application/dns-json"@.len() > 0);
    lemma_first_type(parts, 1);
    if bytes.len() == 0 {
        assert(bytes.map_values(|b: u8| b as char) =~= nothing);
    }
}

} // verus!
