//! Queries that come in the query string of a request.

use crate::errors::DoHError;
use crate::limits::Limits;
use crate::text;
use base64::engine::Engine;
use vstd::prelude::*;
use vstd::utf8::*;

verus! {

/// The value of a parameter in the parts of a query string: that of its last occurrence, where it
/// has one.
pub open spec fn param_in(parts: Seq<Seq<char>>, param: Seq<char>) -> Option<Seq<char>>
    decreases parts.len(),
{
    if parts.len() == 0 {
        None
    } else {
        let pair = text::split_on(parts.last(), '=');
        if pair[0] == param {
            if pair.len() > 1 {
                Some(pair[1])
            } else {
                None
            }
        } else {
            param_in(parts.drop_last(), param)
        }
    }
}

/// The value of a parameter in a query string.
pub open spec fn param_value(query: Seq<char>, param: Seq<char>) -> Option<Seq<char>> {
    param_in(text::split_on(query, '&'), param)
}

/// The value of a parameter in a query string.
pub fn question_param(query: &str, param: &str) -> (value: Option<String>)
    ensures
        text::opt_text(value) == param_value(query@, param@),
{
    let parts = text::split(query, '&');
    let ghost all = text::texts(parts@);
    let mut value: Option<String> = None;
    let mut i: usize = 0;
    assert(all.take(0) =~= Seq::empty());
    while i < parts.len()
        invariant
            i <= parts@.len(),
            all == text::texts(parts@),
            text::opt_text(value) == param_in(all.take(i as int), param@),
        decreases parts@.len() - i,
    {
        proof {
            assert(all.take(i + 1).drop_last() =~= all.take(i as int));
            assert(all.take(i + 1).last() == parts@[i as int]@);
        }
        let pair = text::split(parts[i].as_str(), '=');
        assert(text::texts(pair@)[0] == pair@[0]@);
        if text::same_text(pair[0].as_str(), param) {
            value = if pair.len() > 1 {
                assert(text::texts(pair@)[1] == pair@[1]@);
                Some(pair[1].clone())
            } else {
                None
            };
        }
        i = i + 1;
    }
    assert(all.take(i as int) =~= all);
    value
}

/// The encoded question in a query string, where it is not too long.
pub open spec fn encoded(query: Seq<char>, param: Seq<char>, limits: Limits) -> Option<Seq<char>> {
    match param_value(query, param) {
        Some(question) => if encode_utf8(question).len() > limits.max_dns_question_len * 4 / 3 {
            None
        } else {
            Some(question)
        },
        None => None,
    }
}

/// The encoded question in a query string, where it is not too long.
pub fn encoded_question(query: &str, param: &str, limits: &Limits) -> (question: Option<String>)
    requires
        limits.wf(),
    ensures
        text::opt_text(question) == encoded(query@, param@, *limits),
{
    match question_param(query, param) {
        Some(question) => {
            if question.as_str().as_bytes().len() > limits.max_dns_question_len * 4 / 3 {
                None
            } else {
                Some(question)
            }
        },
        None => None,
    }
}

/// What text decodes to in the URL-safe alphabet of Base64, with or without padding.
pub uninterp spec fn base64_url_decoded(s: Seq<char>) -> Option<Seq<u8>>;

/// `Engine::decode` of the `base64` crate, with the URL-safe alphabet, and padding neither asked
/// for nor refused: the bytes that the text stands for, or nothing where it is no such text.
#[verifier::external_body]
fn base64_url_decode(s: &str) -> (r: Option<Vec<u8>>)
    ensures
        match r {
            Some(bytes) => base64_url_decoded(s@) == Some(bytes@),
            None => base64_url_decoded(s@) is None,
        },
{
    let config = base64::engine::general_purpose::GeneralPurposeConfig::new()
        .with_encode_padding(false)
        .with_decode_padding_mode(base64::engine::DecodePaddingMode::Indifferent);
    base64::engine::general_purpose::GeneralPurpose::new(&base64::alphabet::URL_SAFE, config)
        .decode(s)
        .ok()
}

/// The query in a query string.
pub open spec fn decoded_query(query: Seq<char>, param: Seq<char>, limits: Limits) -> Option<
    Seq<u8>,
> {
    match encoded(query, param, limits) {
        Some(question) => base64_url_decoded(question),
        None => None,
    }
}

/// The bytes of an optional packet.
pub open spec fn opt_packet(p: Option<Vec<u8>>) -> Option<Seq<u8>> {
    match p {
        Some(bytes) => Some(bytes@),
        None => None,
    }
}

/// The query in a query string.
pub fn query_from_query_string(http_query: &str, param: &str, limits: &Limits) -> (query: Option<
    Vec<u8>,
>)
    requires
        limits.wf(),
    ensures
        opt_packet(query) == decoded_query(http_query@, param@, *limits),
{
    match encoded_question(http_query, param, limits) {
        Some(question) => base64_url_decode(question.as_str()),
        None => None,
    }
}

/// The query string of a path: what stands between its first question mark and the next.
pub open spec fn query_of_path(path: Seq<char>) -> Seq<char> {
    match text::part_of(path, '?', 1) {
        Some(query) => query,
        None => Seq::empty(),
    }
}

/// The query string of a path.
pub fn path_query(path: &str) -> (query: String)
    ensures
        query@ == query_of_path(path@),
{
    match text::part(path, '?', 1) {
        Some(query) => query,
        None => String::new(),
    }
}

/// A path without its query string.
pub open spec fn bare_path(path: Seq<char>) -> Seq<char> {
    text::split_on(path, '?')[0]
}

/// A path without its query string.
pub fn path_only(path: &str) -> (bare: String)
    ensures
        bare@ == bare_path(path@),
{
    let parts = text::split(path, '?');
    assert(text::texts(parts@)[0] == parts@[0]@);
    parts[0].clone()
}

/// The query in the query string of a path.
pub fn query_from_path(path: &str, param: &str, limits: &Limits) -> (query: Option<Vec<u8>>)
    requires
        limits.wf(),
    ensures
        opt_packet(query) == decoded_query(query_of_path(path@), param@, *limits),
{
    let http_query = path_query(path);
    query_from_query_string(http_query.as_str(), param, limits)
}

/// Checks how long a body says it is at most.
pub fn check_body_hint(upper: Option<u64>, limits: &Limits) -> (r: Result<(), DoHError>)
    ensures
        r == (match upper {
            Some(n) => if n >= limits.max_dns_question_len {
                Err::<(), DoHError>(DoHError::TooLarge)
            } else {
                Ok(())
            },
            None => Ok(()),
        }),
{
    match upper {
        Some(n) => if n >= limits.max_dns_question_len as u64 {
            Err(DoHError::TooLarge)
        } else {
            Ok(())
        },
        None => Ok(()),
    }
}

/// Takes a body that was read, or could not be: it has to be there, and shorter than the limit.
pub fn read_body(body: Option<Vec<u8>>, limits: &Limits) -> (r: Result<Vec<u8>, DoHError>)
    ensures
        r == (match body {
            Some(bytes) => if bytes@.len() >= limits.max_dns_question_len {
                Err::<Vec<u8>, DoHError>(DoHError::TooLarge)
            } else {
                Ok(bytes)
            },
            None => Err(DoHError::TooLarge),
        }),
{
    match body {
        Some(bytes) => if bytes.len() >= limits.max_dns_question_len {
            Err(DoHError::TooLarge)
        } else {
            Ok(bytes)
        },
        None => Err(DoHError::TooLarge),
    }
}

/// A query string that holds the parameter once, and nothing else, gives the parameter's value.
pub proof fn law_single_param_is_found(param: Seq<char>, value: Seq<char>)
    requires
        !param.contains('=') && !param.contains('&'),
        !value.contains('=') && !value.contains('&'),
    ensures
        param_value(param.push('=') + value, param) == Some(value),
{
    let query = param.push('=') + value;
    lemma_no_separator(query, '&', param, value);
    text::lemma_first_at(query, '&');
    assert(text::first_at(query, '&') == query.len());
    assert(text::split_on(query, '&') =~= seq![query]);
    let at = text::first_at(query, '=');
    text::lemma_first_at(query, '=');
    assert(at == param.len()) by {
        assert(query[param.len() as int] == '=');
        if at < param.len() {
            assert(param[at] == '=');
        }
    }
    assert(query.take(at) =~= param);
    assert(query.skip(at + 1) =~= value);
    text::lemma_first_at(value, '=');
    assert(text::first_at(value, '=') == value.len()) by {
        if text::first_at(value, '=') < value.len() {
            assert(value[text::first_at(value, '=')] == '=');
        }
    }
    assert(text::split_on(value, '=') =~= seq![value]);
    assert(text::split_on(query, '=') =~= seq![param, value]);
    let parts = seq![query];
    assert(parts.last() == query);
}

proof fn lemma_no_separator(query: Seq<char>, sep: char, a: Seq<char>, b: Seq<char>)
    requires
        query == a.push('=') + b,
        sep != '=',
        !a.contains(sep),
        !b.contains(sep),
    ensures
        forall|i: int| 0 <= i < query.len() ==> query[i] != sep,
{
    assert forall|i: int| 0 <= i < query.len() implies query[i] != sep by {
        if i < a.len() {
            assert(query[i] == a[i]);
        } else if i > a.len() {
            assert(query[i] == b[i - a.len() - 1]);
        }
    }
}

/// The text of a parameter and its value.
pub open spec fn assigned(name: Seq<char>, value: Seq<char>) -> Seq<char> {
    name.push('=') + value
}

/// The name of a part of a query string: what stands before its first equals sign.
pub open spec fn name_of(part: Seq<char>) -> Seq<char> {
    text::split_on(part, '=')[0]
}

/// A part is its name where it has no equals sign, and otherwise starts with its name and one.
pub proof fn law_names_of_parts(name: Seq<char>, value: Seq<char>)
    requires
        !name.contains('='),
    ensures
        name_of(name) == name,
        name_of(assigned(name, value)) == name,
{
    text::law_join_split(seq![name], '=');
    assert(text::join_with(seq![name], '=') =~= name);
    text::law_split_at_separator(name, value, '=');
    text::law_split_join(value, '=');
}

/// Parameters of other names do not matter, in front or behind, with a value or without.
pub proof fn law_other_parameters_do_not_matter(
    query: Seq<char>,
    part: Seq<char>,
    param: Seq<char>,
)
    requires
        !part.contains('&'),
        name_of(part) != param,
    ensures
        param_value(query.push('&') + part, param) == param_value(query, param),
        param_value(part.push('&') + query, param) == param_value(query, param),
{
    let parts = text::split_on(query, '&');
    text::law_join_split(seq![part], '&');
    assert(text::join_with(seq![part], '&') =~= part);
    text::law_split_at_separator(query, part, '&');
    text::law_split_at_separator(part, query, '&');
    assert((parts + seq![part]).drop_last() =~= parts);
    assert((parts + seq![part]).last() == part);
    lemma_other_in_front(part, parts, param);
}

proof fn lemma_other_in_front(part: Seq<char>, parts: Seq<Seq<char>>, param: Seq<char>)
    requires
        name_of(part) != param,
    ensures
        param_in(seq![part] + parts, param) == param_in(parts, param),
    decreases parts.len(),
{
    let all = seq![part] + parts;
    if parts.len() == 0 {
        assert(all.last() == part);
        assert(all.drop_last() =~= parts);
    } else {
        assert(all.last() == parts.last());
        assert(all.drop_last() =~= seq![part] + parts.drop_last());
        lemma_other_in_front(part, parts.drop_last(), param);
    }
}

/// Where a parameter comes more than once the last counts, and what stands between its first and
/// its second equals sign is its value. One without an equals sign has none.
pub proof fn law_last_parameter_counts(
    query: Seq<char>,
    param: Seq<char>,
    value: Seq<char>,
    rest: Seq<char>,
)
    requires
        !param.contains('=') && !param.contains('&'),
        !value.contains('=') && !value.contains('&'),
        !rest.contains('&'),
    ensures
        param_value(query.push('&') + assigned(param, value), param) == Some(value),
        param_value(query.push('&') + assigned(assigned(param, value), rest), param) == Some(value),
        param_value(query.push('&') + param, param) is None,
        param_value(assigned(param, value), param) == Some(value),
        param_value(param, param) is None,
        query.len() == 0 && param.len() > 0 ==> param_value(query, param) is None,
{
    let one = assigned(param, value);
    let two = assigned(one, rest);
    text::law_join_split(seq![param], '=');
    assert(text::join_with(seq![param], '=') =~= param);
    text::law_join_split(seq![value], '=');
    assert(text::join_with(seq![value], '=') =~= value);
    text::law_split_at_separator(param, value, '=');
    text::law_split_at_separator(one, rest, '=');
    text::law_split_join(rest, '=');
    assert(text::split_on(one, '=') =~= seq![param, value]);
    assert(text::split_on(two, '=')[0] == param && text::split_on(two, '=')[1] == value);
    lemma_part_behind(query, one, param);
    lemma_part_behind(query, two, param);
    lemma_part_behind(query, param, param);
    if query.len() == 0 {
        assert(query =~= Seq::empty());
        let nothing = Seq::<char>::empty();
        text::law_join_split(seq![nothing], '&');
        assert(text::join_with(seq![nothing], '&') =~= nothing);
        text::law_join_split(seq![nothing], '=');
        assert(text::join_with(seq![nothing], '=') =~= nothing);
        assert(seq![nothing].last() == nothing);
        assert(seq![nothing].drop_last() =~= Seq::empty());
        assert(param_in(Seq::empty(), param) is None);
    }
}

proof fn lemma_part_behind(query: Seq<char>, part: Seq<char>, param: Seq<char>)
    requires
        !part.contains('&'),
        name_of(part) == param,
    ensures
        ({
            let pair = text::split_on(part, '=');
            let found = if pair.len() > 1 {
                Some(pair[1])
            } else {
                None
            };
            &&& param_value(query.push('&') + part, param) == found
            &&& param_value(part, param) == found
        }),
{
    let parts = text::split_on(query, '&');
    text::law_join_split(seq![part], '&');
    assert(text::join_with(seq![part], '&') =~= part);
    text::law_split_at_separator(query, part, '&');
    assert((parts + seq![part]).last() == part);
    assert(seq![part].last() == part);
}

/// A question is taken exactly where it is short enough: four characters of it stand for three
/// bytes.
pub proof fn law_long_questions_are_not_taken(query: Seq<char>, param: Seq<char>, limits: Limits)
    ensures
        encoded(query, param, limits) == (match param_value(query, param) {
            Some(question) => if 3 * encode_utf8(question).len() <= 4 * limits.max_dns_question_len {
                Some(question)
            } else {
                None
            },
            None => None,
        }),
        decoded_query(query, param, limits) is Some ==> encoded(query, param, limits) is Some,
        encoded(query, param, limits) matches Some(question) ==> decoded_query(query, param, limits)
            == base64_url_decoded(question),
{
}

/// A path is what stands before its first question mark, and its query string what stands behind,
/// up to another.
pub proof fn law_path_and_query(bare: Seq<char>, query: Seq<char>, more: Seq<char>)
    requires
        !bare.contains('?'),
        !query.contains('?'),
    ensures
        bare_path(bare) == bare,
        query_of_path(bare).len() == 0,
        bare_path(bare.push('?') + query) == bare,
        query_of_path(bare.push('?') + query) == query,
        bare_path(bare.push('?') + (query.push('?') + more)) == bare,
        query_of_path(bare.push('?') + (query.push('?') + more)) == query,
{
    text::law_join_split(seq![bare], '?');
    assert(text::join_with(seq![bare], '?') =~= bare);
    text::law_join_split(seq![query], '?');
    assert(text::join_with(seq![query], '?') =~= query);
    text::law_split_at_separator(bare, query, '?');
    text::law_split_at_separator(query, more, '?');
    text::law_split_at_separator(bare, query.push('?') + more, '?');
    text::law_split_join(more, '?');
}

} // verus!
