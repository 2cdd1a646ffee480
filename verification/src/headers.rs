//! Header fields of HTTP messages.

use crate::wire;
use vstd::prelude::*;
use vstd::utf8::*;

verus! {

/// A header field.
#[derive(Clone, Debug)]
pub struct HeaderField {
    pub name: Vec<u8>,
    pub value: Vec<u8>,
}

/// The name and the value of a field.
pub open spec fn field(h: HeaderField) -> (Seq<u8>, Seq<u8>) {
    (h.name@, h.value@)
}

/// The names and the values of fields.
pub open spec fn fields(headers: Seq<HeaderField>) -> Seq<(Seq<u8>, Seq<u8>)> {
    headers.map_values(|h: HeaderField| field(h))
}

/// The value of the first field of that name.
pub open spec fn first_value(headers: Seq<(Seq<u8>, Seq<u8>)>, name: Seq<u8>) -> Option<Seq<u8>>
    decreases headers.len(),
{
    if headers.len() == 0 {
        None
    } else if headers[0].0 == name {
        Some(headers[0].1)
    } else {
        first_value(headers.skip(1), name)
    }
}

/// The value of the first field of that name, where it is text.
pub open spec fn header_text(headers: Seq<(Seq<u8>, Seq<u8>)>, name: Seq<char>) -> Option<
    Seq<char>,
> {
    match first_value(headers, encode_utf8(name)) {
        Some(value) => if valid_utf8(value) {
            Some(decode_utf8(value))
        } else {
            None
        },
        None => None,
    }
}

/// `std::str::from_utf8`, with the text copied: the text of bytes that are well-formed UTF-8, and
/// nothing for others.
#[verifier::external_body]
fn text_from_utf8(bytes: &[u8]) -> (r: Option<String>)
    ensures
        match r {
            Some(s) => valid_utf8(bytes@) && s@ == decode_utf8(bytes@),
            None => !valid_utf8(bytes@),
        },
{
    std::str::from_utf8(bytes).ok().map(String::from)
}

/// The value of the first field of that name, where it is text.
pub fn h3_header_value(headers: &Vec<HeaderField>, name: &str) -> (r: Option<String>)
    ensures
        crate::text::opt_text(r) == header_text(fields(headers@), name@),
{
    let ghost all = fields(headers@);
    let mut i: usize = 0;
    assert(all.skip(0) =~= all);
    while i < headers.len()
        invariant
            i <= headers@.len(),
            all == fields(headers@),
            first_value(all, encode_utf8(name@)) == first_value(
                all.skip(i as int),
                encode_utf8(name@),
            ),
        decreases headers@.len() - i,
    {
        assert(all.skip(i as int)[0] == field(headers@[i as int]));
        assert(all.skip(i as int).skip(1) =~= all.skip(i + 1));
        if wire::bytes_equal(headers[i].name.as_slice(), name.as_bytes()) {
            return text_from_utf8(headers[i].value.as_slice());
        }
        i = i + 1;
    }
    None
}

/// The value of a name is that of its first field, and there is none only where no field has the
/// name.
pub proof fn law_first_field_counts(headers: Seq<(Seq<u8>, Seq<u8>)>, name: Seq<u8>)
    ensures
        match first_value(headers, name) {
            Some(value) => exists|k: int|
                0 <= k < headers.len() && #[trigger] headers[k] == (name, value) && forall|j: int|
                    0 <= j < k ==> (#[trigger] headers[j]).0 != name,
            None => forall|j: int| 0 <= j < headers.len() ==> (#[trigger] headers[j]).0 != name,
        },
    decreases headers.len(),
{
    if headers.len() > 0 {
        if headers[0].0 == name {
            assert(headers[0] == (name, headers[0].1));
        } else {
            let rest = headers.skip(1);
            law_first_field_counts(rest, name);
            assert forall|j: int| 1 <= j < headers.len() implies #[trigger] headers[j] == rest[j
                - 1] by {}
            if let Some(value) = first_value(rest, name) {
                let k = choose|k: int|
                    0 <= k < rest.len() && #[trigger] rest[k] == (name, value) && forall|j: int|
                        0 <= j < k ==> (#[trigger] rest[j]).0 != name;
                assert(headers[k + 1] == (name, value));
                assert forall|j: int| 0 <= j < k + 1 implies (#[trigger] headers[j]).0 != name by {
                    if j > 0 {
                        assert(rest[j - 1].0 != name);
                    }
                }
            }
        }
    }
}

/// The text of a name is what the value of its first field encodes, where that is text.
pub proof fn law_header_text(headers: Seq<(Seq<u8>, Seq<u8>)>, name: Seq<char>, value: Seq<char>)
    ensures
        first_value(headers, encode_utf8(name)) == Some(encode_utf8(value)) ==> header_text(
            headers,
            name,
        ) == Some(value),
        header_text(headers, name) == Some(value) ==> first_value(headers, encode_utf8(name))
            == Some(encode_utf8(value)),
{
    encode_utf8_valid_utf8(value);
    encode_utf8_decode_utf8(value);
    if let Some(bytes) = first_value(headers, encode_utf8(name)) {
        if valid_utf8(bytes) {
            decode_utf8_encode_utf8(bytes);
        }
    }
}

} // verus!
