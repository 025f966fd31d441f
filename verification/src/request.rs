use vstd::prelude::*;
use vstd::utf8::encode_utf8;

verus! {

/// The module of the wiki that lists who rated a page.
pub const RATING_MODULE: &'static str = "pagerate/WhoRatedPageModule";

/// The byte stands for itself in a form: a letter or digit of ASCII, or
/// one of `*`, `-`, `.` and `_`.
pub open spec fn is_unreserved(byte: u8) -> bool {
    ||| byte == 42
    ||| byte == 45
    ||| byte == 46
    ||| 48 <= byte <= 57
    ||| 65 <= byte <= 90
    ||| byte == 95
    ||| 97 <= byte <= 122
}

/// The character that writes the hexadecimal digit `digit`, a capital for
/// a letter.
pub open spec fn hex_char(digit: int) -> char {
    if digit < 10 {
        (48 + digit) as u8 as char
    } else {
        (55 + digit) as u8 as char
    }
}

/// What a form writes for one byte: the byte itself where it is
/// unreserved, a plus sign for a space, and else a percent sign and the
/// two hexadecimal digits of the byte.
pub open spec fn form_byte(byte: u8) -> Seq<char> {
    if is_unreserved(byte) {
        seq![byte as char]
    } else if byte == 32 {
        seq!['+']
    } else {
        seq!['%', hex_char(byte as int / 16), hex_char(byte as int % 16)]
    }
}

/// What a form writes for a sequence of bytes.
pub open spec fn form_bytes(bytes: Seq<u8>) -> Seq<char>
    decreases bytes.len(),
{
    if bytes.len() == 0 {
        Seq::empty()
    } else {
        form_bytes(bytes.drop_last()) + form_byte(bytes.last())
    }
}

/// What a form writes for a text: what it writes for the bytes of the
/// text in UTF-8.
pub open spec fn form_text(text: Seq<char>) -> Seq<char> {
    form_bytes(encode_utf8(text))
}

/// The form that holds the given pairs of a name and a value: each pair as
/// its name, an equals sign and its value, and an ampersand between two
/// pairs.
pub open spec fn form_of(pairs: Seq<(Seq<char>, Seq<char>)>) -> Seq<char>
    decreases pairs.len(),
{
    if pairs.len() == 0 {
        Seq::empty()
    } else {
        let before = if pairs.len() == 1 {
            Seq::empty()
        } else {
            form_of(pairs.drop_last()).push('&')
        };
        before + form_text(pairs.last().0).push('=') + form_text(pairs.last().1)
    }
}

/// The pairs of a list, each text by its view.
pub open spec fn fields_of(pairs: Seq<(String, String)>) -> Seq<(Seq<char>, Seq<char>)> {
    Seq::new(pairs.len(), |i: int| (pairs[i].0@, pairs[i].1@))
}

/// The fields of the request for the votes on the page `page_id`, made
/// with the session token `token`.
pub open spec fn vote_request(page_id: Seq<char>, token: Seq<char>) -> Seq<(Seq<char>, Seq<char>)> {
    seq![
        ("pageId"@, page_id),
        ("moduleName"@, RATING_MODULE@),
        ("callbackIndex"@, "1"@),
        ("wikidot_token7"@, token),
    ]
}

/// Calls `form_urlencoded::Serializer` on an empty target: `new`, then
/// `extend_pairs` with the given pairs, then `finish`.
///
/// Trusted: the serializer writes the pairs in their order, an ampersand
/// before each but the first and an equals sign between name and value,
/// and writes each byte of a text as `form_byte` says.
#[verifier::external_body]
fn serialize_form(pairs: &Vec<(String, String)>) -> (form: String)
    ensures
        form@ == form_of(fields_of(pairs@)),
{
    form_urlencoded::Serializer::new(String::new()).extend_pairs(pairs).finish()
}

/// The body of the request for the votes on the page `page_id`, made with
/// the session token `token`.
pub fn vote_request_body(page_id: &str, token: &str) -> (body: String)
    ensures
        body@ == form_of(vote_request(page_id@, token@)),
{
    let mut pairs: Vec<(String, String)> = Vec::new();
    pairs.push(("pageId".to_owned(), page_id.to_owned()));
    pairs.push(("moduleName".to_owned(), RATING_MODULE.to_owned()));
    pairs.push(("callbackIndex".to_owned(), "1".to_owned()));
    pairs.push(("wikidot_token7".to_owned(), token.to_owned()));
    proof {
        assert(fields_of(pairs@) =~= vote_request(page_id@, token@));
    }
    serialize_form(&pairs)
}

} // verus!
