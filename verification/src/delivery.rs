//! The request that delivers a report as a chat message.

use crate::numeral::digit_char;
use vstd::prelude::*;
use vstd::utf8::encode_utf8;

verus! {

/// Whether `byte` stands for itself in a query: a letter, a digit, or one of
/// `-`, `.`, `_`, `~`.
pub open spec fn is_unreserved(byte: u8) -> bool {
    ||| 0x30 <= byte <= 0x39
    ||| 0x41 <= byte <= 0x5a
    ||| 0x61 <= byte <= 0x7a
    ||| byte == 0x2d
    ||| byte == 0x2e
    ||| byte == 0x5f
    ||| byte == 0x7e
}

/// The upper-case hexadecimal digit for `nibble`, for `0 <= nibble <= 15`.
pub open spec fn hex_char(nibble: int) -> char {
    if nibble < 10 {
        digit_char(nibble)
    } else if nibble == 10 {
        'A'
    } else if nibble == 11 {
        'B'
    } else if nibble == 12 {
        'C'
    } else if nibble == 13 {
        'D'
    } else if nibble == 14 {
        'E'
    } else {
        'F'
    }
}

/// How `byte` is written in a query: as itself where it is unreserved, else
/// as `%` and its two hexadecimal digits.
pub open spec fn escaped_byte(byte: u8) -> Seq<char> {
    if is_unreserved(byte) {
        seq![byte as char]
    } else {
        seq!['%', hex_char(byte as int / 16), hex_char(byte as int % 16)]
    }
}

/// `bytes` written for a query, byte by byte.
pub open spec fn percent_encoded(bytes: Seq<u8>) -> Seq<char>
    decreases bytes.len(),
{
    if bytes.len() == 0 {
        Seq::empty()
    } else {
        percent_encoded(bytes.drop_last()) + escaped_byte(bytes.last())
    }
}

/// `urlencoding::encode`: the UTF-8 bytes of `text`, each unreserved byte as
/// itself and every other as `%` with two upper-case hexadecimal digits.
#[verifier::external_body]
fn url_encode(text: &str) -> (encoded: String)
    ensures
        encoded@ == percent_encoded(encode_utf8(text@)),
{
    urlencoding::encode(text).into_owned()
}

/// The address that, when fetched, sends `message` to the chat `chat_id` in
/// the name of the bot with `api_token`.
pub fn telegram_message_url(api_token: &str, chat_id: &str, message: &str) -> (url: String)
    ensures
        url@ == "https://api.telegram.org/bot"@ + api_token@ + "/sendMessage?chat_id="@ + chat_id@
            + "&text="@ + percent_encoded(encode_utf8(message@)),
{
    let mut url = String::from_str("https://api.telegram.org/bot");
    url.append(api_token);
    url.append("/sendMessage?chat_id=");
    url.append(chat_id);
    url.append("&text=");
    let encoded = url_encode(message);
    url.append(encoded.as_str());
    assert(url@ =~= "https://api.telegram.org/bot"@ + api_token@ + "/sendMessage?chat_id="@
        + chat_id@ + "&text="@ + percent_encoded(encode_utf8(message@)));
    url
}

} // verus!
