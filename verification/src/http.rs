use vstd::prelude::*;
use vstd::string::StringExecFns;

use crate::decode::decode_dict;
use crate::encode::decimal_digits;
use crate::grammar::spec_dict;
use crate::torrent_file::int_at;
use crate::tracker::{AnnounceConfig, FailureResponse, OkResponse, Responses, ResponsesView, TrackerError};
use crate::util::{dict_remove, lookup, peers_of, unwrap_integer, unwrap_peers, unwrap_string};
use crate::value::{entries_view, BencodeTypes, Value};

verus! {

/// What the dictionary of an HTTP tracker's answer says. A `failure reason`
/// makes it a failure. Else `interval` and `peers` are required, `min
/// interval` must be an integer where it is there, and `complete` and
/// `incomplete` count only where they are integers. `None` where the
/// dictionary does not fit.
pub open spec fn response_of(entries: Seq<(Seq<char>, Value)>) -> Option<ResponsesView> {
    match lookup(entries, "failure reason"@) {
        Some(Value::Str(failure_reason)) => Some(ResponsesView::Failure { failure_reason }),
        Some(_) => None,
        None => match (int_at(entries, "interval"@), lookup(entries, "min interval"@), lookup(entries, "peers"@)) {
            (Some(interval), None, Some(peers)) => match peers_of(peers) {
                Some(peers) => Some(
                    ResponsesView::Done {
                        interval,
                        min_interval: None,
                        complete: int_at(entries, "complete"@),
                        incomplete: int_at(entries, "incomplete"@),
                        peers,
                    },
                ),
                None => None,
            },
            (Some(interval), Some(Value::Int(min_interval)), Some(peers)) => match peers_of(peers) {
                Some(peers) => Some(
                    ResponsesView::Done {
                        interval,
                        min_interval: Some(min_interval),
                        complete: int_at(entries, "complete"@),
                        incomplete: int_at(entries, "incomplete"@),
                        peers,
                    },
                ),
                None => None,
            },
            _ => None,
        },
    }
}

/// The keys of a tracker's answer differ from one another.
pub proof fn lemma_response_keys_differ()
    ensures
        "failure reason"@ != "interval"@,
        "failure reason"@ != "min interval"@,
        "failure reason"@ != "complete"@,
        "failure reason"@ != "incomplete"@,
        "failure reason"@ != "peers"@,
        "interval"@ != "min interval"@,
        "interval"@ != "complete"@,
        "interval"@ != "incomplete"@,
        "interval"@ != "peers"@,
        "min interval"@ != "complete"@,
        "min interval"@ != "incomplete"@,
        "min interval"@ != "peers"@,
        "complete"@ != "incomplete"@,
        "complete"@ != "peers"@,
        "incomplete"@ != "peers"@,
{
    reveal_strlit("failure reason");
    reveal_strlit("interval");
    reveal_strlit("min interval");
    reveal_strlit("complete");
    reveal_strlit("incomplete");
    reveal_strlit("peers");
    assert("failure reason"@.len() == 14);
    assert("interval"@.len() == 8);
    assert("min interval"@.len() == 12);
    assert("complete"@.len() == 8);
    assert("incomplete"@.len() == 10);
    assert("peers"@.len() == 5);
    assert("interval"@[0] != "complete"@[0]);
}

/// Reads the fields of a tracker's answer from its decoded dictionary.
pub fn make_response(dict: Vec<(String, BencodeTypes)>) -> (r: Option<Responses>)
    ensures
        match response_of(entries_view(dict@)) {
            Some(response) => r matches Some(v) && v@ == response,
            None => r is None,
        },
{
    proof {
        lemma_response_keys_differ();
    }
    let mut dict = dict;
    match dict_remove(&mut dict, "failure reason") {
        Some(reason) => {
            let failure_reason = unwrap_string(reason)?;
            return Some(Responses::Failure(FailureResponse { failure_reason }));
        },
        None => {},
    }
    let interval = unwrap_integer(dict_remove(&mut dict, "interval")?)?;

    let min_interval = match dict_remove(&mut dict, "min interval") {
        Some(i) => Some(unwrap_integer(i)?),
        None => None,
    };

    let complete = match dict_remove(&mut dict, "complete") {
        Some(i) => unwrap_integer(i),
        None => None,
    };

    let incomplete = match dict_remove(&mut dict, "incomplete") {
        Some(i) => unwrap_integer(i),
        None => None,
    };

    let peers = unwrap_peers(dict_remove(&mut dict, "peers")?)?;

    Some(Responses::Done(OkResponse { interval, min_interval, complete, incomplete, peers }))
}

/// Reads the body of an HTTP tracker's answer: a bencoded dictionary from
/// the first byte on.
pub fn decode_http_response(response: &Vec<u8>) -> (r: Result<Responses, TrackerError>)
    ensures
        match spec_dict(response@, 0) {
            Err(e) => r matches Err(err) && err == TrackerError::Bencode(e),
            Ok((entries, _)) => match response_of(entries) {
                Some(answer) => r matches Ok(v) && v@ == answer,
                None => r matches Err(err) && err == TrackerError::FailedDecode,
            },
        },
{
    let mut pointer: usize = 0;
    let dict = match decode_dict(&mut pointer, response) {
        Ok(d) => d,
        Err(e) => {
            return Err(TrackerError::Bencode(e));
        },
    };
    match make_response(dict) {
        Some(r) => Ok(r),
        None => Err(TrackerError::FailedDecode),
    }
}

/// Whether the form encoding leaves `b` as it is: letters, digits, `*`,
/// `-`, `.` and `_`.
pub open spec fn is_unreserved(b: u8) -> bool {
    b == 0x2A || b == 0x2D || b == 0x2E || b == 0x5F || (0x30 <= b <= 0x39) || (0x41 <= b
        <= 0x5A) || (0x61 <= b <= 0x7A)
}

/// The upper-case hexadecimal digit of `n`.
pub open spec fn hex_digit(n: int) -> char {
    if n < 10 {
        (0x30 + n) as char
    } else {
        (0x41 + n - 10) as char
    }
}

/// The form encoding of one byte: the byte itself where it is unreserved,
/// `+` for a space, else `%` and two hexadecimal digits.
pub open spec fn form_encode_byte(b: u8) -> Seq<char> {
    if is_unreserved(b) {
        seq![b as char]
    } else if b == 0x20 {
        seq!['+']
    } else {
        seq!['%', hex_digit(b as int / 16), hex_digit(b as int % 16)]
    }
}

/// The `application/x-www-form-urlencoded` form of a run of bytes.
pub open spec fn spec_form_encode(bytes: Seq<u8>) -> Seq<char>
    decreases bytes.len(),
{
    if bytes.len() == 0 {
        Seq::empty()
    } else {
        spec_form_encode(bytes.drop_last()) + form_encode_byte(bytes.last())
    }
}

/// Calls `form_urlencoded::byte_serialize` of the `url` crate and joins
/// what it yields. Trusted: the text is the form encoding of the bytes, byte
/// by byte, as [`spec_form_encode`] says it.
#[verifier::external_body]
pub(crate) fn form_encode(bytes: &[u8]) -> (text: String)
    ensures
        text@ == spec_form_encode(bytes@),
{
    url::form_urlencoded::byte_serialize(bytes).collect()
}

/// The decimal numeral of `n` as text.
pub open spec fn decimal_text(n: nat) -> Seq<char> {
    Seq::new(decimal_digits(n).len(), |i: int| decimal_digits(n)[i] as char)
}

/// The digit `d` as text.
fn digit_str(d: u64) -> (r: &'static str)
    requires
        d < 10,
    ensures
        r@ == seq![(0x30 + d) as u8 as char],
{
    proof {
        reveal_strlit("0");
        reveal_strlit("1");
        reveal_strlit("2");
        reveal_strlit("3");
        reveal_strlit("4");
        reveal_strlit("5");
        reveal_strlit("6");
        reveal_strlit("7");
        reveal_strlit("8");
        reveal_strlit("9");
    }
    let r = if d == 0 {
        "0"
    } else if d == 1 {
        "1"
    } else if d == 2 {
        "2"
    } else if d == 3 {
        "3"
    } else if d == 4 {
        "4"
    } else if d == 5 {
        "5"
    } else if d == 6 {
        "6"
    } else if d == 7 {
        "7"
    } else if d == 8 {
        "8"
    } else {
        "9"
    };
    assert(r@ =~= seq![(0x30 + d) as u8 as char]);
    r
}

/// Appends the decimal numeral of `n` to `text`.
pub fn push_decimal(text: &mut String, n: u64)
    ensures
        final(text)@ == old(text)@ + decimal_text(n as nat),
    decreases n,
{
    if n >= 10 {
        push_decimal(text, n / 10);
    }
    text.append(digit_str(n % 10));
    proof {
        if n >= 10 {
            assert(decimal_text(n as nat) =~= decimal_text((n / 10) as nat) + seq![
                (0x30 + n % 10) as u8 as char,
            ]);
        } else {
            assert(decimal_text(n as nat) =~= seq![(0x30 + n % 10) as u8 as char]);
        }
        assert(text@ =~= old(text)@ + decimal_text(n as nat));
    }
}

/// The query of an HTTP announce: the peer id, the port, the bytes left,
/// uploaded and downloaded, the wish for a compact answer, and last the
/// twenty raw bytes of the info-hash, form-encoded byte by byte.
pub open spec fn query_of(
    info_hash: Seq<u8>,
    peer_id: Seq<u8>,
    port: u16,
    uploaded: u64,
    downloaded: u64,
    left: u64,
) -> Seq<char> {
    "peer_id="@ + spec_form_encode(peer_id) + "&port="@ + decimal_text(port as nat) + "&left="@
        + decimal_text(left as nat) + "&uploaded="@ + decimal_text(uploaded as nat)
        + "&downloaded="@ + decimal_text(downloaded as nat) + "&compact=1"@ + "&info_hash="@
        + spec_form_encode(info_hash)
}

/// The URL of an HTTP announce: the tracker's URL, `?`, and the query.
pub fn announce_url(tracker_url: &str, config: &AnnounceConfig) -> (r: String)
    ensures
        r@ == tracker_url@ + "?"@ + query_of(
            config.info_hash@,
            config.peer_id@,
            config.port,
            config.uploaded,
            config.downloaded,
            config.left,
        ),
{
    let peer_id = form_encode(config.peer_id.as_slice());
    let info_hash = form_encode(config.info_hash.as_slice());
    let mut url = String::from_str(tracker_url);
    url.append("?");
    url.append("peer_id=");
    url.append(peer_id.as_str());
    url.append("&port=");
    push_decimal(&mut url, config.port as u64);
    url.append("&left=");
    push_decimal(&mut url, config.left);
    url.append("&uploaded=");
    push_decimal(&mut url, config.uploaded);
    url.append("&downloaded=");
    push_decimal(&mut url, config.downloaded);
    url.append("&compact=1");
    url.append("&info_hash=");
    url.append(info_hash.as_str());
    assert(url@ =~= tracker_url@ + "?"@ + query_of(
        config.info_hash@,
        config.peer_id@,
        config.port,
        config.uploaded,
        config.downloaded,
        config.left,
    ));
    url
}

} // verus!
