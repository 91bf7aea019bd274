//! The application envelope `{"name": ..., "uid": ..., "message": ...}`.
//! On ingress a parseable text payload is re-emitted with `uid` set to the
//! true sender's connection identifier; anything that does not parse as the
//! envelope shape passes through verbatim, and unknown fields are tolerated.

use vstd::prelude::*;
use vstd::string::StringExecFns;
use crate::msg::{Frame, FrameModel};

verus! {

/// What the JSON decoder extracts from a text payload: the `name` and
/// `message` string fields of the envelope object, if the payload parses
/// as such an object. The ingress `uid` field is ignored either way.
pub uninterp spec fn envelope_fields_of(s: Seq<char>) -> Option<(Seq<char>, Seq<char>)>;

/// The JSON string literal that encodes a text, quotes and escapes included.
pub uninterp spec fn json_quoted_of(s: Seq<char>) -> Seq<char>;

/// Relies on serde_json::from_str and serde_json::Value's `get` and
/// `as_str`: returns the envelope's `name` and `message` fields when the
/// payload is a JSON object carrying both as strings, and `None` otherwise;
/// the result depends on the payload text alone.
#[verifier::external_body]
fn decode_envelope_fields(s: &str) -> (r: Option<(String, String)>)
    ensures
        match r {
            Some(p) => envelope_fields_of(s@) == Some((p.0@, p.1@)),
            None => envelope_fields_of(s@) is None,
        },
{
    let v: serde_json::Value = match serde_json::from_str(s) {
        Ok(v) => v,
        Err(_) => return None,
    };
    let name = match v.get("name").and_then(|f| f.as_str()) {
        Some(n) => n.to_owned(),
        None => return None,
    };
    let message = match v.get("message").and_then(|f| f.as_str()) {
        Some(m) => m.to_owned(),
        None => return None,
    };
    Some((name, message))
}

/// Relies on serde_json::to_string on a string slice: the JSON quoting of
/// the text; serializing a string slice does not fail, and the result
/// depends on the characters alone.
#[verifier::external_body]
fn quote_json_str(s: &str) -> (r: String)
    ensures
        r@ == json_quoted_of(s@),
{
    match serde_json::to_string(s) {
        Ok(q) => q,
        Err(_) => String::new(),
    }
}

/// The decimal digit for a value below ten.
pub open spec fn digit_char(d: nat) -> char {
    if d == 0 {
        '0'
    } else if d == 1 {
        '1'
    } else if d == 2 {
        '2'
    } else if d == 3 {
        '3'
    } else if d == 4 {
        '4'
    } else if d == 5 {
        '5'
    } else if d == 6 {
        '6'
    } else if d == 7 {
        '7'
    } else if d == 8 {
        '8'
    } else {
        '9'
    }
}

/// The decimal rendering of a number, most significant digit first.
pub open spec fn dec_of(n: nat) -> Seq<char>
    decreases n,
{
    if n < 10 {
        seq![digit_char(n)]
    } else {
        dec_of(n / 10) + seq![digit_char(n % 10)]
    }
}

fn digit_str(d: usize) -> (s: &'static str)
    requires
        d < 10,
    ensures
        s@ == seq![digit_char(d as nat)],
{
    match d {
        0 => {
            proof { reveal_strlit("0"); assert("0"@ =~= seq![digit_char(0)]); }
            "0"
        }
        1 => {
            proof { reveal_strlit("1"); assert("1"@ =~= seq![digit_char(1)]); }
            "1"
        }
        2 => {
            proof { reveal_strlit("2"); assert("2"@ =~= seq![digit_char(2)]); }
            "2"
        }
        3 => {
            proof { reveal_strlit("3"); assert("3"@ =~= seq![digit_char(3)]); }
            "3"
        }
        4 => {
            proof { reveal_strlit("4"); assert("4"@ =~= seq![digit_char(4)]); }
            "4"
        }
        5 => {
            proof { reveal_strlit("5"); assert("5"@ =~= seq![digit_char(5)]); }
            "5"
        }
        6 => {
            proof { reveal_strlit("6"); assert("6"@ =~= seq![digit_char(6)]); }
            "6"
        }
        7 => {
            proof { reveal_strlit("7"); assert("7"@ =~= seq![digit_char(7)]); }
            "7"
        }
        8 => {
            proof { reveal_strlit("8"); assert("8"@ =~= seq![digit_char(8)]); }
            "8"
        }
        _ => {
            proof { reveal_strlit("9"); assert("9"@ =~= seq![digit_char(9)]); }
            "9"
        }
    }
}

/// The connection identifier in decimal, as it appears in the `uid` field.
pub fn render_usize(n: usize) -> (s: String)
    ensures
        s@ == dec_of(n as nat),
    decreases n,
{
    if n < 10 {
        String::from_str(digit_str(n))
    } else {
        let mut s = render_usize(n / 10);
        s.append(digit_str(n % 10));
        proof {
            assert(dec_of(n as nat) == dec_of(n as nat / 10) + seq![digit_char(n as nat % 10)]);
        }
        s
    }
}

/// The enriched envelope: the fields re-emitted with `uid` set to the
/// sender's connection identifier, in the order name, uid, message.
pub open spec fn enriched_of(name: Seq<char>, uid: nat, message: Seq<char>) -> Seq<char> {
    "{\"name\":"@ + json_quoted_of(name) + ",\"uid\":"@ + dec_of(uid) + ",\"message\":"@
        + json_quoted_of(message) + "}"@
}

/// What enrichment does to a text payload: a parseable envelope is
/// re-emitted with the sender's identifier, anything else passes through
/// verbatim, with no `uid` injected.
pub open spec fn enrich_text_model(t: Seq<char>, uid: nat) -> Seq<char> {
    match envelope_fields_of(t) {
        Some(p) => enriched_of(p.0, uid, p.1),
        None => t,
    }
}

/// The inbound enricher for one text payload.
pub fn enrich_text(text: &str, id: usize) -> (r: String)
    ensures
        r@ == enrich_text_model(text@, id as nat),
{
    match decode_envelope_fields(text) {
        Some(fields) => {
            let (name, message) = fields;
            let mut s = String::from_str("{\"name\":");
            s.append(quote_json_str(name.as_str()).as_str());
            s.append(",\"uid\":");
            s.append(render_usize(id).as_str());
            s.append(",\"message\":");
            s.append(quote_json_str(message.as_str()).as_str());
            s.append("}");
            proof {
                assert(s@ =~= enriched_of(name@, id as nat, message@));
            }
            s
        }
        None => text.to_owned(),
    }
}

/// What enrichment does to a whole frame: only text payloads are touched;
/// control and binary frames pass through unmodified.
pub open spec fn enrich_model(f: FrameModel, uid: nat) -> FrameModel {
    match f {
        FrameModel::Text(t) => FrameModel::Text(enrich_text_model(t, uid)),
        _ => f,
    }
}

/// The inbound enricher: attaches the sender's connection identifier to a
/// parseable text envelope and leaves every other frame as it came.
pub fn enrich_frame(f: &Frame, id: usize) -> (r: Frame)
    ensures
        r@ == enrich_model(f@, id as nat),
{
    match f {
        Frame::Text(t) => Frame::Text(enrich_text(t.as_str(), id)),
        _ => f.duplicate(),
    }
}

} // verus!
