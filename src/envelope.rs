use vstd::prelude::*;

verus! {

/// The JSON string literal (quotes and escapes included) that spells `s`.
pub uninterp spec fn json_string_of(s: Seq<char>) -> Seq<char>;

/// Relies on `serde_json::to_string` on a `str`: it writes the string as one
/// JSON string literal, which depends on the characters alone. Serialising a
/// `str` into memory does not fail.
#[verifier::external_body]
fn json_quote(s: &str) -> (r: String)
    ensures
        r@ == json_string_of(s@),
{
    match serde_json::to_string(s) {
        Ok(t) => t,
        Err(_) => String::new(),
    }
}

/// The outcome of an operation, before it is written as an envelope.
pub enum ResultData {
    /// One string payload, or the text of the error.
    AsStringResult(Result<String, String>),
    /// A list of string payloads, or the text of the error.
    AsVectorResult(Result<Vec<String>, String>),
    /// A text with a flag: the payload when the flag is set, else the error text.
    AsStringTuple((String, bool)),
}

/// `{"error":0,"message":"success","result":<payload>}`.
pub open spec fn success_envelope(payload: Seq<char>) -> Seq<char> {
    "{\"error\":0,\"message\":\"success\",\"result\":"@ + payload + "}"@
}

/// `{"error":1,"message":<message>,"result":0}`: the result carries nothing.
pub open spec fn failure_envelope(message: Seq<char>) -> Seq<char> {
    "{\"error\":1,\"message\":"@ + json_string_of(message) + ",\"result\":0}"@
}

/// The items of a JSON array of strings, separated by commas.
pub open spec fn json_items(items: Seq<Seq<char>>) -> Seq<char>
    decreases items.len(),
{
    if items.len() == 0 {
        Seq::empty()
    } else if items.len() == 1 {
        json_string_of(items[0])
    } else {
        json_items(items.drop_last()) + ","@ + json_string_of(items.last())
    }
}

pub open spec fn json_array_of(items: Seq<Seq<char>>) -> Seq<char> {
    "["@ + json_items(items) + "]"@
}

pub open spec fn string_views(v: Seq<String>) -> Seq<Seq<char>> {
    v.map_values(|s: String| s@)
}

/// The envelope text of an outcome.
pub open spec fn envelope_of(data: ResultData) -> Seq<char> {
    match data {
        ResultData::AsStringResult(Ok(payload)) => success_envelope(json_string_of(payload@)),
        ResultData::AsStringResult(Err(message)) => failure_envelope(message@),
        ResultData::AsVectorResult(Ok(items)) => success_envelope(
            json_array_of(string_views(items@)),
        ),
        ResultData::AsVectorResult(Err(message)) => failure_envelope(message@),
        ResultData::AsStringTuple((text, ok)) => if ok {
            success_envelope(json_string_of(text@))
        } else {
            failure_envelope(text@)
        },
    }
}

fn success_text(payload: &str) -> (r: String)
    ensures
        r@ == success_envelope(payload@),
{
    let mut out = String::from_str("{\"error\":0,\"message\":\"success\",\"result\":");
    out.append(payload);
    out.append("}");
    out
}

fn failure_text(message: &str) -> (r: String)
    ensures
        r@ == failure_envelope(message@),
{
    let quoted = json_quote(message);
    let mut out = String::from_str("{\"error\":1,\"message\":");
    out.append(quoted.as_str());
    out.append(",\"result\":0}");
    out
}

/// The JSON array of the given strings, in order.
pub fn json_array(items: &Vec<String>) -> (r: String)
    ensures
        r@ == json_array_of(string_views(items@)),
{
    let ghost views = string_views(items@);
    let mut out = String::from_str("[");
    let mut i: usize = 0;
    while i < items.len()
        invariant
            i <= items@.len(),
            views == string_views(items@),
            out@ == "["@ + json_items(views.subrange(0, i as int)),
        decreases items@.len() - i,
    {
        let quoted = json_quote(items[i].as_str());
        proof {
            let pre = views.subrange(0, i + 1);
            assert(pre.drop_last() =~= views.subrange(0, i as int));
            assert(pre.last() == items@[i as int]@);
        }
        if i > 0 {
            out.append(",");
        }
        out.append(quoted.as_str());
        proof {
            let pre = views.subrange(0, i + 1);
            if i == 0 {
                assert(json_items(pre) == json_string_of(pre[0]));
                assert(json_items(views.subrange(0, 0)) =~= Seq::<char>::empty());
                assert(out@ =~= "["@ + json_items(pre));
            } else {
                assert(out@ =~= "["@ + json_items(pre));
            }
        }
        i = i + 1;
    }
    assert(views.subrange(0, items@.len() as int) =~= views);
    out.append("]");
    out
}

/// Writes the outcome of an operation as a JSON envelope:
/// `{"error":0,"message":"success","result":<payload>}` on success,
/// `{"error":1,"message":<error text>,"result":0}` on failure.
pub fn result_response(data: ResultData) -> (r: String)
    ensures
        r@ == envelope_of(data),
{
    match data {
        ResultData::AsStringResult(result) => match result {
            Ok(slate) => {
                let quoted = json_quote(slate.as_str());
                success_text(quoted.as_str())
            },
            Err(message) => failure_text(message.as_str()),
        },
        ResultData::AsVectorResult(result) => match result {
            Ok(slates) => {
                let array = json_array(&slates);
                success_text(array.as_str())
            },
            Err(message) => failure_text(message.as_str()),
        },
        ResultData::AsStringTuple(result) => {
            if result.1 {
                let quoted = json_quote(result.0.as_str());
                success_text(quoted.as_str())
            } else {
                failure_text(result.0.as_str())
            }
        },
    }
}

} // verus!
