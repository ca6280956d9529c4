//! The one JSON shape this proxy emits: a compact `{"message": <text>}`
//! object, one per line. The quoting and escaping of the text is serde_json's
//! work; everything around it is built and verified here.

use vstd::prelude::*;
use vstd::string::StringExecFns;

verus! {

/// The compact JSON string literal (quoted and escaped) that serde_json
/// produces for a text. Uninterpreted: the escaping rules are the outside
/// crate's work, and the result depends on the characters alone.
pub uninterp spec fn json_string_of(text: Seq<char>) -> Seq<char>;

/// Relies on serde_json::Value::to_string on a Value::String: the compact
/// JSON string literal for the text, infallible for any string.
#[verifier::external_body]
pub(crate) fn json_quote(text: &str) -> (r: String)
    ensures
        r@ == json_string_of(text@),
{
    serde_json::Value::String(text.to_string()).to_string()
}

/// One normalized event line: the compact `{"message":<quoted text>}` object
/// and the newline that ends it.
pub open spec fn normalized_line_of(text: Seq<char>) -> Seq<char> {
    "{\"message\":"@ + json_string_of(text) + "}\n"@
}

pub(crate) fn normalized_line(text: &str) -> (r: String)
    ensures
        r@ == normalized_line_of(text@),
{
    let mut out: String = String::from_str("{\"message\":");
    let quoted = json_quote(text);
    out.append(quoted.as_str());
    out.append("}\n");
    out
}

/// The concatenation of a batch of event lines, in order: what one upstream
/// read contributes to the output stream.
pub open spec fn concat_of(ss: Seq<Seq<char>>) -> Seq<char>
    decreases ss.len(),
{
    if ss.len() == 0 {
        Seq::empty()
    } else {
        ss[0] + concat_of(ss.drop_first())
    }
}

/// Joins a batch of normalized event lines into the single buffer the
/// transport writes for one upstream read.
pub fn concat_events(events: &Vec<String>) -> (r: String)
    ensures
        r@ == concat_of(events.deep_view()),
{
    let ghost all = events.deep_view();
    let mut out: String = String::new();
    let mut i: usize = 0;
    proof {
        assert(all.skip(0) =~= all);
        assert(out@ + concat_of(all) =~= concat_of(all));
    }
    while i < events.len()
        invariant
            all == events.deep_view(),
            i <= events.len(),
            all.len() == events.len(),
            out@ + concat_of(all.skip(i as int)) == concat_of(all),
        decreases events.len() - i,
    {
        proof {
            assert(all.skip(i as int).len() > 0);
            assert(all.skip(i as int)[0] == all[i as int]);
            assert(all.skip(i as int).drop_first() =~= all.skip(i as int + 1));
            assert(all[i as int] == events[i as int]@);
            assert(concat_of(all.skip(i as int)) == all[i as int] + concat_of(all.skip(i as int + 1)));
            assert((out@ + all[i as int]) + concat_of(all.skip(i as int + 1)) =~= out@ + (all[i as int]
                + concat_of(all.skip(i as int + 1))));
        }
        out.append(events[i].as_str());
        i += 1;
    }
    proof {
        assert(all.skip(i as int) =~= Seq::<Seq<char>>::empty());
        assert(concat_of(all.skip(i as int)) =~= Seq::<char>::empty());
        assert(out@ + concat_of(all.skip(i as int)) =~= out@);
    }
    out
}

} // verus!
