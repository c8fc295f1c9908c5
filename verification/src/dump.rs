//! A human-readable dump of a resolved record: one line holding all four
//! fields, text fields verbatim and numeric fields as decimal numerals.

use crate::args::ArgsModel;
use crate::args::ParsedArguments;
use crate::numeral::numeral_of;
use crate::numeral::numeral_value;
use crate::numeral::lemma_numeral_round_trip;
use crate::numeral::u8_to_string;
use vstd::prelude::*;
use vstd::string::StringExecFns;

verus! {

/// How the `max` field is written: `None` when absent, `Some(v)` when set.
pub open spec fn max_dump(m: Option<u8>) -> Seq<char> {
    match m {
        None => "None"@,
        Some(v) => "Some("@ + numeral_of(v as nat) + ")"@,
    }
}

/// The dump line: every field in schema order, text spliced verbatim between
/// fixed separators, numbers as canonical numerals.
pub open spec fn dump_model(a: ArgsModel) -> Seq<char> {
    "ParsedArguments { name: \""@ + a.name + "\", count: "@ + numeral_of(a.count as nat)
        + ", foo: \""@ + a.foo + "\", max: "@ + max_dump(a.max) + " }"@
}

/// Writes the dump line for a record.
pub fn render(a: &ParsedArguments) -> (r: String)
    ensures
        r@ == dump_model(a@),
{
    let mut s = String::from_str("ParsedArguments { name: \"");
    s.append(a.name.as_str());
    s.append("\", count: ");
    let c = u8_to_string(a.count);
    s.append(c.as_str());
    s.append(", foo: \"");
    s.append(a.foo.as_str());
    s.append("\", max: ");
    match a.max {
        None => s.append("None"),
        Some(v) => {
            s.append("Some(");
            let m = u8_to_string(v);
            s.append(m.as_str());
            s.append(")");
        },
    }
    s.append(" }");
    proof {
        assert(s@ =~= dump_model(a@));
    }
    s
}

/// The dump is faithful: each field's textual representation stands for the
/// resolved value exactly — the text fields appear verbatim between the
/// fixed separators, and each numeral written for `count` or `max` denotes
/// the very value it was written from.
pub proof fn lemma_dump_faithful(a: ArgsModel)
    ensures
        dump_model(a) == "ParsedArguments { name: \""@ + a.name + "\", count: "@ + numeral_of(
            a.count as nat,
        ) + ", foo: \""@ + a.foo + "\", max: "@ + max_dump(a.max) + " }"@,
        numeral_value(numeral_of(a.count as nat)) == a.count as int,
        a.max matches Some(v) ==> numeral_value(numeral_of(v as nat)) == v as int,
{
    lemma_numeral_round_trip(a.count);
    if let Some(v) = a.max {
        lemma_numeral_round_trip(v);
    }
}

} // verus!
