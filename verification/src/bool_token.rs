//! Flexible boolean tokens: the wire format lets producers send a boolean
//! as `0`/`1` or as `true`/`false` text in a few capitalisations.  The
//! deserialisation adapter hands the trimmed token here.

use vstd::prelude::*;

verus! {

/// Whether the token reads as `true`.
pub open spec fn is_true_token(s: Seq<char>) -> bool {
    s == "1"@ || s == "true"@ || s == "True"@ || s == "TRUE"@
}

/// Whether the token reads as `false`.
pub open spec fn is_false_token(s: Seq<char>) -> bool {
    s == "0"@ || s == "false"@ || s == "False"@ || s == "FALSE"@
}

/// Reads a boolean token: `Some(true)` for `1`/`true`/`True`/`TRUE`,
/// `Some(false)` for `0`/`false`/`False`/`FALSE`, and `None` for anything
/// else.
pub fn parse_bool_token(s: &str) -> (r: Option<bool>)
    ensures
        r == Some(true) <==> is_true_token(s@),
        r == Some(false) <==> is_false_token(s@),
        r is None <==> !is_true_token(s@) && !is_false_token(s@),
{
    proof {
        reveal_strlit("1");
        reveal_strlit("true");
        reveal_strlit("True");
        reveal_strlit("TRUE");
        reveal_strlit("0");
        reveal_strlit("false");
        reveal_strlit("False");
        reveal_strlit("FALSE");
        assert("1"@[0] == '1' && "0"@[0] == '0');
        assert("1"@ != "0"@);
        assert("1"@.len() == 1 && "true"@.len() == 4 && "True"@.len() == 4 && "TRUE"@.len()
            == 4);
        assert("0"@.len() == 1 && "false"@.len() == 5 && "False"@.len() == 5 && "FALSE"@.len()
            == 5);
    }
    if s.eq("1") || s.eq("true") || s.eq("True") || s.eq("TRUE") {
        Some(true)
    } else if s.eq("0") || s.eq("false") || s.eq("False") || s.eq("FALSE") {
        Some(false)
    } else {
        None
    }
}

/// Reads a boolean from an integer the way the wire format does: zero is
/// `false`, anything else is `true`.
pub fn bool_from_int(v: i64) -> (r: bool)
    ensures
        r == (v != 0),
{
    v != 0
}

} // verus!
