use vstd::prelude::*;
use crate::types::push_char;

verus! {

/// The text that a report carries when no colour stands out from the
/// dominant one.
pub open spec fn no_accent_warning() -> Seq<char> {
    "No perceptually distinct accent colour found (\u{0394}E < 5 from dominant)."@
}

/// The warning a report carries: the decoder's warning, the missing-accent
/// warning, or both joined by a space; none when neither applies.
pub open spec fn merged_warning(base: Option<Seq<char>>, no_accent: bool) -> Option<Seq<char>> {
    match (base, no_accent) {
        (Some(w), true) => Some(w + seq![' '] + no_accent_warning()),
        (Some(w), false) => Some(w),
        (None, true) => Some(no_accent_warning()),
        (None, false) => None,
    }
}

/// The text of an optional warning.
pub open spec fn warning_text(w: Option<String>) -> Option<Seq<char>> {
    match w {
        Some(s) => Some(s@),
        None => None,
    }
}

/// Joins the decoder's warning with the warning for a missing accent.
pub fn merge_warnings(base: Option<String>, no_accent: bool) -> (merged: Option<String>)
    ensures
        warning_text(merged) == merged_warning(warning_text(base), no_accent),
        no_accent ==> (base matches Some(w) ==> (merged matches Some(m) && m@ == w@ + seq![' ']
            + "No perceptually distinct accent colour found (\u{0394}E < 5 from dominant)."@)),
        !no_accent ==> (base matches Some(w) ==> (merged matches Some(m) && m@ == w@)),
        base is None && no_accent ==> (merged matches Some(m) && m@
            == "No perceptually distinct accent colour found (\u{0394}E < 5 from dominant)."@),
        base is None && !no_accent ==> merged is None,
{
    match base {
        Some(w) => {
            if no_accent {
                let mut joined = w;
                push_char(&mut joined, ' ');
                joined.append(
                    "No perceptually distinct accent colour found (\u{0394}E < 5 from dominant).",
                );
                Some(joined)
            } else {
                Some(w)
            }
        },
        None => {
            if no_accent {
                Some(
                    String::from_str(
                        "No perceptually distinct accent colour found (\u{0394}E < 5 from dominant).",
                    ),
                )
            } else {
                None
            }
        },
    }
}

/// Neither warning is lost: when the decoder warned and no accent stands
/// out, the merged warning is the decoder's text, whatever its length,
/// then one space, then the missing-accent text, and nothing else.
pub proof fn law_merged_warning_keeps_both(base: Seq<char>)
    ensures
        merged_warning(Some(base), true) matches Some(m) && m.len() == base.len() + 1
            + no_accent_warning().len() && m.subrange(0, base.len() as int) == base && m[base.len() as int]
            == ' ' && m.subrange(base.len() as int + 1, m.len() as int) == no_accent_warning(),
{
    let m = base + seq![' '] + no_accent_warning();
    assert(m.subrange(0, base.len() as int) =~= base);
    assert(m.subrange(base.len() as int + 1, m.len() as int) =~= no_accent_warning());
}

/// A warning is added exactly when there is something to warn of: the
/// decoder's warning alone is kept as it is, the missing-accent text
/// stands alone when the decoder did not warn, and with neither there is
/// no warning.
pub proof fn law_merged_warning_adds_only_what_applies(base: Option<Seq<char>>, no_accent: bool)
    ensures
        merged_warning(base, no_accent) is None <==> base is None && !no_accent,
        !no_accent ==> merged_warning(base, no_accent) == base,
        base is None && no_accent ==> merged_warning(base, no_accent) == Some(
            "No perceptually distinct accent colour found (\u{0394}E < 5 from dominant)."@,
        ),
{
}

} // verus!
