//! What the review service offers: the parameters of a review and the rule
//! list it reports.

use vstd::prelude::*;
use crate::finding::{severity_label, Severity};
use crate::text::chars_of;
use crate::unicode::string_of;
use crate::parser::{language_name, Language};
use crate::rule::Rule;

verus! {

/// The parameters of a review request: the file or directory to scan.
pub struct ReviewParams {
    pub path: String,
}

/// The review service.
pub struct CodeReviewerServer;

/// A rule as the service lists it: id, name, severity key and the names of
/// its languages.
pub open spec fn rule_entry_view<R: Rule>(rules: Seq<R>, k: int) -> (
    Seq<char>,
    Seq<char>,
    Seq<char>,
    Seq<Seq<char>>,
) {
    (
        rules[k].spec_id(),
        rules[k].spec_name(),
        severity_label(rules[k].spec_severity()),
        rules[k].spec_languages().map_values(|l: Language| language_name(l)),
    )
}

pub open spec fn string_views(v: Seq<String>) -> Seq<Seq<char>> {
    v.map_values(|s: String| s@)
}

/// The names of the languages, in order.
fn language_names(langs: &[Language]) -> (r: Vec<String>)
    ensures
        string_views(r@) == langs@.map_values(|l: Language| language_name(l)),
{
    let mut out: Vec<String> = Vec::new();
    let mut i: usize = 0;
    while i < langs.len()
        invariant
            i <= langs@.len(),
            out@.len() == i,
            string_views(out@) == langs@.take(i as int).map_values(|l: Language| language_name(l)),
        decreases langs@.len() - i,
    {
        let ghost before = out@;
        let n = string_of(&chars_of(langs[i].name()));
        out.push(n);
        assert(out@ == before.push(n));
        assert(out@.len() == before.len() + 1);
        assert forall|j: int| 0 <= j <= i implies #[trigger] string_views(out@)[j] == langs@.take(
            i + 1,
        ).map_values(|l: Language| language_name(l))[j] by {
            if j < i {
                assert(out@[j] == before[j]);
                assert(string_views(before)[j] == langs@.take(i as int).map_values(
                    |l: Language| language_name(l),
                )[j]);
            } else {
                assert(out@[j] == n);
            }
        }
        assert(string_views(out@) =~= langs@.take(i + 1).map_values(|l: Language| language_name(l)));
        i += 1;
    }
    assert(langs@.take(langs@.len() as int) =~= langs@);
    out
}

impl CodeReviewerServer {
    /// Each rule's id, name, severity key and language names, in order.
    pub fn rule_entries<R: Rule>(&self, rules: &Vec<R>) -> (r: Vec<
        (&'static str, &'static str, &'static str, Vec<String>),
    >)
        ensures
            r@.len() == rules@.len(),
            forall|k: int|
                0 <= k < r@.len() ==> (#[trigger] r@[k].0@, r@[k].1@, r@[k].2@, string_views(r@[k].3@))
                    == rule_entry_view(rules@, k),
    {
        let mut out: Vec<(&'static str, &'static str, &'static str, Vec<String>)> =
            Vec::new();
        let mut k: usize = 0;
        while k < rules.len()
            invariant
                k <= rules@.len(),
                out@.len() == k,
                forall|m: int|
                    0 <= m < k ==> (#[trigger] out@[m].0@, out@[m].1@, out@[m].2@, string_views(out@[m].3@))
                        == rule_entry_view(rules@, m),
            decreases rules@.len() - k,
        {
            let r = &rules[k];
            out.push((r.id(), r.name(), r.severity().label(), language_names(r.languages())));
            k += 1;
        }
        out
    }
}

} // verus!
