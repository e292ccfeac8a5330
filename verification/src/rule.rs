//! The rule interface: what a rule reads, and what it promises to report.

use vstd::prelude::*;
use crate::config::RuleConfig;
use crate::finding::{views, Finding, FindingView, Severity};
use crate::parser::Language;
use crate::source::SourceText;
use crate::syntax::SyntaxTree;

verus! {

#[derive(Debug)]
pub enum RuleError {
    Failed(String),
    Panic,
}

/// Everything a rule reads about one file.
pub struct AnalysisContext<'a> {
    pub source: &'a SourceText,
    pub tree: &'a SyntaxTree,
    pub language: Language,
    pub file_path: &'a str,
    pub rule_config: &'a RuleConfig,
}

impl<'a> AnalysisContext<'a> {
    pub open spec fn wf(&self) -> bool {
        self.source.wf() && self.tree.wf()
    }
}

/// A detection rule. `spec_findings` says what the rule reports on a file;
/// `analyze` reports exactly that whenever it succeeds, and a rule that is
/// `spec_total` always succeeds.
pub trait Rule {
    spec fn spec_id(&self) -> Seq<char>;

    spec fn spec_name(&self) -> Seq<char>;

    spec fn spec_severity(&self) -> Severity;

    spec fn spec_languages(&self) -> Seq<Language>;

    /// The rule never fails: `analyze` always returns its findings.
    spec fn spec_total(&self) -> bool;

    spec fn spec_findings(&self, ctx: AnalysisContext) -> Seq<FindingView>;

    fn id(&self) -> (r: &'static str)
        ensures
            r@ == self.spec_id(),
    ;

    fn name(&self) -> (r: &'static str)
        ensures
            r@ == self.spec_name(),
    ;

    fn severity(&self) -> (r: Severity)
        ensures
            r == self.spec_severity(),
    ;

    fn languages(&self) -> (r: &'static [Language])
        ensures
            r@ == self.spec_languages(),
    ;

    fn analyze(&self, ctx: &AnalysisContext) -> (r: Result<Vec<Finding>, RuleError>)
        requires
            ctx.wf(),
        ensures
            self.spec_total() ==> r is Ok,
            r matches Ok(v) ==> views(v@) == self.spec_findings(*ctx),
            r matches Ok(v) ==> tagged(views(v@), self.spec_id(), self.spec_name()),
    ;
}

/// Every finding in `fs` carries rule id `id` and rule name `name`.
pub open spec fn tagged(fs: Seq<FindingView>, id: Seq<char>, name: Seq<char>) -> bool {
    forall|i: int| 0 <= i < fs.len() ==> (#[trigger] fs[i]).rule_id == id && fs[i].rule_name == name
}

pub proof fn lemma_tagged_concat(a: Seq<FindingView>, b: Seq<FindingView>, id: Seq<char>, name: Seq<char>)
    requires
        tagged(a, id, name),
        tagged(b, id, name),
    ensures
        tagged(a + b, id, name),
{
    assert forall|i: int| 0 <= i < (a + b).len() implies (#[trigger] (a + b)[i]).rule_id == id
        && (a + b)[i].rule_name == name by {
        if i < a.len() {
            assert((a + b)[i] == a[i]);
        } else {
            assert((a + b)[i] == b[i - a.len()]);
        }
    }
}

/// Collecting keeps findings tagged when each node's findings are.
pub proof fn lemma_collect_tagged(
    order: Seq<usize>,
    f: spec_fn(usize) -> Seq<FindingView>,
    id: Seq<char>,
    name: Seq<char>,
)
    requires
        forall|n: usize| tagged(#[trigger] f(n), id, name),
    ensures
        tagged(collect(order, f), id, name),
    decreases order.len(),
{
    if order.len() > 0 {
        lemma_collect_tagged(order.drop_last(), f, id, name);
        assert(tagged(f(order.last()), id, name));
        lemma_tagged_concat(collect(order.drop_last(), f), f(order.last()), id, name);
    }
}

/// The findings `f` gives at each node of `order`, in that order.
pub open spec fn collect(order: Seq<usize>, f: spec_fn(usize) -> Seq<FindingView>) -> Seq<
    FindingView,
>
    decreases order.len(),
{
    if order.len() == 0 {
        seq![]
    } else {
        collect(order.drop_last(), f) + f(order.last())
    }
}

pub proof fn lemma_collect_step(
    order: Seq<usize>,
    f: spec_fn(usize) -> Seq<FindingView>,
    k: int,
)
    requires
        0 <= k < order.len(),
    ensures
        collect(order.take(k + 1), f) == collect(order.take(k), f) + f(order[k]),
{
    assert(order.take(k + 1).drop_last() =~= order.take(k));
}

pub proof fn lemma_collect_all(order: Seq<usize>, f: spec_fn(usize) -> Seq<FindingView>)
    ensures
        collect(order.take(order.len() as int), f) == collect(order, f),
{
    assert(order.take(order.len() as int) =~= order);
}

/// Each finding collected along `order` is one of the findings `f` gives at
/// some node of `order`.
pub proof fn lemma_collect_member(order: Seq<usize>, f: spec_fn(usize) -> Seq<FindingView>, i: int)
    requires
        0 <= i < collect(order, f).len(),
    ensures
        exists|k: int, j: int|
            0 <= k < order.len() && 0 <= j < f(order[k]).len() && collect(order, f)[i] == #[trigger] f(
                order[k],
            )[j],
    decreases order.len(),
{
    let prev = collect(order.drop_last(), f);
    let last = f(order.last());
    assert(collect(order, f) == prev + last);
    if i < prev.len() {
        lemma_collect_member(order.drop_last(), f, i);
        let (k, j) = choose|k: int, j: int|
            0 <= k < order.drop_last().len() && 0 <= j < f(order.drop_last()[k]).len() && prev[i]
                == #[trigger] f(order.drop_last()[k])[j];
        assert(order.drop_last()[k] == order[k]);
        assert(collect(order, f)[i] == f(order[k])[j]);
    } else {
        let k = order.len() - 1;
        let j = i - prev.len();
        assert(collect(order, f)[i] == f(order[k])[j]);
    }
}

/// Each finding `f` gives at a node of `order` is collected.
pub proof fn lemma_collect_has(order: Seq<usize>, f: spec_fn(usize) -> Seq<FindingView>, k: int, j: int)
    requires
        0 <= k < order.len(),
        0 <= j < f(order[k]).len(),
    ensures
        collect(order, f).contains(f(order[k])[j]),
    decreases order.len(),
{
    let prev = collect(order.drop_last(), f);
    let last = f(order.last());
    assert(collect(order, f) == prev + last);
    if k < order.len() - 1 {
        assert(order.drop_last()[k] == order[k]);
        lemma_collect_has(order.drop_last(), f, k, j);
        let q = choose|q: int| 0 <= q < prev.len() && prev[q] == f(order[k])[j];
        assert((prev + last)[q] == f(order[k])[j]);
    } else {
        assert((prev + last)[prev.len() + j] == f(order[k])[j]);
    }
}

/// Appends findings.
pub fn append_findings(out: &mut Vec<Finding>, more: Vec<Finding>)
    ensures
        views(final(out)@) == views(old(out)@) + views(more@),
{
    let ghost m = more@;
    let mut more = more;
    out.append(&mut more);
    assert(out@ == old(out)@ + m);
    assert(views(out@) =~= views(old(out)@) + views(m));
}

} // verus!
