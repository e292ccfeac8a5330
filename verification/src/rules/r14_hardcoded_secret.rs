//! R14: hardcoded secrets — string literals that carry a known key prefix or
//! a private-key header, or look random and are assigned to a variable named
//! like a secret. Test files are skipped.

use vstd::prelude::*;
use crate::config::{lemma_threshold_absent, threshold_value};
use crate::finding::{views, Finding, FindingView, Severity, finding_at_plain};
use crate::nav::{first_child_in, first_child_in_exec, kind_in, strs};
use crate::parser::Language;
use crate::rule::{append_findings, collect, lemma_collect_all, lemma_collect_has, lemma_collect_member, lemma_collect_step, AnalysisContext, Rule, RuleError, lemma_collect_tagged, tagged};
use crate::rules::common::{is_test_file, is_test_file_exec};
use crate::syntax::{lemma_walk_bounds, lemma_walk_covers, text_at, node_text, walk, walk_order, SyntaxNode};
use crate::text::{contains, contains_str, push_str, starts_with, starts_with_str, trim, trim_exec};
use crate::unicode::{
    is_ascii_alnum, is_ascii_alnum_exec, is_ascii_hex, is_ascii_hex_exec, lowercase, to_lowercase,
    utf8_len, utf8_len_wide,
};

verus! {

pub struct HardcodedSecret;

/// Why a literal reads as a secret.
#[derive(Clone, Copy, PartialEq, Eq, Structural)]
pub enum Reason {
    KnownPrefix,
    PrivateKey,
    HighEntropy,
}

pub open spec fn r14_literal_kinds(l: Language) -> Seq<Seq<char>> {
    match l {
        Language::Python => seq!["string"@],
        Language::TypeScript | Language::TypeScriptTsx => seq!["string"@, "template_string"@],
        _ => seq!["string_literal"@],
    }
}

/// Drops one pair of `q` quotes around `s`, when both ends have one.
pub open spec fn strip_pair(s: Seq<char>, q: char) -> Seq<char> {
    if s.len() >= 1 && s[0] == q && s.skip(1).len() >= 1 && s.skip(1).last() == q {
        s.skip(1).drop_last()
    } else {
        s
    }
}

/// The literal's text without surrounding whitespace and quotes.
pub open spec fn strip_quotes(t: Seq<char>) -> Seq<char> {
    strip_pair(strip_pair(trim(t), '"'), '\'')
}

pub open spec fn key_prefixes() -> Seq<Seq<char>> {
    seq!["sk-"@, "sk_"@, "ghp_"@, "gho_"@, "github_pat_"@, "AKIA"@, "xoxb-"@, "xoxp-"@, "AIza"@, "eyJ"@]
}

/// Number of distinct characters.
pub open spec fn distinct_count(s: Seq<char>) -> nat
    decreases s.len(),
{
    if s.len() == 0 {
        0
    } else {
        distinct_count(s.drop_last()) + if s.drop_last().contains(s.last()) {
            0nat
        } else {
            1nat
        }
    }
}

pub open spec fn is_b64_char(c: char) -> bool {
    is_ascii_alnum(c) || c == '+' || c == '/' || c == '='
}

/// A base64 or hex string whose distinct characters are at least 40% of its
/// length.
pub open spec fn is_high_entropy(s: Seq<char>) -> bool {
    let b64 = forall|k: int| 0 <= k < s.len() ==> is_b64_char(#[trigger] s[k]);
    let hex = forall|k: int| 0 <= k < s.len() ==> is_ascii_hex(#[trigger] s[k]);
    let len = utf8_len(s);
    (b64 || hex) && 5 * distinct_count(s) >= 2 * (if len > 1 {
        len
    } else {
        1
    })
}

pub open spec fn classify(s: Seq<char>, min_len: nat) -> Option<Reason> {
    if contains(s, "BEGIN"@) && contains(s, "PRIVATE KEY"@) {
        Some(Reason::PrivateKey)
    } else if exists|k: int| 0 <= k < key_prefixes().len() && starts_with(s, #[trigger] key_prefixes()[k]) {
        Some(Reason::KnownPrefix)
    } else if utf8_len(s) >= min_len && is_high_entropy(s) {
        Some(Reason::HighEntropy)
    } else {
        None
    }
}

pub open spec fn secret_words() -> Seq<Seq<char>> {
    seq![
        "api_key"@, "apikey"@, "secret"@, "token"@, "password"@, "passwd"@, "pwd"@,
        "private_key"@, "priv_key"@, "privkey"@, "access_key"@, "auth"@, "credential"@,
    ]
}

pub open spec fn is_secret_named(name: Seq<char>) -> bool {
    exists|k: int| 0 <= k < secret_words().len() && contains(lowercase(name), #[trigger] secret_words()[k])
}

pub open spec fn decl_kinds() -> Seq<Seq<char>> {
    seq![
        "let_declaration"@, "let_statement"@, "variable_declaration"@,
        "local_variable_declaration"@, "field_declaration"@, "constant_declaration"@, "const_item"@,
        "static_item"@,
    ]
}

/// The variable named by ancestor `a` or by the nearest ancestor above it that
/// is an assignment or a declaration naming one.
pub open spec fn var_name_from(ctx: AnalysisContext, a: int) -> Seq<char>
    decreases a + 1,
{
    let nodes = ctx.tree.nodes@;
    if a < 0 || a >= nodes.len() {
        seq![]
    } else {
        let n = nodes[a];
        let assign = if n.kind@ == "assignment"@ || n.kind@ == "assignment_expression"@ {
            first_child_in(nodes, a, seq!["identifier"@, "variable_name"@])
        } else {
            None
        };
        let decl = if decl_kinds().contains(n.kind@) {
            first_child_in(nodes, a, seq!["identifier"@, "type_identifier"@, "variable_name"@])
        } else {
            None
        };
        match assign {
            Some(c) => text_at(ctx.source.chars@, nodes[c as int]),
            None => match decl {
                Some(c) => text_at(ctx.source.chars@, nodes[c as int]),
                None => match n.parent {
                    Some(p) => if (p as int) < a {
                        var_name_from(ctx, p as int)
                    } else {
                        seq![]
                    },
                    None => seq![],
                },
            },
        }
    }
}

/// The variable a literal is assigned to, found among its ancestors.
pub open spec fn enclosing_var_name(ctx: AnalysisContext, i: int) -> Seq<char> {
    match ctx.tree.nodes@[i].parent {
        Some(p) => if (p as int) < i {
            var_name_from(ctx, p as int)
        } else {
            seq![]
        },
        None => seq![],
    }
}

pub open spec fn reason_text(r: Reason) -> (Seq<char>, Seq<char>) {
    match r {
        Reason::KnownPrefix => ("已知密钥前缀"@, "known key prefix"@),
        Reason::PrivateKey => ("私钥头"@, "private key header"@),
        Reason::HighEntropy => ("高熵字符串"@, "high-entropy string"@),
    }
}

pub open spec fn r14_message(r: Reason) -> Seq<char> {
    "疑似硬编码密钥（"@ + reason_text(r).0 + "） | suspected hardcoded secret ("@ + reason_text(r).1
        + ")"@
}

pub open spec fn r14_min_len(ctx: AnalysisContext) -> nat {
    threshold_value(ctx.rule_config.thresholds@, "min_length"@, 20) as usize as nat
}

/// A literal of at least six bytes that classifies as a secret; a
/// high-entropy one only when assigned to a secret-named variable.
pub open spec fn r14_at(ctx: AnalysisContext) -> spec_fn(usize) -> Seq<FindingView> {
    |i: usize|
        {
            let n = ctx.tree.nodes@[i as int];
            let inner = strip_quotes(text_at(ctx.source.chars@, n));
            if r14_literal_kinds(ctx.language).contains(n.kind@) && utf8_len(inner) >= 6 {
                match classify(inner, r14_min_len(ctx)) {
                    Some(r) => if r == Reason::HighEntropy && !is_secret_named(
                        enclosing_var_name(ctx, i as int),
                    ) {
                        seq![]
                    } else {
                        seq![
                            finding_at_plain(
                                "R14"@,
                                "hardcoded-secret"@,
                                Severity::Error,
                                ctx.file_path@,
                                *ctx.tree,
                                i as int,
                                r14_message(r),
                            ),
                        ]
                    },
                    None => seq![],
                }
            } else {
                seq![]
            }
        }
}

pub fn strip_pair_exec(s: Vec<char>, q: char) -> (r: Vec<char>)
    ensures
        r@ == strip_pair(s@, q),
{
    let n = s.len();
    if n >= 2 && s[0] == q && s[n - 1] == q {
        assert(s@.skip(1).last() == s@[n - 1]);
        crate::text::slice_of(&s, 1, n - 1)
    } else {
        proof {
            if n == 1 && s@[0] == q {
                assert(s@.skip(1).len() == 0);
            }
            if n >= 2 && s@[0] == q {
                assert(s@.skip(1).last() == s@[n - 1]);
            }
        }
        s
    }
}

fn distinct_count_exec(s: &Vec<char>) -> (r: usize)
    ensures
        r == distinct_count(s@),
{
    let mut count: usize = 0;
    let mut i: usize = 0;
    while i < s.len()
        invariant
            i <= s@.len(),
            count <= i,
            count == distinct_count(s@.take(i as int)),
        decreases s@.len() - i,
    {
        let mut seen = false;
        let mut j: usize = 0;
        while j < i
            invariant
                j <= i < s@.len(),
                seen == exists|m: int| 0 <= m < j && s@[m] == s@[i as int],
            decreases i - j,
        {
            if s[j] == s[i] {
                seen = true;
            }
            j += 1;
        }
        proof {
            let t = s@.take(i + 1);
            assert(t.drop_last() =~= s@.take(i as int));
            assert(t.last() == s@[i as int]);
            if seen {
                let m = choose|m: int| 0 <= m < i && s@[m] == s@[i as int];
                assert(s@.take(i as int)[m] == s@[i as int]);
            } else {
                assert forall|m: int| 0 <= m < i implies s@.take(i as int)[m] != s@[i as int] by {
                    assert(s@.take(i as int)[m] == s@[m]);
                }
            }
        }
        if !seen {
            count += 1;
        }
        i += 1;
    }
    assert(s@.take(s@.len() as int) =~= s@);
    count
}

fn is_high_entropy_exec(s: &Vec<char>) -> (r: bool)
    ensures
        r == is_high_entropy(s@),
{
    let mut b64 = true;
    let mut hex = true;
    let mut k: usize = 0;
    while k < s.len()
        invariant
            k <= s@.len(),
            b64 == forall|m: int| 0 <= m < k ==> is_b64_char(#[trigger] s@[m]),
            hex == forall|m: int| 0 <= m < k ==> is_ascii_hex(#[trigger] s@[m]),
        decreases s@.len() - k,
    {
        let c = s[k];
        if !(is_ascii_alnum_exec(c) || c == '+' || c == '/' || c == '=') {
            b64 = false;
        }
        if !is_ascii_hex_exec(c) {
            hex = false;
        }
        k += 1;
    }
    if !b64 && !hex {
        return false;
    }
    let d = distinct_count_exec(s) as u128;
    let len = utf8_len_wide(s);
    let l: u128 = if len > 1 {
        len
    } else {
        1
    };
    proof {
        crate::unicode::lemma_utf8_len_bounds(s@);
    }
    5 * d >= 2 * l
}

fn classify_exec(s: &Vec<char>, min_len: usize) -> (r: Option<Reason>)
    ensures
        r == classify(s@, min_len as nat),
{
    if contains_str(s, "BEGIN") && contains_str(s, "PRIVATE KEY") {
        return Some(Reason::PrivateKey);
    }
    let ps: &[&str] = &["sk-", "sk_", "ghp_", "gho_", "github_pat_", "AKIA", "xoxb-", "xoxp-", "AIza", "eyJ"];
    assert(strs(ps@) =~= key_prefixes());
    let mut k: usize = 0;
    while k < ps.len()
        invariant
            k <= ps@.len(),
            strs(ps@) == key_prefixes(),
            !(contains(s@, "BEGIN"@) && contains(s@, "PRIVATE KEY"@)),
            forall|m: int| 0 <= m < k ==> !starts_with(s@, #[trigger] key_prefixes()[m]),
        decreases ps@.len() - k,
    {
        assert(key_prefixes()[k as int] == ps@[k as int]@);
        if starts_with_str(s, ps[k]) {
            assert(starts_with(s@, key_prefixes()[k as int]));
            return Some(Reason::KnownPrefix);
        }
        k += 1;
    }
    if utf8_len_wide(s) >= min_len as u128 && is_high_entropy_exec(s) {
        Some(Reason::HighEntropy)
    } else {
        None
    }
}

fn is_secret_named_exec(name: &Vec<char>) -> (r: bool)
    ensures
        r == is_secret_named(name@),
{
    let lower = to_lowercase(name);
    let ws: &[&str] = &[
        "api_key", "apikey", "secret", "token", "password", "passwd", "pwd", "private_key",
        "priv_key", "privkey", "access_key", "auth", "credential",
    ];
    assert(strs(ws@) =~= secret_words());
    let mut k: usize = 0;
    while k < ws.len()
        invariant
            k <= ws@.len(),
            strs(ws@) == secret_words(),
            lower@ == lowercase(name@),
            forall|m: int| 0 <= m < k ==> !contains(lower@, #[trigger] secret_words()[m]),
        decreases ws@.len() - k,
    {
        assert(secret_words()[k as int] == ws@[k as int]@);
        if contains_str(&lower, ws[k]) {
            return true;
        }
        k += 1;
    }
    false
}

fn enclosing_var_name_exec(ctx: &AnalysisContext, i: usize) -> (r: Vec<char>)
    requires
        ctx.wf(),
        i < ctx.tree.nodes@.len(),
    ensures
        r@ == enclosing_var_name(*ctx, i as int),
{
    let nodes = &ctx.tree.nodes;
    let mut cur: Option<usize> = match nodes[i].parent {
        Some(p) => if p < i {
            Some(p)
        } else {
            None
        },
        None => None,
    };
    let ak: &[&str] = &["identifier", "variable_name"];
    assert(strs(ak@) =~= seq!["identifier"@, "variable_name"@]);
    let dk: &[&str] = &["identifier", "type_identifier", "variable_name"];
    assert(strs(dk@) =~= seq!["identifier"@, "type_identifier"@, "variable_name"@]);
    let decls: &[&str] = &[
        "let_declaration", "let_statement", "variable_declaration", "local_variable_declaration",
        "field_declaration", "constant_declaration", "const_item", "static_item",
    ];
    assert(strs(decls@) =~= decl_kinds());
    loop
        invariant
            ctx.wf(),
            nodes == &ctx.tree.nodes,
            strs(ak@) == seq!["identifier"@, "variable_name"@],
            strs(dk@) == seq!["identifier"@, "type_identifier"@, "variable_name"@],
            strs(decls@) == decl_kinds(),
            match cur {
                Some(a) => a < nodes@.len() && var_name_from(*ctx, a as int) == enclosing_var_name(*ctx, i as int),
                None => enclosing_var_name(*ctx, i as int) == Seq::<char>::empty(),
            },
        decreases match cur {
            Some(a) => a + 1,
            None => 0,
        },
    {
        match cur {
            None => {
                return Vec::new();
            },
            Some(a) => {
                if crate::syntax::kind_is(ctx.tree, a, "assignment") || crate::syntax::kind_is(
                    ctx.tree,
                    a,
                    "assignment_expression",
                ) {
                    match first_child_in_exec(ctx.tree, a, ak) {
                        Some(c) => {
                            return node_text(ctx.source, ctx.tree, c);
                        },
                        None => {},
                    }
                }
                if kind_in(&nodes[a].kind, decls) {
                    match first_child_in_exec(ctx.tree, a, dk) {
                        Some(c) => {
                            return node_text(ctx.source, ctx.tree, c);
                        },
                        None => {},
                    }
                }
                cur = match nodes[a].parent {
                    Some(p) => if p < a {
                        Some(p)
                    } else {
                        None
                    },
                    None => None,
                };
            },
        }
    }
}

fn r14_node(ctx: &AnalysisContext, i: usize, min_len: usize) -> (r: Vec<Finding>)
    requires
        ctx.wf(),
        i < ctx.tree.nodes@.len(),
        min_len == r14_min_len(*ctx),
    ensures
        views(r@) == (r14_at(*ctx))(i),
{
    let mut out: Vec<Finding> = Vec::new();
    let lk: &[&str] = match ctx.language {
        Language::Python => &["string"],
        Language::TypeScript | Language::TypeScriptTsx => &["string", "template_string"],
        _ => &["string_literal"],
    };
    assert(strs(lk@) =~= r14_literal_kinds(ctx.language));
    if !kind_in(&ctx.tree.nodes[i].kind, lk) {
        assert(views(out@) =~= Seq::<FindingView>::empty());
        return out;
    }
    let t = node_text(ctx.source, ctx.tree, i);
    let inner = strip_pair_exec(strip_pair_exec(trim_exec(&t), '"'), '\'');
    if utf8_len_wide(&inner) < 6 {
        assert(views(out@) =~= Seq::<FindingView>::empty());
        return out;
    }
    match classify_exec(&inner, min_len) {
        None => {
            assert(views(out@) =~= Seq::<FindingView>::empty());
        },
        Some(r) => {
            if r == Reason::HighEntropy {
                let var = enclosing_var_name_exec(ctx, i);
                if !is_secret_named_exec(&var) {
                    assert(views(out@) =~= Seq::<FindingView>::empty());
                    return out;
                }
            }
            let mut m: Vec<char> = Vec::new();
            push_str(&mut m, "疑似硬编码密钥（");
            match r {
                Reason::KnownPrefix => push_str(&mut m, "已知密钥前缀"),
                Reason::PrivateKey => push_str(&mut m, "私钥头"),
                Reason::HighEntropy => push_str(&mut m, "高熵字符串"),
            }
            push_str(&mut m, "） | suspected hardcoded secret (");
            match r {
                Reason::KnownPrefix => push_str(&mut m, "known key prefix"),
                Reason::PrivateKey => push_str(&mut m, "private key header"),
                Reason::HighEntropy => push_str(&mut m, "high-entropy string"),
            }
            push_str(&mut m, ")");
            assert(m@ =~= r14_message(r));
            let f = Finding::at_node("R14", "hardcoded-secret", Severity::Error, ctx.file_path, ctx.tree, i, m);
            out.push(f);
            assert(views(out@) =~= seq![f@]);
        },
    }
    out
}

impl HardcodedSecret {
    /// Every finding the rule reports carries its id and name.
    pub proof fn lemma_findings_tagged(&self, ctx: AnalysisContext)
        ensures
            tagged(self.spec_findings(ctx), self.spec_id(), self.spec_name()),
    {
        assert forall|n: usize| tagged(#[trigger] (r14_at(ctx))(n), self.spec_id(), self.spec_name()) by {}
        lemma_collect_tagged(walk_order(ctx.tree.nodes@, 0), r14_at(ctx), self.spec_id(), self.spec_name());
    }
}

impl HardcodedSecret {
    /// Each finding stands at a string literal of at least six bytes, quotes
    /// stripped, that classifies as a secret; one reported as a high-entropy
    /// string has at least `min_length` bytes (20 unless configured) and is
    /// assigned to a secret-named variable. A test file gives none.
    pub proof fn lemma_reports_only_secret_literals(&self, ctx: AnalysisContext, i: int)
        requires
            0 <= i < self.spec_findings(ctx).len(),
        ensures
            !is_test_file(ctx.file_path@),
            exists|n: usize|
                #![trigger ctx.tree.nodes@[n as int]]
                {
                    let inner = strip_quotes(text_at(ctx.source.chars@, ctx.tree.nodes@[n as int]));
                    &&& 0 <= n < ctx.tree.nodes@.len()
                    &&& r14_literal_kinds(ctx.language).contains(ctx.tree.nodes@[n as int].kind@)
                    &&& utf8_len(inner) >= 6
                    &&& classify(inner, r14_min_len(ctx)) is Some
                    &&& self.spec_findings(ctx)[i] == finding_at_plain(
                        "R14"@,
                        "hardcoded-secret"@,
                        Severity::Error,
                        ctx.file_path@,
                        *ctx.tree,
                        n as int,
                        r14_message(classify(inner, r14_min_len(ctx))->0),
                    )
                    &&& classify(inner, r14_min_len(ctx)) == Some(Reason::HighEntropy) ==> utf8_len(inner)
                        >= r14_min_len(ctx) && is_secret_named(enclosing_var_name(ctx, n as int))
                },
    {
        let order = walk_order(ctx.tree.nodes@, 0);
        lemma_collect_member(order, r14_at(ctx), i);
        let (k, j) = choose|k: int, j: int|
            0 <= k < order.len() && 0 <= j < (r14_at(ctx))(order[k]).len() && collect(order, r14_at(ctx))[i]
                == #[trigger] (r14_at(ctx))(order[k])[j];
        let n = order[k];
        assert(ctx.tree.nodes.len() == ctx.tree.nodes@.len());
        lemma_walk_bounds(ctx.tree.nodes@, 0);
        assert(n < ctx.tree.nodes@.len());
        assert((r14_at(ctx))(n).len() > 0);
        assert(ctx.tree.nodes@[n as int] == ctx.tree.nodes@[n as int]);
    }

    /// A literal of at least six bytes that holds both `BEGIN` and
    /// `PRIVATE KEY`, anywhere and whatever precedes them, is reported as a
    /// private key outside test files.
    pub proof fn lemma_reports_private_keys(&self, ctx: AnalysisContext, n: int)
        requires
            ctx.tree.wf(),
            !is_test_file(ctx.file_path@),
            0 <= n < ctx.tree.nodes@.len(),
            r14_literal_kinds(ctx.language).contains(ctx.tree.nodes@[n].kind@),
            ({
                let inner = strip_quotes(text_at(ctx.source.chars@, ctx.tree.nodes@[n]));
                utf8_len(inner) >= 6 && contains(inner, "BEGIN"@) && contains(inner, "PRIVATE KEY"@)
            }),
        ensures
            self.spec_findings(ctx).contains(
                finding_at_plain(
                    "R14"@,
                    "hardcoded-secret"@,
                    Severity::Error,
                    ctx.file_path@,
                    *ctx.tree,
                    n,
                    "疑似硬编码密钥（私钥头） | suspected hardcoded secret (private key header)"@,
                ),
            ),
    {
        reveal_strlit("疑似硬编码密钥（");
        reveal_strlit("私钥头");
        reveal_strlit("） | suspected hardcoded secret (");
        reveal_strlit("private key header");
        reveal_strlit(")");
        reveal_strlit("疑似硬编码密钥（私钥头） | suspected hardcoded secret (private key header)");
        assert(r14_message(Reason::PrivateKey)
            =~= "疑似硬编码密钥（私钥头） | suspected hardcoded secret (private key header)"@);
        let order = walk_order(ctx.tree.nodes@, 0);
        let f = r14_at(ctx);
        assert(ctx.tree.nodes.len() == ctx.tree.nodes@.len());
        lemma_walk_covers(*ctx.tree, n);
        let k = choose|k: int| 0 <= k < order.len() && order[k] == n as usize;
        assert(order[k] as int == n);
        assert(f(order[k])[0] == finding_at_plain(
            "R14"@,
            "hardcoded-secret"@,
            Severity::Error,
            ctx.file_path@,
            *ctx.tree,
            n,
            "疑似硬编码密钥（私钥头） | suspected hardcoded secret (private key header)"@,
        ));
        lemma_collect_has(order, f, k, 0);
    }

    /// A literal of at least six bytes that starts with a known key prefix
    /// (`sk-`, `sk_`, `ghp_`, `gho_`, `github_pat_`, `AKIA`, `xoxb-`, `xoxp-`,
    /// `AIza`, `eyJ`) and is no private key is reported outside test files.
    pub proof fn lemma_reports_known_prefixes(&self, ctx: AnalysisContext, n: int)
        requires
            ctx.tree.wf(),
            !is_test_file(ctx.file_path@),
            0 <= n < ctx.tree.nodes@.len(),
            r14_literal_kinds(ctx.language).contains(ctx.tree.nodes@[n].kind@),
            ({
                let inner = strip_quotes(text_at(ctx.source.chars@, ctx.tree.nodes@[n]));
                &&& utf8_len(inner) >= 6
                &&& !(contains(inner, "BEGIN"@) && contains(inner, "PRIVATE KEY"@))
                &&& starts_with(inner, "sk-"@) || starts_with(inner, "sk_"@) || starts_with(inner, "ghp_"@) || starts_with(inner, "gho_"@) || starts_with(inner, "github_pat_"@) || starts_with(inner, "AKIA"@) || starts_with(inner, "xoxb-"@) || starts_with(inner, "xoxp-"@) || starts_with(inner, "AIza"@) || starts_with(inner, "eyJ"@)
            }),
        ensures
            self.spec_findings(ctx).contains(
                finding_at_plain(
                    "R14"@,
                    "hardcoded-secret"@,
                    Severity::Error,
                    ctx.file_path@,
                    *ctx.tree,
                    n,
                    "疑似硬编码密钥（已知密钥前缀） | suspected hardcoded secret (known key prefix)"@,
                ),
            ),
    {
        reveal_strlit("疑似硬编码密钥（");
        reveal_strlit("已知密钥前缀");
        reveal_strlit("） | suspected hardcoded secret (");
        reveal_strlit("known key prefix");
        reveal_strlit(")");
        reveal_strlit("疑似硬编码密钥（已知密钥前缀） | suspected hardcoded secret (known key prefix)");
        assert(r14_message(Reason::KnownPrefix)
            =~= "疑似硬编码密钥（已知密钥前缀） | suspected hardcoded secret (known key prefix)"@);
        let inner = strip_quotes(text_at(ctx.source.chars@, ctx.tree.nodes@[n]));
        assert(exists|k: int| 0 <= k < key_prefixes().len() && starts_with(inner, #[trigger] key_prefixes()[k])) by {
            if starts_with(inner, "sk-"@) {
                assert(key_prefixes()[0] == "sk-"@);
            } else if starts_with(inner, "sk_"@) {
                assert(key_prefixes()[1] == "sk_"@);
            } else if starts_with(inner, "ghp_"@) {
                assert(key_prefixes()[2] == "ghp_"@);
            } else if starts_with(inner, "gho_"@) {
                assert(key_prefixes()[3] == "gho_"@);
            } else if starts_with(inner, "github_pat_"@) {
                assert(key_prefixes()[4] == "github_pat_"@);
            } else if starts_with(inner, "AKIA"@) {
                assert(key_prefixes()[5] == "AKIA"@);
            } else if starts_with(inner, "xoxb-"@) {
                assert(key_prefixes()[6] == "xoxb-"@);
            } else if starts_with(inner, "xoxp-"@) {
                assert(key_prefixes()[7] == "xoxp-"@);
            } else if starts_with(inner, "AIza"@) {
                assert(key_prefixes()[8] == "AIza"@);
            } else if starts_with(inner, "eyJ"@) {
                assert(key_prefixes()[9] == "eyJ"@);
            }
        }
        assert(classify(inner, r14_min_len(ctx)) == Some(Reason::KnownPrefix));
        let order = walk_order(ctx.tree.nodes@, 0);
        let f = r14_at(ctx);
        assert(ctx.tree.nodes.len() == ctx.tree.nodes@.len());
        lemma_walk_covers(*ctx.tree, n);
        let k = choose|k: int| 0 <= k < order.len() && order[k] == n as usize;
        assert(order[k] as int == n);
        assert(f(order[k])[0] == finding_at_plain(
            "R14"@,
            "hardcoded-secret"@,
            Severity::Error,
            ctx.file_path@,
            *ctx.tree,
            n,
            "疑似硬编码密钥（已知密钥前缀） | suspected hardcoded secret (known key prefix)"@,
        ));
        lemma_collect_has(order, f, k, 0);
    }

    /// A high-entropy literal with no private-key header and no known
    /// prefix, at least `min_length` bytes long (and six), assigned to a
    /// secret-named variable, is reported outside test files.
    pub proof fn lemma_reports_high_entropy_secrets(&self, ctx: AnalysisContext, n: int)
        requires
            ctx.tree.wf(),
            !is_test_file(ctx.file_path@),
            0 <= n < ctx.tree.nodes@.len(),
            r14_literal_kinds(ctx.language).contains(ctx.tree.nodes@[n].kind@),
            ({
                let inner = strip_quotes(text_at(ctx.source.chars@, ctx.tree.nodes@[n]));
                &&& utf8_len(inner) >= 6
                &&& utf8_len(inner) >= r14_min_len(ctx)
                &&& !(contains(inner, "BEGIN"@) && contains(inner, "PRIVATE KEY"@))
                &&& !(starts_with(inner, "sk-"@) || starts_with(inner, "sk_"@) || starts_with(inner, "ghp_"@) || starts_with(inner, "gho_"@) || starts_with(inner, "github_pat_"@) || starts_with(inner, "AKIA"@) || starts_with(inner, "xoxb-"@) || starts_with(inner, "xoxp-"@) || starts_with(inner, "AIza"@) || starts_with(inner, "eyJ"@))
                &&& is_high_entropy(inner)
            }),
            is_secret_named(enclosing_var_name(ctx, n)),
        ensures
            self.spec_findings(ctx).contains(
                finding_at_plain(
                    "R14"@,
                    "hardcoded-secret"@,
                    Severity::Error,
                    ctx.file_path@,
                    *ctx.tree,
                    n,
                    "疑似硬编码密钥（高熵字符串） | suspected hardcoded secret (high-entropy string)"@,
                ),
            ),
    {
        reveal_strlit("疑似硬编码密钥（");
        reveal_strlit("高熵字符串");
        reveal_strlit("） | suspected hardcoded secret (");
        reveal_strlit("high-entropy string");
        reveal_strlit(")");
        reveal_strlit("疑似硬编码密钥（高熵字符串） | suspected hardcoded secret (high-entropy string)");
        assert(r14_message(Reason::HighEntropy)
            =~= "疑似硬编码密钥（高熵字符串） | suspected hardcoded secret (high-entropy string)"@);
        let inner = strip_quotes(text_at(ctx.source.chars@, ctx.tree.nodes@[n]));
        assert(!exists|k: int| 0 <= k < key_prefixes().len() && starts_with(inner, #[trigger] key_prefixes()[k])) by {
            if exists|k: int| 0 <= k < key_prefixes().len() && starts_with(inner, #[trigger] key_prefixes()[k]) {
                let k = choose|k: int| 0 <= k < key_prefixes().len() && starts_with(inner, #[trigger] key_prefixes()[k]);
                assert(key_prefixes()[k] == seq!["sk-"@, "sk_"@, "ghp_"@, "gho_"@, "github_pat_"@, "AKIA"@, "xoxb-"@, "xoxp-"@, "AIza"@, "eyJ"@][k]);
            }
        }
        assert(classify(inner, r14_min_len(ctx)) == Some(Reason::HighEntropy));
        let order = walk_order(ctx.tree.nodes@, 0);
        let f = r14_at(ctx);
        assert(ctx.tree.nodes.len() == ctx.tree.nodes@.len());
        lemma_walk_covers(*ctx.tree, n);
        let k = choose|k: int| 0 <= k < order.len() && order[k] == n as usize;
        assert(order[k] as int == n);
        assert(f(order[k])[0] == finding_at_plain(
            "R14"@,
            "hardcoded-secret"@,
            Severity::Error,
            ctx.file_path@,
            *ctx.tree,
            n,
            "疑似硬编码密钥（高熵字符串） | suspected hardcoded secret (high-entropy string)"@,
        ));
        lemma_collect_has(order, f, k, 0);
    }

    /// A finding reported as a private key stands at a literal that holds
    /// both `BEGIN` and `PRIVATE KEY`.
    pub proof fn lemma_private_key_findings_hold_a_header(&self, ctx: AnalysisContext, i: int)
        requires
            0 <= i < self.spec_findings(ctx).len(),
            self.spec_findings(ctx)[i].message
                == "疑似硬编码密钥（私钥头） | suspected hardcoded secret (private key header)"@,
        ensures
            exists|n: int|
                #![trigger ctx.tree.nodes@[n]]
                0 <= n < ctx.tree.nodes@.len() && r14_literal_kinds(ctx.language).contains(ctx.tree.nodes@[n].kind@)
                    && ({
                    let inner = strip_quotes(text_at(ctx.source.chars@, ctx.tree.nodes@[n]));
                    contains(inner, "BEGIN"@) && contains(inner, "PRIVATE KEY"@)
                }),
    {
        reveal_strlit("疑似硬编码密钥（");
        reveal_strlit("私钥头");
        reveal_strlit("已知密钥前缀");
        reveal_strlit("高熵字符串");
        reveal_strlit("） | suspected hardcoded secret (");
        reveal_strlit("private key header");
        reveal_strlit("known key prefix");
        reveal_strlit("high-entropy string");
        reveal_strlit(")");
        reveal_strlit("疑似硬编码密钥（私钥头） | suspected hardcoded secret (private key header)");
        self.lemma_reports_only_secret_literals(ctx, i);
        let n = choose|n: usize|
            #![trigger ctx.tree.nodes@[n as int]]
            {
                let inner = strip_quotes(text_at(ctx.source.chars@, ctx.tree.nodes@[n as int]));
                &&& 0 <= n < ctx.tree.nodes@.len()
                &&& r14_literal_kinds(ctx.language).contains(ctx.tree.nodes@[n as int].kind@)
                &&& utf8_len(inner) >= 6
                &&& classify(inner, r14_min_len(ctx)) is Some
                &&& self.spec_findings(ctx)[i] == finding_at_plain(
                    "R14"@,
                    "hardcoded-secret"@,
                    Severity::Error,
                    ctx.file_path@,
                    *ctx.tree,
                    n as int,
                    r14_message(classify(inner, r14_min_len(ctx))->0),
                )
                &&& classify(inner, r14_min_len(ctx)) == Some(Reason::HighEntropy) ==> utf8_len(inner)
                    >= r14_min_len(ctx) && is_secret_named(enclosing_var_name(ctx, n as int))
            };
        let inner = strip_quotes(text_at(ctx.source.chars@, ctx.tree.nodes@[n as int]));
        let r = classify(inner, r14_min_len(ctx))->0;
        assert(r14_message(r).len() == self.spec_findings(ctx)[i].message.len());
        assert(r == Reason::PrivateKey);
        assert(ctx.tree.nodes@[n as int] == ctx.tree.nodes@[n as int]);
    }

    /// Without a `min_length` threshold the high-entropy minimum is 20.
    pub proof fn lemma_default_min_length(ctx: AnalysisContext)
        requires
            forall|k: int|
                0 <= k < ctx.rule_config.thresholds@.len() ==> (#[trigger] ctx.rule_config.thresholds@[k]).0@
                    != "min_length"@,
        ensures
            r14_min_len(ctx) == 20,
    {
        lemma_threshold_absent(ctx.rule_config.thresholds@, "min_length"@, 20);
    }
}

impl Rule for HardcodedSecret {
    open spec fn spec_id(&self) -> Seq<char> {
        "R14"@
    }

    open spec fn spec_name(&self) -> Seq<char> {
        "hardcoded-secret"@
    }

    open spec fn spec_severity(&self) -> Severity {
        Severity::Error
    }

    open spec fn spec_total(&self) -> bool {
        true
    }

    open spec fn spec_languages(&self) -> Seq<Language> {
        seq![
            Language::Rust,
            Language::Python,
            Language::TypeScript,
            Language::TypeScriptTsx,
            Language::CSharp,
            Language::Java,
        ]
    }

    /// Nothing in a test file; elsewhere every literal in walk order.
    open spec fn spec_findings(&self, ctx: AnalysisContext) -> Seq<FindingView> {
        if is_test_file(ctx.file_path@) {
            seq![]
        } else {
            collect(walk_order(ctx.tree.nodes@, 0), r14_at(ctx))
        }
    }

    fn id(&self) -> (r: &'static str) {
        "R14"
    }

    fn name(&self) -> (r: &'static str) {
        "hardcoded-secret"
    }

    fn severity(&self) -> (r: Severity) {
        Severity::Error
    }

    fn languages(&self) -> (r: &'static [Language]) {
        &[
            Language::Rust,
            Language::Python,
            Language::TypeScript,
            Language::TypeScriptTsx,
            Language::CSharp,
            Language::Java,
        ]
    }

    fn analyze(&self, ctx: &AnalysisContext) -> (r: Result<Vec<Finding>, RuleError>)
        ensures
            r is Ok,
    {
        proof {
            self.lemma_findings_tagged(*ctx);
        }
        let mut out: Vec<Finding> = Vec::new();
        if is_test_file_exec(ctx.file_path) {
            assert(views(out@) =~= Seq::<FindingView>::empty());
            return Ok(out);
        }
        let min_len = ctx.rule_config.threshold_i64("min_length", 20) as usize;
        let order = walk(ctx.tree, 0);
        let mut k: usize = 0;
        while k < order.len()
            invariant
                ctx.wf(),
                order@ == walk_order(ctx.tree.nodes@, 0),
                forall|m: int| 0 <= m < order@.len() ==> #[trigger] order@[m] < ctx.tree.nodes@.len(),
                min_len == r14_min_len(*ctx),
                k <= order@.len(),
                views(out@) == collect(order@.take(k as int), r14_at(*ctx)),
            decreases order@.len() - k,
        {
            proof {
                lemma_collect_step(order@, r14_at(*ctx), k as int);
            }
            let found = r14_node(ctx, order[k], min_len);
            append_findings(&mut out, found);
            k += 1;
        }
        proof {
            lemma_collect_all(order@, r14_at(*ctx));
        }
        Ok(out)
    }
}

} // verus!
