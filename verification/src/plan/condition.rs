//! The `if` language of a plan step: comparisons of references and quoted texts, joined by `&&`
//! and `||`.

use crate::plan;
use crate::plan::StepResult;
use crate::text;
use vstd::prelude::*;

verus! {

/// The quote that is open after reading `c` with `q` open before it.
pub open spec fn quote_step(q: Option<char>, c: char) -> Option<char> {
    match q {
        None => if c == '"' || c == '\'' {
            Some(c)
        } else {
            None
        },
        Some(open) => if c == open {
            None
        } else {
            q
        },
    }
}

/// The quote that is open after the first `n` characters of `s`.
pub open spec fn open_quote(s: Seq<char>, n: int) -> Option<char>
    decreases n,
{
    if n <= 0 {
        None
    } else {
        quote_step(open_quote(s, n - 1), s[n - 1])
    }
}

/// Whether the operator `op` stands at `i` in `s`, outside every quote.
pub open spec fn stands_at(s: Seq<char>, op: Seq<char>, i: int) -> bool {
    0 <= i && i + op.len() <= s.len() && open_quote(s, i + 1) is None && op.is_prefix_of(s.skip(i))
}

/// The first place at or after `i` where `op` stands outside every quote.
pub open spec fn operator_from(s: Seq<char>, op: Seq<char>, i: int) -> Option<int>
    decreases s.len() + 1 - i,
{
    if i + op.len() > s.len() {
        None
    } else if stands_at(s, op, i) {
        Some(i)
    } else {
        operator_from(s, op, i + 1)
    }
}

/// The first place where `op` stands outside every quote.
pub open spec fn operator_in(s: Seq<char>, op: Seq<char>) -> Option<int> {
    operator_from(s, op, 0)
}

/// The trimmed parts of `s` between the places where `op` stands outside every quote.
pub open spec fn parts_of(s: Seq<char>, op: Seq<char>) -> Seq<Seq<char>>
    decreases s.len(),
{
    match operator_in(s, op) {
        Some(i) => if op.len() > 0 && 0 <= i && i + op.len() <= s.len() {
            seq![text::trim(s.take(i))] + parts_of(s.skip(i + op.len()), op)
        } else {
            seq![text::trim(s)]
        },
        None => seq![text::trim(s)],
    }
}

/// What stands inside the quotes of a quoted text.
pub open spec fn literal(token: Seq<char>) -> Option<Seq<char>> {
    if token.len() >= 2 && (token[0] == '"' || token[0] == '\'') && token.last() == token[0] {
        Some(token.subrange(1, token.len() - 1))
    } else {
        None
    }
}

/// What a `$step.field` reference reads: the step's output or the word for its status.
pub open spec fn reference_value(token: Seq<char>, results: Seq<plan::StepView>) -> Result<
    Seq<char>,
    Seq<char>,
> {
    if !text::begins(token, '$') {
        Err("unsupported condition operand '"@ + token + "'"@)
    } else {
        let name = token.drop_first();
        match name.index_of_last('.') {
            None => Err("invalid reference '$"@ + name + "'"@),
            Some(dot) => {
                let field = name.skip(dot + 1);
                match plan::result_of(results, name.take(dot)) {
                    None => Err("reference '$"@ + name + "' is not ready"@),
                    Some(step) => if field == "output"@ {
                        match step.output {
                            Some(output) => Ok(output),
                            None => Err("reference '$"@ + name + "' has no output"@),
                        }
                    } else if field == "status"@ {
                        Ok(step.status.word())
                    } else {
                        Err("unsupported reference field '"@ + field + "'"@)
                    },
                }
            },
        }
    }
}

/// What an operand of a comparison stands for.
pub open spec fn operand_value(token: Seq<char>, results: Seq<plan::StepView>) -> Result<
    Seq<char>,
    Seq<char>,
> {
    match literal(token) {
        Some(inside) => Ok(inside),
        None => reference_value(token, results),
    }
}

/// The two operands on either side of the operator of length `n` at `i`; the left one fails first.
pub open spec fn operand_values(
    s: Seq<char>,
    i: int,
    n: int,
    results: Seq<plan::StepView>,
) -> Result<(Seq<char>, Seq<char>), Seq<char>> {
    match operand_value(text::trim(s.take(i)), results) {
        Err(e) => Err(e),
        Ok(left) => match operand_value(text::trim(s.skip(i + n)), results) {
            Err(e) => Err(e),
            Ok(right) => Ok((left, right)),
        },
    }
}

/// The verdict of one comparison. The operators are looked for in the order `==`, `!=`, `>`, `<`,
/// and texts compare in dictionary order.
pub open spec fn comparison(s: Seq<char>, results: Seq<plan::StepView>) -> Result<
    bool,
    Seq<char>,
> {
    if operator_in(s, "=="@) is Some {
        match operand_values(s, operator_in(s, "=="@)->0, 2, results) {
            Ok(p) => Ok(p.0 == p.1),
            Err(e) => Err(e),
        }
    } else if operator_in(s, "!="@) is Some {
        match operand_values(s, operator_in(s, "!="@)->0, 2, results) {
            Ok(p) => Ok(p.0 != p.1),
            Err(e) => Err(e),
        }
    } else if operator_in(s, ">"@) is Some {
        match operand_values(s, operator_in(s, ">"@)->0, 1, results) {
            Ok(p) => Ok(text::less(p.1, p.0)),
            Err(e) => Err(e),
        }
    } else if operator_in(s, "<"@) is Some {
        match operand_values(s, operator_in(s, "<"@)->0, 1, results) {
            Ok(p) => Ok(text::less(p.0, p.1)),
            Err(e) => Err(e),
        }
    } else {
        Err("unsupported condition expression '"@ + s + "'"@)
    }
}

/// Whether every comparison of `parts` holds, read from the front up to the first that does not
/// or that fails.
pub open spec fn all_hold(parts: Seq<Seq<char>>, results: Seq<plan::StepView>) -> Result<
    bool,
    Seq<char>,
>
    decreases parts.len(),
{
    if parts.len() == 0 {
        Ok(true)
    } else {
        match comparison(parts[0], results) {
            Err(e) => Err(e),
            Ok(false) => Ok(false),
            Ok(true) => all_hold(parts.drop_first(), results),
        }
    }
}

/// The verdict of a conjunction.
pub open spec fn conjunction(s: Seq<char>, results: Seq<plan::StepView>) -> Result<
    bool,
    Seq<char>,
> {
    let parts = parts_of(s, "&&"@);
    if parts.len() > 1 {
        all_hold(parts, results)
    } else {
        comparison(s, results)
    }
}

/// Whether some conjunction of `parts` holds, read from the front up to the first that does or
/// that fails.
pub open spec fn some_holds(parts: Seq<Seq<char>>, results: Seq<plan::StepView>) -> Result<
    bool,
    Seq<char>,
>
    decreases parts.len(),
{
    if parts.len() == 0 {
        Ok(false)
    } else {
        match conjunction(parts[0], results) {
            Err(e) => Err(e),
            Ok(true) => Ok(true),
            Ok(false) => some_holds(parts.drop_first(), results),
        }
    }
}

/// The verdict of a condition: `||` binds loosest, then `&&`, then the comparisons. A step without
/// a condition, or with a blank one, runs.
pub open spec fn verdict(condition: Option<Seq<char>>, results: Seq<plan::StepView>) -> Result<
    bool,
    Seq<char>,
> {
    match condition {
        None => Ok(true),
        Some(raw) => {
            let s = text::trim(raw);
            let parts = parts_of(s, "||"@);
            if s.len() == 0 {
                Ok(true)
            } else if parts.len() > 1 {
                some_holds(parts, results)
            } else {
                conjunction(s, results)
            }
        },
    }
}

/// What a verdict stands for.
pub open spec fn verdict_view(r: Result<bool, String>) -> Result<bool, Seq<char>> {
    match r {
        Ok(b) => Ok(b),
        Err(e) => Err(e@),
    }
}

/// Whether a step with this condition runs, given the results so far.
pub fn evaluate(condition: Option<&str>, results: &[StepResult]) -> (r: Result<bool, String>)
    ensures
        verdict_view(r) == verdict(text::opt_str(condition), plan::step_views(results@)),
{
    match condition {
        None => Ok(true),
        Some(raw) => {
            let s = text::trimmed(raw);
            if s.as_str().is_empty() {
                return Ok(true);
            }
            eval_or(s.as_str(), results)
        },
    }
}

fn eval_or(expr: &str, results: &[StepResult]) -> (r: Result<bool, String>)
    ensures
        verdict_view(r) == (if parts_of(expr@, "||"@).len() > 1 {
            some_holds(parts_of(expr@, "||"@), plan::step_views(results@))
        } else {
            conjunction(expr@, plan::step_views(results@))
        }),
{
    proof {
        reveal_strlit("||");
    }
    let parts = split_top_level(expr, "||");
    let ghost all = parts_of(expr@, "||"@);
    let ghost table = plan::step_views(results@);
    if parts.len() > 1 {
        let mut i: usize = 0;
        proof {
            assert(all.skip(0) =~= all);
        }
        while i < parts.len()
            invariant
                i <= parts@.len(),
                parts@.len() > 1,
                all == parts_of(expr@, "||"@),
                text::texts(parts@) == all,
                table == plan::step_views(results@),
                some_holds(all.skip(i as int), table) == some_holds(all, table),
            decreases parts@.len() - i,
        {
            proof {
                assert(all.skip(i as int)[0] == parts@[i as int]@);
                assert(all.skip(i as int).drop_first() =~= all.skip(i + 1));
            }
            match eval_and(parts[i].as_str(), results) {
                Err(e) => return Err(e),
                Ok(holds) => if holds {
                    return Ok(true);
                },
            }
            i += 1;
        }
        return Ok(false);
    }
    eval_and(expr, results)
}

fn eval_and(expr: &str, results: &[StepResult]) -> (r: Result<bool, String>)
    ensures
        verdict_view(r) == conjunction(expr@, plan::step_views(results@)),
{
    proof {
        reveal_strlit("&&");
    }
    let parts = split_top_level(expr, "&&");
    let ghost all = parts_of(expr@, "&&"@);
    let ghost table = plan::step_views(results@);
    if parts.len() > 1 {
        let mut i: usize = 0;
        proof {
            assert(all.skip(0) =~= all);
        }
        while i < parts.len()
            invariant
                i <= parts@.len(),
                parts@.len() > 1,
                all == parts_of(expr@, "&&"@),
                text::texts(parts@) == all,
                table == plan::step_views(results@),
                all_hold(all.skip(i as int), table) == all_hold(all, table),
            decreases parts@.len() - i,
        {
            proof {
                assert(all.skip(i as int)[0] == parts@[i as int]@);
                assert(all.skip(i as int).drop_first() =~= all.skip(i + 1));
            }
            match eval_comparison(parts[i].as_str(), results) {
                Err(e) => return Err(e),
                Ok(holds) => if !holds {
                    return Ok(false);
                },
            }
            i += 1;
        }
        return Ok(true);
    }
    eval_comparison(expr, results)
}

/// The operand values on either side of an operator, when both can be read.
fn operands(left: &str, right: &str, results: &[StepResult]) -> (r: Result<
    (String, String),
    String,
>)
    ensures
        match (
            r,
            operand_value(text::trim(left@), plan::step_views(results@)),
            operand_value(text::trim(right@), plan::step_views(results@)),
        ) {
            (Ok(p), Ok(a), Ok(b)) => p.0@ == a && p.1@ == b,
            (Err(e), Err(f), _) => e@ == f,
            (Err(e), Ok(_), Err(f)) => e@ == f,
            _ => false,
        },
{
    let a = match value_of(text::trimmed(left).as_str(), results) {
        Ok(a) => a,
        Err(e) => return Err(e),
    };
    let b = match value_of(text::trimmed(right).as_str(), results) {
        Ok(b) => b,
        Err(e) => return Err(e),
    };
    Ok((a, b))
}

fn eval_comparison(expr: &str, results: &[StepResult]) -> (r: Result<bool, String>)
    ensures
        verdict_view(r) == comparison(expr@, plan::step_views(results@)),
{
    proof {
        reveal_strlit("==");
        reveal_strlit("!=");
        reveal_strlit(">");
        reveal_strlit("<");
    }
    if let Some((left, right)) = split_once_operator(expr, "==") {
        return match operands(left.as_str(), right.as_str(), results) {
            Ok(p) => Ok(text::same(p.0.as_str(), p.1.as_str())),
            Err(e) => Err(e),
        };
    }
    if let Some((left, right)) = split_once_operator(expr, "!=") {
        return match operands(left.as_str(), right.as_str(), results) {
            Ok(p) => Ok(!text::same(p.0.as_str(), p.1.as_str())),
            Err(e) => Err(e),
        };
    }
    if let Some((left, right)) = split_once_operator(expr, ">") {
        return match operands(left.as_str(), right.as_str(), results) {
            Ok(p) => Ok(text::sorts_before(p.1.as_str(), p.0.as_str())),
            Err(e) => Err(e),
        };
    }
    if let Some((left, right)) = split_once_operator(expr, "<") {
        return match operands(left.as_str(), right.as_str(), results) {
            Ok(p) => Ok(text::sorts_before(p.0.as_str(), p.1.as_str())),
            Err(e) => Err(e),
        };
    }
    Err(text::cat3("unsupported condition expression '", expr, "'"))
}

/// The first place where `op` stands outside every quote.
fn find_operator(s: &[char], op: &[char]) -> (r: Option<usize>)
    requires
        op@.len() > 0,
    ensures
        match r {
            Some(i) => i + op@.len() <= s@.len() && operator_in(s@, op@) == Some(i as int),
            None => operator_in(s@, op@) is None,
        },
{
    let mut in_quote: Option<char> = None;
    let mut i: usize = 0;
    let total: usize = s.len();
    if op.len() > total {
        return None;
    }
    while i <= total - op.len()
        invariant
            total == s@.len(),
            0 < op@.len() <= total,
            i <= total - op@.len() + 1,
            in_quote == open_quote(s@, i as int),
            operator_from(s@, op@, i as int) == operator_in(s@, op@),
        decreases total - i,
    {
        let c = s[i];
        match in_quote {
            None => if c == '"' || c == '\'' {
                in_quote = Some(c);
            },
            Some(open) => if c == open {
                in_quote = None;
            },
        }
        if in_quote.is_none() && text::matches_at(s, i, op) {
            return Some(i);
        }
        i += 1;
    }
    None
}

/// The texts on either side of the first place where `op` stands outside every quote.
pub fn split_once_operator(expr: &str, op: &str) -> (r: Option<(String, String)>)
    requires
        op@.len() > 0,
    ensures
        match (r, operator_in(expr@, op@)) {
            (Some(p), Some(i)) => p.0@ == expr@.take(i) && p.1@ == expr@.skip(i + op@.len()),
            (None, None) => true,
            _ => false,
        },
{
    let s = text::chars_of(expr);
    let o = text::chars_of(op);
    let total: usize = s.len();
    match find_operator(&s, &o) {
        Some(i) => {
            let left = text::slice_text(&s, 0, i);
            let right = text::slice_text(&s, i + o.len(), total);
            proof {
                assert(left@ =~= expr@.take(i as int));
                assert(right@ =~= expr@.skip(i + op@.len()));
            }
            Some((left, right))
        },
        None => None,
    }
}

/// The trimmed parts of `expr` between the places where `delimiter` stands outside every quote.
pub fn split_top_level(expr: &str, delimiter: &str) -> (r: Vec<String>)
    requires
        delimiter@.len() > 0,
    ensures
        text::texts(r@) == parts_of(expr@, delimiter@),
{
    let d = text::chars_of(delimiter);
    let mut out: Vec<String> = Vec::new();
    let mut rest: Vec<char> = text::chars_of(expr);
    proof {
        assert(text::texts(out@) + parts_of(rest@, d@) =~= parts_of(expr@, delimiter@));
    }
    loop
        invariant
            d@ == delimiter@,
            d@.len() > 0,
            text::texts(out@) + parts_of(rest@, d@) == parts_of(expr@, delimiter@),
        decreases rest@.len(),
    {
        let ghost before = text::texts(out@);
        let total: usize = rest.len();
        match find_operator(&rest, &d) {
            Some(i) => {
                let part = text::trimmed(text::slice_text(&rest, 0, i).as_str());
                out.push(part);
                let tail = text::chars_of(
                    text::slice_text(&rest, i + d.len(), total).as_str(),
                );
                proof {
                    assert(rest@.subrange(0, i as int) =~= rest@.take(i as int));
                    assert(tail@ =~= rest@.skip(i + d@.len()));
                    assert(text::texts(out@) =~= before.push(part@));
                    assert(before.push(part@) + parts_of(tail@, d@) =~= before + (seq![part@]
                        + parts_of(tail@, d@)));
                }
                rest = tail;
            },
            None => {
                let part = text::trimmed(text::text_of(&rest).as_str());
                out.push(part);
                proof {
                    assert(text::texts(out@) =~= before + seq![part@]);
                }
                return out;
            },
        }
    }
}

fn value_of(token: &str, results: &[StepResult]) -> (r: Result<String, String>)
    ensures
        text::result_text(r) == operand_value(token@, plan::step_views(results@)),
{
    match quoted_literal(token) {
        Some(value) => Ok(value),
        None => resolve_reference(token, results),
    }
}

/// What stands inside the quotes of a quoted text.
pub fn quoted_literal(token: &str) -> (r: Option<String>)
    ensures
        text::opt_text(r) == literal(token@),
{
    let s = text::chars_of(token);
    if s.len() < 2 {
        return None;
    }
    let first = s[0];
    if (first == '"' || first == '\'') && s[s.len() - 1] == first {
        Some(text::slice_text(&s, 1, s.len() - 1))
    } else {
        None
    }
}

/// What a `$step.field` reference reads.
pub fn resolve_reference(reference: &str, results: &[StepResult]) -> (r: Result<String, String>)
    ensures
        text::result_text(r) == reference_value(reference@, plan::step_views(results@)),
{
    let s = text::chars_of(reference);
    if s.len() == 0 || s[0] != '$' {
        return Err(text::cat3("unsupported condition operand '", reference, "'"));
    }
    let name = text::slice_text(&s, 1, s.len());
    proof {
        assert(name@ =~= reference@.drop_first());
        name@.index_of_last_ensures('.');
    }
    let n = text::chars_of(name.as_str());
    let dot = match text::find_last(&n, '.') {
        Some(dot) => dot,
        None => {
            return Err(text::cat3("invalid reference '$", name.as_str(), "'"));
        },
    };
    let step_id = text::slice_text(&n, 0, dot);
    let field = text::slice_text(&n, dot + 1, n.len());
    proof {
        assert(step_id@ =~= name@.take(dot as int));
        assert(field@ =~= name@.skip(dot + 1));
    }
    let at = match plan::position_of(results, step_id.as_str()) {
        Some(at) => at,
        None => {
            return Err(text::cat3("reference '$", name.as_str(), "' is not ready"));
        },
    };
    if text::same(field.as_str(), "output") {
        match &results[at].output {
            Some(output) => Ok(output.clone()),
            None => {
                Err(text::cat3("reference '$", name.as_str(), "' has no output"))
            },
        }
    } else if text::same(field.as_str(), "status") {
        Ok(results[at].status.as_str().to_owned())
    } else {
        Err(text::cat3("unsupported reference field '", field.as_str(), "'"))
    }
}

// ── Laws ─────────────────────────────────────────────────────────────────────

/// Whether every quote that `s` opens is closed in it.
pub open spec fn closed(s: Seq<char>) -> bool {
    open_quote(s, s.len() as int) is None
}

/// An operator: one or two characters, none of them a blank or a quote.
spec fn is_operator(op: Seq<char>) -> bool {
    &&& 1 <= op.len() <= 2
    &&& forall|i: int|
        0 <= i < op.len() ==> !text::is_space(#[trigger] op[i]) && op[i] != '"' && op[i] != '\''
}

proof fn lemma_quote_front(a: Seq<char>, x: Seq<char>, n: int)
    requires
        n <= a.len(),
    ensures
        open_quote(a + x, n) == open_quote(a, n),
    decreases n,
{
    if n > 0 {
        lemma_quote_front(a, x, n - 1);
        assert((a + x)[n - 1] == a[n - 1]);
    }
}

proof fn lemma_quote_back(a: Seq<char>, x: Seq<char>, n: int)
    requires
        0 <= n <= x.len(),
        closed(a),
    ensures
        open_quote(a + x, a.len() + n) == open_quote(x, n),
    decreases n,
{
    if n > 0 {
        lemma_quote_back(a, x, n - 1);
        assert((a + x)[a.len() + n - 1] == x[n - 1]);
    } else {
        lemma_quote_front(a, x, a.len() as int);
    }
}

proof fn lemma_blank_closed(w: Seq<char>, n: int)
    requires
        text::all_blank(w),
        n <= w.len(),
    ensures
        open_quote(w, n) is None,
    decreases n,
{
    if n > 0 {
        lemma_blank_closed(w, n - 1);
        assert(text::is_space(w[n - 1]));
    }
}

proof fn lemma_operator(s: Seq<char>, op: Seq<char>, i: int)
    requires
        op.len() > 0,
        0 <= i,
    ensures
        match operator_from(s, op, i) {
            Some(k) => i <= k && stands_at(s, op, k) && forall|j: int|
                i <= j < k ==> !#[trigger] stands_at(s, op, j),
            None => forall|j: int| i <= j ==> !#[trigger] stands_at(s, op, j),
        },
    decreases s.len() + 1 - i,
{
    if i + op.len() <= s.len() && !stands_at(s, op, i) {
        lemma_operator(s, op, i + 1);
    }
}

proof fn lemma_operator_is(s: Seq<char>, op: Seq<char>, k: int)
    requires
        op.len() > 0,
        stands_at(s, op, k),
        forall|j: int| 0 <= j < k ==> !#[trigger] stands_at(s, op, j),
    ensures
        operator_in(s, op) == Some(k),
{
    lemma_operator(s, op, 0);
}

proof fn lemma_no_operator(s: Seq<char>, op: Seq<char>)
    requires
        op.len() > 0,
        forall|j: int| 0 <= j ==> !#[trigger] stands_at(s, op, j),
    ensures
        operator_in(s, op) is None,
{
    lemma_operator(s, op, 0);
}

/// In front of its end, a text with more behind it holds the operators it holds on its own.
proof fn lemma_stands_front(a: Seq<char>, x: Seq<char>, op: Seq<char>, i: int)
    requires
        0 <= i,
        i + op.len() <= a.len(),
        op.len() > 0,
    ensures
        stands_at(a + x, op, i) == stands_at(a, op, i),
{
    lemma_quote_front(a, x, i + 1);
    assert((a + x).skip(i).take(op.len() as int) =~= a.skip(i).take(op.len() as int));
    if op.is_prefix_of((a + x).skip(i)) {
        assert forall|k: int| 0 <= k < op.len() implies op[k] == a.skip(i)[k] by {
            assert((a + x).skip(i)[k] == a.skip(i)[k]);
        }
        assert(op =~= a.skip(i).subrange(0, op.len() as int));
    }
    if op.is_prefix_of(a.skip(i)) {
        assert(op =~= (a + x).skip(i).subrange(0, op.len() as int));
    }
}

/// Behind a closed text, another one holds the operators it holds on its own.
proof fn lemma_stands_back(a: Seq<char>, x: Seq<char>, op: Seq<char>, i: int)
    requires
        0 <= i,
        closed(a),
        op.len() > 0,
    ensures
        stands_at(a + x, op, a.len() + i) == stands_at(x, op, i),
{
    if i + op.len() <= x.len() {
        lemma_quote_back(a, x, i + 1);
        assert((a + x).skip(a.len() + i) =~= x.skip(i));
    }
}

/// An operator does not reach over a seam unless its characters stand on both sides.
proof fn lemma_seam(a: Seq<char>, x: Seq<char>, op: Seq<char>, i: int)
    requires
        is_operator(op),
        0 <= i < a.len(),
        i + op.len() > a.len(),
        x.len() == 0 || a.last() != op[0] || x[0] != op[1],
    ensures
        !stands_at(a + x, op, i),
{
    if stands_at(a + x, op, i) {
        let rest = (a + x).skip(i);
        assert(op =~= rest.subrange(0, op.len() as int));
        assert(rest[0] == op[0] && rest[1] == op[1]);
        assert(rest[0] == a.last() && rest[1] == x[0]);
    }
}

/// The first operator behind a closed text without one.
proof fn lemma_operator_behind(a: Seq<char>, x: Seq<char>, op: Seq<char>)
    requires
        is_operator(op),
        closed(a),
        operator_in(a, op) is None,
        a.len() == 0 || x.len() == 0 || a.last() != op[0] || op.len() == 1 || x[0] != op[1],
    ensures
        operator_in(a + x, op) == (match operator_in(x, op) {
            Some(k) => Some(a.len() + k),
            None => None,
        }),
{
    let s = a + x;
    lemma_operator(a, op, 0);
    lemma_operator(x, op, 0);
    assert forall|j: int| 0 <= j < a.len() implies !#[trigger] stands_at(s, op, j) by {
        if j + op.len() <= a.len() {
            lemma_stands_front(a, x, op, j);
            assert(!stands_at(a, op, j));
        } else {
            lemma_seam(a, x, op, j);
        }
    }
    match operator_in(x, op) {
        Some(k) => {
            lemma_stands_back(a, x, op, k);
            assert forall|j: int| 0 <= j < a.len() + k implies !#[trigger] stands_at(s, op, j) by {
                if j >= a.len() {
                    lemma_stands_back(a, x, op, j - a.len());
                    assert(!stands_at(x, op, j - a.len()));
                }
            }
            lemma_operator_is(s, op, a.len() + k);
        },
        None => {
            assert forall|j: int| 0 <= j implies !#[trigger] stands_at(s, op, j) by {
                if j >= a.len() {
                    lemma_stands_back(a, x, op, j - a.len());
                    assert(!stands_at(x, op, j - a.len()));
                }
            }
            lemma_no_operator(s, op);
        },
    }
}

proof fn lemma_blank_no_operator(w: Seq<char>, op: Seq<char>)
    requires
        is_operator(op),
        text::all_blank(w),
    ensures
        operator_in(w, op) is None,
{
    assert forall|j: int| 0 <= j implies !#[trigger] stands_at(w, op, j) by {
        if stands_at(w, op, j) {
            assert(op =~= w.skip(j).subrange(0, op.len() as int));
            assert(op[0] == w.skip(j).subrange(0, op.len() as int)[0]);
            assert(op[0] == w[j]);
            assert(text::is_space(w[j]));
        }
    }
    lemma_no_operator(w, op);
}

/// Blanks in front of a text do not change its parts.
proof fn lemma_parts_front(w: Seq<char>, s: Seq<char>, op: Seq<char>)
    requires
        is_operator(op),
        text::all_blank(w),
    ensures
        parts_of(w + s, op) == parts_of(s, op),
        operator_in(w + s, op) is None <==> operator_in(s, op) is None,
{
    lemma_blank_closed(w, w.len() as int);
    lemma_blank_no_operator(w, op);
    if w.len() > 0 {
        assert(text::is_space(w.last()));
    }
    lemma_operator_behind(w, s, op);
    lemma_operator(s, op, 0);
    let none = Seq::<char>::empty();
    match operator_in(s, op) {
        Some(i) => {
            assert((w + s).take(w.len() + i) =~= w + s.take(i) + none);
            text::blanks_around_do_not_count(w, s.take(i), none);
            assert((w + s).skip(w.len() + i + op.len()) =~= s.skip(i + op.len()));
        },
        None => {
            assert(w + s =~= w + s + none);
            text::blanks_around_do_not_count(w, s, none);
        },
    }
}

/// Blanks behind a text do not change its parts.
proof fn lemma_parts_back(s: Seq<char>, w: Seq<char>, op: Seq<char>)
    requires
        is_operator(op),
        text::all_blank(w),
    ensures
        parts_of(s + w, op) == parts_of(s, op),
        operator_in(s + w, op) == operator_in(s, op),
    decreases s.len(),
{
    lemma_operator(s, op, 0);
    let none = Seq::<char>::empty();
    let all = s + w;
    assert forall|j: int| 0 <= j && j + op.len() > s.len() implies !#[trigger] stands_at(
        all,
        op,
        j,
    ) by {
        if stands_at(all, op, j) {
            let last = op.len() - 1;
            assert(op =~= all.skip(j).subrange(0, op.len() as int));
            assert(all.skip(j)[last] == op[last]);
            assert(all[j + last] == w[j + last - s.len()]);
            assert(text::is_space(w[j + last - s.len()]));
        }
    }
    match operator_in(s, op) {
        Some(i) => {
            lemma_stands_front(s, w, op, i);
            assert forall|j: int| 0 <= j < i implies !#[trigger] stands_at(all, op, j) by {
                if j + op.len() <= s.len() {
                    lemma_stands_front(s, w, op, j);
                    assert(!stands_at(s, op, j));
                }
            }
            lemma_operator_is(all, op, i);
            assert(all.take(i) =~= s.take(i));
            assert(all.skip(i + op.len()) =~= s.skip(i + op.len()) + w);
            lemma_parts_back(s.skip(i + op.len()), w, op);
        },
        None => {
            assert forall|j: int| 0 <= j implies !#[trigger] stands_at(all, op, j) by {
                if j + op.len() <= s.len() {
                    lemma_stands_front(s, w, op, j);
                    assert(!stands_at(s, op, j));
                }
            }
            lemma_no_operator(all, op);
            assert(all =~= none + s + w);
            text::blanks_around_do_not_count(none, s, w);
        },
    }
}

/// Trimming a text does not change its parts.
proof fn lemma_parts_trim(s: Seq<char>, op: Seq<char>)
    requires
        is_operator(op),
    ensures
        parts_of(text::trim(s), op) == parts_of(s, op),
        operator_in(text::trim(s), op) is None <==> operator_in(s, op) is None,
{
    let (front, back) = text::lemma_ends(s);
    let t = text::trim(s);
    lemma_parts_front(front, t, op);
    lemma_parts_back(front + t, back, op);
}

proof fn lemma_operators()
    ensures
        is_operator("||"@),
        is_operator("&&"@),
        is_operator("=="@),
        is_operator("!="@),
        is_operator(">"@),
        is_operator("<"@),
        "||"@ =~= seq!['|', '|'],
        "&&"@ =~= seq!['&', '&'],
        "=="@ =~= seq!['=', '='],
        "!="@ =~= seq!['!', '='],
        ">"@ =~= seq!['>'],
        "<"@ =~= seq!['<'],
{
    reveal_strlit("||");
    reveal_strlit("&&");
    reveal_strlit("==");
    reveal_strlit("!=");
    reveal_strlit(">");
    reveal_strlit("<");
}

/// An operator stands behind a closed text that holds none and does not end with its character.
proof fn lemma_joined(a: Seq<char>, op: Seq<char>, b: Seq<char>)
    requires
        is_operator(op),
        closed(a),
        operator_in(a, op) is None,
        a.len() == 0 || a.last() != op[0],
    ensures
        operator_in(a + op + b, op) == Some(a.len() as int),
        parts_of(a + op + b, op) == seq![text::trim(a)] + parts_of(b, op),
        closed(a + op),
{
    let x = op + b;
    assert(a + op + b =~= a + x);
    assert(x.skip(0) =~= x);
    assert(op =~= x.subrange(0, op.len() as int));
    assert(x[0] == op[0]);
    assert(open_quote(x, 1) == quote_step(open_quote(x, 0), x[0]));
    assert(stands_at(x, op, 0));
    lemma_operator_is(x, op, 0);
    lemma_operator_behind(a, x, op);
    assert((a + x).take(a.len() as int) =~= a);
    assert((a + x).skip((a.len() + op.len()) as int) =~= b);
    lemma_quote_back(a, op, op.len() as int);
    reveal_with_fuel(open_quote, 3);
}

/// Whether `a` can stand in front of an operator of the character `c`: its quotes are closed, and
/// it does not end with that character.
pub open spec fn stands_before(a: Seq<char>, c: char) -> bool {
    closed(a) && text::trim(a).len() > 0 && a.last() != c
}

/// An alternative: a condition made of two parts with `||` between them comes to what its first
/// part comes to on its own, unless that does not hold, and then to what the second one does.
pub proof fn one_alternative_is_enough(
    a: Seq<char>,
    b: Seq<char>,
    results: Seq<plan::StepView>,
)
    requires
        stands_before(a, '|'),
        operator_in(a, "||"@) is None,
        text::trim(b).len() > 0,
    ensures
        verdict(Some(a), results) == Ok::<bool, Seq<char>>(true) ==> verdict(
            Some(a + "||"@ + b),
            results,
        ) == Ok::<bool, Seq<char>>(true),
        verdict(Some(a), results) == Ok::<bool, Seq<char>>(false) ==> verdict(
            Some(a + "||"@ + b),
            results,
        ) == verdict(Some(b), results),
        verdict(Some(a), results) is Err ==> verdict(Some(a + "||"@ + b), results) == verdict(
            Some(a),
            results,
        ),
{
    lemma_operators();
    let s = a + "||"@ + b;
    lemma_joined(a, "||"@, b);
    lemma_parts_trim(s, "||"@);
    lemma_parts_trim(a, "||"@);
    lemma_parts_trim(b, "||"@);
    let parts = parts_of(s, "||"@);
    let rest = parts_of(b, "||"@);
    assert(rest.len() >= 1);
    assert(parts[0] == text::trim(a));
    assert(parts.drop_first() =~= rest);
    lemma_not_blank(a, "||"@, b);
    let t = text::trim(s);
    assert(t.len() > 0);
    assert(parts_of(text::trim(a), "||"@).len() == 1);
    assert(verdict(Some(a), results) == conjunction(text::trim(a), results));
    if rest.len() == 1 {
        lemma_single_part(b, "||"@);
        assert(rest[0] == text::trim(b));
        assert(rest.drop_first().len() == 0);
        assert(some_holds(rest.drop_first(), results) == Ok::<bool, Seq<char>>(false));
        assert(some_holds(rest, results) == conjunction(text::trim(b), results));
    }
}

proof fn lemma_single_part(s: Seq<char>, op: Seq<char>)
    requires
        is_operator(op),
        parts_of(s, op).len() == 1,
    ensures
        operator_in(s, op) is None,
        parts_of(s, op)[0] == text::trim(s),
{
    lemma_operator(s, op, 0);
    if operator_in(s, op) is Some {
        let i = operator_in(s, op)->0;
        lemma_has_parts(s.skip(i + op.len()), op);
    }
}

proof fn lemma_has_parts(s: Seq<char>, op: Seq<char>)
    ensures
        parts_of(s, op).len() >= 1,
{
}

/// Two texts of which one is not blank are not blank together.
proof fn lemma_not_blank(a: Seq<char>, op: Seq<char>, b: Seq<char>)
    requires
        is_operator(op),
    ensures
        text::trim(a + op + b).len() > 0,
{
    let s = a + op + b;
    let (front, back) = text::lemma_ends(s);
    if text::trim(s).len() == 0 {
        assert(s =~= front + back);
        assert(s[a.len() as int] == op[0]);
        if a.len() < front.len() {
            assert(text::is_space(front[a.len() as int]));
        } else {
            assert(text::is_space(back[a.len() - front.len()]));
        }
    }
}

/// A conjunction: a condition made of two parts with `&&` between them holds only while its first
/// part does on its own, and then comes to what the second one does.
pub proof fn every_requirement_counts(a: Seq<char>, b: Seq<char>, results: Seq<plan::StepView>)
    requires
        stands_before(a, '&'),
        operator_in(a, "&&"@) is None,
        operator_in(a, "||"@) is None,
        operator_in(b, "||"@) is None,
        text::trim(b).len() > 0,
    ensures
        verdict(Some(a), results) == Ok::<bool, Seq<char>>(true) ==> verdict(
            Some(a + "&&"@ + b),
            results,
        ) == verdict(Some(b), results),
        verdict(Some(a), results) == Ok::<bool, Seq<char>>(false) ==> verdict(
            Some(a + "&&"@ + b),
            results,
        ) == Ok::<bool, Seq<char>>(false),
        verdict(Some(a), results) is Err ==> verdict(Some(a + "&&"@ + b), results) == verdict(
            Some(a),
            results,
        ),
{
    lemma_operators();
    let s = a + "&&"@ + b;
    lemma_joined(a, "&&"@, b);
    lemma_not_blank(a, "&&"@, b);
    assert forall|j: int| 0 <= j implies !#[trigger] stands_at("&&"@, "||"@, j) by {
        if stands_at("&&"@, "||"@, j) {
            assert("||"@ =~= "&&"@.skip(j).subrange(0, 2));
            assert("&&"@.skip(j)[0] == '&');
        }
    }
    lemma_no_operator("&&"@, "||"@);
    lemma_operator_behind(a, "&&"@, "||"@);
    lemma_operator_behind(a + "&&"@, b, "||"@);
    lemma_parts_trim(s, "||"@);
    lemma_parts_trim(a, "||"@);
    lemma_parts_trim(b, "||"@);
    lemma_parts_trim(s, "&&"@);
    lemma_parts_trim(a, "&&"@);
    lemma_parts_trim(b, "&&"@);
    let parts = parts_of(s, "&&"@);
    let rest = parts_of(b, "&&"@);
    assert(rest.len() >= 1);
    assert(parts[0] == text::trim(a));
    assert(parts.drop_first() =~= rest);
    if rest.len() == 1 {
        lemma_single_part(b, "&&"@);
        assert(rest[0] == text::trim(b));
        assert(rest.drop_first().len() == 0);
        assert(all_hold(rest.drop_first(), results) == Ok::<bool, Seq<char>>(true));
        assert(all_hold(rest, results) == comparison(text::trim(b), results));
    }
}

/// A step without a condition runs, and so does one whose condition is blank; blanks around a
/// condition do not count.
pub proof fn a_step_without_a_condition_runs(s: Seq<char>, results: Seq<plan::StepView>)
    ensures
        verdict(None, results) == Ok::<bool, Seq<char>>(true),
        text::all_blank(s) ==> verdict(Some(s), results) == Ok::<bool, Seq<char>>(true),
        verdict(Some(s), results) == verdict(Some(text::trim(s)), results),
{
    let none = Seq::<char>::empty();
    text::blanks_around_do_not_count(none, s, none);
    if text::all_blank(s) {
        assert(s =~= s + none + none);
        text::trimming_leaves_the_middle(s, none, none);
    }
}

/// A text that can be an operand: its quotes are closed and no operator stands outside them.
pub open spec fn is_operand(t: Seq<char>) -> bool {
    &&& closed(t)
    &&& operator_in(t, "||"@) is None
    &&& operator_in(t, "&&"@) is None
    &&& operator_in(t, "=="@) is None
    &&& operator_in(t, "!="@) is None
    &&& operator_in(t, ">"@) is None
    &&& operator_in(t, "<"@) is None
}

/// A character that no operator holds.
pub open spec fn is_plain(c: char) -> bool {
    c != '|' && c != '&' && c != '=' && c != '!' && c != '>' && c != '<'
}

/// One operator between two operands is the only one.
proof fn lemma_between(l: Seq<char>, op: Seq<char>, r: Seq<char>, other: Seq<char>)
    requires
        is_operator(op),
        is_operator(other),
        closed(l),
        l.len() > 0,
        r.len() > 0,
        is_plain(l.last()),
        is_plain(r[0]),
        forall|i: int| 0 <= i < op.len() ==> !is_plain(#[trigger] op[i]),
        forall|i: int| 0 <= i < other.len() ==> !is_plain(#[trigger] other[i]),
        operator_in(l, other) is None,
        operator_in(op, other) is None,
        operator_in(r, other) is None,
        closed(op),
    ensures
        operator_in(l + op + r, other) is None,
{
    lemma_operator_behind(l, op, other);
    lemma_quote_back(l, op, op.len() as int);
    assert((l + op).last() == op.last());
    lemma_operator_behind(l + op, r, other);
}

proof fn lemma_distinct(op: Seq<char>, other: Seq<char>)
    requires
        is_operator(op),
        is_operator(other),
        op.len() < other.len() || (op.len() == other.len() && op != other),
    ensures
        operator_in(op, other) is None,
        closed(op),
{
    assert forall|j: int| 0 <= j implies !#[trigger] stands_at(op, other, j) by {
        if stands_at(op, other, j) {
            assert(j == 0);
            assert(op.skip(0) =~= op);
            assert(other =~= op.subrange(0, other.len() as int));
            assert(op.subrange(0, op.len() as int) =~= op);
        }
    }
    lemma_no_operator(op, other);
    reveal_with_fuel(open_quote, 3);
}

/// What a comparison of two operands comes to, once both can be read.
pub proof fn a_comparison_compares(
    l: Seq<char>,
    r: Seq<char>,
    results: Seq<plan::StepView>,
    x: Seq<char>,
    y: Seq<char>,
)
    requires
        is_operand(l),
        is_operand(r),
        l.len() > 0,
        r.len() > 0,
        !text::is_space(l[0]),
        !text::is_space(r.last()),
        is_plain(l.last()),
        is_plain(r[0]),
        operand_value(text::trim(l), results) == Ok::<Seq<char>, Seq<char>>(x),
        operand_value(text::trim(r), results) == Ok::<Seq<char>, Seq<char>>(y),
    ensures
        verdict(Some(l + "=="@ + r), results) == Ok::<bool, Seq<char>>(x == y),
        verdict(Some(l + "!="@ + r), results) == Ok::<bool, Seq<char>>(x != y),
        verdict(Some(l + ">"@ + r), results) == Ok::<bool, Seq<char>>(text::less(y, x)),
        verdict(Some(l + "<"@ + r), results) == Ok::<bool, Seq<char>>(text::less(x, y)),
{
    lemma_operators();
    lemma_compared(l, "=="@, r);
    lemma_compared(l, "!="@, r);
    lemma_compared(l, ">"@, r);
    lemma_compared(l, "<"@, r);
    lemma_other(l, "!="@, r, "=="@);
    lemma_other(l, ">"@, r, "=="@);
    lemma_other(l, ">"@, r, "!="@);
    lemma_other(l, "<"@, r, "=="@);
    lemma_other(l, "<"@, r, "!="@);
    assert("<"@[0] == '<' && ">"@[0] == '>');
    lemma_other(l, "<"@, r, ">"@);
}

proof fn lemma_other(l: Seq<char>, op: Seq<char>, r: Seq<char>, other: Seq<char>)
    requires
        is_operand(l),
        is_operand(r),
        l.len() > 0,
        r.len() > 0,
        is_plain(l.last()),
        is_plain(r[0]),
        op == "=="@ || op == "!="@ || op == ">"@ || op == "<"@,
        other == "=="@ || other == "!="@ || other == ">"@ || other == "||"@ || other == "&&"@,
        op != other,
        !(op == "=="@ && other == ">"@) && !(op == "!="@ && other == ">"@),
    ensures
        operator_in(l + op + r, other) is None,
{
    lemma_operators();
    lemma_distinct(op, other);
    lemma_between(l, op, r, other);
}

proof fn lemma_compared(l: Seq<char>, op: Seq<char>, r: Seq<char>)
    requires
        is_operand(l),
        is_operand(r),
        l.len() > 0,
        r.len() > 0,
        !text::is_space(l[0]),
        !text::is_space(r.last()),
        is_plain(l.last()),
        is_plain(r[0]),
        op == "=="@ || op == "!="@ || op == ">"@ || op == "<"@,
    ensures
        operator_in(l + op + r, op) == Some(l.len() as int),
        forall|results: Seq<plan::StepView>|
            #[trigger] verdict(Some(l + op + r), results) == comparison(l + op + r, results),
        (l + op + r).take(l.len() as int) == l,
        (l + op + r).skip((l.len() + op.len()) as int) == r,
{
    lemma_operators();
    let s = l + op + r;
    lemma_joined(l, op, r);
    lemma_other(l, op, r, "||"@);
    lemma_other(l, op, r, "&&"@);
    let none = Seq::<char>::empty();
    assert(s =~= none + s + none);
    assert(s[0] == l[0] && s.last() == r.last());
    text::trimming_leaves_the_middle(none, s, none);
    assert(s.take(l.len() as int) =~= l);
    assert(s.skip((l.len() + op.len()) as int) =~= r);
    assert(parts_of(s, "||"@).len() == 1);
    assert(parts_of(s, "&&"@).len() == 1);
}

/// A quoted text stands for what is between its quotes.
pub proof fn a_quoted_text_stands_for_itself(inside: Seq<char>, results: Seq<plan::StepView>)
    ensures
        operand_value(seq!['\''] + inside + seq!['\''], results) == Ok::<Seq<char>, Seq<char>>(
            inside,
        ),
        operand_value(seq!['"'] + inside + seq!['"'], results) == Ok::<Seq<char>, Seq<char>>(
            inside,
        ),
{
    let single = seq!['\''] + inside + seq!['\''];
    let double = seq!['"'] + inside + seq!['"'];
    assert(single.subrange(1, single.len() - 1) =~= inside);
    assert(double.subrange(1, double.len() - 1) =~= inside);
}

/// A reference to a step reads that step's own result: the output it gave, or the word for how it
/// ended.
pub proof fn a_reference_reads_its_step(results: Seq<plan::StepView>, i: int)
    requires
        0 <= i < results.len(),
        forall|j: int| 0 <= j < i ==> (#[trigger] results[j]).id != results[i].id,
    ensures
        results[i].output is Some ==> operand_value(
            seq!['$'] + results[i].id + ".output"@,
            results,
        ) == Ok::<Seq<char>, Seq<char>>(results[i].output->0),
        results[i].output is None ==> operand_value(
            seq!['$'] + results[i].id + ".output"@,
            results,
        ) is Err,
        operand_value(seq!['$'] + results[i].id + ".status"@, results) == Ok::<
            Seq<char>,
            Seq<char>,
        >(
            match results[i].status {
                plan::StepStatus::Success => "success"@,
                plan::StepStatus::Failed => "failed"@,
                plan::StepStatus::Skipped => "skipped"@,
            },
        ),
{
    reveal_strlit(".output");
    reveal_strlit(".status");
    reveal_strlit("output");
    reveal_strlit("status");
    assert("output"@.len() == 6 && "status"@.len() == 6);
    assert("output"@[0] == 'o' && "status"@[0] == 's');
    assert(".output"@ =~= seq!['.'] + "output"@);
    assert(".status"@ =~= seq!['.'] + "status"@);
    lemma_field(results[i].id, ".output"@, "output"@);
    lemma_field(results[i].id, ".status"@, "status"@);
    lemma_result_of(results, i);
}

proof fn lemma_field(id: Seq<char>, suffix: Seq<char>, field: Seq<char>)
    requires
        suffix == seq!['.'] + field,
        !field.contains('.'),
    ensures
        ({
            let token = seq!['$'] + id + suffix;
            let name = token.drop_first();
            &&& token[0] == '$'
            &&& literal(token) is None
            &&& name.index_of_last('.') == Some(id.len() as int)
            &&& name.take(id.len() as int) == id
            &&& name.skip(id.len() as int + 1) == field
        }),
{
    let token = seq!['$'] + id + suffix;
    let name = token.drop_first();
    assert(name =~= id + suffix);
    assert(name[id.len() as int] == '.');
    name.index_of_last_ensures('.');
    let k = name.index_of_last('.')->0;
    if k > id.len() {
        assert(name[k] == field[k - id.len() - 1]);
    }
    assert(name.take(id.len() as int) =~= id);
    assert(name.skip(id.len() as int + 1) =~= field);
}

proof fn lemma_result_of(results: Seq<plan::StepView>, i: int)
    requires
        0 <= i < results.len(),
        forall|j: int| 0 <= j < i ==> (#[trigger] results[j]).id != results[i].id,
    ensures
        plan::result_of(results, results[i].id) == Some(results[i]),
    decreases i,
{
    if i > 0 {
        let rest = results.drop_first();
        assert(results[0].id != results[i].id);
        assert forall|j: int| 0 <= j < i - 1 implies (#[trigger] rest[j]).id != rest[i - 1].id by {
            assert(rest[j] == results[j + 1]);
        }
        lemma_result_of(rest, i - 1);
    }
}

/// An operator inside a quoted text is part of the text: no condition is cut there.
pub proof fn no_operator_stands_inside_quotes(quote: char, inside: Seq<char>, op: Seq<char>)
    requires
        quote == '"' || quote == '\'',
        !inside.contains(quote),
        op.len() > 0,
        op[0] != quote,
    ensures
        closed(seq![quote] + inside + seq![quote]),
        operator_in(seq![quote] + inside + seq![quote], op) is None,
        !closed(seq![quote] + inside),
{
    let s = seq![quote] + inside + seq![quote];
    let n = s.len() as int;
    lemma_inside(quote, inside, n - 1);
    assert(s[n - 1] == quote);
    assert forall|i: int| !stands_at(s, op, i) by {
        if 0 <= i && i + op.len() <= n {
            if i < n - 1 {
                lemma_inside(quote, inside, i + 1);
            } else {
                assert(s.skip(i)[0] == quote);
                if op.is_prefix_of(s.skip(i)) {
                    assert(op[0] == s.skip(i)[0]);
                }
            }
        }
    }
    lemma_no_operator(s, op);
    let front = seq![quote] + inside;
    assert(s =~= front + seq![quote]);
    lemma_quote_front(front, seq![quote], n - 1);
}

proof fn lemma_inside(quote: char, inside: Seq<char>, n: int)
    requires
        quote == '"' || quote == '\'',
        !inside.contains(quote),
        1 <= n <= inside.len() + 1,
    ensures
        open_quote(seq![quote] + inside + seq![quote], n) == Some(quote),
    decreases n,
{
    let s = seq![quote] + inside + seq![quote];
    if n == 1 {
        assert(s[0] == quote);
        assert(open_quote(s, 0) is None);
    } else {
        lemma_inside(quote, inside, n - 1);
        assert(s[n - 1] == inside[n - 2]);
    }
}

} // verus!
