//! Deciding, before type checking, whether the type checker handles a
//! module (see `module_checkable`).

use crate::spring::parse_tree::data as pt;
use crate::spring::span::Spanned;
use crate::spring::text_eq;
use crate::spring::type_tree::data::{Pattern, TypeKindV};
use crate::spring::type_tree::rules::{
    arm_patterns, args_distinct, args_scope, arms_reach_call, block_reaches_call, exprs_reach_call,
    first_covers, first_overlap, func_unsupported, has_discard, item_func, items_unsupported,
    module_checkable, reaches_call, statement_reaches_call, statements_reach_call, type_arms_rule,
    type_block_rule, type_expr_rule, type_exprs_rule, type_func_item_rule, type_item_rule,
    type_items_rule, type_statement_rule, type_statements_rule,
};
use vstd::prelude::*;

verus! {

/// No integer pattern repeats an earlier one.
pub open spec fn patterns_distinct(pats: Seq<Spanned<Pattern>>) -> bool {
    forall|i: int, j: int|
        0 <= i < j < pats.len() && (#[trigger] pats[j]).inner is Int ==> (#[trigger] pats[i]).inner != pats[j].inner
}

proof fn lemma_covers(pats: Seq<Spanned<Pattern>>, v: u64)
    ensures
        first_covers(pats).contains_key(v) <==> exists|j: int| 0 <= j < pats.len() && (#[trigger] pats[j]).inner == Pattern::Int(v),
    decreases pats.len(),
{
    if pats.len() > 0 {
        let prev = pats.drop_last();
        lemma_covers(prev, v);
        if exists|j: int| 0 <= j < prev.len() && (#[trigger] prev[j]).inner == Pattern::Int(v) {
            let j = choose|j: int| 0 <= j < prev.len() && (#[trigger] prev[j]).inner == Pattern::Int(v);
            assert(pats[j] == prev[j]);
        }
        if exists|j: int| 0 <= j < pats.len() && (#[trigger] pats[j]).inner == Pattern::Int(v) {
            let j = choose|j: int| 0 <= j < pats.len() && (#[trigger] pats[j]).inner == Pattern::Int(v);
            if j < pats.len() - 1 {
                assert(prev[j] == pats[j]);
            }
        }
    }
}

proof fn lemma_overlap_none(pats: Seq<Spanned<Pattern>>)
    ensures
        first_overlap(pats) is None <==> patterns_distinct(pats),
    decreases pats.len(),
{
    if pats.len() > 0 {
        let prev = pats.drop_last();
        let n = pats.len() - 1;
        lemma_overlap_none(prev);
        if let Pattern::Int(v) = pats.last().inner {
            lemma_covers(prev, v);
        }
        if patterns_distinct(pats) {
            assert forall|i: int, j: int| 0 <= i < j < prev.len() && (#[trigger] prev[j]).inner is Int implies (#[trigger] prev[i]).inner
                != prev[j].inner by {
                assert(pats[i] == prev[i] && pats[j] == prev[j]);
            }
            if let Pattern::Int(v) = pats.last().inner {
                if first_covers(prev).contains_key(v) {
                    let j = choose|j: int| 0 <= j < prev.len() && (#[trigger] prev[j]).inner == Pattern::Int(v);
                    assert(pats[j] == prev[j]);
                    assert(pats[n].inner is Int);
                }
            }
        }
        if first_overlap(pats) is None {
            assert forall|i: int, j: int| 0 <= i < j < pats.len() && (#[trigger] pats[j]).inner is Int implies (#[trigger] pats[i]).inner
                != pats[j].inner by {
                if j < n {
                    assert(pats[i] == prev[i] && pats[j] == prev[j]);
                } else {
                    assert(pats[i] == prev[i]);
                    if pats[i].inner == pats[j].inner {
                        let v = pats[j].inner->Int_0;
                        assert(prev[i].inner == Pattern::Int(v));
                    }
                }
            }
        }
    }
}

/// Whether the integer patterns of `arms` are distinct and a discard is among them.
fn patterns_fine(arms: &Vec<(Spanned<Pattern>, Spanned<pt::Expr<'_>>)>) -> (b: bool)
    ensures
        b == (first_overlap(arm_patterns(arms@)) is None && has_discard(arm_patterns(arms@))),
{
    let ghost pats = arm_patterns(arms@);
    proof {
        lemma_overlap_none(pats);
    }
    let mut discard = false;
    let mut j: usize = 0;
    while j < arms.len()
        invariant
            pats == arm_patterns(arms@),
            j <= arms@.len(),
            discard == exists|x: int| 0 <= x < j && (#[trigger] pats[x]).inner == Pattern::Discard,
            forall|a: int, b: int| 0 <= a < b < j && (#[trigger] pats[b]).inner is Int ==> (#[trigger] pats[a]).inner != pats[b].inner,
        decreases arms@.len() - j,
    {
        let pj = arms[j].0.inner;
        match pj {
            Pattern::Int(v) => {
                let mut a: usize = 0;
                while a < j
                    invariant
                        pats == arm_patterns(arms@),
                        a <= j < arms@.len(),
                        pj == pats[j as int].inner,
                        pj == Pattern::Int(v),
                        forall|x: int| 0 <= x < a ==> (#[trigger] pats[x]).inner != pj,
                    decreases j - a,
                {
                    let same = match arms[a].0.inner {
                        Pattern::Int(w) => w == v,
                        Pattern::Discard => false,
                    };
                    if same {
                        proof {
                            assert(pats[a as int] == arms@[a as int].0);
                            assert(pats[a as int].inner == pats[j as int].inner);
                            assert(pats[j as int].inner is Int);
                            assert(!patterns_distinct(pats));
                            lemma_overlap_none(pats);
                        }
                        return false;
                    }
                    a = a + 1;
                }
            },
            Pattern::Discard => {
                discard = true;
            },
        }
        proof {
            assert(pats[j as int].inner == pj);
        }
        j = j + 1;
    }
    discard
}

/// Whether type checking `e` in `scope` gives a typed expression, and
/// whether it reaches a function call.
fn scan_expr(e: &Spanned<pt::Expr<'_>>, Ghost(scope): Ghost<Map<Seq<char>, TypeKindV>>) -> (r: (bool, bool))
    ensures
        r.0 == (type_expr_rule(*e, scope).0 is Some),
        r.1 == reaches_call(*e, scope),
    decreases *e, 1int,
{
    match &e.inner {
        pt::Expr::BinOp(b) => {
            let ghost x = e.inner->BinOp_0;
            proof {
                assert(decreases_to!(*e => e.inner));
                assert(decreases_to!(e.inner => x));
                assert(decreases_to!(x => x.lhs));
                assert(decreases_to!(x => x.rhs));
            }
            let (lok, lreach) = scan_expr(&*b.lhs, Ghost(scope));
            let (rok, rreach) = scan_expr(&*b.rhs, Ghost(scope));
            (lok && rok, lreach || (lok && rreach))
        },
        pt::Expr::Match(m) => {
            let ghost x = e.inner->Match_0;
            proof {
                assert(decreases_to!(*e => e.inner));
                assert(decreases_to!(e.inner => x));
                assert(decreases_to!(x => x.scrutinee));
                assert(decreases_to!(x => x.arms));
            }
            let (sok, sreach) = scan_expr(&*m.scrutinee, Ghost(scope));
            let (aok, areach) = scan_arms(&m.arms, Ghost(scope));
            let fine = patterns_fine(&m.arms);
            (sok && aok && fine, sreach || (sok && areach))
        },
        pt::Expr::MacroCall(c) => {
            let ghost x = e.inner->MacroCall_0;
            proof {
                assert(decreases_to!(*e => e.inner));
                assert(decreases_to!(e.inner => x));
                assert(decreases_to!(x => x.args));
            }
            scan_exprs(&c.args, Ghost(scope))
        },
        pt::Expr::FuncCall(_) => (false, true),
        _ => (true, false),
    }
}

fn scan_exprs(es: &Vec<Spanned<pt::Expr<'_>>>, Ghost(scope): Ghost<Map<Seq<char>, TypeKindV>>) -> (r: (bool, bool))
    ensures
        r.0 == (type_exprs_rule(es@, scope).0 is Some),
        r.1 == exprs_reach_call(es@, scope),
    decreases *es, 0int,
{
    let ghost s = es@;
    let mut ok = true;
    let mut reach = false;
    let mut k: usize = 0;
    proof {
        assert(s.take(0) =~= Seq::<Spanned<pt::Expr>>::empty());
    }
    while k < es.len()
        invariant
            s == es@,
            k <= s.len(),
            ok == (type_exprs_rule(s.take(k as int), scope).0 is Some),
            reach == exprs_reach_call(s.take(k as int), scope),
            forall|j: int| 0 <= j < s.len() ==> decreases_to!(*es => #[trigger] s[j]),
        decreases s.len() - k,
    {
        proof {
            assert(s.take(k + 1).drop_last() =~= s.take(k as int));
            assert(s.take(k + 1).last() == s[k as int]);
        }
        let (eok, ereach) = scan_expr(&es[k], Ghost(scope));
        reach = reach || (ok && ereach);
        ok = ok && eok;
        k = k + 1;
    }
    proof {
        assert(s.take(s.len() as int) =~= s);
    }
    (ok, reach)
}

fn scan_arms(arms: &Vec<(Spanned<Pattern>, Spanned<pt::Expr<'_>>)>, Ghost(scope): Ghost<Map<Seq<char>, TypeKindV>>) -> (r: (
    bool,
    bool,
))
    ensures
        r.0 == (type_arms_rule(arms@, scope).0 is Some),
        r.1 == arms_reach_call(arms@, scope),
    decreases *arms, 0int,
{
    let ghost s = arms@;
    proof {
        assert forall|j: int| 0 <= j < s.len() implies decreases_to!(*arms => (#[trigger] s[j]).1) by {
            assert(decreases_to!(*arms => s));
            assert(decreases_to!(s => s[j]));
            assert(decreases_to!(s[j] => s[j].1));
        }
    }
    let mut ok = true;
    let mut reach = false;
    let mut k: usize = 0;
    proof {
        assert(s.take(0) =~= Seq::<(Spanned<Pattern>, Spanned<pt::Expr>)>::empty());
    }
    while k < arms.len()
        invariant
            s == arms@,
            k <= s.len(),
            ok == (type_arms_rule(s.take(k as int), scope).0 is Some),
            reach == arms_reach_call(s.take(k as int), scope),
            forall|j: int| 0 <= j < s.len() ==> decreases_to!(*arms => (#[trigger] s[j]).1),
        decreases s.len() - k,
    {
        proof {
            assert(s.take(k + 1).drop_last() =~= s.take(k as int));
            assert(s.take(k + 1).last() == s[k as int]);
        }
        let (eok, ereach) = scan_expr(&arms[k].1, Ghost(scope));
        reach = reach || (ok && ereach);
        ok = ok && eok;
        k = k + 1;
    }
    proof {
        assert(s.take(s.len() as int) =~= s);
    }
    (ok, reach)
}

/// Whether type checking `block` in `scope` gives a typed block, and whether
/// it reaches a function call.
fn scan_block(block: &Spanned<pt::Block<'_>>, Ghost(scope): Ghost<Map<Seq<char>, TypeKindV>>) -> (r: (bool, bool))
    ensures
        r.0 == (type_block_rule(*block, scope).0 is Some),
        r.1 == block_reaches_call(block.inner, scope),
{
    let ghost s = block.inner.body@;
    let mut ok = true;
    let mut reach = false;
    let mut k: usize = 0;
    proof {
        assert(s.take(0) =~= Seq::<Spanned<pt::Statement>>::empty());
    }
    while k < block.inner.body.len()
        invariant
            s == block.inner.body@,
            k <= s.len(),
            ok == (type_statements_rule(s.take(k as int), scope).0 is Some),
            reach == statements_reach_call(s.take(k as int), scope),
        decreases s.len() - k,
    {
        proof {
            assert(s.take(k + 1).drop_last() =~= s.take(k as int));
            assert(s.take(k + 1).last() == s[k as int]);
        }
        let (sok, sreach) = match &block.inner.body[k].inner {
            pt::Statement::Expr(e) => scan_expr(e, Ghost(scope)),
        };
        proof {
            assert(sok == (type_statement_rule(s[k as int], scope).0 is Some));
            assert(sreach == statement_reaches_call(s[k as int], scope));
        }
        reach = reach || (ok && sreach);
        ok = ok && sok;
        k = k + 1;
    }
    proof {
        assert(s.take(s.len() as int) =~= s);
    }
    match &block.inner.trailing.inner {
        Some(t) => {
            let (tok, treach) = scan_expr(t, Ghost(scope));
            (ok && tok, reach || (ok && treach))
        },
        None => (ok, reach),
    }
}

/// Whether no two arguments share a name.
fn distinct_args(args: &Vec<pt::Argument<'_>>) -> (b: bool)
    ensures
        b == args_distinct(args@),
{
    let mut j: usize = 0;
    while j < args.len()
        invariant
            j <= args@.len(),
            forall|a: int, b: int| 0 <= a < b < j ==> (#[trigger] args@[a]).name.inner.0@ != (#[trigger] args@[b]).name.inner.0@,
        decreases args@.len() - j,
    {
        let mut a: usize = 0;
        while a < j
            invariant
                a <= j < args@.len(),
                forall|x: int| 0 <= x < a ==> (#[trigger] args@[x]).name.inner.0@ != args@[j as int].name.inner.0@,
            decreases j - a,
        {
            if text_eq(args[a].name.inner.0, args[j].name.inner.0) {
                return false;
            }
            a = a + 1;
        }
        j = j + 1;
    }
    true
}

/// Whether the module is one the type checker handles (see `module_checkable`).
pub fn checkable(module: &Spanned<pt::Module<'_>>) -> (b: bool)
    ensures
        b == module_checkable(module.inner),
{
    let ghost items = module.inner.items@;
    let mut j: usize = 0;
    while j < module.inner.items.len()
        invariant
            items == module.inner.items@,
            j <= items.len(),
            forall|a: int, b: int|
                0 <= a < b < j ==> item_func(#[trigger] items[a]).name.inner.0@ != item_func(#[trigger] items[b]).name.inner.0@,
        decreases items.len() - j,
    {
        let mut a: usize = 0;
        while a < j
            invariant
                items == module.inner.items@,
                a <= j < items.len(),
                forall|x: int| 0 <= x < a ==> item_func(#[trigger] items[x]).name.inner.0@ != item_func(items[j as int]).name.inner.0@,
            decreases j - a,
        {
            let same = match (&module.inner.items[a].inner, &module.inner.items[j].inner) {
                (pt::Item::Func(f), pt::Item::Func(g)) => text_eq(f.name.inner.0, g.name.inner.0),
            };
            if same {
                return false;
            }
            a = a + 1;
        }
        j = j + 1;
    }
    let mut ok = true;
    let mut unsupported = false;
    let mut k: usize = 0;
    proof {
        assert(items.take(0) =~= Seq::<Spanned<pt::Item>>::empty());
    }
    while k < module.inner.items.len()
        invariant
            items == module.inner.items@,
            k <= items.len(),
            ok == (type_items_rule(items.take(k as int)).0 is Some),
            unsupported == items_unsupported(items.take(k as int)),
        decreases items.len() - k,
    {
        proof {
            assert(items.take(k + 1).drop_last() =~= items.take(k as int));
            assert(items.take(k + 1).last() == items[k as int]);
        }
        let (fok, funsupported) = match &module.inner.items[k].inner {
            pt::Item::Func(f) => {
                let distinct = distinct_args(&f.args.inner);
                let (bok, breach) = scan_block(&f.body, Ghost(args_scope(f.args.inner@)));
                (bok, !distinct || breach)
            },
        };
        proof {
            assert(fok == (type_item_rule(items[k as int]).0 is Some));
            assert(funsupported == func_unsupported(item_func(items[k as int])));
        }
        unsupported = unsupported || (ok && funsupported);
        ok = ok && fok;
        k = k + 1;
    }
    proof {
        assert(items.take(items.len() as int) =~= items);
    }
    !unsupported
}

} // verus!
