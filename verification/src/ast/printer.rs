use vstd::prelude::*;

use crate::ast::expressions::Expr;
use crate::text::{push_char, push_str};
use crate::token::literal_text;

verus! {

/// The parts, each preceded by a single space.
pub open spec fn spaced(parts: Seq<Seq<char>>) -> Seq<char>
    decreases parts.len(),
{
    if parts.len() == 0 {
        Seq::empty()
    } else {
        spaced(parts.drop_last()) + seq![' '] + parts.last()
    }
}

/// `(name part1 part2 ...)`
pub open spec fn wrapped(name: Seq<char>, parts: Seq<Seq<char>>) -> Seq<char> {
    seq!['('] + name + spaced(parts) + seq![')']
}

/// How an expression is printed: as a parenthesised prefix form, such as
/// `(+ (group 1) (- 2))`.
pub open spec fn printed(e: Expr) -> Seq<char>
    decreases e,
{
    match e {
        Expr::Binary { left, right, operator } => wrapped(operator.lexeme@, seq![printed(*left), printed(*right)]),
        Expr::Unary { operator, right } => wrapped(operator.lexeme@, seq![printed(*right)]),
        Expr::Grouping { expression } => wrapped("group"@, seq![printed(*expression)]),
        Expr::Literal { value } => literal_text(value@),
        Expr::Assign { name, value } => wrapped(name.lexeme@, seq![printed(*value)]),
        Expr::Logical { left, operator, right } => wrapped(operator.lexeme@, seq![printed(*left), printed(*right)]),
        Expr::FunctionCall { callee, arguments, .. } => wrapped(
            "call"@,
            seq![printed(*callee)] + printed_all(arguments@),
        ),
        Expr::Get { object, name } => wrapped(name.lexeme@, seq![printed(*object)]),
        Expr::SetProperty { object, name, value } => wrapped(name.lexeme@, seq![printed(*object), printed(*value)]),
        Expr::Super { method, .. } => wrapped("super"@, seq![method.lexeme@]),
        Expr::Variable { name } => name.lexeme@,
        Expr::This { keyword } => keyword.lexeme@,
    }
}

/// Each expression printed, in order.
pub open spec fn printed_all(es: Seq<Expr>) -> Seq<Seq<char>>
    decreases es,
{
    if es.len() == 0 {
        Seq::empty()
    } else {
        printed_all(es.drop_last()).push(printed(es.last()))
    }
}

proof fn lemma_printed_all(es: Seq<Expr>)
    ensures
        printed_all(es).len() == es.len(),
        forall|m: int| 0 <= m < es.len() ==> #[trigger] printed_all(es)[m] == printed(es[m]),
    decreases es.len(),
{
    if es.len() > 0 {
        lemma_printed_all(es.drop_last());
    }
}

/// One part, preceded by a space.
proof fn lemma_spaced_one(x: Seq<char>)
    ensures
        spaced(seq![x]) == seq![' '] + x,
{
    assert(seq![x].drop_last() =~= Seq::<Seq<char>>::empty());
    assert(spaced(Seq::<Seq<char>>::empty()) =~= Seq::<char>::empty());
    assert(seq![x].last() == x);
    assert(spaced(seq![x]) =~= seq![' '] + x);
}

/// Two parts, each preceded by a space.
proof fn lemma_spaced_two(x: Seq<char>, y: Seq<char>)
    ensures
        spaced(seq![x, y]) == seq![' '] + x + seq![' '] + y,
{
    assert(seq![x, y].drop_last() =~= seq![x]);
    lemma_spaced_one(x);
    assert(spaced(seq![x, y]) =~= seq![' '] + x + seq![' '] + y);
}

/// The printed form of each kind of expression: an operator, a name or
/// `group`/`call`/`super` first, then its parts, each after a single
/// space, all inside one pair of parentheses; a variable or `this` is its
/// lexeme, a literal is written as `{:?}` writes it.
pub proof fn lemma_printed_forms(e: Expr)
    ensures
        match e {
            Expr::Binary { left, right, operator } => printed(e) == seq!['('] + operator.lexeme@ + seq![' ']
                + printed(*left) + seq![' '] + printed(*right) + seq![')'],
            Expr::Logical { left, operator, right } => printed(e) == seq!['('] + operator.lexeme@ + seq![' ']
                + printed(*left) + seq![' '] + printed(*right) + seq![')'],
            Expr::SetProperty { object, name, value } => printed(e) == seq!['('] + name.lexeme@ + seq![' ']
                + printed(*object) + seq![' '] + printed(*value) + seq![')'],
            Expr::Unary { operator, right } => printed(e) == seq!['('] + operator.lexeme@ + seq![' '] + printed(
                *right,
            ) + seq![')'],
            Expr::Grouping { expression } => printed(e) == "(group "@ + printed(*expression) + seq![')'],
            Expr::Assign { name, value } => printed(e) == seq!['('] + name.lexeme@ + seq![' '] + printed(*value)
                + seq![')'],
            Expr::Get { object, name } => printed(e) == seq!['('] + name.lexeme@ + seq![' '] + printed(*object)
                + seq![')'],
            Expr::Super { method, .. } => printed(e) == "(super "@ + method.lexeme@ + seq![')'],
            Expr::FunctionCall { callee, arguments, .. } => arguments@.len() == 0 ==> printed(e) == "(call "@
                + printed(*callee) + seq![')'],
            Expr::Literal { value } => printed(e) == literal_text(value@),
            Expr::Variable { name } => printed(e) == name.lexeme@,
            Expr::This { keyword } => printed(e) == keyword.lexeme@,
        },
{
    reveal_strlit("group");
    reveal_strlit("(group ");
    reveal_strlit("super");
    reveal_strlit("(super ");
    reveal_strlit("call");
    reveal_strlit("(call ");
    match e {
        Expr::Binary { left, right, operator } => {
            lemma_spaced_two(printed(*left), printed(*right));
            assert(printed(e) =~= seq!['('] + operator.lexeme@ + seq![' '] + printed(*left) + seq![' ']
                + printed(*right) + seq![')']);
        },
        Expr::Logical { left, operator, right } => {
            lemma_spaced_two(printed(*left), printed(*right));
            assert(printed(e) =~= seq!['('] + operator.lexeme@ + seq![' '] + printed(*left) + seq![' ']
                + printed(*right) + seq![')']);
        },
        Expr::SetProperty { object, name, value } => {
            lemma_spaced_two(printed(*object), printed(*value));
            assert(printed(e) =~= seq!['('] + name.lexeme@ + seq![' '] + printed(*object) + seq![' ']
                + printed(*value) + seq![')']);
        },
        Expr::Unary { operator, right } => {
            lemma_spaced_one(printed(*right));
            assert(printed(e) =~= seq!['('] + operator.lexeme@ + seq![' '] + printed(*right) + seq![')']);
        },
        Expr::Grouping { expression } => {
            lemma_spaced_one(printed(*expression));
            assert(printed(e) =~= "(group "@ + printed(*expression) + seq![')']);
        },
        Expr::Assign { name, value } => {
            lemma_spaced_one(printed(*value));
            assert(printed(e) =~= seq!['('] + name.lexeme@ + seq![' '] + printed(*value) + seq![')']);
        },
        Expr::Get { object, name } => {
            lemma_spaced_one(printed(*object));
            assert(printed(e) =~= seq!['('] + name.lexeme@ + seq![' '] + printed(*object) + seq![')']);
        },
        Expr::Super { method, .. } => {
            lemma_spaced_one(method.lexeme@);
            assert(printed(e) =~= "(super "@ + method.lexeme@ + seq![')']);
        },
        Expr::FunctionCall { callee, arguments, .. } => {
            if arguments@.len() == 0 {
                assert(printed_all(arguments@) =~= Seq::<Seq<char>>::empty());
                assert(seq![printed(*callee)] + printed_all(arguments@) =~= seq![printed(*callee)]);
                lemma_spaced_one(printed(*callee));
                assert(printed(e) =~= "(call "@ + printed(*callee) + seq![')']);
            }
        },
        _ => {},
    }
}

/// Prints an expression in parenthesised prefix form, such as
/// `(+ (group 1) (- 2))`.
pub fn print_expression(expr: &Expr) -> (s: String)
    ensures
        s@ == printed(*expr),
    decreases expr, 1nat,
{
    match expr {
        Expr::Binary { left, right, operator } => {
            let parts: Vec<&Expr> = vec![&**left, &**right];
            assert(parts@.map_values(|r: &Expr| printed(*r)) =~= seq![printed(**left), printed(**right)]);
            parenthesise(operator.lexeme.as_str(), parts.as_slice(), Ghost(expr))
        },
        Expr::Unary { operator, right } => {
            let parts: Vec<&Expr> = vec![&**right];
            assert(parts@.map_values(|r: &Expr| printed(*r)) =~= seq![printed(**right)]);
            parenthesise(operator.lexeme.as_str(), parts.as_slice(), Ghost(expr))
        },
        Expr::Grouping { expression } => {
            let parts: Vec<&Expr> = vec![&**expression];
            assert(parts@.map_values(|r: &Expr| printed(*r)) =~= seq![printed(**expression)]);
            parenthesise("group", parts.as_slice(), Ghost(expr))
        },
        Expr::Literal { value } => value.debug_string(),
        Expr::Assign { name, value } => {
            let parts: Vec<&Expr> = vec![&**value];
            assert(parts@.map_values(|r: &Expr| printed(*r)) =~= seq![printed(**value)]);
            parenthesise(name.lexeme.as_str(), parts.as_slice(), Ghost(expr))
        },
        Expr::Logical { left, operator, right } => {
            let parts: Vec<&Expr> = vec![&**left, &**right];
            assert(parts@.map_values(|r: &Expr| printed(*r)) =~= seq![printed(**left), printed(**right)]);
            parenthesise(operator.lexeme.as_str(), parts.as_slice(), Ghost(expr))
        },
        Expr::FunctionCall { callee, arguments, .. } => {
            let mut refs: Vec<&Expr> = vec![&**callee];
            let mut k: usize = 0;
            while k < arguments.len()
                invariant
                    k <= arguments@.len(),
                    refs@.len() == k + 1,
                    refs@[0] == &**callee,
                    forall|m: int| 0 <= m < k ==> refs@[m + 1] == &arguments@[m],
                decreases arguments@.len() - k,
            {
                refs.push(&arguments[k]);
                k = k + 1;
            }
            proof {
                lemma_printed_all(arguments@);
                assert(refs@.map_values(|r: &Expr| printed(*r)) =~= seq![printed(**callee)] + printed_all(arguments@));
                assert forall|m: int| 0 <= m < refs@.len() implies decreases_to!(*expr => *#[trigger] refs@[m]) by {
                    if m > 0 {
                        assert(decreases_to!(*expr => *arguments));
                        assert(decreases_to!(*arguments => arguments@));
                        assert(decreases_to!(arguments@ => arguments@[m - 1]));
                    }
                }
            }
            parenthesise("call", refs.as_slice(), Ghost(expr))
        },
        Expr::Get { object, name } => {
            let parts: Vec<&Expr> = vec![&**object];
            assert(parts@.map_values(|r: &Expr| printed(*r)) =~= seq![printed(**object)]);
            parenthesise(name.lexeme.as_str(), parts.as_slice(), Ghost(expr))
        },
        Expr::SetProperty { object, name, value } => {
            let parts: Vec<&Expr> = vec![&**object, &**value];
            assert(parts@.map_values(|r: &Expr| printed(*r)) =~= seq![printed(**object), printed(**value)]);
            parenthesise(name.lexeme.as_str(), parts.as_slice(), Ghost(expr))
        },
        Expr::Super { method, .. } => {
            let mut res = String::new();
            push_char(&mut res, '(');
            push_str(&mut res, "super");
            push_char(&mut res, ' ');
            push_str(&mut res, method.lexeme.as_str());
            push_char(&mut res, ')');
            proof {
                let parts = seq![method.lexeme@];
                assert(parts.drop_last() =~= Seq::<Seq<char>>::empty());
                assert(spaced(parts.drop_last()) =~= Seq::<char>::empty());
                assert(parts.last() == method.lexeme@);
                assert(spaced(parts) =~= seq![' '] + method.lexeme@);
                assert(res@ =~= wrapped("super"@, seq![method.lexeme@]));
            }
            res
        },
        Expr::Variable { name } => name.lexeme.clone(),
        Expr::This { keyword } => keyword.lexeme.clone(),
    }
}

/// `(name e1 e2 ...)`, each expression printed by [`print_expression`].
fn parenthesise(name: &str, exprs: &[&Expr], Ghost(whole): Ghost<&Expr>) -> (s: String)
    requires
        forall|k: int| 0 <= k < exprs@.len() ==> decreases_to!(*whole => *#[trigger] exprs@[k]),
    ensures
        s@ == wrapped(name@, exprs@.map_values(|r: &Expr| printed(*r))),
    decreases *whole, 0nat,
{
    let mut res = String::new();
    push_char(&mut res, '(');
    push_str(&mut res, name);
    let mut k: usize = 0;
    while k < exprs.len()
        invariant
            k <= exprs@.len(),
            forall|m: int| 0 <= m < exprs@.len() ==> decreases_to!(*whole => *#[trigger] exprs@[m]),
            res@ == seq!['('] + name@ + spaced(exprs@.take(k as int).map_values(|r: &Expr| printed(*r))),
        decreases exprs@.len() - k,
    {
        let part = print_expression(exprs[k]);
        push_char(&mut res, ' ');
        push_str(&mut res, part.as_str());
        proof {
            let before = exprs@.take(k as int).map_values(|r: &Expr| printed(*r));
            let after = exprs@.take(k + 1).map_values(|r: &Expr| printed(*r));
            assert(after.drop_last() =~= before);
        }
        k = k + 1;
    }
    push_char(&mut res, ')');
    proof {
        assert(exprs@.take(k as int) =~= exprs@);
    }
    res
}

} // verus!
