use vstd::prelude::*;

use crate::automata::line_counter::Span;
use crate::automata::read_error::ReadError;
use crate::parser::ast::{type_text, Block, Else, ElseVal, Exp, ExpVal, Function, StaticType, StaticTypeV};
use crate::text::cat3;
use super::data::{compatible, is_compatible};

verus! {

/// The message for a `return` without a value where a value was expected.
pub open spec fn missing_value_text(expected: StaticTypeV) -> Seq<char> {
    "Mismatching return types, found nothing, expected: '"@ + type_text(expected) + "'"@
}

/// The message for a `return` whose value has the wrong type.
pub open spec fn wrong_value_text(found: StaticTypeV, expected: StaticTypeV) -> Seq<char> {
    "Mismatching return types, found: '"@ + type_text(found) + "', expected: '"@ + type_text(expected) + "'"@
}

/// What a `return` written at `span`, with the value `found`, gives against
/// the type expected: `None` when it fits, else the region and the message
/// of the error.
pub open spec fn return_err<'a>(span: Span<'a>, found: Option<Exp<'a>>, expected: StaticTypeV) -> Option<(Span<'a>, Seq<char>)> {
    match found {
        None => if expected != StaticTypeV::Any && expected != StaticTypeV::Nothing {
            Some((span, missing_value_text(expected)))
        } else {
            None
        },
        Some(x) => if !compatible(x.static_ty@, expected) {
            Some((x.span, wrong_value_text(x.static_ty@, expected)))
        } else {
            None
        },
    }
}

/// The first `return` in an expression, in the order of reading, that does
/// not fit the type expected. The values returned, the places assigned and
/// the repeated blocks of `n[...]` are not looked into, nor the variables.
pub open spec fn returns_err<'a>(e: Exp<'a>, t: StaticTypeV) -> Option<(Span<'a>, Seq<char>)>
    decreases e, 0int,
{
    proof {
        assert(decreases_to!(e => e.val));
    }
    match *e.val {
        ExpVal::Return(r) => return_err(e.span, r, t),
        ExpVal::Assign(_, x) => returns_err(x, t),
        ExpVal::BinOp(_, a, b) => match returns_err(a, t) {
            Some(err) => Some(err),
            None => returns_err(b, t),
        },
        ExpVal::UnaryOp(_, x) => returns_err(x, t),
        ExpVal::Call(_, es) => {
            proof {
                assert(decreases_to!(es => es@));
            }
            returns_err_list(es@, es@.len() as int, t)
        },
        ExpVal::Block(b) => {
            proof {
                assert(decreases_to!(b => b.val));
                assert(decreases_to!(b.val => b.val@));
            }
            returns_err_list(b.val@, b.val@.len() as int, t)
        },
        ExpVal::LMul(_, b) => {
            proof {
                assert(decreases_to!(b => b.val));
                assert(decreases_to!(b.val => b.val@));
            }
            returns_err_list(b.val@, b.val@.len() as int, t)
        },
        ExpVal::For(_, _, b) => {
            proof {
                assert(decreases_to!(b => b.val));
                assert(decreases_to!(b.val => b.val@));
            }
            returns_err_list(b.val@, b.val@.len() as int, t)
        },
        ExpVal::RMul(x, _) => returns_err(x, t),
        ExpVal::If(c, b, u) => {
            proof {
                assert(decreases_to!(b => b.val));
                assert(decreases_to!(b.val => b.val@));
            }
            match returns_err(c, t) {
                Some(err) => Some(err),
                None => match returns_err_list(b.val@, b.val@.len() as int, t) {
                    Some(err) => Some(err),
                    None => returns_err_else(u, t),
                },
            }
        },
        ExpVal::While(c, b) => {
            proof {
                assert(decreases_to!(b => b.val));
                assert(decreases_to!(b.val => b.val@));
            }
            match returns_err(c, t) {
                Some(err) => Some(err),
                None => returns_err_list(b.val@, b.val@.len() as int, t),
            }
        },
        _ => None,
    }
}

/// The first faulty `return` among the first `k` expressions of a list.
pub open spec fn returns_err_list<'a>(s: Seq<Exp<'a>>, k: int, t: StaticTypeV) -> Option<(Span<'a>, Seq<char>)>
    decreases s, k,
{
    if k <= 0 || k > s.len() {
        None
    } else {
        match returns_err_list(s, k - 1, t) {
            Some(err) => Some(err),
            None => returns_err(s[k - 1], t),
        }
    }
}

/// The first faulty `return` in the branches of an `else`.
pub open spec fn returns_err_else<'a>(u: Else<'a>, t: StaticTypeV) -> Option<(Span<'a>, Seq<char>)>
    decreases u, 0int,
{
    proof {
        assert(decreases_to!(u => u.val));
    }
    match *u.val {
        ElseVal::End => None,
        ElseVal::Else(b) => {
            proof {
                assert(decreases_to!(b => b.val));
                assert(decreases_to!(b.val => b.val@));
            }
            returns_err_list(b.val@, b.val@.len() as int, t)
        },
        ElseVal::ElseIf(c, b, rest) => {
            proof {
                assert(decreases_to!(b => b.val));
                assert(decreases_to!(b.val => b.val@));
            }
            match returns_err(c, t) {
                Some(err) => Some(err),
                None => match returns_err_list(b.val@, b.val@.len() as int, t) {
                    Some(err) => Some(err),
                    None => returns_err_else(rest, t),
                },
            }
        },
    }
}

/// The error matches the region and message, or there is none.
pub open spec fn result_is<'a>(r: Result<(), ReadError<'a>>, err: Option<(Span<'a>, Seq<char>)>) -> bool {
    match r {
        Ok(_) => err is None,
        Err(e) => err == Some((e.spec_span(), e.spec_message())),
    }
}

fn fail<'a>(span: Span<'a>, message: String) -> (r: Result<(), ReadError<'a>>)
    ensures
        result_is(r, Some((span, message@))),
{
    Err(ReadError::from((span, message)))
}

fn verify_return_type<'a>(span: Span<'a>, found: Option<&Exp<'a>>, expected: &StaticType) -> (r: Result<(), ReadError<'a>>)
    ensures
        result_is(
            r,
            return_err(
                span,
                match found {
                    None => None,
                    Some(x) => Some(*x),
                },
                expected@,
            ),
        ),
{
    proof {
        reveal_strlit("Mismatching return types, found nothing, expected: '");
        reveal_strlit("'");
        reveal_strlit("Mismatching return types, found: '");
        reveal_strlit("', expected: '");
    }
    match found {
        None => {
            let is_any = match expected {
                StaticType::Any => true,
                _ => false,
            };
            let is_nothing = match expected {
                StaticType::Nothing => true,
                _ => false,
            };
            if !is_any && !is_nothing {
                let t = expected.to_string();
                fail(span, cat3("Mismatching return types, found nothing, expected: '", t.as_str(), "'"))
            } else {
                Ok(())
            }
        },
        Some(x) => {
            if !is_compatible(x.static_ty.duplicate(), expected.duplicate()) {
                let f = x.static_ty.to_string();
                let t = expected.to_string();
                let mut m = cat3("Mismatching return types, found: '", f.as_str(), "', expected: '");
                m.append(t.as_str());
                m.append("'");
                fail(x.span, m)
            } else {
                Ok(())
            }
        },
    }
}

proof fn lemma_err_list_stays<'a>(s: Seq<Exp<'a>>, j: int, k: int, t: StaticTypeV)
    requires
        0 <= j <= k <= s.len(),
        returns_err_list(s, j, t) is Some,
    ensures
        returns_err_list(s, k, t) == returns_err_list(s, j, t),
    decreases k - j,
{
    if k > j {
        lemma_err_list_stays(s, j, k - 1, t);
    }
}

fn visit_list<'a>(s: &Vec<Exp<'a>>, expected: &StaticType) -> (r: Result<(), ReadError<'a>>)
    ensures
        result_is(r, returns_err_list(s@, s@.len() as int, expected@)),
    decreases s, 0int,
{
    let mut i: usize = 0;
    while i < s.len()
        invariant
            i <= s.len(),
            returns_err_list(s@, i as int, expected@) is None,
        decreases s.len() - i,
    {
        proof {
            assert(decreases_to!(s => s@));
            assert(decreases_to!(s@ => s@[i as int]));
        }
        let r = visit_returns(&s[i], expected);
        if r.is_err() {
            proof {
                lemma_err_list_stays(s@, i + 1, s@.len() as int, expected@);
            }
            return r;
        }
        i = i + 1;
    }
    Ok(())
}

fn visit_else_returns<'a>(u: &Else<'a>, expected: &StaticType) -> (r: Result<(), ReadError<'a>>)
    ensures
        result_is(r, returns_err_else(*u, expected@)),
    decreases u, 0int,
{
    proof {
        assert(decreases_to!(u => u.val));
    }
    match &*u.val {
        ElseVal::End => Ok(()),
        ElseVal::Else(b) => {
            proof {
                assert(decreases_to!(b => b.val));
            }
            visit_list(&b.val, expected)
        },
        ElseVal::ElseIf(c, b, rest) => {
            proof {
                assert(decreases_to!(b => b.val));
            }
            let r = visit_returns(c, expected);
            if r.is_err() {
                return r;
            }
            let r = visit_list(&b.val, expected);
            if r.is_err() {
                return r;
            }
            visit_else_returns(rest, expected)
        },
    }
}

fn visit_returns<'a>(e: &Exp<'a>, expected: &StaticType) -> (r: Result<(), ReadError<'a>>)
    ensures
        result_is(r, returns_err(*e, expected@)),
    decreases e, 0int,
{
    proof {
        assert(decreases_to!(e => e.val));
    }
    match &*e.val {
        ExpVal::Return(r) => {
            let found = match r {
                None => None,
                Some(x) => Some(x),
            };
            verify_return_type(e.span, found, expected)
        },
        ExpVal::Assign(_, x) => visit_returns(x, expected),
        ExpVal::BinOp(_, a, b) => {
            let r = visit_returns(a, expected);
            if r.is_err() {
                return r;
            }
            visit_returns(b, expected)
        },
        ExpVal::UnaryOp(_, x) => visit_returns(x, expected),
        ExpVal::Call(_, es) => visit_list(es, expected),
        ExpVal::Block(b) => {
            proof {
                assert(decreases_to!(b => b.val));
            }
            visit_list(&b.val, expected)
        },
        ExpVal::LMul(_, b) => {
            proof {
                assert(decreases_to!(b => b.val));
            }
            visit_list(&b.val, expected)
        },
        ExpVal::For(_, _, b) => {
            proof {
                assert(decreases_to!(b => b.val));
            }
            visit_list(&b.val, expected)
        },
        ExpVal::RMul(x, _) => visit_returns(x, expected),
        ExpVal::If(c, b, u) => {
            proof {
                assert(decreases_to!(b => b.val));
            }
            let r = visit_returns(c, expected);
            if r.is_err() {
                return r;
            }
            let r = visit_list(&b.val, expected);
            if r.is_err() {
                return r;
            }
            visit_else_returns(u, expected)
        },
        ExpVal::While(c, b) => {
            proof {
                assert(decreases_to!(b => b.val));
            }
            let r = visit_returns(c, expected);
            if r.is_err() {
                return r;
            }
            visit_list(&b.val, expected)
        },
        _ => Ok(()),
    }
}

/// Checks every `return` of a block, in the order of reading, against the
/// type expected; the first that does not fit gives the error.
pub fn verify_explicit_returns<'a>(block: &Block<'a>, expected: StaticType) -> (r: Result<(), ReadError<'a>>)
    ensures
        result_is(r, returns_err_list(block.val@, block.val@.len() as int, expected@)),
{
    visit_list(&block.val, &expected)
}

/// The message for an empty body where a value was expected.
pub open spec fn empty_body_text(name: Seq<char>, ret: StaticTypeV) -> Seq<char> {
    "Empty function '"@ + name + "' returning `nothing` while '"@ + type_text(ret) + "' was expected"@
}

/// The message for a last expression of the wrong type.
pub open spec fn implicit_return_text(name: Seq<char>, ret: StaticTypeV, found: StaticTypeV) -> Seq<char> {
    "Invalid type for implicit return in function '"@ + name + "', expected '"@ + type_text(ret) + "', found: '"@
        + type_text(found) + "'"@
}

/// What the value of a function's body gives against its return type: a body
/// that ends with a semicolon returns nothing implicitly and is not checked;
/// an empty body returns `Nothing`; otherwise the last expression is the
/// value.
pub open spec fn implicit_return_err<'a>(f: Function<'a>) -> Option<(Span<'a>, Seq<char>)> {
    if f.body.trailing_semicolon {
        None
    } else if f.body.val@.len() == 0 {
        if !compatible(f.ret_ty@, StaticTypeV::Nothing) {
            Some((f.span, empty_body_text(f.name@, f.ret_ty@)))
        } else {
            None
        }
    } else {
        let last = f.body.val@.last();
        if !compatible(f.ret_ty@, last.static_ty@) {
            Some((last.span, implicit_return_text(f.name@, f.ret_ty@, last.static_ty@)))
        } else {
            None
        }
    }
}

/// Checks the value of a function's body against its return type.
pub fn verify_implicit_return<'a>(func: &Function<'a>) -> (r: Result<(), ReadError<'a>>)
    ensures
        result_is(r, implicit_return_err(*func)),
{
    proof {
        reveal_strlit("Empty function '");
        reveal_strlit("' returning `nothing` while '");
        reveal_strlit("' was expected");
        reveal_strlit("Invalid type for implicit return in function '");
        reveal_strlit("', expected '");
        reveal_strlit("', found: '");
        reveal_strlit("'");
    }
    if !func.body.trailing_semicolon {
        let n = func.body.val.len();
        if n == 0 {
            if !is_compatible(func.ret_ty.duplicate(), StaticType::Nothing) {
                let t = func.ret_ty.to_string();
                let mut m = cat3("Empty function '", func.name.as_str(), "' returning `nothing` while '");
                m.append(t.as_str());
                m.append("' was expected");
                return fail(func.span, m);
            }
        } else {
            let last = &func.body.val[n - 1];
            if !is_compatible(func.ret_ty.duplicate(), last.static_ty.duplicate()) {
                let t = func.ret_ty.to_string();
                let f = last.static_ty.to_string();
                let mut m = cat3("Invalid type for implicit return in function '", func.name.as_str(), "', expected '");
                m.append(t.as_str());
                m.append("', found: '");
                m.append(f.as_str());
                m.append("'");
                return fail(last.span, m);
            }
        }
    }
    Ok(())
}

} // verus!
