use vstd::prelude::*;

use crate::automata::line_counter::Span;
use crate::parser::ast::{Else, ElseVal, Exp, ExpVal, LocatedIdent};

verus! {

/// An identifier, as a value: where it was written and its name.
pub open spec fn ident_v<'a>(l: LocatedIdent<'a>) -> (Span<'a>, Seq<char>) {
    (l.span, l.name@)
}

/// A list of identifiers, as values.
pub open spec fn idents_v<'a>(s: Seq<LocatedIdent<'a>>) -> Seq<(Span<'a>, Seq<char>)> {
    s.map_values(|l: LocatedIdent<'a>| ident_v(l))
}

/// The variables that an expression assigns as a whole, in the order in
/// which the expression is read. Loops are not looked into, nor the
/// expressions of a returned value's place.
pub open spec fn assigns<'a>(e: Exp<'a>) -> Seq<(Span<'a>, Seq<char>)>
    decreases e, 0int,
{
    proof {
        assert(decreases_to!(e => e.val));
    }
    match *e.val {
        ExpVal::Return(r) => match r {
            None => Seq::empty(),
            Some(x) => assigns(x),
        },
        ExpVal::Assign(lv, x) => {
            let inner = assigns(x);
            match lv.in_exp {
                None => inner.push((lv.span, lv.name@)),
                Some(_) => inner,
            }
        },
        ExpVal::BinOp(_, a, b) => assigns(a) + assigns(b),
        ExpVal::UnaryOp(_, x) => assigns(x),
        ExpVal::Call(_, es) => {
            proof {
                assert(decreases_to!(es => es@));
            }
            assigns_list(es@, es@.len() as int)
        },
        ExpVal::Block(b) => {
            proof {
                assert(decreases_to!(b => b.val));
                assert(decreases_to!(b.val => b.val@));
            }
            assigns_list(b.val@, b.val@.len() as int)
        },
        ExpVal::LMul(_, b) => {
            proof {
                assert(decreases_to!(b => b.val));
                assert(decreases_to!(b.val => b.val@));
            }
            assigns_list(b.val@, b.val@.len() as int)
        },
        ExpVal::RMul(x, _) => assigns(x),
        ExpVal::If(c, b, u) => {
            proof {
                assert(decreases_to!(b => b.val));
                assert(decreases_to!(b.val => b.val@));
            }
            assigns(c) + assigns_list(b.val@, b.val@.len() as int) + assigns_else(u)
        },
        ExpVal::LValue(lv) => match lv.in_exp {
            None => Seq::empty(),
            Some(x) => assigns(x),
        },
        _ => Seq::empty(),
    }
}

/// The variables that the first `k` expressions of a list assign.
pub open spec fn assigns_list<'a>(s: Seq<Exp<'a>>, k: int) -> Seq<(Span<'a>, Seq<char>)>
    decreases s, k,
{
    if k <= 0 || k > s.len() {
        Seq::empty()
    } else {
        assigns_list(s, k - 1) + assigns(s[k - 1])
    }
}

/// The variables that the branches of an `else` assign.
pub open spec fn assigns_else<'a>(u: Else<'a>) -> Seq<(Span<'a>, Seq<char>)>
    decreases u, 0int,
{
    proof {
        assert(decreases_to!(u => u.val));
    }
    match *u.val {
        ElseVal::End => Seq::empty(),
        ElseVal::Else(b) => {
            proof {
                assert(decreases_to!(b => b.val));
                assert(decreases_to!(b.val => b.val@));
            }
            assigns_list(b.val@, b.val@.len() as int)
        },
        ElseVal::ElseIf(c, b, rest) => {
            proof {
                assert(decreases_to!(b => b.val));
                assert(decreases_to!(b.val => b.val@));
            }
            assigns(c) + assigns_list(b.val@, b.val@.len() as int) + assigns_else(rest)
        },
    }
}

/// What two lists assign, read one after the other, is what each assigns,
/// one after the other; an empty list assigns nothing, and a list of one
/// expression what that expression assigns.
pub proof fn law_assigns_of_concat<'a>(a: Seq<Exp<'a>>, b: Seq<Exp<'a>>)
    ensures
        assigns_list(a + b, (a + b).len() as int) == assigns_list(a, a.len() as int) + assigns_list(b, b.len() as int),
        assigns_list(Seq::<Exp<'a>>::empty(), 0) == Seq::<(Span<'a>, Seq<char>)>::empty(),
        forall|e: Exp<'a>| #[trigger] assigns_list(seq![e], 1) == assigns(e),
    decreases b.len(),
{
    assert forall|e: Exp<'a>| #[trigger] assigns_list(seq![e], 1) == assigns(e) by {
        assert(assigns_list(seq![e], 0) == Seq::<(Span<'a>, Seq<char>)>::empty());
        assert(Seq::<(Span<'a>, Seq<char>)>::empty() + assigns(e) =~= assigns(e));
    }
    if b.len() == 0 {
        assert(a + b =~= a);
        lemma_assigns_prefix(a + b, a, a.len() as int);
        assert(assigns_list(a, a.len() as int) + Seq::<(Span<'a>, Seq<char>)>::empty() =~= assigns_list(a, a.len() as int));
    } else {
        let b1 = b.drop_last();
        law_assigns_of_concat(a, b1);
        assert((a + b).drop_last() =~= a + b1);
        lemma_assigns_prefix(a + b, a + b1, (a + b1).len() as int);
        lemma_assigns_prefix(b, b1, b1.len() as int);
        assert((a + b)[(a + b).len() - 1] == b[b.len() - 1]);
        let x = assigns_list(a, a.len() as int);
        let y = assigns_list(b1, b1.len() as int);
        let z = assigns(b[b.len() - 1]);
        assert(x + y + z =~= x + (y + z));
    }
}

/// What a list assigns depends only on the expressions read.
proof fn lemma_assigns_prefix<'a>(s: Seq<Exp<'a>>, t: Seq<Exp<'a>>, k: int)
    requires
        0 <= k <= s.len(),
        k <= t.len(),
        forall|i: int| 0 <= i < k ==> s[i] == t[i],
    ensures
        assigns_list(s, k) == assigns_list(t, k),
    decreases k,
{
    if k > 0 {
        lemma_assigns_prefix(s, t, k - 1);
    }
}

fn append_idents<'a>(out: &mut Vec<LocatedIdent<'a>>, more: Vec<LocatedIdent<'a>>)
    ensures
        idents_v(final(out)@) == idents_v(old(out)@) + idents_v(more@),
{
    let mut more = more;
    let ghost o = idents_v(out@);
    let ghost m = idents_v(more@);
    out.append(&mut more);
    assert(idents_v(out@) =~= o + m);
}

/// The variables that the expressions of a list assign, in order.
pub fn collect_all_assign_in_array<'a>(a: &Vec<Exp<'a>>) -> (r: Vec<LocatedIdent<'a>>)
    ensures
        idents_v(r@) == assigns_list(a@, a@.len() as int),
    decreases a, 0int,
{
    let mut out: Vec<LocatedIdent<'a>> = Vec::new();
    let mut i: usize = 0;
    while i < a.len()
        invariant
            i <= a.len(),
            idents_v(out@) == assigns_list(a@, i as int),
        decreases a.len() - i,
    {
        proof {
            assert(decreases_to!(a => a@));
            assert(decreases_to!(a@ => a@[i as int]));
        }
        let more = collect_all_assign(&a[i]);
        append_idents(&mut out, more);
        i = i + 1;
    }
    out
}

fn collect_else<'a>(u: &Else<'a>) -> (r: Vec<LocatedIdent<'a>>)
    ensures
        idents_v(r@) == assigns_else(*u),
    decreases u, 0int,
{
    proof {
        assert(decreases_to!(u => u.val));
    }
    match &*u.val {
        ElseVal::End => Vec::new(),
        ElseVal::Else(b) => {
            proof {
                assert(decreases_to!(b => b.val));
            }
            collect_all_assign_in_array(&b.val)
        },
        ElseVal::ElseIf(c, b, rest) => {
            proof {
                assert(decreases_to!(b => b.val));
            }
            let mut out = collect_all_assign(c);
            append_idents(&mut out, collect_all_assign_in_array(&b.val));
            append_idents(&mut out, collect_else(rest));
            out
        },
    }
}

/// The variables that an expression assigns as a whole, in the order in
/// which it is read.
pub fn collect_all_assign<'a>(e: &Exp<'a>) -> (r: Vec<LocatedIdent<'a>>)
    ensures
        idents_v(r@) == assigns(*e),
    decreases e, 0int,
{
    proof {
        assert(decreases_to!(e => e.val));
    }
    match &*e.val {
        ExpVal::Return(r) => match r {
            None => Vec::new(),
            Some(x) => collect_all_assign(x),
        },
        ExpVal::Assign(lv, x) => {
            let mut assigns_found = collect_all_assign(x);
            match lv.in_exp {
                None => {
                    let ghost before = idents_v(assigns_found@);
                    let l = LocatedIdent::new(lv.span, lv.name.clone());
                    assigns_found.push(l);
                    assert(idents_v(assigns_found@) =~= before.push((lv.span, lv.name@)));
                },
                _ => {},
            }
            assigns_found
        },
        ExpVal::BinOp(_, a, b) => {
            let mut out = collect_all_assign(a);
            append_idents(&mut out, collect_all_assign(b));
            out
        },
        ExpVal::UnaryOp(_, x) => collect_all_assign(x),
        ExpVal::Call(_, es) => collect_all_assign_in_array(es),
        ExpVal::Block(b) => {
            proof {
                assert(decreases_to!(b => b.val));
            }
            collect_all_assign_in_array(&b.val)
        },
        ExpVal::LMul(_, b) => {
            proof {
                assert(decreases_to!(b => b.val));
            }
            collect_all_assign_in_array(&b.val)
        },
        ExpVal::RMul(x, _) => collect_all_assign(x),
        ExpVal::If(c, b, u) => {
            proof {
                assert(decreases_to!(b => b.val));
            }
            let mut out = collect_all_assign(c);
            append_idents(&mut out, collect_all_assign_in_array(&b.val));
            append_idents(&mut out, collect_else(u));
            out
        },
        ExpVal::For(_, _, _) | ExpVal::While(_, _) => Vec::new(),
        ExpVal::Int(_) | ExpVal::Str(_) | ExpVal::Bool(_) | ExpVal::Mul(_, _) => Vec::new(),
        ExpVal::LValue(lv) => match &lv.in_exp {
            None => Vec::new(),
            Some(x) => collect_all_assign(x),
        },
    }
}

} // verus!
