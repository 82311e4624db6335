use vstd::prelude::*;

use crate::automata::line_counter::Span;
use crate::automata::read_error::ReadError;
use crate::parser::ast::{type_text, Decl, DeclVal, Exp, Function, Param, StaticType, StaticTypeV, Structure};
use crate::text::{cat3, owned, str_eq};
use super::assign::{assigns, collect_all_assign};
use super::data::{find_key, has_key, key_pos, keys_distinct, lemma_key_pos, types_view, FuncSignature, GlobalEnvironmentState};
use super::func_signatures::{build_signature, callable_exactly, format_signature, is_callable_with_exactly, signature_text};

verus! {

// ---------------------------------------------------------------------------
// Lists of names used as sets.

/// The names of a list, as values.
pub open spec fn names_v(s: Seq<String>) -> Seq<Seq<char>> {
    s.map_values(|x: String| x@)
}

/// Adds a name to a list of names unless it is there.
pub open spec fn add_name_v(s: Seq<Seq<char>>, n: Seq<char>) -> Seq<Seq<char>> {
    if s.contains(n) {
        s
    } else {
        s.push(n)
    }
}

/// Adds names one after the other to a list of names.
pub open spec fn add_names_v(s: Seq<Seq<char>>, ns: Seq<Seq<char>>) -> Seq<Seq<char>>
    decreases ns.len(),
{
    if ns.len() == 0 {
        s
    } else {
        add_name_v(add_names_v(s, ns.drop_last()), ns.last())
    }
}

/// Adds a type to a list of types unless it is there.
pub open spec fn add_type_v(s: Seq<StaticTypeV>, t: StaticTypeV) -> Seq<StaticTypeV> {
    if s.contains(t) {
        s
    } else {
        s.push(t)
    }
}

proof fn lemma_add_name_distinct(s: Seq<Seq<char>>, n: Seq<char>)
    requires
        s.no_duplicates(),
    ensures
        add_name_v(s, n).no_duplicates(),
{
    if !s.contains(n) {
        let t = s.push(n);
        assert forall|a: int, b: int| 0 <= a < t.len() && 0 <= b < t.len() && a != b implies t[a] != t[b] by {
            if a < s.len() && b < s.len() {
                assert(t[a] == s[a] && t[b] == s[b]);
            } else if a < s.len() {
                assert(t[a] == s[a]);
            } else {
                assert(t[b] == s[b]);
            }
        }
    }
}

pub(crate) fn add_name(v: &mut Vec<String>, n: &String)
    ensures
        names_v(final(v)@) == add_name_v(names_v(old(v)@), n@),
{
    let mut i: usize = 0;
    while i < v.len()
        invariant
            i <= v@.len(),
            forall|j: int| 0 <= j < i ==> v@[j]@ != n@,
        decreases v.len() - i,
    {
        if str_eq(v[i].as_str(), n.as_str()) {
            assert(names_v(v@)[i as int] == n@);
            return;
        }
        i = i + 1;
    }
    let ghost before = v@;
    assert(!names_v(before).contains(n@)) by {
        if names_v(before).contains(n@) {
            let j = choose|j: int| 0 <= j < names_v(before).len() && names_v(before)[j] == n@;
            assert(before[j]@ == n@);
        }
    }
    v.push(n.clone());
    assert(names_v(v@) =~= names_v(before).push(n@));
}

fn knows(ts: &Vec<StaticType>, t: &StaticType) -> (r: bool)
    ensures
        r == types_view(ts@).contains(t@),
{
    let mut i: usize = 0;
    while i < ts.len()
        invariant
            i <= ts@.len(),
            forall|j: int| 0 <= j < i ==> ts@[j]@ != t@,
        decreases ts.len() - i,
    {
        if ts[i].same(t) {
            assert(types_view(ts@)[i as int] == t@);
            return true;
        }
        i = i + 1;
    }
    assert(!types_view(ts@).contains(t@)) by {
        if types_view(ts@).contains(t@) {
            let j = choose|j: int| 0 <= j < types_view(ts@).len() && types_view(ts@)[j] == t@;
            assert(ts@[j]@ == t@);
        }
    }
    false
}

fn fail<'a>(span: Span<'a>, message: String) -> (r: Result<(), ReadError<'a>>)
    ensures
        r is Err,
        r->Err_0.spec_span() == span,
        r->Err_0.spec_message() == message@,
{
    Err(ReadError::from((span, message)))
}

// ---------------------------------------------------------------------------
// Structures.

/// The message for a structure whose name is taken.
pub open spec fn struct_taken_text(name: Seq<char>) -> Seq<char> {
    "The ident '"@ + name + "' is already taken by another structure"@
}

/// The message for a field whose name is taken.
pub open spec fn field_taken_text(name: Seq<char>) -> Seq<char> {
    "The field name '"@ + name + "' is already taken by this structure or another one"@
}

/// The message for a field of an unknown type.
pub open spec fn field_type_text() -> Seq<char> {
    "This type is malformed, either it is not a primitive, or it's not this structure itself or another structure declared before"@
}

/// The names of the first `j` fields of a structure.
pub open spec fn field_names<'a>(s: Structure<'a>, j: int) -> Seq<Seq<char>> {
    s.fields@.take(j).map_values(|p: Param<'a>| p.name.name@)
}

/// Whether the field at `j` is accepted: no field has its name yet, neither
/// of an earlier structure nor of this one, and its type is known or is the
/// structure itself.
pub open spec fn field_ok<'a>(g: GlobalEnvironmentState<'a>, s: Structure<'a>, j: int) -> bool {
    let f = s.fields@[j];
    &&& !has_key(g.all_structure_fields@, f.name.name@)
    &&& forall|i: int| 0 <= i < j ==> #[trigger] s.fields@[i].name.name@ != f.name.name@
    &&& (types_view(g.known_types@).contains(f.ty@) || f.ty@ == StaticTypeV::Struct(s.name.name@))
}

/// The message for the field at `j` when it is refused.
pub open spec fn field_error_text<'a>(g: GlobalEnvironmentState<'a>, s: Structure<'a>, j: int) -> Seq<char> {
    let f = s.fields@[j];
    if has_key(g.all_structure_fields@, f.name.name@) || exists|i: int|
        0 <= i < j && #[trigger] s.fields@[i].name.name@ == f.name.name@ {
        field_taken_text(f.name.name@)
    } else {
        field_type_text()
    }
}

/// The first `j` fields are accepted.
pub open spec fn fields_ok_upto<'a>(g: GlobalEnvironmentState<'a>, s: Structure<'a>, j: int) -> bool {
    forall|i: int| 0 <= i < j ==> #[trigger] field_ok(g, s, i)
}

/// The state `g` is `g0` once the structure is known as a type and its first
/// `j` fields are entered; the other tables are kept.
pub open spec fn fields_entered<'a>(g0: GlobalEnvironmentState<'a>, s: Structure<'a>, j: int, g: GlobalEnvironmentState<'a>) -> bool {
    let n = g0.all_structure_fields@.len();
    &&& g.all_structure_fields@.len() == n + j
    &&& g.all_structure_fields@.take(n as int) == g0.all_structure_fields@
    &&& forall|i: int|
        0 <= i < j ==> g.all_structure_fields@[n + i].0@ == (#[trigger] s.fields@[i]).name.name@
            && g.all_structure_fields@[n + i].1@ == s.fields@[i].ty@
    &&& names_v(g.all_mutable_fields@) == if s.mutable {
        add_names_v(names_v(g0.all_mutable_fields@), field_names(s, j))
    } else {
        names_v(g0.all_mutable_fields@)
    }
    &&& types_view(g.known_types@) == add_type_v(types_view(g0.known_types@), StaticTypeV::Struct(s.name.name@))
    &&& g.functions == g0.functions
    &&& g.function_sigs == g0.function_sigs
    &&& g.structure_name_by_fields == g0.structure_name_by_fields
    &&& g.global_variables == g0.global_variables
    &&& g.global_expressions == g0.global_expressions
}

/// What entering a structure does: the error met first, if any, and the
/// tables after it.
pub open spec fn struct_visited<'a>(g0: GlobalEnvironmentState<'a>, s: Structure<'a>, r: Result<(), ReadError<'a>>, g: GlobalEnvironmentState<'a>) -> bool {
    if has_key(g0.structures@, s.name.name@) {
        r is Err && r->Err_0.spec_span() == s.span && r->Err_0.spec_message() == struct_taken_text(s.name.name@) && g == g0
    } else if fields_ok_upto(g0, s, s.fields@.len() as int) {
        &&& r is Ok
        &&& fields_entered(g0, s, s.fields@.len() as int, g)
        &&& g.structures@.len() == g0.structures@.len() + 1
        &&& g.structures@.drop_last() == g0.structures@
        &&& g.structures@.last().0@ == s.name.name@
        &&& g.structures@.last().1 == s
    } else {
        &&& r is Err
        &&& exists|j: int|
            0 <= j < s.fields@.len() && fields_ok_upto(g0, s, j) && !field_ok(g0, s, j)
                && r->Err_0.spec_span() == s.fields@[j].span
                && r->Err_0.spec_message() == field_error_text(g0, s, j)
                && fields_entered(g0, s, j, g)
                && g.structures == g0.structures
    }
}

impl<'a> GlobalEnvironmentState<'a> {
    /// Each table names an entry once.
    pub open spec fn wf(&self) -> bool {
        &&& keys_distinct(self.structures@)
        &&& keys_distinct(self.functions@)
        &&& keys_distinct(self.function_sigs@)
        &&& keys_distinct(self.all_structure_fields@)
        &&& keys_distinct(self.structure_name_by_fields@)
        &&& names_v(self.global_variables@).no_duplicates()
        &&& forall|i: int| #![trigger self.function_sigs@[i]] 0 <= i < self.function_sigs@.len() ==> self.function_sigs@[i].1@.len() > 0
    }

    /// Enters a structure: its name must be new, and so must the name of
    /// each field, and the type of each field must be known (or be the
    /// structure). The structure becomes a known type first, then its
    /// fields are entered one by one until one is refused.
    pub fn visit_structure(&mut self, s: Structure<'a>) -> (r: Result<(), ReadError<'a>>)
        requires
            old(self).wf(),
        ensures
            final(self).wf(),
            struct_visited(*old(self), s, r, *final(self)),
    {
        let ghost g0 = *self;
        if find_key(&self.structures, s.name.name.as_str()).is_some() {
            proof {
                reveal_strlit("The ident '");
                reveal_strlit("' is already taken by another structure");
            }
            return fail(s.span, cat3("The ident '", s.name.name.as_str(), "' is already taken by another structure"));
        }
        let st = StaticType::Struct(s.name.name.clone());
        if !knows(&self.known_types, &st) {
            self.known_types.push(st);
            assert(types_view(self.known_types@) =~= types_view(g0.known_types@).push(StaticTypeV::Struct(s.name.name@)));
        }
        let n = self.all_structure_fields.len();
        assert(self.all_structure_fields@.take(n as int) =~= g0.all_structure_fields@);
        assert(field_names(s, 0) =~= Seq::<Seq<char>>::empty());
        let mut j: usize = 0;
        while j < s.fields.len()
            invariant
                *old(self) == g0,
                g0.wf(),
                !has_key(g0.structures@, s.name.name@),
                n == g0.all_structure_fields@.len(),
                j <= s.fields@.len(),
                self.structures == g0.structures,
                fields_entered(g0, s, j as int, *self),
                fields_ok_upto(g0, s, j as int),
                keys_distinct(self.all_structure_fields@),
            decreases s.fields.len() - j,
        {
            let field = &s.fields[j];
            let ghost fname = field.name.name@;
            proof {
                assert(has_key(self.all_structure_fields@, fname) <==> (has_key(g0.all_structure_fields@, fname)
                    || exists|i: int| 0 <= i < j && #[trigger] s.fields@[i].name.name@ == fname)) by {
                    if has_key(self.all_structure_fields@, fname) {
                        let p = choose|p: int| 0 <= p < self.all_structure_fields@.len() && self.all_structure_fields@[p].0@ == fname;
                        if p < n {
                            assert(g0.all_structure_fields@[p] == self.all_structure_fields@.take(n as int)[p]);
                        } else {
                            assert(s.fields@[p - n].name.name@ == fname);
                        }
                    }
                    if has_key(g0.all_structure_fields@, fname) {
                        let p = choose|p: int| 0 <= p < g0.all_structure_fields@.len() && g0.all_structure_fields@[p].0@ == fname;
                        assert(g0.all_structure_fields@[p] == self.all_structure_fields@.take(n as int)[p]);
                        assert(self.all_structure_fields@[p].0@ == fname);
                    }
                    if exists|i: int| 0 <= i < j && #[trigger] s.fields@[i].name.name@ == fname {
                        let i = choose|i: int| 0 <= i < j && #[trigger] s.fields@[i].name.name@ == fname;
                        assert(self.all_structure_fields@[n + i].0@ == fname);
                    }
                }
            }
            if find_key(&self.all_structure_fields, field.name.name.as_str()).is_some() {
                proof {
                    reveal_strlit("The field name '");
                    reveal_strlit("' is already taken by this structure or another one");
                }
                let r = fail(field.span, cat3("The field name '", field.name.name.as_str(), "' is already taken by this structure or another one"));
                assert(!field_ok(g0, s, j as int));
                return r;
            }
            proof {
                let kv = types_view(g0.known_types@);
                let st = StaticTypeV::Struct(s.name.name@);
                assert(types_view(self.known_types@).contains(field.ty@) <==> (kv.contains(field.ty@) || field.ty@ == st)) by {
                    if !kv.contains(st) {
                        assert(kv.push(st)[kv.len() as int] == st);
                        if kv.push(st).contains(field.ty@) {
                            let q = choose|q: int| 0 <= q < kv.push(st).len() && kv.push(st)[q] == field.ty@;
                            if q < kv.len() {
                                assert(kv[q] == field.ty@);
                            }
                        }
                        if kv.contains(field.ty@) {
                            let q = choose|q: int| 0 <= q < kv.len() && kv[q] == field.ty@;
                            assert(kv.push(st)[q] == field.ty@);
                        }
                    }
                }
            }
            if !knows(&self.known_types, &field.ty) {
                proof {
                    reveal_strlit("This type is malformed, either it is not a primitive, or it's not this structure itself or another structure declared before");
                }
                let r = fail(field.span, owned("This type is malformed, either it is not a primitive, or it's not this structure itself or another structure declared before"));
                assert(!field_ok(g0, s, j as int));
                return r;
            }
            assert(field_ok(g0, s, j as int));
            let ghost before = *self;
            self.all_structure_fields.push((field.name.name.clone(), field.ty.duplicate()));
            if s.mutable {
                add_name(&mut self.all_mutable_fields, &field.name.name);
            }
            proof {
                assert(field_names(s, j + 1) =~= field_names(s, j as int).push(fname));
                assert(field_names(s, j + 1).drop_last() =~= field_names(s, j as int));
                assert(field_names(s, j + 1).last() == fname);
                assert forall|i: int| 0 <= i < j + 1 implies
                    self.all_structure_fields@[n + i].0@ == (#[trigger] s.fields@[i]).name.name@
                        && self.all_structure_fields@[n + i].1@ == s.fields@[i].ty@ by {
                    if i < j {
                        assert(self.all_structure_fields@[n + i] == before.all_structure_fields@[n + i]);
                    }
                }
                assert(self.all_structure_fields@.take(n as int) =~= g0.all_structure_fields@) by {
                    assert(self.all_structure_fields@.take(n as int) =~= before.all_structure_fields@.take(n as int));
                }
                assert forall|a: int, b: int|
                    0 <= a < self.all_structure_fields@.len() && 0 <= b < self.all_structure_fields@.len() && a != b
                    implies #[trigger] self.all_structure_fields@[a].0@ != #[trigger] self.all_structure_fields@[b].0@ by {
                    let last = self.all_structure_fields@.len() - 1;
                    if a == last {
                        assert(before.all_structure_fields@[b] == self.all_structure_fields@[b]);
                        assert(has_key(before.all_structure_fields@, before.all_structure_fields@[b].0@));
                    } else if b == last {
                        assert(before.all_structure_fields@[a] == self.all_structure_fields@[a]);
                        assert(has_key(before.all_structure_fields@, before.all_structure_fields@[a].0@));
                    } else {
                        assert(before.all_structure_fields@[a] == self.all_structure_fields@[a]);
                        assert(before.all_structure_fields@[b] == self.all_structure_fields@[b]);
                    }
                }
                assert forall|i: int| 0 <= i < j + 1 implies #[trigger] field_ok(g0, s, i) by {
                    if i < j {
                    }
                }
            }
            j = j + 1;
        }
        let name = s.name.name.clone();
        self.structures.push((name, s));
        proof {
            assert(self.structures@.drop_last() =~= g0.structures@);
            assert forall|a: int, b: int|
                0 <= a < self.structures@.len() && 0 <= b < self.structures@.len() && a != b
                implies #[trigger] self.structures@[a].0@ != #[trigger] self.structures@[b].0@ by {
                let last = self.structures@.len() - 1;
                if a == last {
                    assert(g0.structures@[b] == self.structures@[b]);
                } else if b == last {
                    assert(g0.structures@[a] == self.structures@[a]);
                } else {
                    assert(g0.structures@[a] == self.structures@[a]);
                    assert(g0.structures@[b] == self.structures@[b]);
                }
            }
        }
        Ok(())
    }
}

// ---------------------------------------------------------------------------
// Functions.

/// The names a function cannot have.
pub open spec fn reserved_name(n: Seq<char>) -> bool {
    n == "div"@ || n == "print"@ || n == "println"@
}

fn is_reserved_name(n: &String) -> (r: bool)
    ensures
        r == reserved_name(n@),
{
    str_eq(n.as_str(), "div") || str_eq(n.as_str(), "print") || str_eq(n.as_str(), "println")
}

/// The message for a function with a reserved name.
pub open spec fn reserved_text(name: Seq<char>) -> Seq<char> {
    "The ident '"@ + name + "' is a reserved name, it cannot be used as a function name"@
}

/// The message for a function whose return type is unknown.
pub open spec fn return_type_text(t: StaticTypeV, name: Seq<char>) -> Seq<char> {
    "The return type '"@ + type_text(t) + "' of '"@ + name + "' is malformed, either it's not a primitive or a declared structure"@
}

/// The message for a parameter whose name is taken.
pub open spec fn arg_taken_text(name: Seq<char>) -> Seq<char> {
    "The ident '"@ + name + "' is already taken by another argument"@
}

/// The message for a parameter of an unknown type.
pub open spec fn arg_type_text() -> Seq<char> {
    "This type is malformed, either it is not a primitive or it's not a declared before structure"@
}

/// The message for a second function with the same parameter types.
pub open spec fn same_signature_text(name: Seq<char>, ts: Seq<StaticTypeV>) -> Seq<char> {
    "The function '"@ + name + "' has already been defined with the exact same signature ("@ + signature_text(ts)
        + "), add type annotations to disambiguate or remove duplicates"@
}

/// The types of the parameters.
pub open spec fn param_types<'a>(ps: Seq<Param<'a>>) -> Seq<StaticTypeV> {
    ps.map_values(|p: Param<'a>| p.ty@)
}

/// The first of the first `k` parameters that is refused: its name is that
/// of an earlier one, or its type is unknown.
pub open spec fn params_err<'a>(known: Seq<StaticTypeV>, ps: Seq<Param<'a>>, k: int) -> Option<(Span<'a>, Seq<char>)>
    decreases k,
{
    if k <= 0 {
        None
    } else {
        match params_err(known, ps, k - 1) {
            Some(e) => Some(e),
            None => {
                let p = ps[k - 1];
                if exists|i: int| 0 <= i < k - 1 && #[trigger] ps[i].name.name@ == p.name.name@ {
                    Some((p.span, arg_taken_text(p.name.name@)))
                } else if !known.contains(p.ty@) {
                    Some((p.span, arg_type_text()))
                } else {
                    None
                }
            },
        }
    }
}

/// A function of that name already takes exactly the parameter types of `f`.
pub open spec fn sig_clash<'a>(g: GlobalEnvironmentState<'a>, f: Function<'a>) -> bool {
    let sigs = g.function_sigs@[key_pos(g.function_sigs@, f.name@)].1@;
    &&& has_key(g.function_sigs@, f.name@)
    &&& exists|i: int| 0 <= i < sigs.len() && callable_exactly(param_types(f.params@), types_view(#[trigger] sigs[i].1@))
}

/// The error met first when a function is entered, if any.
pub open spec fn function_err<'a>(g: GlobalEnvironmentState<'a>, f: Function<'a>) -> Option<(Span<'a>, Seq<char>)> {
    let known = types_view(g.known_types@);
    if reserved_name(f.name@) {
        Some((f.span, reserved_text(f.name@)))
    } else if !known.contains(f.ret_ty@) {
        Some((f.span, return_type_text(f.ret_ty@, f.name@)))
    } else if params_err(known, f.params@, f.params@.len() as int) is Some {
        params_err(known, f.params@, f.params@.len() as int)
    } else if sig_clash(g, f) {
        Some((f.span, same_signature_text(f.name@, param_types(f.params@))))
    } else {
        None
    }
}

/// `t` is `t0` with `x` added to the list of the name `k`, which is created
/// where it is missing.
pub open spec fn entry_added<'a, V>(t0: Seq<(String, Vec<V>)>, k: Seq<char>, t: Seq<(String, Vec<V>)>, x: spec_fn(V) -> bool) -> bool {
    if has_key(t0, k) {
        let p = key_pos(t0, k);
        &&& t.len() == t0.len()
        &&& forall|i: int| 0 <= i < t.len() && i != p ==> #[trigger] t[i] == t0[i]
        &&& t[p].0@ == k
        &&& t[p].1@.len() == t0[p].1@.len() + 1
        &&& t[p].1@.drop_last() == t0[p].1@
        &&& x(t[p].1@.last())
    } else {
        &&& t.len() == t0.len() + 1
        &&& t.drop_last() == t0
        &&& t.last().0@ == k
        &&& t.last().1@.len() == 1
        &&& x(t.last().1@[0])
    }
}

/// What entering a function does: the error met first, if any, leaving the
/// tables as they were; else its signature and the function itself are
/// added under its name.
pub open spec fn function_visited<'a>(g0: GlobalEnvironmentState<'a>, f: Function<'a>, r: Result<(), ReadError<'a>>, g: GlobalEnvironmentState<'a>) -> bool {
    match function_err(g0, f) {
        Some((span, msg)) => r is Err && r->Err_0.spec_span() == span && r->Err_0.spec_message() == msg && g == g0,
        None => {
            &&& r is Ok
            &&& entry_added(g0.function_sigs@, f.name@, g.function_sigs@,
                |x: FuncSignature| x.0@ == f.ret_ty@ && types_view(x.1@) == param_types(f.params@))
            &&& entry_added(g0.functions@, f.name@, g.functions@, |x: Function<'a>| x == f)
            &&& g.structures == g0.structures
            &&& g.structure_name_by_fields == g0.structure_name_by_fields
            &&& g.all_structure_fields == g0.all_structure_fields
            &&& g.all_mutable_fields == g0.all_mutable_fields
            &&& g.global_variables == g0.global_variables
            &&& g.global_expressions == g0.global_expressions
            &&& g.known_types == g0.known_types
        },
    }
}

proof fn lemma_params_err_stays<'a>(known: Seq<StaticTypeV>, ps: Seq<Param<'a>>, k: int, m: int)
    requires
        0 <= k <= m,
        params_err(known, ps, k) is Some,
    ensures
        params_err(known, ps, m) == params_err(known, ps, k),
    decreases m - k,
{
    if m > k {
        lemma_params_err_stays(known, ps, k, m - 1);
    }
}

fn copy_types(v: &Vec<StaticType>) -> (r: Vec<StaticType>)
    ensures
        types_view(r@) == types_view(v@),
{
    let mut r: Vec<StaticType> = Vec::new();
    let mut i: usize = 0;
    while i < v.len()
        invariant
            i <= v@.len(),
            types_view(r@) == types_view(v@.take(i as int)),
        decreases v.len() - i,
    {
        r.push(v[i].duplicate());
        assert(types_view(v@.take(i + 1)) =~= types_view(v@.take(i as int)).push(v@[i as int]@));
        i = i + 1;
    }
    assert(v@.take(v@.len() as int) =~= v@);
    r
}

fn return_type_msg(t: &StaticType, name: &String) -> (r: String)
    ensures
        r@ == return_type_text(t@, name@),
{
    proof {
        reveal_strlit("The return type '");
        reveal_strlit("' of '");
        reveal_strlit("' is malformed, either it's not a primitive or a declared structure");
    }
    let tt = t.to_string();
    let mut m = cat3("The return type '", tt.as_str(), "' of '");
    m.append(name.as_str());
    m.append("' is malformed, either it's not a primitive or a declared structure");
    m
}

fn same_signature_msg(name: &String, ts: Vec<StaticType>) -> (r: String)
    ensures
        r@ == same_signature_text(name@, types_view(ts@)),
{
    proof {
        reveal_strlit("The function '");
        reveal_strlit("' has already been defined with the exact same signature (");
        reveal_strlit("), add type annotations to disambiguate or remove duplicates");
    }
    let sig = format_signature(ts);
    let mut m = cat3("The function '", name.as_str(), "' has already been defined with the exact same signature (");
    m.append(sig.as_str());
    m.append("), add type annotations to disambiguate or remove duplicates");
    m
}

impl<'a> GlobalEnvironmentState<'a> {
    /// Enters a function: its name must not be reserved, its return type and
    /// the types of its parameters must be known, its parameters must have
    /// distinct names, and no function of that name may take exactly the
    /// same parameter types. Then its signature and the function itself are
    /// added under its name.
    pub fn visit_function(&mut self, f: Function<'a>) -> (r: Result<(), ReadError<'a>>)
        requires
            old(self).wf(),
        ensures
            final(self).wf(),
            function_visited(*old(self), f, r, *final(self)),
    {
        let ghost g0 = *self;
        let ghost known = types_view(self.known_types@);
        if is_reserved_name(&f.name) {
            proof {
                reveal_strlit("The ident '");
                reveal_strlit("' is a reserved name, it cannot be used as a function name");
            }
            return fail(f.span, cat3("The ident '", f.name.as_str(), "' is a reserved name, it cannot be used as a function name"));
        }
        if !knows(&self.known_types, &f.ret_ty) {
            return fail(f.span, return_type_msg(&f.ret_ty, &f.name));
        }
        let mut names: Vec<String> = Vec::new();
        let mut k: usize = 0;
        while k < f.params.len()
            invariant
                k <= f.params@.len(),
                names@.len() == k,
                forall|i: int| 0 <= i < k ==> #[trigger] names@[i]@ == f.params@[i].name.name@,
                params_err(known, f.params@, k as int) is None,
                known == types_view(self.known_types@),
                *self == g0,
                *old(self) == g0,
                g0.wf(),
                !reserved_name(f.name@),
                known.contains(f.ret_ty@),
            decreases f.params.len() - k,
        {
            let param = &f.params[k];
            let mut i: usize = 0;
            while i < names.len()
                invariant
                    i <= names@.len(),
                    names@.len() == k,
                    forall|t: int| 0 <= t < k ==> #[trigger] names@[t]@ == f.params@[t].name.name@,
                    forall|t: int| 0 <= t < i ==> #[trigger] f.params@[t].name.name@ != param.name.name@,
                    k < f.params@.len(),
                    param == f.params@[k as int],
                    params_err(known, f.params@, k as int) is None,
                    known == types_view(self.known_types@),
                    *self == g0,
                    *old(self) == g0,
                    g0.wf(),
                    !reserved_name(f.name@),
                    known.contains(f.ret_ty@),
                decreases names.len() - i,
            {
                if str_eq(names[i].as_str(), param.name.name.as_str()) {
                    proof {
                        reveal_strlit("The ident '");
                        reveal_strlit("' is already taken by another argument");
                        assert(f.params@[i as int].name.name@ == param.name.name@);
                        assert(params_err(known, f.params@, k + 1) == Some((param.span, arg_taken_text(param.name.name@))));
                        lemma_params_err_stays(known, f.params@, k + 1, f.params@.len() as int);
                    }
                    return fail(param.span, cat3("The ident '", param.name.name.as_str(), "' is already taken by another argument"));
                }
                i = i + 1;
            }
            names.push(param.name.name.clone());
            if !knows(&self.known_types, &param.ty) {
                proof {
                    reveal_strlit("This type is malformed, either it is not a primitive or it's not a declared before structure");
                    assert(params_err(known, f.params@, k + 1) == Some((param.span, arg_type_text())));
                    lemma_params_err_stays(known, f.params@, k + 1, f.params@.len() as int);
                }
                return fail(param.span, owned("This type is malformed, either it is not a primitive or it's not a declared before structure"));
            }
            proof {
                assert(params_err(known, f.params@, k + 1) is None);
            }
            k = k + 1;
        }
        let sig = build_signature(&f);
        proof {
            assert(types_view(sig.1@) =~= param_types(f.params@));
        }
        match find_key(&self.function_sigs, f.name.as_str()) {
            Some(p) => {
                proof {
                    lemma_key_pos(self.function_sigs@, p as int);
                }
                let mut i: usize = 0;
                while i < self.function_sigs[p].1.len()
                    invariant
                        p < self.function_sigs@.len(),
                        i <= self.function_sigs@[p as int].1@.len(),
                        types_view(sig.1@) == param_types(f.params@),
                        forall|t: int| 0 <= t < i ==> !callable_exactly(param_types(f.params@), types_view(#[trigger] self.function_sigs@[p as int].1@[t].1@)),
                        *self == g0,
                        *old(self) == g0,
                        g0.wf(),
                        !reserved_name(f.name@),
                        known == types_view(g0.known_types@),
                        known.contains(f.ret_ty@),
                        params_err(known, f.params@, f.params@.len() as int) is None,
                        has_key(g0.function_sigs@, f.name@),
                        key_pos(g0.function_sigs@, f.name@) == p,
                    decreases self.function_sigs@[p as int].1@.len() - i,
                {
                    let ts = copy_types(&sig.1);
                    if is_callable_with_exactly(ts, &self.function_sigs[p].1[i]) {
                        let ts2 = copy_types(&sig.1);
                        let m = same_signature_msg(&f.name, ts2);
                        assert(sig_clash(g0, f));
                        return fail(f.span, m);
                    }
                    i = i + 1;
                }
                assert(!sig_clash(g0, f));
                let mut e = self.function_sigs.remove(p);
                let ghost e0 = e;
                e.1.push(sig);
                self.function_sigs.insert(p, e);
                proof {
                    assert(e.1@.drop_last() =~= e0.1@);
                    let t = self.function_sigs@;
                    let t0 = g0.function_sigs@;
                    assert forall|a: int| 0 <= a < t.len() && a != p implies #[trigger] t[a] == t0[a] by {
                        if a < p {
                        } else {
                        }
                    }
                    assert forall|a: int, b: int| 0 <= a < t.len() && 0 <= b < t.len() && a != b
                        implies #[trigger] t[a].0@ != #[trigger] t[b].0@ by {
                        assert(t[a].0@ == t0[a].0@);
                        assert(t[b].0@ == t0[b].0@);
                    }
                    assert forall|a: int| #![trigger t[a]] 0 <= a < t.len() implies t[a].1@.len() > 0 by {
                        if a != p {
                            assert(t[a] == t0[a]);
                        }
                    }
                }
            },
            None => {
                let mut v: Vec<FuncSignature> = Vec::new();
                v.push(sig);
                self.function_sigs.push((f.name.clone(), v));
                proof {
                    let t = self.function_sigs@;
                    let t0 = g0.function_sigs@;
                    assert(t.drop_last() =~= t0);
                    assert forall|a: int, b: int| 0 <= a < t.len() && 0 <= b < t.len() && a != b
                        implies #[trigger] t[a].0@ != #[trigger] t[b].0@ by {
                        if a < t0.len() && b < t0.len() {
                            assert(t[a] == t0[a]);
                            assert(t[b] == t0[b]);
                        } else if a < t0.len() {
                            assert(t[a] == t0[a]);
                        } else {
                            assert(t[b] == t0[b]);
                        }
                    }
                    assert forall|a: int| #![trigger t[a]] 0 <= a < t.len() implies t[a].1@.len() > 0 by {
                        if a < t0.len() {
                            assert(t[a] == t0[a]);
                        }
                    }
                }
            },
        }
        let ghost g1 = *self;
        match find_key(&self.functions, f.name.as_str()) {
            Some(p) => {
                proof {
                    lemma_key_pos(self.functions@, p as int);
                }
                let mut e = self.functions.remove(p);
                let ghost e0 = e;
                e.1.push(f);
                self.functions.insert(p, e);
                proof {
                    assert(e.1@.drop_last() =~= e0.1@);
                    let t = self.functions@;
                    let t0 = g0.functions@;
                    assert forall|a: int| 0 <= a < t.len() && a != p implies #[trigger] t[a] == t0[a] by {
                        if a < p {
                        } else {
                        }
                    }
                    assert forall|a: int, b: int| 0 <= a < t.len() && 0 <= b < t.len() && a != b
                        implies #[trigger] t[a].0@ != #[trigger] t[b].0@ by {
                        assert(t[a].0@ == t0[a].0@);
                        assert(t[b].0@ == t0[b].0@);
                    }
                }
            },
            None => {
                let name = f.name.clone();
                let mut v: Vec<Function<'a>> = Vec::new();
                v.push(f);
                self.functions.push((name, v));
                proof {
                    let t = self.functions@;
                    let t0 = g0.functions@;
                    assert(t.drop_last() =~= t0);
                    assert forall|a: int, b: int| 0 <= a < t.len() && 0 <= b < t.len() && a != b
                        implies #[trigger] t[a].0@ != #[trigger] t[b].0@ by {
                        if a < t0.len() && b < t0.len() {
                            assert(t[a] == t0[a]);
                            assert(t[b] == t0[b]);
                        } else if a < t0.len() {
                            assert(t[a] == t0[a]);
                        } else {
                            assert(t[b] == t0[b]);
                        }
                    }
                }
            },
        }
        Ok(())
    }
}

// ---------------------------------------------------------------------------
// Global expressions and declarations.

/// The names that an expression assigns as a whole.
pub open spec fn assigned_names<'a>(e: Exp<'a>) -> Seq<Seq<char>> {
    assigns(e).map_values(|x: (Span<'a>, Seq<char>)| x.1)
}

/// What entering a global expression does: the variables it assigns become
/// global variables, and it is kept for later typing.
pub open spec fn expression_visited<'a>(g0: GlobalEnvironmentState<'a>, e: Exp<'a>, r: Result<(), ReadError<'a>>, g: GlobalEnvironmentState<'a>) -> bool {
    &&& r is Ok
    &&& names_v(g.global_variables@) == add_names_v(names_v(g0.global_variables@), assigned_names(e))
    &&& g.global_expressions@ == g0.global_expressions@.push(e)
    &&& g.structures == g0.structures
    &&& g.functions == g0.functions
    &&& g.function_sigs == g0.function_sigs
    &&& g.structure_name_by_fields == g0.structure_name_by_fields
    &&& g.all_structure_fields == g0.all_structure_fields
    &&& g.all_mutable_fields == g0.all_mutable_fields
    &&& g.known_types == g0.known_types
}

/// What entering a declaration does.
pub open spec fn decl_visited<'a>(g0: GlobalEnvironmentState<'a>, d: Decl<'a>, r: Result<(), ReadError<'a>>, g: GlobalEnvironmentState<'a>) -> bool {
    match d.val {
        DeclVal::Structure(s) => struct_visited(g0, s, r, g),
        DeclVal::Function(f) => function_visited(g0, f, r, g),
        DeclVal::Exp(e) => expression_visited(g0, e, r, g),
    }
}

impl<'a> GlobalEnvironmentState<'a> {
    /// Enters a global expression: the variables it assigns become global
    /// variables, and it is kept to be typed later.
    pub fn visit_expression(&mut self, ge: Exp<'a>) -> (r: Result<(), ReadError<'a>>)
        requires
            old(self).wf(),
        ensures
            final(self).wf(),
            expression_visited(*old(self), ge, r, *final(self)),
    {
        let ghost g0 = *self;
        let ids = collect_all_assign(&ge);
        let ghost ns = assigned_names(ge);
        proof {
            assert(ns.len() == ids@.len());
            assert forall|t: int| 0 <= t < ids@.len() implies #[trigger] ns[t] == ids@[t].name@ by {
                assert(crate::parser::typing::assign::idents_v(ids@)[t] == assigns(ge)[t]);
            }
            assert(ns.take(0) =~= Seq::<Seq<char>>::empty());
        }
        let mut i: usize = 0;
        while i < ids.len()
            invariant
                i <= ids@.len(),
                ns.len() == ids@.len(),
                forall|t: int| 0 <= t < ids@.len() ==> #[trigger] ns[t] == ids@[t].name@,
                names_v(self.global_variables@) == add_names_v(names_v(g0.global_variables@), ns.take(i as int)),
                self.structures == g0.structures,
                self.functions == g0.functions,
                self.function_sigs == g0.function_sigs,
                self.structure_name_by_fields == g0.structure_name_by_fields,
                self.all_structure_fields == g0.all_structure_fields,
                self.all_mutable_fields == g0.all_mutable_fields,
                self.known_types == g0.known_types,
                self.global_expressions == g0.global_expressions,
                names_v(self.global_variables@).no_duplicates(),
            decreases ids.len() - i,
        {
            let ghost before = names_v(self.global_variables@);
            add_name(&mut self.global_variables, &ids[i].name);
            proof {
                lemma_add_name_distinct(before, ids@[i as int].name@);
                assert(ns.take(i + 1).drop_last() =~= ns.take(i as int));
                assert(ns.take(i + 1).last() == ids@[i as int].name@);
            }
            i = i + 1;
        }
        proof {
            assert(ns.take(ids@.len() as int) =~= ns);
        }
        self.global_expressions.push(ge);
        Ok(())
    }

    /// Enters a declaration, whatever its kind.
    pub fn visit_decl(&mut self, d: Decl<'a>) -> (r: Result<(), ReadError<'a>>)
        requires
            old(self).wf(),
        ensures
            final(self).wf(),
            decl_visited(*old(self), d, r, *final(self)),
    {
        match d.val {
            DeclVal::Structure(s) => self.visit_structure(s),
            DeclVal::Function(f) => self.visit_function(f),
            DeclVal::Exp(e) => self.visit_expression(e),
        }
    }
}

} // verus!
