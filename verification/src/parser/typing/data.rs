use vstd::prelude::*;

use crate::parser::ast::{Exp, Function, LocatedIdent, Scope, StaticType, StaticTypeV, Structure};
use crate::text::str_eq;

verus! {

/// The type a function returns, then the types of its parameters.
pub type FuncSignature = (StaticType, Vec<StaticType>);

/// The types of a list, as values.
pub open spec fn types_view(v: Seq<StaticType>) -> Seq<StaticTypeV> {
    v.map_values(|t: StaticType| t@)
}

/// A signature, as values.
pub open spec fn sig_view(s: FuncSignature) -> (StaticTypeV, Seq<StaticTypeV>) {
    (s.0@, types_view(s.1@))
}

/// Two types are compatible when one of them is `Any` or when they are the
/// same.
pub open spec fn compatible(a: StaticTypeV, b: StaticTypeV) -> bool {
    a == StaticTypeV::Any || b == StaticTypeV::Any || a == b
}

/// Whether two types are compatible.
pub fn is_compatible(a: StaticType, b: StaticType) -> (r: bool)
    ensures
        r == compatible(a@, b@),
{
    match (&a, &b) {
        (StaticType::Any, _) => true,
        (_, StaticType::Any) => true,
        _ => a.same(&b),
    }
}

/// The functions that the language provides itself.
pub open spec fn builtin_name(name: Seq<char>) -> bool {
    name == "println"@ || name == "div"@ || name == "print"@
}

/// Whether a function is provided by the language itself.
pub fn is_builtin_function(name: &String) -> (r: bool)
    ensures
        r == builtin_name(name@),
{
    str_eq(name.as_str(), "println") || str_eq(name.as_str(), "div") || str_eq(name.as_str(), "print")
}

// ---------------------------------------------------------------------------
// Lists of named entries, the tables of the typer.

/// No name occurs twice in the list.
pub open spec fn keys_distinct<V>(s: Seq<(String, V)>) -> bool {
    forall|i: int, j: int|
        #![trigger s[i], s[j]]
        0 <= i < s.len() && 0 <= j < s.len() && i != j ==> s[i].0@ != s[j].0@
}

/// The name is in the list.
pub open spec fn has_key<V>(s: Seq<(String, V)>, k: Seq<char>) -> bool {
    exists|i: int| #![trigger s[i]] 0 <= i < s.len() && s[i].0@ == k
}

/// Where the name stands in the list.
pub open spec fn key_pos<V>(s: Seq<(String, V)>, k: Seq<char>) -> int {
    choose|i: int| #![trigger s[i]] 0 <= i < s.len() && s[i].0@ == k
}

/// In a list without repeated names, the place of a name is the one where it
/// stands.
pub proof fn lemma_key_pos<V>(s: Seq<(String, V)>, i: int)
    requires
        keys_distinct(s),
        0 <= i < s.len(),
    ensures
        has_key(s, s[i].0@),
        key_pos(s, s[i].0@) == i,
{
    let k = s[i].0@;
    assert(has_key(s, k));
    let p = key_pos(s, k);
    assert(s[p].0@ == k);
}

/// The place of a name in the list, if it is there.
pub fn find_key<V>(s: &Vec<(String, V)>, k: &str) -> (r: Option<usize>)
    ensures
        match r {
            Some(i) => i < s.len() && s@[i as int].0@ == k@,
            None => !has_key(s@, k@),
        },
{
    let mut i: usize = 0;
    while i < s.len()
        invariant
            i <= s.len(),
            forall|j: int| 0 <= j < i ==> s@[j].0@ != k@,
        decreases s.len() - i,
    {
        if str_eq(s[i].0.as_str(), k) {
            return Some(i);
        }
        i = i + 1;
    }
    None
}

// ---------------------------------------------------------------------------
// The environment of variables.

/// A variable as the typer knows it: its type and where it lives.
#[derive(Debug)]
pub struct EnvVariable {
    pub ty: StaticType,
    pub scope: Scope,
}

impl View for EnvVariable {
    type V = (StaticTypeV, Scope);

    open spec fn view(&self) -> (StaticTypeV, Scope) {
        (self.ty@, self.scope)
    }
}

impl EnvVariable {
    /// A global variable of type `Any`.
    pub fn init() -> (r: Self)
        ensures
            r@ == (StaticTypeV::Any, Scope::Global),
    {
        EnvVariable { ty: StaticType::Any, scope: Scope::Global }
    }

    /// A local variable of type `Any`.
    pub fn local() -> (r: Self)
        ensures
            r@ == (StaticTypeV::Any, Scope::Local),
    {
        EnvVariable { scope: Scope::Local, ..EnvVariable::init() }
    }

    /// A global variable of the given type.
    pub fn typed(ty: StaticType) -> (r: Self)
        ensures
            r@ == (ty@, Scope::Global),
    {
        EnvVariable { ty, ..EnvVariable::init() }
    }
}

/// The environment: for each name, the variables of that name, the innermost
/// last.
pub type EnvironmentMap = Vec<(String, Vec<EnvVariable>)>;

/// The variables of a name in an environment, the innermost last (empty where
/// the name is not bound).
pub open spec fn stack_of(env: Seq<(String, Vec<EnvVariable>)>, k: Seq<char>) -> Seq<(StaticTypeV, Scope)> {
    if has_key(env, k) {
        env[key_pos(env, k)].1@.map_values(|v: EnvVariable| v@)
    } else {
        Seq::empty()
    }
}

/// An environment lists each name once, with at least one variable.
pub open spec fn env_wf(env: Seq<(String, Vec<EnvVariable>)>) -> bool {
    &&& keys_distinct(env)
    &&& forall|i: int| #![trigger env[i]] 0 <= i < env.len() ==> env[i].1@.len() > 0
}

/// Replacing the variables of the name at `i` changes the stack of that name
/// only.
pub(crate) proof fn lemma_env_update(env: Seq<(String, Vec<EnvVariable>)>, i: int, e: (String, Vec<EnvVariable>))
    requires
        env_wf(env),
        0 <= i < env.len(),
        e.0@ == env[i].0@,
        e.1@.len() > 0,
    ensures
        env_wf(env.update(i, e)),
        forall|k: Seq<char>| #![trigger stack_of(env.update(i, e), k)]
            stack_of(env.update(i, e), k) == if k == e.0@ {
                e.1@.map_values(|v: EnvVariable| v@)
            } else {
                stack_of(env, k)
            },
{
    let n = env.update(i, e);
    assert(keys_distinct(n)) by {
        assert forall|a: int, b: int| 0 <= a < n.len() && 0 <= b < n.len() && a != b implies #[trigger] n[a].0@ != #[trigger] n[b].0@ by {
            assert(n[a].0@ == env[a].0@);
            assert(n[b].0@ == env[b].0@);
        }
    }
    assert forall|k: Seq<char>| #![trigger stack_of(n, k)]
        stack_of(n, k) == if k == e.0@ {
            e.1@.map_values(|v: EnvVariable| v@)
        } else {
            stack_of(env, k)
        } by {
        if k == e.0@ {
            lemma_key_pos(n, i);
        } else if has_key(env, k) {
            let p = key_pos(env, k);
            lemma_key_pos(env, p);
            assert(p != i);
            assert(n[p] == env[p]);
            lemma_key_pos(n, p);
        } else {
            if has_key(n, k) {
                let p = key_pos(n, k);
                assert(n[p].0@ == env[p].0@);
            }
        }
    }
}

/// Removing the entry at `i` empties the stack of its name and keeps the
/// others.
proof fn lemma_env_remove(env: Seq<(String, Vec<EnvVariable>)>, i: int)
    requires
        env_wf(env),
        0 <= i < env.len(),
    ensures
        env_wf(env.remove(i)),
        forall|k: Seq<char>| #![trigger stack_of(env.remove(i), k)]
            stack_of(env.remove(i), k) == if k == env[i].0@ {
                Seq::<(StaticTypeV, Scope)>::empty()
            } else {
                stack_of(env, k)
            },
{
    let n = env.remove(i);
    assert(keys_distinct(n)) by {
        assert forall|a: int, b: int| 0 <= a < n.len() && 0 <= b < n.len() && a != b implies #[trigger] n[a].0@ != #[trigger] n[b].0@ by {
            let a2 = if a < i { a } else { a + 1 };
            let b2 = if b < i { b } else { b + 1 };
            assert(n[a] == env[a2]);
            assert(n[b] == env[b2]);
        }
    }
    assert forall|j: int| #![trigger n[j]] 0 <= j < n.len() implies n[j].1@.len() > 0 by {
        let j2 = if j < i { j } else { j + 1 };
        assert(n[j] == env[j2]);
    }
    assert forall|k: Seq<char>| #![trigger stack_of(n, k)]
        stack_of(n, k) == if k == env[i].0@ {
            Seq::<(StaticTypeV, Scope)>::empty()
        } else {
            stack_of(env, k)
        } by {
        if has_key(n, k) {
            let p = key_pos(n, k);
            let p2 = if p < i { p } else { p + 1 };
            assert(n[p] == env[p2]);
            lemma_key_pos(env, p2);
            lemma_key_pos(n, p);
            assert(p2 != i);
        } else if has_key(env, k) {
            let p = key_pos(env, k);
            if p != i {
                let q = if p < i { p } else { p - 1 };
                assert(n[q] == env[p]);
                assert(false);
            }
        }
    }
}

/// Adding a new name at the end gives it the stack of the entry.
pub(crate) proof fn lemma_env_push(env: Seq<(String, Vec<EnvVariable>)>, e: (String, Vec<EnvVariable>))
    requires
        env_wf(env),
        !has_key(env, e.0@),
        e.1@.len() > 0,
    ensures
        env_wf(env.push(e)),
        forall|k: Seq<char>| #![trigger stack_of(env.push(e), k)]
            stack_of(env.push(e), k) == if k == e.0@ {
                e.1@.map_values(|v: EnvVariable| v@)
            } else {
                stack_of(env, k)
            },
{
    let n = env.push(e);
    assert(keys_distinct(n)) by {
        assert forall|a: int, b: int| 0 <= a < n.len() && 0 <= b < n.len() && a != b implies #[trigger] n[a].0@ != #[trigger] n[b].0@ by {
            if a < env.len() {
                assert(n[a] == env[a]);
            }
            if b < env.len() {
                assert(n[b] == env[b]);
            }
        }
    }
    assert forall|j: int| #![trigger n[j]] 0 <= j < n.len() implies n[j].1@.len() > 0 by {
        if j < env.len() {
            assert(n[j] == env[j]);
        }
    }
    assert forall|k: Seq<char>| #![trigger stack_of(n, k)]
        stack_of(n, k) == if k == e.0@ {
            e.1@.map_values(|v: EnvVariable| v@)
        } else {
            stack_of(env, k)
        } by {
        if k == e.0@ {
            lemma_key_pos(n, env.len() as int);
        } else if has_key(env, k) {
            let p = key_pos(env, k);
            assert(n[p] == env[p]);
            lemma_key_pos(n, p);
        } else if has_key(n, k) {
            let p = key_pos(n, k);
            if p < env.len() {
                assert(n[p] == env[p]);
            }
        }
    }
}

// ---------------------------------------------------------------------------
// The state of the typer.

/// The declarations once typed.
#[derive(Debug)]
pub struct TypedDecls<'a> {
    pub functions: Vec<(String, Vec<Function<'a>>)>,
    pub structures: Vec<(String, Structure<'a>)>,
    pub global_expressions: Vec<Exp<'a>>,
}

/// What the first pass over the declarations gathers.
#[derive(Debug)]
pub struct GlobalEnvironmentState<'a> {
    pub structures: Vec<(String, Structure<'a>)>,
    pub functions: Vec<(String, Vec<Function<'a>>)>,
    pub function_sigs: Vec<(String, Vec<FuncSignature>)>,
    pub structure_name_by_fields: Vec<(String, String)>,
    pub all_structure_fields: Vec<(String, StaticType)>,
    pub all_mutable_fields: Vec<String>,
    pub global_variables: Vec<String>,
    pub global_expressions: Vec<Exp<'a>>,
    pub known_types: Vec<StaticType>,
}

/// The types every program knows.
pub open spec fn builtin_types() -> Seq<StaticTypeV> {
    seq![StaticTypeV::Any, StaticTypeV::Str, StaticTypeV::Bool, StaticTypeV::Int64, StaticTypeV::Nothing]
}

impl<'a> GlobalEnvironmentState<'a> {
    /// The state before any declaration: nothing gathered, and the built-in
    /// types known.
    pub fn init() -> (r: Self)
        ensures
            r.structures@.len() == 0,
            r.functions@.len() == 0,
            r.function_sigs@.len() == 0,
            r.structure_name_by_fields@.len() == 0,
            r.all_structure_fields@.len() == 0,
            r.all_mutable_fields@.len() == 0,
            r.global_variables@.len() == 0,
            r.global_expressions@.len() == 0,
            types_view(r.known_types@) == builtin_types(),
    {
        let known_types = vec![StaticType::Any, StaticType::Str, StaticType::Bool, StaticType::Int64, StaticType::Nothing];
        let r = GlobalEnvironmentState {
            structures: Vec::new(),
            functions: Vec::new(),
            function_sigs: Vec::new(),
            structure_name_by_fields: Vec::new(),
            all_structure_fields: Vec::new(),
            all_mutable_fields: Vec::new(),
            global_variables: Vec::new(),
            global_expressions: Vec::new(),
            known_types,
        };
        assert(types_view(r.known_types@) =~= builtin_types());
        r
    }
}

/// What the typer knows while it types a function or an expression.
#[derive(Debug)]
pub struct TypingContext<'a> {
    pub functions: Vec<(String, Vec<FuncSignature>)>,
    pub structures: Vec<(String, Structure<'a>)>,
    pub known_types: Vec<StaticType>,
    pub mutable_fields: Vec<String>,
    pub all_fields: Vec<(String, StaticType)>,
    pub structure_name_by_fields: Vec<(String, String)>,
    pub previous_scope: Scope,
    pub current_scope: Scope,
    pub environment: EnvironmentMap,
}

/// Whether a structure has a field of that name.
pub open spec fn has_field(s: Structure, name: Seq<char>) -> bool {
    exists|i: int| #![trigger s.fields@[i]] 0 <= i < s.fields@.len() && s.fields@[i].name.name@ == name
}

/// `n` copies of a local variable of type `Any`.
pub open spec fn fresh_locals(n: nat) -> Seq<(StaticTypeV, Scope)> {
    Seq::new(n, |i: int| (StaticTypeV::Any, Scope::Local))
}

/// How many of the identifiers have that name.
pub open spec fn count_named(ids: Seq<LocatedIdent>, k: Seq<char>) -> nat
    decreases ids.len(),
{
    if ids.len() == 0 {
        0
    } else {
        count_named(ids.drop_last(), k) + if ids.last().name@ == k { 1nat } else { 0nat }
    }
}

impl<'a> TypingContext<'a> {
    /// The tables name each function and structure once, and the environment
    /// is well formed.
    pub open spec fn wf(&self) -> bool {
        &&& keys_distinct(self.functions@)
        &&& keys_distinct(self.structures@)
        &&& env_wf(self.environment@)
    }

    /// The variables of a name, the innermost last.
    pub open spec fn stack(&self, k: Seq<char>) -> Seq<(StaticTypeV, Scope)> {
        stack_of(self.environment@, k)
    }

    /// Two contexts differ in their environment at most.
    pub open spec fn same_tables(&self, other: &Self) -> bool {
        &&& self.functions == other.functions
        &&& self.structures == other.structures
        &&& self.known_types == other.known_types
        &&& self.mutable_fields == other.mutable_fields
        &&& self.all_fields == other.all_fields
        &&& self.structure_name_by_fields == other.structure_name_by_fields
        &&& self.previous_scope == other.previous_scope
        &&& self.current_scope == other.current_scope
    }

    /// Whether a value of the given type can have a field of that name: any
    /// value of type `Any` may, a structure has its own fields, and the other
    /// types have none.
    pub fn field_exist_in(&self, structure_type: &StaticType, field_name: &String) -> (r: bool)
        requires
            self.wf(),
            structure_type@ is Struct ==> has_key(self.structures@, structure_type@->Struct_0),
        ensures
            r == match structure_type@ {
                StaticTypeV::Any => true,
                StaticTypeV::Struct(s) => has_field(self.structures@[key_pos(self.structures@, s)].1, field_name@),
                _ => false,
            },
    {
        match structure_type {
            StaticType::Any => true,
            StaticType::Nothing | StaticType::Int64 | StaticType::Str | StaticType::Bool => false,
            StaticType::Struct(s) => {
                let p = find_key(&self.structures, s.as_str());
                let p = match p {
                    Some(p) => p,
                    None => {
                        return false;
                    },
                };
                proof {
                    lemma_key_pos(self.structures@, p as int);
                }
                let fields = &self.structures[p].1.fields;
                let mut i: usize = 0;
                while i < fields.len()
                    invariant
                        i <= fields.len(),
                        p < self.structures@.len(),
                        keys_distinct(self.structures@),
                        self.structures@[p as int].0@ == s@,
                        structure_type@ == StaticTypeV::Struct(s@),
                        fields@ == self.structures@[p as int].1.fields@,
                        forall|j: int| 0 <= j < i ==> fields@[j].name.name@ != field_name@,
                    decreases fields.len() - i,
                {
                    if str_eq(fields[i].name.name.as_str(), field_name.as_str()) {
                        proof {
                            lemma_key_pos(self.structures@, p as int);
                            let st = self.structures@[p as int].1;
                            assert(st.fields@ == fields@);
                            assert(fields@[i as int].name.name@ == field_name@);
                            assert(st.fields@[i as int].name.name@ == field_name@);
                        }
                        return true;
                    }
                    i = i + 1;
                }
                proof {
                    let st = self.structures@[p as int].1;
                    assert(st.fields@ == fields@);
                    if has_field(st, field_name@) {
                        let j = choose|j: int| #![trigger st.fields@[j]] 0 <= j < st.fields@.len() && st.fields@[j].name.name@ == field_name@;
                        assert(fields@[j].name.name@ != field_name@);
                    }
                }
                false
            },
        }
    }

    /// The return type of a function that has one signature only; `None` for
    /// an unknown function or an overloaded one.
    pub fn get_potentially_unique_return_type_for_function(&self, name: &String) -> (r: Option<StaticType>)
        requires
            self.wf(),
            has_key(self.functions@, name@) ==> self.functions@[key_pos(self.functions@, name@)].1@.len() > 0,
        ensures
            match r {
                Some(t) => has_key(self.functions@, name@)
                    && self.functions@[key_pos(self.functions@, name@)].1@.len() == 1
                    && t@ == self.functions@[key_pos(self.functions@, name@)].1@[0].0@,
                None => !has_key(self.functions@, name@)
                    || self.functions@[key_pos(self.functions@, name@)].1@.len() > 1,
            },
    {
        match find_key(&self.functions, name.as_str()) {
            None => None,
            Some(p) => {
                proof {
                    lemma_key_pos(self.functions@, p as int);
                }
                let sigs = &self.functions[p].1;
                if sigs.len() > 1 {
                    None
                } else {
                    Some(sigs[0].0.duplicate())
                }
            },
        }
    }

    /// Remembers the scope and enters a local one.
    pub fn enter_in_local_scope(&mut self)
        ensures
            final(self).previous_scope == old(self).current_scope,
            final(self).current_scope == Scope::Local,
            final(self).functions == old(self).functions,
            final(self).structures == old(self).structures,
            final(self).known_types == old(self).known_types,
            final(self).mutable_fields == old(self).mutable_fields,
            final(self).all_fields == old(self).all_fields,
            final(self).structure_name_by_fields == old(self).structure_name_by_fields,
            final(self).environment == old(self).environment,
    {
        self.previous_scope = self.current_scope;
        self.current_scope = Scope::Local;
    }

    /// Goes back to the scope remembered.
    pub fn restore_previous_scope(&mut self)
        ensures
            final(self).current_scope == old(self).previous_scope,
            final(self).previous_scope == old(self).previous_scope,
            final(self).functions == old(self).functions,
            final(self).structures == old(self).structures,
            final(self).known_types == old(self).known_types,
            final(self).mutable_fields == old(self).mutable_fields,
            final(self).all_fields == old(self).all_fields,
            final(self).structure_name_by_fields == old(self).structure_name_by_fields,
            final(self).environment == old(self).environment,
    {
        self.current_scope = self.previous_scope;
    }

    /// Binds a new variable of that name, hiding the previous ones.
    pub fn push_to_env(&mut self, ident: &LocatedIdent<'a>, ty: StaticType, scope: Scope)
        requires
            old(self).wf(),
        ensures
            final(self).wf(),
            final(self).same_tables(old(self)),
            forall|k: Seq<char>| #![trigger final(self).stack(k)]
                final(self).stack(k) == if k == ident.name@ {
                    old(self).stack(k).push((ty@, scope))
                } else {
                    old(self).stack(k)
                },
    {
        let ghost env0 = self.environment@;
        let v = EnvVariable { ty, scope };
        match find_key(&self.environment, ident.name.as_str()) {
            Some(i) => {
                let (name, mut vars) = self.environment.remove(i);
                proof {
                    lemma_key_pos(env0, i as int);
                }
                let ghost old_vars = vars@;
                vars.push(v);
                let ghost e = (name, vars);
                proof {
                    lemma_env_update(env0, i as int, e);
                    assert(vars@.map_values(|x: EnvVariable| x@) =~= old_vars.map_values(|x: EnvVariable| x@).push(
                        (ty@, scope),
                    ));
                }
                self.environment.insert(i, (name, vars));
                assert(self.environment@ =~= env0.update(i as int, e));
            },
            None => {
                let mut vars = Vec::new();
                vars.push(v);
                let e = (ident.name.clone(), vars);
                proof {
                    lemma_env_push(env0, e);
                    assert(e.1@.map_values(|x: EnvVariable| x@) =~= Seq::<(StaticTypeV, Scope)>::empty().push(
                        (ty@, scope),
                    ));
                }
                self.environment.push(e);
            },
        }
    }

    /// Binds a new local variable of type `Any`.
    pub fn push_local_to_env(&mut self, ident: &LocatedIdent<'a>)
        requires
            old(self).wf(),
        ensures
            final(self).wf(),
            final(self).same_tables(old(self)),
            forall|k: Seq<char>| #![trigger final(self).stack(k)]
                final(self).stack(k) == if k == ident.name@ {
                    old(self).stack(k).push((StaticTypeV::Any, Scope::Local))
                } else {
                    old(self).stack(k)
                },
    {
        self.push_to_env(ident, StaticType::Any, Scope::Local);
    }

    /// Binds a local variable of type `Any` for each identifier, in order,
    /// and gives the identifiers back.
    pub fn extend_local_env(&mut self, idents: Vec<LocatedIdent<'a>>) -> (r: Vec<LocatedIdent<'a>>)
        requires
            old(self).wf(),
        ensures
            r == idents,
            final(self).wf(),
            final(self).same_tables(old(self)),
            forall|k: Seq<char>| #![trigger final(self).stack(k)]
                final(self).stack(k) == old(self).stack(k) + fresh_locals(count_named(idents@, k)),
    {
        let ghost s0 = *self;
        let mut i: usize = 0;
        while i < idents.len()
            invariant
                i <= idents.len(),
                self.wf(),
                self.same_tables(&s0),
                forall|k: Seq<char>| #![trigger self.stack(k)]
                    self.stack(k) == s0.stack(k) + fresh_locals(count_named(idents@.take(i as int), k)),
            decreases idents.len() - i,
        {
            let ghost before = *self;
            self.push_local_to_env(&idents[i]);
            assert forall|k: Seq<char>| #![trigger self.stack(k)]
                self.stack(k) == s0.stack(k) + fresh_locals(count_named(idents@.take(i + 1), k)) by {
                assert(idents@.take(i + 1).drop_last() =~= idents@.take(i as int));
                let c = count_named(idents@.take(i as int), k);
                assert(before.stack(k) == s0.stack(k) + fresh_locals(c));
                if k == idents@[i as int].name@ {
                    assert(fresh_locals(c + 1) =~= fresh_locals(c).push((StaticTypeV::Any, Scope::Local)));
                    assert(s0.stack(k) + fresh_locals(c + 1) =~= (s0.stack(k) + fresh_locals(c)).push(
                        (StaticTypeV::Any, Scope::Local),
                    ));
                }
            }
            i = i + 1;
        }
        assert(idents@.take(idents.len() as int) =~= idents@);
        idents
    }

    /// Unbinds the innermost variable of that name, if there is one.
    pub fn pop_from_env(&mut self, ident: &LocatedIdent<'a>)
        requires
            old(self).wf(),
        ensures
            final(self).wf(),
            final(self).same_tables(old(self)),
            forall|k: Seq<char>| #![trigger final(self).stack(k)]
                final(self).stack(k) == if k == ident.name@ && old(self).stack(k).len() > 0 {
                    old(self).stack(k).drop_last()
                } else {
                    old(self).stack(k)
                },
    {
        let ghost env0 = self.environment@;
        match find_key(&self.environment, ident.name.as_str()) {
            None => {},
            Some(i) => {
                proof {
                    lemma_key_pos(env0, i as int);
                }
                let (name, mut vars) = self.environment.remove(i);
                let ghost old_vars = vars@;
                vars.pop();
                proof {
                    assert(vars@.map_values(|x: EnvVariable| x@) =~= old_vars.map_values(|x: EnvVariable| x@).drop_last());
                }
                if vars.len() == 0 {
                    proof {
                        lemma_env_remove(env0, i as int);
                        assert(old_vars.map_values(|x: EnvVariable| x@).drop_last() =~= Seq::<(StaticTypeV, Scope)>::empty());
                    }
                } else {
                    let ghost e = (name, vars);
                    proof {
                        lemma_env_update(env0, i as int, e);
                    }
                    self.environment.insert(i, (name, vars));
                    assert(self.environment@ =~= env0.update(i as int, e));
                }
            },
        }
    }

    /// Unbinds, for each identifier in order, the innermost variable of its
    /// name.
    pub fn unextend_env(&mut self, idents: Vec<LocatedIdent<'a>>)
        requires
            old(self).wf(),
        ensures
            final(self).wf(),
            final(self).same_tables(old(self)),
            forall|k: Seq<char>| #![trigger final(self).stack(k)]
                final(self).stack(k) == old(self).stack(k).take(
                    if count_named(idents@, k) <= old(self).stack(k).len() {
                        old(self).stack(k).len() - count_named(idents@, k)
                    } else {
                        0
                    },
                ),
    {
        let ghost s0 = *self;
        let mut i: usize = 0;
        while i < idents.len()
            invariant
                i <= idents.len(),
                self.wf(),
                self.same_tables(&s0),
                forall|k: Seq<char>| #![trigger self.stack(k)]
                    self.stack(k) == s0.stack(k).take(
                        if count_named(idents@.take(i as int), k) <= s0.stack(k).len() {
                            s0.stack(k).len() - count_named(idents@.take(i as int), k)
                        } else {
                            0
                        },
                    ),
            decreases idents.len() - i,
        {
            let ghost before = *self;
            self.pop_from_env(&idents[i]);
            assert forall|k: Seq<char>| #![trigger self.stack(k)]
                self.stack(k) == s0.stack(k).take(
                    if count_named(idents@.take(i + 1), k) <= s0.stack(k).len() {
                        s0.stack(k).len() - count_named(idents@.take(i + 1), k)
                    } else {
                        0
                    },
                ) by {
                assert(idents@.take(i + 1).drop_last() =~= idents@.take(i as int));
                let c = count_named(idents@.take(i as int), k);
                let l = s0.stack(k).len();
                let t = if c <= l { l - c } else { 0 };
                assert(before.stack(k) == s0.stack(k).take(t));
                if k == idents@[i as int].name@ && t > 0 {
                    assert(s0.stack(k).take(t).drop_last() =~= s0.stack(k).take(t - 1));
                }
            }
            i = i + 1;
        }
        assert(idents@.take(idents.len() as int) =~= idents@);
    }

    /// The type of the innermost variable of that name.
    pub fn type_from_env_name(&mut self, name: &String) -> (r: Option<StaticType>)
        requires
            old(self).wf(),
        ensures
            *final(self) == *old(self),
            match r {
                Some(t) => old(self).stack(name@).len() > 0 && t@ == old(self).stack(name@).last().0,
                None => old(self).stack(name@).len() == 0,
            },
    {
        match find_key(&self.environment, name.as_str()) {
            None => None,
            Some(p) => {
                proof {
                    lemma_key_pos(self.environment@, p as int);
                }
                let vars = &self.environment[p].1;
                if vars.len() == 0 {
                    None
                } else {
                    Some(vars[vars.len() - 1].ty.duplicate())
                }
            },
        }
    }

    /// The scope of the innermost variable of that name.
    pub fn scope_from_env_name(&mut self, name: &String) -> (r: Option<Scope>)
        requires
            old(self).wf(),
        ensures
            *final(self) == *old(self),
            match r {
                Some(s) => old(self).stack(name@).len() > 0 && s == old(self).stack(name@).last().1,
                None => old(self).stack(name@).len() == 0,
            },
    {
        match find_key(&self.environment, name.as_str()) {
            None => None,
            Some(p) => {
                proof {
                    lemma_key_pos(self.environment@, p as int);
                }
                let vars = &self.environment[p].1;
                if vars.len() == 0 {
                    None
                } else {
                    Some(vars[vars.len() - 1].scope)
                }
            },
        }
    }

    /// Whether a variable of that name is bound.
    pub fn is_alive_in_env(&self, ident: &LocatedIdent<'a>) -> (r: bool)
        requires
            self.wf(),
        ensures
            r == (self.stack(ident.name@).len() > 0),
    {
        match find_key(&self.environment, ident.name.as_str()) {
            None => false,
            Some(p) => {
                proof {
                    lemma_key_pos(self.environment@, p as int);
                }
                true
            },
        }
    }
}

/// Binding local variables for a list of identifiers and then unbinding them
/// leaves every name bound as before.
pub proof fn law_unextend_undoes_extend(
    before: TypingContext,
    between: TypingContext,
    after: TypingContext,
    idents: Seq<LocatedIdent>,
)
    requires
        forall|k: Seq<char>| #![trigger between.stack(k)]
            between.stack(k) == before.stack(k) + fresh_locals(count_named(idents, k)),
        forall|k: Seq<char>| #![trigger after.stack(k)]
            after.stack(k) == between.stack(k).take(
                if count_named(idents, k) <= between.stack(k).len() {
                    between.stack(k).len() - count_named(idents, k)
                } else {
                    0
                },
            ),
    ensures
        forall|k: Seq<char>| #![trigger after.stack(k)] after.stack(k) == before.stack(k),
{
    assert forall|k: Seq<char>| #![trigger after.stack(k)] after.stack(k) == before.stack(k) by {
        assert(between.stack(k) == before.stack(k) + fresh_locals(count_named(idents, k)));
        assert((before.stack(k) + fresh_locals(count_named(idents, k))).take(before.stack(k).len() as int) =~= before.stack(k));
    }
}

/// Binding a variable and then unbinding its name leaves every name bound as
/// before.
pub proof fn law_pop_undoes_push(
    before: TypingContext,
    between: TypingContext,
    after: TypingContext,
    name: Seq<char>,
    v: (StaticTypeV, Scope),
)
    requires
        forall|k: Seq<char>| #![trigger between.stack(k)]
            between.stack(k) == if k == name {
                before.stack(k).push(v)
            } else {
                before.stack(k)
            },
        forall|k: Seq<char>| #![trigger after.stack(k)]
            after.stack(k) == if k == name && between.stack(k).len() > 0 {
                between.stack(k).drop_last()
            } else {
                between.stack(k)
            },
    ensures
        forall|k: Seq<char>| #![trigger after.stack(k)] after.stack(k) == before.stack(k),
{
    assert forall|k: Seq<char>| #![trigger after.stack(k)] after.stack(k) == before.stack(k) by {
        assert(between.stack(k) == if k == name { before.stack(k).push(v) } else { before.stack(k) });
        if k == name {
            assert(before.stack(k).push(v).drop_last() =~= before.stack(k));
        }
    }
}

} // verus!
