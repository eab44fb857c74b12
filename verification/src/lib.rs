//! A minimal runtime for a dynamically-typed value representation: tagged
//! two-word values (a descriptor index plus one word of payload) over an
//! interned descriptor registry, together with a tree-walking evaluator for
//! a small expression language with lexically scoped bindings.

use vstd::prelude::*;

pub mod decimal;
pub mod err;
pub mod genders;
pub mod heap;

verus! {

/// An entry of a descriptor's method table. The core defines only the
/// dispatch mechanism and ships its built-in tables empty; collaborators
/// that register methods give them concrete behaviour. An entry of the
/// core itself carries no operation: invoking it returns its receiver.
pub struct Method {}

impl Method {
    /// Invoke this method on `obj`. The core ships no concrete
    /// operations, so the receiver comes back unchanged.
    pub fn invoke_on(&self, obj: Object) -> (r: Object)
        ensures
            r == obj,
    {
        obj
    }
}

/// Byte footprint of one value of this representation: exactly two
/// eight-byte machine words, a descriptor reference and a payload word.
pub const OBJECT_SIZE: usize = 16;

/// Index of a descriptor in a [`genders::Registry`]. Two descriptors are
/// the same type exactly when their indices are equal: descriptor equality
/// is identity (one canonical interned slot per descriptor), never a
/// structural comparison of size, name and methods.
pub type GenderId = usize;

/// A type descriptor, conceptually similar to a typespec or a vtable.
pub struct Gender {
    /// Byte count of the heap payload of values of this type; `size == 0`
    /// is the sentinel for an immediate type (the payload word itself holds
    /// the value, no allocation).
    pub size: usize,
    /// Diagnostic label.
    pub name: String,
    /// Method table: maps a method name to an invocable operation.
    pub methods: Vec<(String, Method)>,
}

/// The discriminated payload word of a value: either the value itself
/// (for descriptors with `size == 0`) or the handle of an exclusively
/// owned allocation in a [`heap::Heap`] (for descriptors with `size > 0`).
#[derive(PartialEq, Eq, Structural, Clone, Copy, Debug)]
pub enum Payload {
    Immediate { word: u64 },
    Owned { handle: usize },
}

/// Similar to the way Rust represents trait objects as "fat pointers",
/// gendered objects are two words: a descriptor index and a word of
/// payload. Two objects are equal exactly when their descriptor indices
/// are identical and their payload words are equal — a bitwise comparison,
/// never a deep comparison of heap contents.
#[derive(PartialEq, Eq, Structural, Clone, Copy, Debug)]
pub struct Object {
    pub gender: GenderId,
    pub payload: Payload,
}

/// The immediate number object holding the given bit pattern.
pub open spec fn num_obj(bits: u64) -> Object {
    Object { gender: genders::NUMBER, payload: Payload::Immediate { word: bits } }
}

/// The immediate boolean object: payload word 1 for true, 0 for false.
pub open spec fn bool_obj(b: bool) -> Object {
    Object { gender: genders::BOOLEAN, payload: Payload::Immediate { word: if b { 1 } else { 0 } } }
}

/// What `try_extract_bool` yields: the payload word read as a truth value,
/// for boolean-descriptor objects only.
pub open spec fn spec_extract_bool(o: Object) -> Option<bool> {
    if o.gender == genders::BOOLEAN {
        Some(payload_word(o.payload) != 0)
    } else {
        None
    }
}

/// The raw word a payload occupies: the immediate bits, or the handle.
pub open spec fn payload_word(p: Payload) -> u64 {
    match p {
        Payload::Immediate { word } => word,
        Payload::Owned { handle } => handle as u64,
    }
}

impl Object {
    /// An immediate number value wrapping a literal's bit pattern.
    pub fn number(bits: u64) -> (r: Object)
        ensures
            r == num_obj(bits),
    {
        Object { gender: genders::NUMBER, payload: Payload::Immediate { word: bits } }
    }

    /// An immediate boolean value (payload word 0 or 1).
    pub fn boolean(b: bool) -> (r: Object)
        ensures
            r == bool_obj(b),
    {
        Object { gender: genders::BOOLEAN, payload: Payload::Immediate { word: if b { 1 } else { 0 } } }
    }

    /// Read this object as a boolean: `Some` of its payload word compared
    /// against zero when its descriptor is the boolean one, `None` otherwise.
    pub fn try_extract_bool(&self) -> (r: Option<bool>)
        ensures
            r == spec_extract_bool(*self),
    {
        if self.gender == genders::BOOLEAN {
            match self.payload {
                Payload::Immediate { word } => Some(word != 0),
                Payload::Owned { handle } => Some(handle != 0),
            }
        } else {
            None
        }
    }

    /// A second handle to the same representation, without re-allocating.
    /// An owned payload copied this way yields two handles to one heap
    /// slot; releasing is guarded by [`release_object`]'s precondition, so
    /// at most one of them can ever release the allocation.
    pub fn shallow_copy(&self) -> (r: Object)
        ensures
            r == *self,
    {
        Object { gender: self.gender, payload: self.payload }
    }
}

/// Two objects built from distinct descriptor instances compare unequal,
/// whatever their payloads and however alike the descriptors' contents:
/// descriptor equality is identity of the interned slot, not structure.
pub proof fn lemma_descriptor_identity_equality(a: Object, b: Object)
    requires
        a.gender != b.gender,
    ensures
        a != b,
{
}

/// Construct a value with no allocation, whose payload word is the value
/// itself. Asks for an immediate descriptor (`size == 0`); handing it a
/// sized one is a programming error, not a recoverable condition.
pub fn make_immediate(registry: &genders::Registry, gender: GenderId, payload: u64) -> (r: Object)
    requires
        registry.valid(gender as int),
        registry.gender_at(gender as int).size == 0,
    ensures
        r == (Object { gender, payload: Payload::Immediate { word: payload } }),
{
    Object { gender, payload: Payload::Immediate { word: payload } }
}

/// Allocate a value of a sized descriptor: a zero-initialized buffer of
/// exactly `size` bytes appears in the heap, exclusively owned by the
/// returned value, whose payload is the buffer's fresh handle. Asks for a
/// non-immediate descriptor (`size > 0`); handing it an immediate one is a
/// programming error, not a recoverable condition.
pub fn allocate_object(registry: &genders::Registry, heap: &mut heap::Heap, gender: GenderId) -> (r: Object)
    requires
        registry.valid(gender as int),
        registry.gender_at(gender as int).size > 0,
    ensures
        r.gender == gender,
        r.payload == (Payload::Owned { handle: old(heap)@.len() as usize }),
        final(heap)@ =~= old(heap)@.push(
            Some(Seq::new(registry.gender_at(gender as int).size as nat, |i: int| 0u8)),
        ),
        final(heap).live_count() == old(heap).live_count() + 1,
{
    let g = registry.get(gender);
    let handle = heap.allocate(g.size);
    Object { gender, payload: Payload::Owned { handle } }
}

/// End a value's lifetime. A value of a sized descriptor releases its
/// owned allocation, exactly once — the precondition admits only a live
/// handle, so a second release of the same allocation is excluded. An
/// immediate value requires no release action and leaves the heap as it is.
pub fn release_object(registry: &genders::Registry, heap: &mut heap::Heap, obj: Object)
    requires
        registry.valid(obj.gender as int),
        registry.gender_at(obj.gender as int).size > 0 ==> (obj.payload matches Payload::Owned {
            handle,
        } && old(heap).is_live(handle as int)),
    ensures
        registry.gender_at(obj.gender as int).size > 0 ==> {
            &&& final(heap)@ =~= old(heap)@.update(obj.payload->handle as int, None)
            &&& final(heap).live_count() + 1 == old(heap).live_count()
        },
        registry.gender_at(obj.gender as int).size == 0 ==> final(heap)@ == old(heap)@,
{
    let g = registry.get(obj.gender);
    if g.size > 0 {
        match obj.payload {
            Payload::Owned { handle } => heap.release(handle),
            Payload::Immediate { .. } => {},
        }
    }
}

/// Whether a method table holds an entry of the given name.
pub open spec fn table_contains(methods: Seq<(String, Method)>, name: Seq<char>) -> bool {
    exists|i: int| 0 <= i < methods.len() && methods[i].0@ == name
}

/// Look up the operation named `method` in `obj`'s descriptor's method
/// table and invoke it on `obj`. A miss fails with the generic absent
/// condition; a hit returns the method's result — and a method of the core
/// itself, carrying no operation, returns its receiver.
#[verifier::loop_isolation(false)]
pub fn dynamic_call(registry: &genders::Registry, obj: Object, method: &str) -> (r: err::Result<Object>)
    requires
        registry.valid(obj.gender as int),
    ensures
        table_contains(registry.gender_at(obj.gender as int).methods@, method@)
            ==> r == Ok::<Object, err::Error>(obj),
        !table_contains(registry.gender_at(obj.gender as int).methods@, method@)
            ==> r == Err::<Object, err::Error>(err::Error::Absent),
{
    let gender = registry.get(obj.gender);
    let wanted: String = method.to_owned();
    let ghost methods = registry.gender_at(obj.gender as int).methods@;
    let mut i: usize = 0;
    while i < gender.methods.len()
        invariant
            i <= methods.len(),
            gender.methods@ == methods,
            wanted@ == method@,
            forall|j: int| 0 <= j < i ==> methods[j].0@ != method@,
        decreases methods.len() - i,
    {
        if gender.methods[i].0 == wanted {
            assert(table_contains(methods, method@)) by {
                assert(methods[i as int].0@ == method@);
            }
            let res = gender.methods[i].1.invoke_on(obj);
            return Ok(res);
        }
        i = i + 1;
    }
    assert(!table_contains(methods, method@));
    Err(err::Error::Absent)
}

/// An immutable, externally constructed expression tree; the evaluator
/// consumes it by value, recursively, without mutation. A number literal
/// carries the bit pattern of a pointer-width floating-point literal.
pub enum Expr {
    Number(u64),
    Boolean(bool),
    Symbol(String),
    If { predicate: Box<Expr>, then_clause: Box<Expr>, else_clause: Box<Expr> },
    Let { binding: String, initial_value: Box<Expr>, body: Box<Expr> },
    /// Halt and Catch Fire - like panic
    Hcf,
}

/// An exact copy of an expression tree, node by node.
pub fn clone_expr(e: &Expr) -> (r: Expr)
    ensures
        r == *e,
    decreases *e,
{
    match e {
        Expr::Number(bits) => Expr::Number(*bits),
        Expr::Boolean(b) => Expr::Boolean(*b),
        Expr::Symbol(s) => Expr::Symbol(s.clone()),
        Expr::If { predicate, then_clause, else_clause } => Expr::If {
            predicate: Box::new(clone_expr(&**predicate)),
            then_clause: Box::new(clone_expr(&**then_clause)),
            else_clause: Box::new(clone_expr(&**else_clause)),
        },
        Expr::Let { binding, initial_value, body } => Expr::Let {
            binding: binding.clone(),
            initial_value: Box::new(clone_expr(&**initial_value)),
            body: Box::new(clone_expr(&**body)),
        },
        Expr::Hcf => Expr::Hcf,
    }
}

impl Clone for Expr {
    /// Cloning an expression copies it exactly.
    fn clone(&self) -> (r: Expr)
        ensures
            r == *self,
    {
        clone_expr(self)
    }
}

/// The mathematical shape of a binding environment: an ordered shadowing
/// stack of (name, value) pairs, most recent last.
pub type Env = Seq<(Seq<char>, Object)>;

/// Scan a binding environment from most recent to least recent entry and
/// return the first value bound under `name` — the standard shadowing rule.
pub open spec fn lookup(env: Env, name: Seq<char>) -> Option<Object>
    decreases env.len(),
{
    if env.len() == 0 {
        None
    } else if env.last().0 == name {
        Some(env.last().1)
    } else {
        lookup(env.drop_last(), name)
    }
}

/// What one evaluation does: from a binding environment and an expression
/// to the produced value or failure condition, together with the binding
/// environment as the evaluation leaves it. A lexical binding pushes one
/// entry for its body and pops it again on leaving the body normally; when
/// the body fails, the pop is skipped and the entry stays — the current
/// design, kept as it stands.
pub open spec fn eval_spec(env: Env, expr: Expr) -> (Result<Object, err::ErrorSpec>, Env)
    decreases expr,
{
    match expr {
        Expr::Number(bits) => (Ok(num_obj(bits)), env),
        Expr::Boolean(b) => (Ok(bool_obj(b)), env),
        Expr::Symbol(s) => match lookup(env, s@) {
            Some(v) => (Ok(v), env),
            None => (Err(err::ErrorSpec::UnboundSymbol { name: s@ }), env),
        },
        Expr::If { predicate, then_clause, else_clause } => {
            let (p, env1) = eval_spec(env, *predicate);
            match p {
                Err(e) => (Err(e), env1),
                Ok(v) => if v.gender == genders::BOOLEAN {
                    if payload_word(v.payload) != 0 {
                        eval_spec(env1, *then_clause)
                    } else {
                        eval_spec(env1, *else_clause)
                    }
                } else {
                    (Err(err::ErrorSpec::Absent), env1)
                },
            }
        },
        Expr::Let { binding, initial_value, body } => {
            let (iv, env1) = eval_spec(env, *initial_value);
            match iv {
                Err(e) => (Err(e), env1),
                Ok(v) => {
                    let (res, env2) = eval_spec(env1.push((binding@, v)), *body);
                    match res {
                        Err(e) => (Err(e), env2),
                        Ok(r) => (Ok(r), env2.drop_last()),
                    }
                },
            }
        },
        Expr::Hcf => (Err(err::ErrorSpec::Hcf), env),
    }
}

/// Law: an evaluation that produces a value leaves the binding environment
/// exactly as it found it — every entry a lexical binding pushes on
/// entering its body is popped again on leaving it normally.
pub proof fn lemma_eval_preserves_env_on_success(env: Env, expr: Expr)
    ensures
        eval_spec(env, expr).0 is Ok ==> eval_spec(env, expr).1 == env,
    decreases expr,
{
    match expr {
        Expr::If { predicate, then_clause, else_clause } => {
            lemma_eval_preserves_env_on_success(env, *predicate);
            let (p, env1) = eval_spec(env, *predicate);
            if p is Ok {
                lemma_eval_preserves_env_on_success(env, *then_clause);
                lemma_eval_preserves_env_on_success(env, *else_clause);
            }
        },
        Expr::Let { binding, initial_value, body } => {
            lemma_eval_preserves_env_on_success(env, *initial_value);
            let (iv, env1) = eval_spec(env, *initial_value);
            match iv {
                Ok(v) => {
                    let pushed = env.push((binding@, v));
                    lemma_eval_preserves_env_on_success(pushed, *body);
                    assert(pushed.drop_last() =~= env);
                },
                Err(_) => {},
            }
        },
        _ => {},
    }
}

/// The representation invariant of a value, against the registry its
/// descriptor lives in and the heap its payload may own a slot of: an
/// immediate descriptor (`size == 0`) means the payload word is the value
/// itself, and a sized descriptor means the payload is the handle of a
/// live allocation. No value references a descriptor its registry lacks.
pub open spec fn object_wf(o: Object, registry: genders::Registry, h: heap::Heap) -> bool {
    &&& registry.valid(o.gender as int)
    &&& if registry.gender_at(o.gender as int).size == 0 {
        o.payload is Immediate
    } else {
        o.payload matches Payload::Owned { handle } && h.is_live(handle as int)
    }
}

/// Every value a binding environment holds satisfies the representation
/// invariant.
pub open spec fn env_wf(env: Env, registry: genders::Registry, h: heap::Heap) -> bool {
    forall|i: int| 0 <= i < env.len() ==> object_wf((#[trigger] env[i]).1, registry, h)
}

/// A successful lookup hands back one of the environment's own values.
pub proof fn lemma_lookup_finds_bound_value(env: Env, name: Seq<char>)
    ensures
        lookup(env, name) matches Some(v) ==> exists|i: int| 0 <= i < env.len() && (
        #[trigger] env[i]).1 == v,
    decreases env.len(),
{
    if env.len() > 0 {
        if env.last().0 == name {
            assert(env[env.len() - 1].1 == env.last().1);
        } else {
            lemma_lookup_finds_bound_value(env.drop_last(), name);
            match lookup(env, name) {
                Some(v) => {
                    let i = choose|i: int|
                        0 <= i < env.drop_last().len() && (#[trigger] env.drop_last()[i]).1 == v;
                    assert(env[i].1 == v);
                },
                None => {},
            }
        }
    }
}

/// Law: evaluation preserves the representation invariant. Against a
/// registry that holds the built-in descriptors and an environment of
/// well-formed values, every value an evaluation produces — and every
/// value the environment holds afterwards — is well formed: no dangling
/// descriptor, no immediate descriptor with an owned payload, no sized
/// descriptor without a live allocation.
pub proof fn lemma_eval_preserves_wf(env: Env, expr: Expr, registry: genders::Registry, h: heap::Heap)
    requires
        registry.builtins_ok(),
        env_wf(env, registry, h),
    ensures
        ({
            let (r, env1) = eval_spec(env, expr);
            &&& (r matches Ok(o) ==> object_wf(o, registry, h))
            &&& env_wf(env1, registry, h)
        }),
    decreases expr,
{
    match expr {
        Expr::Symbol(s) => {
            lemma_lookup_finds_bound_value(env, s@);
        },
        Expr::If { predicate, then_clause, else_clause } => {
            lemma_eval_preserves_wf(env, *predicate, registry, h);
            let (p, env1) = eval_spec(env, *predicate);
            if p is Ok {
                lemma_eval_preserves_wf(env1, *then_clause, registry, h);
                lemma_eval_preserves_wf(env1, *else_clause, registry, h);
            }
        },
        Expr::Let { binding, initial_value, body } => {
            lemma_eval_preserves_wf(env, *initial_value, registry, h);
            let (iv, env1) = eval_spec(env, *initial_value);
            match iv {
                Ok(v) => {
                    let pushed = env1.push((binding@, v));
                    assert(env_wf(pushed, registry, h));
                    lemma_eval_preserves_wf(pushed, *body, registry, h);
                    let (res, env2) = eval_spec(pushed, *body);
                    if res is Ok {
                        lemma_eval_preserves_env_on_success(pushed, *body);
                        assert(env2.drop_last() =~= env1);
                    }
                },
                Err(_) => {},
            }
        },
        _ => {},
    }
}

/// Law: evaluating a number literal always succeeds, touches no binding,
/// and produces an immediate number value whose payload word holds exactly
/// the literal's bit pattern — encoding a literal into a value and reading
/// the payload back is the identity on the bits.
pub proof fn lemma_eval_number(env: Env, bits: u64)
    ensures
        eval_spec(env, Expr::Number(bits)) == (Ok::<Object, err::ErrorSpec>(num_obj(bits)), env),
{
}

/// Law: a conditional whose predicate is the true literal evaluates to
/// whatever its then-branch evaluates to — the else-branch is never
/// evaluated, so nothing in it (not even a halt) can have any effect.
pub proof fn lemma_if_true_takes_then(env: Env, expr: Expr)
    requires
        expr matches Expr::If { predicate, .. } && *predicate == Expr::Boolean(true),
    ensures
        eval_spec(env, expr) == eval_spec(env, *expr->then_clause),
{
    assert(eval_spec(env, *expr->predicate) == (
        Ok::<Object, err::ErrorSpec>(bool_obj(true)),
        env,
    ));
}

/// Law: a conditional whose predicate is the false literal evaluates to
/// whatever its else-branch evaluates to — the then-branch is never
/// evaluated, so nothing in it (not even a halt) can have any effect.
pub proof fn lemma_if_false_takes_else(env: Env, expr: Expr)
    requires
        expr matches Expr::If { predicate, .. } && *predicate == Expr::Boolean(false),
    ensures
        eval_spec(env, expr) == eval_spec(env, *expr->else_clause),
{
    assert(eval_spec(env, *expr->predicate) == (
        Ok::<Object, err::ErrorSpec>(bool_obj(false)),
        env,
    ));
}

/// Law: the halt expression fails with the halt condition whatever the
/// binding environment, and leaves the environment as it found it.
pub proof fn lemma_hcf_always_halts(env: Env)
    ensures
        eval_spec(env, Expr::Hcf) == (Err::<Object, err::ErrorSpec>(err::ErrorSpec::Hcf), env),
{
}

/// Law: a halt in evaluated position aborts every enclosing expression —
/// a lexical binding whose body halts produces no value, however its
/// initializer evaluated, and propagates the halt condition itself.
pub proof fn lemma_hcf_aborts_enclosing_let(env: Env, expr: Expr)
    requires
        expr matches Expr::Let { body, .. } && *body == Expr::Hcf,
        eval_spec(env, *expr->initial_value).0 is Ok,
    ensures
        eval_spec(env, expr).0 == Err::<Object, err::ErrorSpec>(err::ErrorSpec::Hcf),
{
    let (iv, env1) = eval_spec(env, *expr->initial_value);
    match iv {
        Ok(v) => {
            let pushed = env1.push((expr->binding@, v));
            assert(eval_spec(pushed, Expr::Hcf) == (
                Err::<Object, err::ErrorSpec>(err::ErrorSpec::Hcf),
                pushed,
            ));
        },
        Err(_) => {
            assert(false);
        },
    }
}

/// Law: a symbol reference against the empty binding environment fails
/// with the unbound-symbol condition carrying exactly the symbol's name.
pub proof fn lemma_empty_env_unbound(expr: Expr)
    requires
        expr matches Expr::Symbol(s),
    ensures
        eval_spec(Seq::empty(), expr) == (
            Err::<Object, err::ErrorSpec>(err::ErrorSpec::UnboundSymbol { name: expr->0@ }),
            Seq::<(Seq<char>, Object)>::empty(),
        ),
{
}

/// Law (shadowing, on the environment): after pushing two bindings of one
/// name, a lookup of that name resolves to the more recently pushed value.
pub proof fn lemma_shadowing_lookup(env: Env, name: Seq<char>, outer: Object, inner: Object)
    ensures
        lookup(env.push((name, outer)).push((name, inner)), name) == Some(inner),
{
}

/// Law (shadowing, on the evaluator): two nested lexical bindings of the
/// same name make a symbol reference inside the inner body resolve to the
/// inner binding's value, never the outer one — here with number literals
/// as the two initializers, so the values are told apart by their bits.
pub proof fn lemma_shadowing(env: Env, expr: Expr, outer_bits: u64, inner_bits: u64)
    requires
        expr matches Expr::Let { .. },
        *expr->initial_value == Expr::Number(outer_bits),
        *expr->body matches Expr::Let { .. },
        (*expr->body)->binding@ == expr->binding@,
        *(*expr->body)->initial_value == Expr::Number(inner_bits),
        *(*expr->body)->body matches Expr::Symbol(s) && s@ == expr->binding@,
    ensures
        eval_spec(env, expr).0 == Ok::<Object, err::ErrorSpec>(num_obj(inner_bits)),
        eval_spec(env, expr).1 == env,
{
    let name = expr->binding@;
    let env1 = env.push((name, num_obj(outer_bits)));
    let env2 = env1.push((name, num_obj(inner_bits)));
    let inner_let = *expr->body;
    let sym = *inner_let->body;
    assert(eval_spec(env, *expr->initial_value) == (
        Ok::<Object, err::ErrorSpec>(num_obj(outer_bits)),
        env,
    ));
    assert(eval_spec(env1, *inner_let->initial_value) == (
        Ok::<Object, err::ErrorSpec>(num_obj(inner_bits)),
        env1,
    ));
    assert(lookup(env2, sym->0@) == Some(num_obj(inner_bits)));
    assert(eval_spec(env2, sym) == (Ok::<Object, err::ErrorSpec>(num_obj(inner_bits)), env2));
    assert(eval_spec(env1, inner_let) == (
        Ok::<Object, err::ErrorSpec>(num_obj(inner_bits)),
        env2.drop_last(),
    ));
    assert(env2.drop_last() =~= env1);
    assert(env1.drop_last() =~= env);
}

/// The binding environment a sequence of (name, value) pairs stands for.
pub open spec fn env_of(bindings: Seq<(String, Object)>) -> Env {
    Seq::new(bindings.len(), |i: int| (bindings[i].0@, bindings[i].1))
}

/// One logical sequence of evaluation: owns the binding environment that
/// its evaluations grow and shrink. Never shared between evaluations in
/// flight; independent concurrent evaluations each take their own.
pub struct Thread {
    pub bindings: Vec<(String, Object)>,
}

impl View for Thread {
    type V = Env;

    open spec fn view(&self) -> Env {
        env_of(self.bindings@)
    }
}

impl Default for Thread {
    /// A thread with an empty binding environment.
    fn default() -> (t: Thread)
        ensures
            t@ =~= Seq::<(Seq<char>, Object)>::empty(),
    {
        Thread { bindings: Vec::new() }
    }
}

impl Thread {
    /// Evaluate one expression tree against this thread's binding
    /// environment: a single recursive descent that either produces one
    /// value or propagates one failure condition up through all enclosing
    /// recursive calls. Result and final environment are exactly what
    /// [`eval_spec`] says of the starting environment and the expression.
    #[verifier::loop_isolation(false)]
    pub fn eval(&mut self, expr: Expr) -> (r: err::Result<Object>)
        ensures
            ({
                let (sr, senv) = eval_spec(old(self)@, expr);
                &&& final(self)@ == senv
                &&& match (r, sr) {
                    (Ok(o), Ok(so)) => o == so,
                    (Err(e), Err(se)) => e@ == se,
                    _ => false,
                }
            }),
        decreases expr,
    {
        let ghost env0 = self@;
        match expr {
            Expr::Number(bits) => Ok(Object::number(bits)),
            Expr::Boolean(b) => Ok(Object::boolean(b)),
            Expr::Symbol(s) => {
                let ghost name = s@;
                let mut i: usize = self.bindings.len();
                proof {
                    assert(env0.take(i as int) =~= env0);
                }
                while i > 0
                    invariant
                        i <= self.bindings@.len(),
                        env_of(self.bindings@) == env0,
                        name == s@,
                        lookup(env0, name) == lookup(env0.take(i as int), name),
                    decreases i,
                {
                    let idx = i - 1;
                    proof {
                        assert(env0.take(i as int).last() == env0[idx as int]);
                        assert(env0.take(i as int).drop_last() =~= env0.take(idx as int));
                    }
                    if self.bindings[idx].0 == s {
                        let v = self.bindings[idx].1;
                        return Ok(v);
                    }
                    i = idx;
                }
                proof {
                    assert(env0.take(0int) =~= Seq::<(Seq<char>, Object)>::empty());
                }
                Err(err::Error::UnboundSymbol(s))
            },
            Expr::If { predicate, then_clause, else_clause } => {
                let pred_result = match self.eval(*predicate) {
                    Ok(o) => o,
                    Err(e) => {
                        return Err(e);
                    },
                };
                let pred = match pred_result.try_extract_bool() {
                    Some(b) => b,
                    None => {
                        return Err(err::Error::Absent);
                    },
                };
                if pred {
                    self.eval(*then_clause)
                } else {
                    self.eval(*else_clause)
                }
            },
            Expr::Let { binding, initial_value, body } => {
                let ghost body_e = *body;
                let ghost name = binding@;
                let bound_value = match self.eval(*initial_value) {
                    Ok(o) => o,
                    Err(e) => {
                        return Err(e);
                    },
                };
                let ghost env1 = self@;
                self.bindings.push((binding, bound_value));
                proof {
                    assert(self@ =~= env1.push((name, bound_value)));
                }
                let res = match self.eval(*body) {
                    Ok(o) => o,
                    Err(e) => {
                        return Err(e);
                    },
                };
                proof {
                    lemma_eval_preserves_env_on_success(env1.push((name, bound_value)), body_e);
                    assert(self.bindings@.len() > 0);
                }
                let ghost before_pop = self.bindings@;
                let _ = self.bindings.pop().unwrap();
                proof {
                    assert(env_of(before_pop.drop_last()) =~= env_of(before_pop).drop_last());
                }
                Ok(res)
            },
            Expr::Hcf => Err(err::Error::Hcf),
        }
    }
}

} // verus!
