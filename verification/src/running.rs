//! The evaluator: a pure recursive walk over an expression tree against a
//! stack of variable scopes.
//!
//! The whole behaviour is given by the specification function `spec_eval`,
//! which every run method is proved to implement: scope lookup walks from
//! the innermost layer outward, assignment writes into the innermost layer,
//! deletion removes the topmost occurrence above the builtin layer, and the
//! arithmetic follows `crate::numeric`.

use vstd::prelude::*;
use crate::ast::Assignment;
use crate::ast::Binary;
use crate::ast::BinaryOp;
use crate::ast::Call;
use crate::ast::Expression;
use crate::ast::Literal;
use crate::ast::Statement;
use crate::ast::Unary;
use crate::ast::UnaryOp;
use crate::ast::Variable;
use crate::numeric::ROUND_DOWN;
use crate::numeric::ROUND_HALF_AWAY;
use crate::numeric::ROUND_UP;
use crate::numeric::abs_bits;
use crate::numeric::abs_bits_of;
use crate::numeric::add_bits;
use crate::numeric::add_of;
use crate::numeric::div_bits;
use crate::numeric::div_of;
use crate::numeric::fmod_bits;
use crate::numeric::fmod_of;
use crate::numeric::i64_to_bits;
use crate::numeric::is_zero;
use crate::numeric::is_zero_bits;
use crate::numeric::mul_bits;
use crate::numeric::mul_of;
use crate::numeric::neg_bits;
use crate::numeric::neg_bits_of;
use crate::numeric::of_i64;
use crate::numeric::pow_bits;
use crate::numeric::pow_full;
use crate::numeric::round_int_bits;
use crate::numeric::round_int_of;
use crate::numeric::sub_bits;
use crate::numeric::sub_of;
use crate::numeric::to_i64_bits;
use crate::numeric::to_i64_of;

verus! {

/// The representation of Euler's number `e`, as `std::f64::consts::E`.
pub const E_BITS: u64 = 0x4005_BF0A_8B14_5769;

/// The representation of the golden ratio.
pub const PHI_BITS: u64 = 0x3FF9_E377_9B97_F4A8;

/// The representation of `pi`, as `std::f64::consts::PI`.
pub const PI_BITS: u64 = 0x4009_21FB_5444_2D18;

/// Whether an arity error complained of too few or too many parameters.
#[derive(Debug, PartialEq, Clone, Copy)]
pub enum ArityKind {
    Few,
    Many,
}

/// An evaluation failure.  Every variant is recoverable: the scope state
/// stays valid and later evaluations proceed independently.
#[derive(Debug, PartialEq)]
pub enum RunError {
    UndefinedVariable { name: String },
    UndefinedFunction { name: String },
    ArityMismatch { name: String, expected: usize, found: usize, kind: ArityKind },
    DivideByZero,
}

/// The mathematical model of a `RunError`, with names as character
/// sequences.
pub enum RunErrorView {
    UndefinedVariable { name: Seq<char> },
    UndefinedFunction { name: Seq<char> },
    ArityMismatch { name: Seq<char>, expected: usize, found: usize, kind: ArityKind },
    DivideByZero,
}

impl View for RunError {
    type V = RunErrorView;

    open spec fn view(&self) -> RunErrorView {
        match self {
            RunError::UndefinedVariable { name } => RunErrorView::UndefinedVariable {
                name: name@,
            },
            RunError::UndefinedFunction { name } => RunErrorView::UndefinedFunction {
                name: name@,
            },
            RunError::ArityMismatch { name, expected, found, kind } => RunErrorView::ArityMismatch {
                name: name@,
                expected: *expected,
                found: *found,
                kind: *kind,
            },
            RunError::DivideByZero => RunErrorView::DivideByZero,
        }
    }
}

/// One scope layer: names bound to values, earliest binding first; a name
/// occurs at most once in a well-kept layer, and lookup takes the first
/// occurrence.
pub open spec fn find_in_scope(s: Seq<(Seq<char>, u64)>, name: Seq<char>) -> Option<u64>
    decreases s.len(),
{
    if s.len() == 0 {
        None
    } else if s[0].0 == name {
        Some(s[0].1)
    } else {
        find_in_scope(s.skip(1), name)
    }
}

/// Lookup across the scope chain, innermost (last) layer first.
pub open spec fn find_in_scopes(ss: Seq<Seq<(Seq<char>, u64)>>, name: Seq<char>) -> Option<u64>
    decreases ss.len(),
{
    if ss.len() == 0 {
        None
    } else {
        match find_in_scope(ss.last(), name) {
            Some(v) => Some(v),
            None => find_in_scopes(ss.drop_last(), name),
        }
    }
}

/// Bind a name in one layer: overwrite its first occurrence, or append.
pub open spec fn put_in_scope(s: Seq<(Seq<char>, u64)>, name: Seq<char>, value: u64) -> Seq<
    (Seq<char>, u64),
>
    decreases s.len(),
{
    if s.len() == 0 {
        seq![(name, value)]
    } else if s[0].0 == name {
        seq![(s[0].0, value)] + s.skip(1)
    } else {
        seq![s[0]] + put_in_scope(s.skip(1), name, value)
    }
}

/// Assignment: bind the name in the innermost layer.
pub open spec fn set_var(ss: Seq<Seq<(Seq<char>, u64)>>, name: Seq<char>, value: u64) -> Seq<
    Seq<(Seq<char>, u64)>,
> {
    if ss.len() == 0 {
        ss
    } else {
        ss.update(ss.len() - 1, put_in_scope(ss.last(), name, value))
    }
}

/// Remove the first occurrence of a name from one layer, if any.
pub open spec fn remove_first(s: Seq<(Seq<char>, u64)>, name: Seq<char>) -> Seq<(Seq<char>, u64)>
    decreases s.len(),
{
    if s.len() == 0 {
        s
    } else if s[0].0 == name {
        s.skip(1)
    } else {
        seq![s[0]] + remove_first(s.skip(1), name)
    }
}

/// The index of the topmost layer above the builtin layer that binds the
/// name, or 0 if none does.
pub open spec fn hit_scope(ss: Seq<Seq<(Seq<char>, u64)>>, name: Seq<char>) -> int
    decreases ss.len(),
{
    if ss.len() <= 1 {
        0
    } else if find_in_scope(ss.last(), name) is Some {
        ss.len() - 1
    } else {
        hit_scope(ss.drop_last(), name)
    }
}

/// Deletion: remove the topmost binding above the builtin layer; `None`
/// when no mutable layer binds the name.
pub open spec fn unset_var(ss: Seq<Seq<(Seq<char>, u64)>>, name: Seq<char>) -> Option<
    Seq<Seq<(Seq<char>, u64)>>,
> {
    let h = hit_scope(ss, name);
    if h == 0 {
        None
    } else {
        Some(ss.update(h, remove_first(ss[h], name)))
    }
}

/// The bitwise complement of a two's-complement 64-bit integer.
pub open spec fn not_i64(x: i64) -> i64 {
    (-1 - x) as i64
}

/// The semantics of one unary operator.
pub open spec fn eval_unary(op: UnaryOp, v: u64) -> u64 {
    match op {
        UnaryOp::Negate => neg_bits_of(v),
        UnaryOp::Not => of_i64(not_i64(to_i64_of(v))),
    }
}

/// The shift amount actually applied: the low six bits of the right
/// operand, as a shift of a 64-bit integer uses them.
pub open spec fn shift_amount(r: i64) -> u64 {
    (r & 63) as u64
}

/// The semantics of one binary operator; division and modulo by zero are
/// rejected before this applies.
pub open spec fn eval_binary(op: BinaryOp, l: u64, r: u64) -> u64 {
    match op {
        BinaryOp::BitAnd => of_i64(to_i64_of(l) & to_i64_of(r)),
        BinaryOp::BitOr => of_i64(to_i64_of(l) | to_i64_of(r)),
        BinaryOp::BitXor => of_i64(to_i64_of(l) ^ to_i64_of(r)),
        BinaryOp::LeftShift => of_i64(to_i64_of(l) << shift_amount(to_i64_of(r))),
        BinaryOp::RightShift => of_i64(to_i64_of(l) >> shift_amount(to_i64_of(r))),
        BinaryOp::Plus => add_of(l, r),
        BinaryOp::Minus => sub_of(l, r),
        BinaryOp::Multiply => mul_of(l, r),
        BinaryOp::Divide => div_of(l, r),
        BinaryOp::Modulo => fmod_of(l, r),
        BinaryOp::Exponent => pow_full(l, r),
    }
}

/// Whether a name is one of the builtin functions (each of arity 1).
pub open spec fn is_builtin_fn(name: Seq<char>) -> bool {
    name == "abs"@ || name == "ceil"@ || name == "floor"@ || name == "round"@
}

/// The result of one builtin function on one argument.
pub open spec fn eval_builtin(name: Seq<char>, v: u64) -> u64 {
    if name == "abs"@ {
        abs_bits_of(v)
    } else if name == "ceil"@ {
        round_int_of(v, ROUND_UP)
    } else if name == "floor"@ {
        round_int_of(v, ROUND_DOWN)
    } else {
        round_int_of(v, ROUND_HALF_AWAY)
    }
}

/// The evaluator.  Returns the result together with the scope chain after
/// the evaluation: assignments completed before a failure keep their
/// effect, and nothing else changes the chain.
pub open spec fn spec_eval(ss: Seq<Seq<(Seq<char>, u64)>>, e: Expression) -> (Result<
    u64,
    RunErrorView,
>, Seq<Seq<(Seq<char>, u64)>>)
    decreases e,
{
    match e {
        Expression::Literal(lit) => {
            match lit {
                Literal::Number(n) => (Ok(n), ss),
            }
        },
        Expression::Variable(var) => {
            match find_in_scopes(ss, var.name@) {
                Some(v) => (Ok(v), ss),
                None => (Err(RunErrorView::UndefinedVariable { name: var.name@ }), ss),
            }
        },
        Expression::Unary(un) => {
            let t = spec_eval(ss, *un.right);
            match t.0 {
                Ok(v) => (Ok(eval_unary(un.op, v)), t.1),
                Err(err) => (Err(err), t.1),
            }
        },
        Expression::Binary(bin) => {
            let tl = spec_eval(ss, *bin.left);
            match tl.0 {
                Ok(l) => {
                    let tr = spec_eval(tl.1, *bin.right);
                    match tr.0 {
                        Ok(r) => {
                            if (bin.op is Divide || bin.op is Modulo) && is_zero_bits(r) {
                                (Err(RunErrorView::DivideByZero), tr.1)
                            } else {
                                (Ok(eval_binary(bin.op, l, r)), tr.1)
                            }
                        },
                        Err(err) => (Err(err), tr.1),
                    }
                },
                Err(err) => (Err(err), tl.1),
            }
        },
        Expression::Assignment(assign) => {
            let t = spec_eval(ss, *assign.right);
            match t.0 {
                Ok(v) => (Ok(v), set_var(t.1, assign.var.name@, v)),
                Err(err) => (Err(err), t.1),
            }
        },
        Expression::Call(call) => {
            if !is_builtin_fn(call.name@) {
                (Err(RunErrorView::UndefinedFunction { name: call.name@ }), ss)
            } else if call.params.len() == 0 {
                (
                    Err(
                        RunErrorView::ArityMismatch {
                            name: call.name@,
                            expected: 1,
                            found: 0,
                            kind: ArityKind::Few,
                        },
                    ),
                    ss,
                )
            } else if call.params.len() == 1 {
                let t = spec_eval(ss, call.params[0]);
                match t.0 {
                    Ok(v) => (Ok(eval_builtin(call.name@, v)), t.1),
                    Err(err) => (Err(err), t.1),
                }
            } else {
                (
                    Err(
                        RunErrorView::ArityMismatch {
                            name: call.name@,
                            expected: 1,
                            found: call.params.len(),
                            kind: ArityKind::Many,
                        },
                    ),
                    ss,
                )
            }
        },
    }
}

/// The scope chain a fresh runner starts from: the builtin constants and
/// one empty user layer.
pub open spec fn initial_scopes() -> Seq<Seq<(Seq<char>, u64)>> {
    seq![seq![("e"@, E_BITS), ("phi"@, PHI_BITS), ("pi"@, PI_BITS)], Seq::empty()]
}

/// The evaluator state: a chain of scope layers.  Layer 0 holds the
/// builtin constants and is never written; assignments go to the last
/// layer.
pub struct Runner {
    scopes: Vec<Vec<(String, u64)>>,
}

/// One scope layer as its model.
pub open spec fn scope_view(s: Seq<(String, u64)>) -> Seq<(Seq<char>, u64)> {
    s.map_values(|p: (String, u64)| (p.0@, p.1))
}

impl View for Runner {
    type V = Seq<Seq<(Seq<char>, u64)>>;

    closed spec fn view(&self) -> Seq<Seq<(Seq<char>, u64)>> {
        self.scopes@.map_values(|v: Vec<(String, u64)>| scope_view(v@))
    }
}

impl Runner {
    /// The runner always keeps the builtin layer and at least one user
    /// layer.
    pub closed spec fn wf(&self) -> bool {
        self.scopes@.len() >= 2
    }

    pub fn new() -> (r: Runner)
        ensures
            r.wf(),
            r@ == initial_scopes(),
    {
        let mut sys_scope: Vec<(String, u64)> = Vec::new();
        sys_scope.push(("e".to_owned(), E_BITS));
        sys_scope.push(("phi".to_owned(), PHI_BITS));
        sys_scope.push(("pi".to_owned(), PI_BITS));

        let mut scopes: Vec<Vec<(String, u64)>> = Vec::new();
        scopes.push(sys_scope);
        scopes.push(Vec::new());

        let r = Runner { scopes };
        proof {
            assert(scope_view(r.scopes@[0]@) =~= seq![("e"@, E_BITS), ("phi"@, PHI_BITS), ("pi"@, PI_BITS)]);
            assert(scope_view(r.scopes@[1]@) =~= Seq::<(Seq<char>, u64)>::empty());
            assert(r@ =~= initial_scopes());
        }
        r
    }

    fn scope_get(&self, name: &String) -> (r: Option<u64>)
        ensures
            r == find_in_scopes(self@, name@),
    {
        let ghost ssv = self@;
        proof {
            assert(ssv.take(ssv.len() as int) =~= ssv);
        }
        let mut idx = self.scopes.len();
        while idx > 0
            invariant
                ssv == self@,
                0 <= idx <= self.scopes@.len(),
                ssv.len() == self.scopes@.len(),
                find_in_scopes(ssv, name@) == find_in_scopes(ssv.take(idx as int), name@),
            decreases idx,
        {
            idx = idx - 1;
            let scope = &self.scopes[idx];
            let ghost sv = scope_view(scope@);
            proof {
                assert(sv.skip(0) =~= sv);
                assert(ssv[idx as int] == sv);
                assert(ssv.take(idx + 1).drop_last() =~= ssv.take(idx as int));
                assert(ssv.take(idx + 1).last() == ssv[idx as int]);
            }
            let mut j: usize = 0;
            while j < scope.len()
                invariant
                    ssv == self@,
                    sv == scope_view(scope@),
                    scope == self.scopes@[idx as int],
                    0 <= j <= scope@.len(),
                    sv.len() == scope@.len(),
                    find_in_scope(sv, name@) == find_in_scope(sv.skip(j as int), name@),
                    (find_in_scopes(ssv, name@) == (match find_in_scope(sv, name@) {
                        Some(v) => Some(v),
                        None => find_in_scopes(ssv.take(idx as int), name@),
                    })),
                decreases scope@.len() - j,
            {
                let p = &scope[j];
                if p.0 == *name {
                    proof {
                        assert(sv.skip(j as int)[0] == (p.0@, p.1));
                        assert(find_in_scope(sv, name@) == Some(p.1));
                    }
                    return Some(p.1);
                }
                proof {
                    assert(sv.skip(j as int).skip(1) =~= sv.skip(j + 1));
                    assert(sv.skip(j as int)[0] == (p.0@, p.1));
                }
                j = j + 1;
            }
            proof {
                assert(sv.skip(scope@.len() as int) =~= Seq::<(Seq<char>, u64)>::empty());
                assert(ssv.take(idx + 1).drop_last() =~= ssv.take(idx as int));
                assert(ssv.take(idx + 1).last() == ssv[idx as int]);
                assert(ssv[idx as int] == sv);
            }
        }
        proof {
            assert(ssv.take(0) =~= Seq::<Seq<(Seq<char>, u64)>>::empty());
        }
        None
    }

    fn scope_set(&mut self, name: String, value: u64)
        requires
            old(self).wf(),
        ensures
            final(self).wf(),
            final(self)@ == set_var(old(self)@, name@, value),
    {
        let ghost ssv = old(self)@;
        let mut top = match self.scopes.pop() {
            Some(top) => top,
            None => {
                // cannot happen: the chain always has at least two layers
                return ;
            },
        };
        let ghost tv = scope_view(top@);
        let mut j: usize = 0;
        let mut hit = false;
        while j < top.len() && !hit
            invariant
                0 <= j <= top@.len(),
                !hit ==> forall|k: int| 0 <= k < j ==> scope_view(top@)[k].0 != name@,
                hit ==> (j >= 1 && scope_view(top@) == put_in_scope(tv, name@, value) && top@.len()
                    == tv.len()),
                !hit ==> scope_view(top@) == tv,
                tv.len() == top@.len() || hit,
            decreases top@.len() - j,
        {
            let matches_name = top[j].0 == name;
            if matches_name {
                let p = top.remove(j);
                top.insert(j, (p.0, value));
                proof {
                    assert(scope_view(top@) =~= tv.update(j as int, (tv[j as int].0, value)));
                    lemma_put_hit(tv, name@, value, j as int);
                }
                hit = true;
            }
            j = j + 1;
        }
        if !hit {
            top.push((name, value));
            proof {
                assert(scope_view(top@) =~= tv.push((name@, value)));
                lemma_put_miss(tv, name@, value);
            }
        }
        self.scopes.push(top);
        proof {
            assert(self@ =~= set_var(ssv, name@, value));
        }
    }

    fn scope_unset(&mut self, name: &String) -> (r: Option<u64>)
        requires
            old(self).wf(),
        ensures
            final(self).wf(),
            r is Some <==> unset_var(old(self)@, name@) is Some,
            unset_var(old(self)@, name@) matches Some(ss2) ==> final(self)@ == ss2,
            unset_var(old(self)@, name@) is None ==> final(self)@ == old(self)@,
    {
        let ghost ssv = old(self)@;
        proof {
            assert(ssv.take(ssv.len() as int) =~= ssv);
        }
        let mut idx = self.scopes.len();
        while idx > 1
            invariant
                ssv == old(self)@,
                ssv == self@,
                self.wf(),
                1 <= idx <= self.scopes@.len(),
                ssv.len() == self.scopes@.len(),
                hit_scope(ssv, name@) == hit_scope(ssv.take(idx as int), name@),
            decreases idx,
        {
            idx = idx - 1;
            let ghost sv = scope_view(self.scopes@[idx as int]@);
            proof {
                assert(ssv[idx as int] == sv);
                assert(ssv.take(idx + 1).drop_last() =~= ssv.take(idx as int));
                assert(ssv.take(idx + 1).last() == ssv[idx as int]);
            }
            let found = self.scope_remove_at(idx, name);
            match found {
                Some(v) => {
                    proof {
                        assert(find_in_scope(ssv.take(idx + 1).last(), name@) is Some);
                        assert(hit_scope(ssv.take(idx + 1), name@) == idx);
                        assert(hit_scope(ssv, name@) == idx);
                        assert(self@ =~= ssv.update(idx as int, remove_first(ssv[idx as int], name@)));
                    }
                    return Some(v);
                },
                None => {
                },
            }
        }
        proof {
            assert(hit_scope(ssv.take(1), name@) == 0);
        }
        None
    }

    /// Remove the first binding of the name in layer `idx`, if any.
    fn scope_remove_at(&mut self, idx: usize, name: &String) -> (r: Option<u64>)
        requires
            idx < old(self).scopes@.len(),
        ensures
            final(self).scopes@.len() == old(self).scopes@.len(),
            final(self).wf() == old(self).wf(),
            r is Some <==> find_in_scope(scope_view(old(self).scopes@[idx as int]@), name@)
                is Some,
            r is Some ==> final(self)@ == old(self)@.update(
                idx as int,
                remove_first(scope_view(old(self).scopes@[idx as int]@), name@),
            ),
            r is None ==> final(self)@ == old(self)@ && final(self).scopes@ == old(self).scopes@,
    {
        let ghost sv = scope_view(self.scopes@[idx as int]@);
        let len = self.scopes[idx].len();
        let mut j: usize = 0;
        while j < len
            invariant
                idx < self.scopes@.len(),
                self.scopes@ == old(self).scopes@,
                len == self.scopes@[idx as int]@.len(),
                sv == scope_view(self.scopes@[idx as int]@),
                0 <= j <= len,
                forall|k: int| 0 <= k < j ==> sv[k].0 != name@,
            decreases len - j,
        {
            let hit = self.scopes[idx][j].0 == *name;
            if hit {
                let ghost pre = self.scopes@;
                let v = self.scope_take_out(idx, j);
                proof {
                    lemma_find_hit(sv, name@, j as int);
                    lemma_remove_hit(sv, name@, j as int);
                    assert(scope_view(self.scopes@[idx as int]@) =~= sv.remove(j as int));
                    assert(self@ =~= old(self)@.update(idx as int, remove_first(sv, name@)));
                }
                return Some(v);
            }
            j = j + 1;
        }
        proof {
            lemma_find_miss(sv, name@);
        }
        None
    }

    /// Take entry `j` out of layer `idx`, returning its value.
    fn scope_take_out(&mut self, idx: usize, j: usize) -> (r: u64)
        requires
            idx < old(self).scopes@.len(),
            j < old(self).scopes@[idx as int]@.len(),
        ensures
            final(self).scopes@.len() == old(self).scopes@.len(),
            final(self).scopes@[idx as int]@ == old(self).scopes@[idx as int]@.remove(j as int),
            forall|k: int| 0 <= k < final(self).scopes@.len() && k != idx ==> final(self).scopes@[k] == old(self).scopes@[k],
            r == old(self).scopes@[idx as int]@[j as int].1,
            final(self)@.len() == old(self)@.len(),
            forall|k: int| 0 <= k < final(self)@.len() && k != idx ==> final(self)@[k] == old(self)@[k],
            final(self)@[idx as int] == scope_view(final(self).scopes@[idx as int]@),
    {
        let mut layer = self.scopes.remove(idx);
        let p = layer.remove(j);
        self.scopes.insert(idx, layer);
        proof {
            assert(self.scopes@ =~= old(self).scopes@.update(
                idx as int,
                self.scopes@[idx as int],
            ));
            assert(self@ =~= old(self)@.update(idx as int, scope_view(self.scopes@[idx as int]@)));
        }
        p.1
    }
}

/// Deletion of a variable: remove its topmost binding above the builtin
/// layer; an error when no mutable layer binds it.
pub open spec fn spec_delete(ss: Seq<Seq<(Seq<char>, u64)>>, name: Seq<char>) -> (Result<
    (),
    RunErrorView,
>, Seq<Seq<(Seq<char>, u64)>>) {
    match unset_var(ss, name) {
        Some(ss2) => (Ok(()), ss2),
        None => (Err(RunErrorView::UndefinedVariable { name }), ss),
    }
}

impl Runner {
    /// Evaluate one expression and, on success, bind the result to the
    /// reserved variable `ans` in the innermost layer.
    pub fn run_expression(&mut self, expr: &Expression) -> (r: Result<u64, RunError>)
        requires
            old(self).wf(),
        ensures
            final(self).wf(),
            ({
                let t = spec_eval(old(self)@, *expr);
                &&& (r matches Ok(v) ==> t.0 == Ok::<u64, RunErrorView>(v) && final(self)@
                    == set_var(t.1, "ans"@, v))
                &&& (r matches Err(e) ==> t.0 == Err::<u64, RunErrorView>(e@) && final(self)@
                    == t.1)
            }),
    {
        let ans = match self._run_expression(expr) {
            Ok(a) => a,
            Err(e) => {
                return Err(e);
            },
        };

        self.scope_set("ans".to_owned(), ans);

        Ok(ans)
    }

    fn _run_expression(&mut self, expr: &Expression) -> (r: Result<u64, RunError>)
        requires
            old(self).wf(),
        ensures
            final(self).wf(),
            ({
                let t = spec_eval(old(self)@, *expr);
                &&& (r matches Ok(v) ==> t.0 == Ok::<u64, RunErrorView>(v))
                &&& (r matches Err(e) ==> t.0 == Err::<u64, RunErrorView>(e@))
                &&& final(self)@ == t.1
            }),
        decreases *expr,
    {
        match expr {
            Expression::Assignment(a) => self.run_assignment(a),
            Expression::Binary(b) => self.run_binary(b),
            Expression::Call(c) => self.run_call(c),
            Expression::Literal(l) => self.run_literal(l),
            Expression::Unary(u) => self.run_unary(u),
            Expression::Variable(v) => self.run_variable(v),
        }
    }

    /// Evaluate one statement.
    pub fn run_statement(&mut self, stmt: &Statement) -> (r: Result<(), RunError>)
        requires
            old(self).wf(),
        ensures
            final(self).wf(),
            ({
                let t = match *stmt {
                    Statement::DeleteVar(var) => spec_delete(old(self)@, var.name@),
                };
                &&& (r is Ok <==> t.0 is Ok)
                &&& (r matches Err(e) ==> t.0 == Err::<(), RunErrorView>(e@))
                &&& final(self)@ == t.1
            }),
    {
        match stmt {
            Statement::DeleteVar(var) => self.run_delete_var(var),
        }
    }

    fn run_literal(&self, lit: &Literal) -> (r: Result<u64, RunError>)
        ensures
            (match *lit {
                Literal::Number(n) => r == Ok::<u64, RunError>(n),
            }),
    {
        match lit {
            Literal::Number(n) => Ok(*n),
        }
    }

    fn run_variable(&self, var: &Variable) -> (r: Result<u64, RunError>)
        ensures
            ({
                let t = spec_eval(self@, Expression::Variable(*var));
                &&& (r matches Ok(v) ==> t.0 == Ok::<u64, RunErrorView>(v))
                &&& (r matches Err(e) ==> t.0 == Err::<u64, RunErrorView>(e@))
            }),
    {
        match self.scope_get(&var.name) {
            Some(val) => Ok(val),
            None => Err(RunError::UndefinedVariable { name: var.name.clone() }),
        }
    }

    fn run_unary(&mut self, un: &Unary) -> (r: Result<u64, RunError>)
        requires
            old(self).wf(),
        ensures
            final(self).wf(),
            ({
                let t = spec_eval(old(self)@, Expression::Unary(*un));
                &&& (r matches Ok(v) ==> t.0 == Ok::<u64, RunErrorView>(v))
                &&& (r matches Err(e) ==> t.0 == Err::<u64, RunErrorView>(e@))
                &&& final(self)@ == t.1
            }),
        decreases *un,
    {
        let v = match self._run_expression(&*un.right) {
            Ok(v) => v,
            Err(e) => {
                return Err(e);
            },
        };

        match un.op {
            UnaryOp::Negate => Ok(neg_bits(v)),
            UnaryOp::Not => {
                let x = to_i64_bits(v);
                let y = !x;
                proof {
                    assert(!x == ((-1 - x) as i64)) by (bit_vector);
                }
                Ok(i64_to_bits(y))
            },
        }
    }

    fn run_binary(&mut self, bin: &Binary) -> (r: Result<u64, RunError>)
        requires
            old(self).wf(),
        ensures
            final(self).wf(),
            ({
                let t = spec_eval(old(self)@, Expression::Binary(*bin));
                &&& (r matches Ok(v) ==> t.0 == Ok::<u64, RunErrorView>(v))
                &&& (r matches Err(e) ==> t.0 == Err::<u64, RunErrorView>(e@))
                &&& final(self)@ == t.1
            }),
        decreases *bin,
    {
        let l = match self._run_expression(&*bin.left) {
            Ok(v) => v,
            Err(e) => {
                return Err(e);
            },
        };
        let r = match self._run_expression(&*bin.right) {
            Ok(v) => v,
            Err(e) => {
                return Err(e);
            },
        };

        match bin.op {
            BinaryOp::BitAnd => Ok(i64_to_bits(to_i64_bits(l) & to_i64_bits(r))),
            BinaryOp::BitOr => Ok(i64_to_bits(to_i64_bits(l) | to_i64_bits(r))),
            BinaryOp::BitXor => Ok(i64_to_bits(to_i64_bits(l) ^ to_i64_bits(r))),
            BinaryOp::LeftShift => {
                let a = to_i64_bits(l);
                let b = to_i64_bits(r);
                let amt = b & 63;
                proof {
                    assert(0 <= b & 63 < 64) by (bit_vector);
                }
                Ok(i64_to_bits(a << amt))
            },
            BinaryOp::RightShift => {
                let a = to_i64_bits(l);
                let b = to_i64_bits(r);
                let amt = b & 63;
                proof {
                    assert(0 <= b & 63 < 64) by (bit_vector);
                }
                Ok(i64_to_bits(a >> amt))
            },
            BinaryOp::Plus => Ok(add_bits(l, r)),
            BinaryOp::Minus => Ok(sub_bits(l, r)),
            BinaryOp::Multiply => Ok(mul_bits(l, r)),
            BinaryOp::Divide => {
                if is_zero(r) {
                    Err(RunError::DivideByZero)
                } else {
                    Ok(div_bits(l, r))
                }
            },
            BinaryOp::Modulo => {
                if is_zero(r) {
                    Err(RunError::DivideByZero)
                } else {
                    Ok(fmod_bits(l, r))
                }
            },
            BinaryOp::Exponent => Ok(pow_bits(l, r)),
        }
    }

    fn run_assignment(&mut self, assign: &Assignment) -> (r: Result<u64, RunError>)
        requires
            old(self).wf(),
        ensures
            final(self).wf(),
            ({
                let t = spec_eval(old(self)@, Expression::Assignment(*assign));
                &&& (r matches Ok(v) ==> t.0 == Ok::<u64, RunErrorView>(v))
                &&& (r matches Err(e) ==> t.0 == Err::<u64, RunErrorView>(e@))
                &&& final(self)@ == t.1
            }),
        decreases *assign,
    {
        let v = match self._run_expression(&*assign.right) {
            Ok(v) => v,
            Err(e) => {
                return Err(e);
            },
        };

        self.scope_set(assign.var.name.clone(), v);

        Ok(v)
    }

    fn run_call(&mut self, call: &Call) -> (r: Result<u64, RunError>)
        requires
            old(self).wf(),
        ensures
            final(self).wf(),
            ({
                let t = spec_eval(old(self)@, Expression::Call(*call));
                &&& (r matches Ok(v) ==> t.0 == Ok::<u64, RunErrorView>(v))
                &&& (r matches Err(e) ==> t.0 == Err::<u64, RunErrorView>(e@))
                &&& final(self)@ == t.1
            }),
        decreases *call,
    {
        let is_abs = call.name == "abs".to_owned();
        let is_ceil = call.name == "ceil".to_owned();
        let is_floor = call.name == "floor".to_owned();
        let is_round = call.name == "round".to_owned();

        if !(is_abs || is_ceil || is_floor || is_round) {
            return Err(RunError::UndefinedFunction { name: call.name.clone() });
        }
        if call.params.len() == 0 {
            return Err(
                RunError::ArityMismatch {
                    name: call.name.clone(),
                    expected: 1,
                    found: 0,
                    kind: ArityKind::Few,
                },
            );
        }
        if call.params.len() > 1 {
            return Err(
                RunError::ArityMismatch {
                    name: call.name.clone(),
                    expected: 1,
                    found: call.params.len(),
                    kind: ArityKind::Many,
                },
            );
        }

        let v = match self._run_expression(&call.params[0]) {
            Ok(v) => v,
            Err(e) => {
                return Err(e);
            },
        };

        if is_abs {
            Ok(abs_bits(v))
        } else if is_ceil {
            Ok(round_int_bits(v, ROUND_UP))
        } else if is_floor {
            Ok(round_int_bits(v, ROUND_DOWN))
        } else {
            Ok(round_int_bits(v, ROUND_HALF_AWAY))
        }
    }

    fn run_delete_var(&mut self, var: &Variable) -> (r: Result<(), RunError>)
        requires
            old(self).wf(),
        ensures
            final(self).wf(),
            ({
                let t = spec_delete(old(self)@, var.name@);
                &&& (r is Ok <==> t.0 is Ok)
                &&& (r matches Err(e) ==> t.0 == Err::<(), RunErrorView>(e@))
                &&& final(self)@ == t.1
            }),
    {
        match self.scope_unset(&var.name) {
            None => Err(RunError::UndefinedVariable { name: var.name.clone() }),
            Some(_) => Ok(()),
        }
    }
}

/// Binding a name in a layer makes it found there with the bound value.
pub proof fn lemma_find_put(s: Seq<(Seq<char>, u64)>, name: Seq<char>, value: u64)
    ensures
        find_in_scope(put_in_scope(s, name, value), name) == Some(value),
    decreases s.len(),
{
    if s.len() == 0 {
        assert(put_in_scope(s, name, value)[0] == (name, value));
    } else if s[0].0 == name {
        assert(put_in_scope(s, name, value)[0] == (s[0].0, value));
    } else {
        assert(put_in_scope(s, name, value)[0] == s[0]);
        lemma_find_put(s.skip(1), name, value);
        assert((seq![s[0]] + put_in_scope(s.skip(1), name, value)).skip(1) =~= put_in_scope(
            s.skip(1),
            name,
            value,
        ));
    }
}

/// Binding a name leaves every other name bound as before.
pub proof fn lemma_find_put_other(
    s: Seq<(Seq<char>, u64)>,
    name: Seq<char>,
    value: u64,
    other: Seq<char>,
)
    requires
        other != name,
    ensures
        find_in_scope(put_in_scope(s, name, value), other) == find_in_scope(s, other),
    decreases s.len(),
{
    let p = put_in_scope(s, name, value);
    if s.len() == 0 {
        assert(p[0] == (name, value));
        assert(p[0].0 == name);
        assert(p.skip(1) =~= Seq::<(Seq<char>, u64)>::empty());
        assert(find_in_scope(p, other) == find_in_scope(p.skip(1), other));
    } else if s[0].0 == name {
        assert(p[0] == (s[0].0, value));
        assert(p[0].0 == name);
        assert(p.skip(1) =~= s.skip(1));
        assert(find_in_scope(p, other) == find_in_scope(s.skip(1), other));
        assert(find_in_scope(s, other) == find_in_scope(s.skip(1), other));
    } else {
        assert(p[0] == s[0]);
        assert(p.skip(1) =~= put_in_scope(s.skip(1), name, value));
        lemma_find_put_other(s.skip(1), name, value, other);
        if s[0].0 == other {
            assert(find_in_scope(p, other) == Some(p[0].1));
            assert(find_in_scope(s, other) == Some(s[0].1));
        } else {
            assert(find_in_scope(p, other) == find_in_scope(p.skip(1), other));
            assert(find_in_scope(s, other) == find_in_scope(s.skip(1), other));
        }
    }
}

/// Law: assignment binds the name so that lookup returns the assigned
/// value.
pub proof fn lemma_find_set(ss: Seq<Seq<(Seq<char>, u64)>>, name: Seq<char>, value: u64)
    requires
        ss.len() >= 1,
    ensures
        find_in_scopes(set_var(ss, name, value), name) == Some(value),
{
    let ss2 = set_var(ss, name, value);
    assert(ss2.last() == put_in_scope(ss.last(), name, value));
    lemma_find_put(ss.last(), name, value);
}

/// Law: assignment leaves every other name bound as before.
pub proof fn lemma_find_set_other(
    ss: Seq<Seq<(Seq<char>, u64)>>,
    name: Seq<char>,
    value: u64,
    other: Seq<char>,
)
    requires
        ss.len() >= 1,
        other != name,
    ensures
        find_in_scopes(set_var(ss, name, value), other) == find_in_scopes(ss, other),
    decreases ss.len(),
{
    let ss2 = set_var(ss, name, value);
    assert(ss2.last() == put_in_scope(ss.last(), name, value));
    lemma_find_put_other(ss.last(), name, value, other);
    assert(ss2.drop_last() =~= ss.drop_last());
}

/// Removing the binding that `put_in_scope` appended restores the layer.
proof fn lemma_remove_put(s: Seq<(Seq<char>, u64)>, name: Seq<char>, value: u64)
    requires
        find_in_scope(s, name) is None,
    ensures
        remove_first(put_in_scope(s, name, value), name) == s,
    decreases s.len(),
{
    if s.len() == 0 {
        assert(remove_first(put_in_scope(s, name, value), name) =~= s);
    } else {
        lemma_remove_put(s.skip(1), name, value);
        assert((seq![s[0]] + put_in_scope(s.skip(1), name, value)).skip(1) =~= put_in_scope(
            s.skip(1),
            name,
            value,
        ));
        assert(seq![s[0]] + s.skip(1) =~= s);
    }
}

/// Law (scope shadowing): binding a name that no mutable layer holds
/// shadows the builtin layer, and deleting it afterwards restores the
/// scope chain exactly, so lookup again sees the builtin value.
pub proof fn lemma_shadow_and_delete(ss: Seq<Seq<(Seq<char>, u64)>>, name: Seq<char>, value: u64)
    requires
        ss.len() >= 2,
        forall|i: int| 1 <= i < ss.len() ==> find_in_scope(#[trigger] ss[i], name) is None,
    ensures
        find_in_scopes(set_var(ss, name, value), name) == Some(value),
        unset_var(set_var(ss, name, value), name) == Some(ss),
{
    let ss2 = set_var(ss, name, value);
    lemma_find_set(ss, name, value);
    lemma_find_put(ss.last(), name, value);
    assert(ss2.len() == ss.len());
    assert(ss2.last() == put_in_scope(ss.last(), name, value));
    assert(hit_scope(ss2, name) == ss.len() - 1);
    lemma_remove_put(ss.last(), name, value);
    assert(ss2.update(ss.len() - 1, remove_first(ss2.last(), name)) =~= ss);
}

/// Law (builtin constants): a fresh runner's scope chain resolves each of
/// the three constants to its value; nothing else is bound.
pub proof fn lemma_initial_constants(name: Seq<char>)
    ensures
        find_in_scopes(initial_scopes(), "e"@) == Some(E_BITS),
        find_in_scopes(initial_scopes(), "phi"@) == Some(PHI_BITS),
        find_in_scopes(initial_scopes(), "pi"@) == Some(PI_BITS),
        name != "e"@ && name != "phi"@ && name != "pi"@ ==> find_in_scopes(
            initial_scopes(),
            name,
        ) is None,
{
    reveal_strlit("e");
    reveal_strlit("phi");
    reveal_strlit("pi");
    reveal_with_fuel(find_in_scope, 5);
    reveal_with_fuel(find_in_scopes, 3);
    assert("e"@.len() == 1 && "phi"@.len() == 3 && "pi"@.len() == 2);
    let builtin = initial_scopes()[0];
    assert(builtin.skip(1) =~= seq![("phi"@, PHI_BITS), ("pi"@, PI_BITS)]);
    assert(builtin.skip(1).skip(1) =~= seq![("pi"@, PI_BITS)]);
    assert(builtin.skip(1).skip(1).skip(1) =~= Seq::<(Seq<char>, u64)>::empty());
    assert(initial_scopes().last() =~= Seq::<(Seq<char>, u64)>::empty());
    assert(initial_scopes().drop_last().last() == builtin);
    assert(initial_scopes().drop_last().drop_last() =~= Seq::<Seq<(Seq<char>, u64)>>::empty());
}

/// Law (literals evaluate to themselves): a literal expression returns
/// its value and leaves the scopes untouched, so a parsed numeral line
/// evaluates to exactly the value the parser gave its token.
pub proof fn lemma_literal_evaluates(ss: Seq<Seq<(Seq<char>, u64)>>, n: u64)
    ensures
        spec_eval(ss, Expression::Literal(Literal::Number(n))) == (
            Ok::<u64, RunErrorView>(n),
            ss,
        ),
{
}

/// Law (right-binding of assignment): a chained assignment `a = b = n`
/// evaluates to `n` and binds both names to `n`.
pub proof fn lemma_chained_assignment(
    ss: Seq<Seq<(Seq<char>, u64)>>,
    e: Expression,
    a: Seq<char>,
    b: Seq<char>,
    n: u64,
)
    requires
        ss.len() >= 1,
        (e matches Expression::Assignment(outer) && outer.var.name@ == a && (*outer.right
            matches Expression::Assignment(inner) && inner.var.name@ == b && *inner.right
            == Expression::Literal(Literal::Number(n)))),
    ensures
        spec_eval(ss, e).0 == Ok::<u64, RunErrorView>(n),
        find_in_scopes(spec_eval(ss, e).1, a) == Some(n),
        find_in_scopes(spec_eval(ss, e).1, b) == Some(n),
{
    let ss1 = set_var(ss, b, n);
    reveal_with_fuel(spec_eval, 4);
    assert(spec_eval(ss, e).1 == set_var(ss1, a, n));
    lemma_find_set(ss1, a, n);
    if a == b {
        lemma_find_set(ss1, a, n);
    } else {
        lemma_find_set(ss, b, n);
        lemma_find_set_other(ss1, a, n, b);
    }
}

/// Law (undefined reference): evaluating a variable that no layer binds
/// fails with `UndefinedVariable` and leaves the scopes unchanged.
pub proof fn lemma_undefined_variable(ss: Seq<Seq<(Seq<char>, u64)>>, var: Variable)
    requires
        find_in_scopes(ss, var.name@) is None,
    ensures
        spec_eval(ss, Expression::Variable(var)) == (
            Err::<u64, RunErrorView>(RunErrorView::UndefinedVariable { name: var.name@ }),
            ss,
        ),
{
}

/// Law (division by zero): a division or remainder whose right operand is
/// a zero literal fails with `DivideByZero`, whatever number stands on the
/// left.
pub proof fn lemma_divide_by_zero(
    ss: Seq<Seq<(Seq<char>, u64)>>,
    bin: Binary,
    l: u64,
    r: u64,
)
    requires
        bin.op is Divide || bin.op is Modulo,
        *bin.left == Expression::Literal(Literal::Number(l)),
        *bin.right == Expression::Literal(Literal::Number(r)),
        is_zero_bits(r),
    ensures
        spec_eval(ss, Expression::Binary(bin)) == (
            Err::<u64, RunErrorView>(RunErrorView::DivideByZero),
            ss,
        ),
{
    reveal_with_fuel(spec_eval, 3);
}

/// Law (zero exponent): raising any value, even a NaN, to a zero exponent
/// yields one.
pub proof fn lemma_zero_exponent(b: u64, z: u64)
    requires
        is_zero_bits(z),
    ensures
        crate::numeric::pow_full(b, z) == crate::numeric::ONE_BITS,
{
}

/// If the first `j` keys differ from the name and key `j` matches, binding
/// the name updates entry `j` in place.
proof fn lemma_put_hit(s: Seq<(Seq<char>, u64)>, name: Seq<char>, value: u64, j: int)
    requires
        0 <= j < s.len(),
        forall|k: int| 0 <= k < j ==> s[k].0 != name,
        s[j].0 == name,
    ensures
        put_in_scope(s, name, value) == s.update(j, (s[j].0, value)),
    decreases j,
{
    if j == 0 {
        assert(put_in_scope(s, name, value) =~= s.update(0, (s[0].0, value)));
    } else {
        lemma_put_hit(s.skip(1), name, value, j - 1);
        assert(s.skip(1).update(j - 1, (s.skip(1)[j - 1].0, value)) =~= s.update(
            j,
            (s[j].0, value),
        ).skip(1));
        assert(put_in_scope(s, name, value) =~= s.update(j, (s[j].0, value)));
    }
}

/// If no key matches the name, binding it appends a new entry.
proof fn lemma_put_miss(s: Seq<(Seq<char>, u64)>, name: Seq<char>, value: u64)
    requires
        forall|k: int| 0 <= k < s.len() ==> s[k].0 != name,
    ensures
        put_in_scope(s, name, value) == s.push((name, value)),
    decreases s.len(),
{
    if s.len() == 0 {
        assert(put_in_scope(s, name, value) =~= s.push((name, value)));
    } else {
        lemma_put_miss(s.skip(1), name, value);
        assert(seq![s[0]] + s.skip(1).push((name, value)) =~= s.push((name, value)));
    }
}

/// If the first `j` keys differ and key `j` matches, the name is found
/// with value `j`.
proof fn lemma_find_hit(s: Seq<(Seq<char>, u64)>, name: Seq<char>, j: int)
    requires
        0 <= j < s.len(),
        forall|k: int| 0 <= k < j ==> s[k].0 != name,
        s[j].0 == name,
    ensures
        find_in_scope(s, name) == Some(s[j].1),
    decreases j,
{
    if j > 0 {
        lemma_find_hit(s.skip(1), name, j - 1);
    }
}

/// If no key matches, the name is not found.
proof fn lemma_find_miss(s: Seq<(Seq<char>, u64)>, name: Seq<char>)
    requires
        forall|k: int| 0 <= k < s.len() ==> s[k].0 != name,
    ensures
        find_in_scope(s, name) is None,
    decreases s.len(),
{
    if s.len() > 0 {
        lemma_find_miss(s.skip(1), name);
    }
}

/// If the first `j` keys differ and key `j` matches, removing the name
/// removes entry `j`.
proof fn lemma_remove_hit(s: Seq<(Seq<char>, u64)>, name: Seq<char>, j: int)
    requires
        0 <= j < s.len(),
        forall|k: int| 0 <= k < j ==> s[k].0 != name,
        s[j].0 == name,
    ensures
        remove_first(s, name) == s.remove(j),
    decreases j,
{
    if j == 0 {
        assert(remove_first(s, name) =~= s.remove(0));
    } else {
        lemma_remove_hit(s.skip(1), name, j - 1);
        assert(seq![s[0]] + s.skip(1).remove(j - 1) =~= s.remove(j));
    }
}

} // verus!
