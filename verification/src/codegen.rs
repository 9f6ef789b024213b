//! The generator: lowers the body of each function to instructions.
//!
//! Every expression leaves one value on the operand stack (a `null` literal
//! leaves none: it stands for "nothing", as in an absent else branch). Names
//! live in one flat table per function: each `let` takes the next free slot,
//! also for a name that is bound already, and a binding made inside a branch
//! or a loop body stays visible after it. Each conditional and each loop
//! takes the next free label number of its function.

use crate::ast::{BinaryOp, Expr, Func, Value};
use crate::bytecode::{
    entry_label, entry_name, functions_view, lemma_list_view, ops_view, values_view,
    ByteCodeFunction, ByteCodeOp, ByteCodeValue, FunctionView, Label, LabelKind, LabelView, OpView,
    RelativeOperation, ValueView,
};
use vstd::hash_map::StringHashMap;
use vstd::prelude::*;

verus! {

/// Mathematical model of a [`CompileError`].
pub enum CompileErrorView {
    NoEntryPoint,
    DuplicateFunction(Seq<char>),
    UnboundVariable(Seq<char>),
    UnboundAssignment(Seq<char>),
    NullInList,
    TooManyLocals,
    TooManyLabels,
}

/// Why no code was generated.
#[derive(Debug, PartialEq)]
pub enum CompileError {
    /// No function is called `main`.
    NoEntryPoint,
    /// Two functions have the name.
    DuplicateFunction(String),
    /// A name is read that no parameter and no `let` before it has bound.
    UnboundVariable(String),
    /// A name is assigned that no parameter and no `let` before it has bound.
    UnboundAssignment(String),
    /// A list literal holds `null`, which is no value.
    NullInList,
    /// A function binds more names than there are slots.
    TooManyLocals,
    /// A function holds more conditionals and loops than there are label
    /// numbers.
    TooManyLabels,
}

impl View for CompileError {
    type V = CompileErrorView;

    open spec fn view(&self) -> CompileErrorView {
        match self {
            CompileError::NoEntryPoint => CompileErrorView::NoEntryPoint,
            CompileError::DuplicateFunction(name) => CompileErrorView::DuplicateFunction(name@),
            CompileError::UnboundVariable(name) => CompileErrorView::UnboundVariable(name@),
            CompileError::UnboundAssignment(name) => CompileErrorView::UnboundAssignment(name@),
            CompileError::NullInList => CompileErrorView::NullInList,
            CompileError::TooManyLocals => CompileErrorView::TooManyLocals,
            CompileError::TooManyLabels => CompileErrorView::TooManyLabels,
        }
    }
}

/// The values that the first `n` literals of `items` denote, if each of them
/// denotes one.
pub open spec fn literal_items(items: Vec<Value>, n: nat) -> Option<Seq<ValueView>>
    decreases items, n,
{
    if n == 0 || n > items.len() {
        Some(Seq::empty())
    } else {
        match literal_items(items, (n - 1) as nat) {
            Some(values) => match literal_value(items[n - 1]) {
                Some(value) => Some(values.push(value)),
                None => None,
            },
            None => None,
        }
    }
}

/// The value that a literal denotes. `null` denotes none, and neither does a
/// list that holds a literal without a value.
pub open spec fn literal_value(literal: Value) -> Option<ValueView>
    decreases literal, 0nat,
{
    match literal {
        Value::Null => None,
        Value::Bool(b) => Some(ValueView::Boolean(b)),
        Value::Num(n) => Some(ValueView::Number(n)),
        Value::Str(s) => Some(ValueView::String(s@)),
        Value::List(items) => match literal_items(items, items.len() as nat) {
            Some(values) => Some(ValueView::List(values)),
            None => None,
        },
    }
}

/// No literal denotes the sentinel of a call.
pub proof fn lemma_literal_is_no_sentinel(literal: Value)
    ensures
        literal_value(literal) != Some(ValueView::Return),
{
}

impl ByteCodeValue {
    /// The value that `literal` denotes, if it denotes one.
    pub fn from_literal(literal: &Value) -> (r: Option<ByteCodeValue>)
        ensures
            match r {
                Some(value) => literal_value(*literal) == Some(value@),
                None => literal_value(*literal) is None,
            },
        decreases literal,
    {
        match literal {
            Value::Null => None,
            Value::Bool(b) => Some(ByteCodeValue::Boolean(*b)),
            Value::Num(n) => Some(ByteCodeValue::Number(*n)),
            Value::Str(s) => Some(ByteCodeValue::String(s.clone())),
            Value::List(items) => {
                let mut out: Vec<ByteCodeValue> = Vec::new();
                let mut i: usize = 0;
                while i < items.len()
                    invariant
                        i <= items.len(),
                        literal_items(*items, i as nat) == Some(values_view(out@)),
                        *literal == Value::List(*items),
                        decreases_to!(literal => items),
                    decreases items.len() - i,
                {
                    match ByteCodeValue::from_literal(&items[i]) {
                        None => {
                            proof {
                                lemma_literal_items_fail(*items, (i + 1) as nat, items.len() as nat);
                            }
                            return None;
                        },
                        Some(value) => {
                            proof {
                                assert(values_view(out@.push(value)) =~= values_view(out@).push(
                                    value@,
                                ));
                            }
                            out.push(value);
                        },
                    }
                    i += 1;
                }
                proof {
                    lemma_list_view(out);
                }
                Some(ByteCodeValue::List(out))
            },
        }
    }
}

/// Once one literal of a list denotes no value, no longer prefix does.
proof fn lemma_literal_items_fail(items: Vec<Value>, n: nat, m: nat)
    requires
        n <= m <= items.len(),
        literal_items(items, n) is None,
    ensures
        literal_items(items, m) is None,
    decreases m,
{
    if n < m {
        lemma_literal_items_fail(items, n, (m - 1) as nat);
    }
}

/// What the generator knows while it walks the body of one function: the
/// slot of each name, the next free slot, and the next free label number.
pub struct Scope {
    pub slots: Map<Seq<char>, nat>,
    pub next_slot: nat,
    pub next_label: nat,
}

/// The instructions of an expression, and what the generator knows after it.
pub struct Lowered {
    pub ops: Seq<OpView>,
    pub scope: Scope,
}

/// The instruction that computes `op`.
pub open spec fn binary_opcode(op: BinaryOp) -> OpView {
    match op {
        BinaryOp::Add => OpView::Add,
        BinaryOp::Sub => OpView::Sub,
        BinaryOp::Mul => OpView::Mul,
        BinaryOp::Div => OpView::Div,
        BinaryOp::Eq => OpView::Equal,
        BinaryOp::NotEq => OpView::NotEq,
        BinaryOp::LowerT => OpView::LowerT,
        BinaryOp::GreaterT => OpView::GreaterT,
        BinaryOp::ListAt => OpView::ListAt,
    }
}

/// The label of kind `kind` of construct number `index` in `function`.
pub open spec fn branch_label(function: Seq<char>, kind: LabelKind, index: nat) -> LabelView {
    LabelView { function, kind, index }
}

/// `scope` after it has given out one label number.
pub open spec fn after_label(scope: Scope) -> Scope {
    Scope { slots: scope.slots, next_slot: scope.next_slot, next_label: scope.next_label + 1 }
}

/// `scope` after it has bound `name` to the next free slot.
pub open spec fn after_binding(scope: Scope, name: Seq<char>) -> Scope {
    Scope {
        slots: scope.slots.insert(name, scope.next_slot),
        next_slot: scope.next_slot + 1,
        next_label: scope.next_label,
    }
}

/// The instructions of the first `n` expressions of `args`, one after the
/// other.
pub open spec fn lower_args(function: Seq<char>, args: Vec<Expr>, n: nat, scope: Scope) -> Result<
    Lowered,
    CompileErrorView,
>
    decreases args, n,
{
    if n == 0 || n > args.len() {
        Ok(Lowered { ops: Seq::empty(), scope })
    } else {
        match lower_args(function, args, (n - 1) as nat, scope) {
            Err(e) => Err(e),
            Ok(before) => match lower(function, args[n - 1], before.scope) {
                Err(e) => Err(e),
                Ok(last) => Ok(Lowered { ops: before.ops + last.ops, scope: last.scope }),
            },
        }
    }
}

/// The instructions of `expr` inside the function called `function`, where
/// the generator knows `scope` before it; or the first error that the walk
/// over `expr` meets.
pub open spec fn lower(function: Seq<char>, expr: Expr, scope: Scope) -> Result<
    Lowered,
    CompileErrorView,
>
    decreases expr, 0nat,
{
    match expr {
        Expr::Value(literal) => match literal {
            Value::Null => Ok(Lowered { ops: Seq::empty(), scope }),
            _ => match literal_value(literal) {
                Some(value) => Ok(Lowered { ops: seq![OpView::Const(value)], scope }),
                None => Err(CompileErrorView::NullInList),
            },
        },
        Expr::LocalVar(name) => if scope.slots.contains_key(name@) {
            Ok(Lowered { ops: seq![OpView::LocalGet(scope.slots[name@])], scope })
        } else {
            Err(CompileErrorView::UnboundVariable(name@))
        },
        Expr::Let(name, value, rest) => match lower(function, *value, scope) {
            Err(e) => Err(e),
            Ok(first) => if first.scope.next_slot >= usize::MAX {
                Err(CompileErrorView::TooManyLocals)
            } else {
                match lower(function, *rest, after_binding(first.scope, name@)) {
                    Err(e) => Err(e),
                    Ok(second) => Ok(
                        Lowered {
                            ops: first.ops.push(OpView::LocalSet(first.scope.next_slot))
                                + second.ops,
                            scope: second.scope,
                        },
                    ),
                }
            },
        },
        Expr::Then(first, second) => match lower(function, *first, scope) {
            Err(e) => Err(e),
            Ok(a) => match lower(function, *second, a.scope) {
                Err(e) => Err(e),
                Ok(b) => Ok(Lowered { ops: a.ops + b.ops, scope: b.scope }),
            },
        },
        Expr::Binary(left, op, right) => match lower(function, *left, scope) {
            Err(e) => Err(e),
            Ok(a) => match lower(function, *right, a.scope) {
                Err(e) => Err(e),
                Ok(b) => Ok(
                    Lowered { ops: (a.ops + b.ops).push(binary_opcode(op)), scope: b.scope },
                ),
            },
        },
        Expr::Call(callee, args) => match lower_args(function, args, args.len() as nat, scope) {
            Err(e) => Err(e),
            Ok(a) => Ok(
                Lowered { ops: a.ops.push(OpView::Call(callee@, args.len() as nat)), scope: a.scope },
            ),
        },
        Expr::If(condition, then, otherwise) => if scope.next_label >= usize::MAX {
            Err(CompileErrorView::TooManyLabels)
        } else {
            let else_label = branch_label(function, LabelKind::Else, scope.next_label);
            let end_label = branch_label(function, LabelKind::IfEnd, scope.next_label);
            match lower(function, *condition, after_label(scope)) {
                Err(e) => Err(e),
                Ok(c) => match lower(function, *then, c.scope) {
                    Err(e) => Err(e),
                    Ok(t) => match lower(function, *otherwise, t.scope) {
                        Err(e) => Err(e),
                        Ok(o) => Ok(
                            Lowered {
                                ops: c.ops.push(OpView::JumpFalse(else_label)) + t.ops.push(
                                    OpView::Jump(end_label),
                                ).push(OpView::Label(else_label)) + o.ops.push(
                                    OpView::Label(end_label),
                                ),
                                scope: o.scope,
                            },
                        ),
                    },
                },
            }
        },
        Expr::Print(value) => match lower(function, *value, scope) {
            Err(e) => Err(e),
            Ok(a) => Ok(Lowered { ops: a.ops.push(OpView::Print), scope: a.scope }),
        },
        Expr::Return(value) => match lower(function, *value, scope) {
            Err(e) => Err(e),
            Ok(a) => Ok(Lowered { ops: a.ops.push(OpView::Return), scope: a.scope }),
        },
        Expr::Assign(name, value, rest) => match lower(function, *value, scope) {
            Err(e) => Err(e),
            Ok(a) => if !a.scope.slots.contains_key(name@) {
                Err(CompileErrorView::UnboundAssignment(name@))
            } else {
                match lower(function, *rest, a.scope) {
                    Err(e) => Err(e),
                    Ok(b) => Ok(
                        Lowered {
                            ops: a.ops.push(OpView::LocalSet(a.scope.slots[name@])) + b.ops,
                            scope: b.scope,
                        },
                    ),
                }
            },
        },
        Expr::Loop(condition, body) => if scope.next_label >= usize::MAX {
            Err(CompileErrorView::TooManyLabels)
        } else {
            let start_label = branch_label(function, LabelKind::LoopStart, scope.next_label);
            let end_label = branch_label(function, LabelKind::LoopEnd, scope.next_label);
            match lower(function, *condition, after_label(scope)) {
                Err(e) => Err(e),
                Ok(c) => match lower(function, *body, c.scope) {
                    Err(e) => Err(e),
                    Ok(b) => Ok(
                        Lowered {
                            ops: seq![OpView::Label(start_label)] + c.ops.push(
                                OpView::JumpFalse(end_label),
                            ) + b.ops.push(OpView::Jump(start_label)).push(
                                OpView::Label(end_label),
                            ),
                            scope: b.scope,
                        },
                    ),
                },
            }
        },
    }
}

/// The slots of a table of names, as natural numbers.
pub open spec fn slots_view(table: Map<Seq<char>, usize>) -> Map<Seq<char>, nat> {
    Map::new(|name: Seq<char>| table.contains_key(name), |name: Seq<char>| table[name] as nat)
}

/// What the generator holds while it walks the body of one function.
pub struct Context {
    mem_store: StringHashMap<usize>,
    store_ct: usize,
    label_ctr: usize,
}

impl View for Context {
    type V = Scope;

    closed spec fn view(&self) -> Scope {
        Scope {
            slots: slots_view(self.mem_store@),
            next_slot: self.store_ct as nat,
            next_label: self.label_ctr as nat,
        }
    }
}

impl Context {
    /// What the generator holds before it walks the body of `function`: each
    /// parameter in the slot of its position, no label given out.
    pub fn for_function(function: &Func) -> (ctx: Context)
        ensures
            ctx@ == initial_scope(*function),
    {
        let mut mem_store: StringHashMap<usize> = StringHashMap::new();
        assert(slots_view(mem_store@) =~= parameter_slots(function.args@, 0));
        let mut i: usize = 0;
        while i < function.args.len()
            invariant
                i <= function.args.len(),
                slots_view(mem_store@) == parameter_slots(function.args@, i as nat),
            decreases function.args.len() - i,
        {
            mem_store.insert(function.args[i].clone(), i);
            assert(slots_view(mem_store@) =~= parameter_slots(function.args@, (i + 1) as nat));
            i += 1;
        }
        Context { mem_store, store_ct: function.args.len(), label_ctr: 0 }
    }
}

/// Appends one instruction.
fn emit(operations: &mut Vec<RelativeOperation>, op: ByteCodeOp)
    ensures
        ops_view(final(operations)@) == ops_view(old(operations)@).push(op@),
{
    operations.push(RelativeOperation::new(op));
    assert(ops_view(operations@) =~= ops_view(old(operations)@).push(op@));
}

/// The instruction that computes `op`.
fn opcode_of(op: BinaryOp) -> (r: ByteCodeOp)
    ensures
        r@ == binary_opcode(op),
{
    match op {
        BinaryOp::Add => ByteCodeOp::Add,
        BinaryOp::Sub => ByteCodeOp::Sub,
        BinaryOp::Mul => ByteCodeOp::Mul,
        BinaryOp::Div => ByteCodeOp::Div,
        BinaryOp::Eq => ByteCodeOp::Equal,
        BinaryOp::NotEq => ByteCodeOp::NotEq,
        BinaryOp::LowerT => ByteCodeOp::LowerT,
        BinaryOp::GreaterT => ByteCodeOp::GreaterT,
        BinaryOp::ListAt => ByteCodeOp::ListAt,
    }
}

/// Appends the instructions of `expr` to `operations` and brings `ctx` up to
/// date. After an error, `ctx` and `operations` hold what the walk had done
/// when it met the error.
#[verifier::rlimit(60)]
pub fn generate_function_bytecode(
    expr: &Expr,
    method_name: &str,
    ctx: &mut Context,
    operations: &mut Vec<RelativeOperation>,
) -> (r: Result<(), CompileError>)
    ensures
        match lower(method_name@, *expr, old(ctx)@) {
            Ok(lowered) => {
                &&& r is Ok
                &&& final(ctx)@ == lowered.scope
                &&& ops_view(final(operations)@) == ops_view(old(operations)@) + lowered.ops
            },
            Err(e) => r is Err && r->Err_0@ == e,
        },
    decreases expr,
{
    let ghost start = ops_view(operations@);
    let ghost scope = ctx@;
    match expr {
        Expr::Value(literal) => match literal {
            Value::Null => {
                assert(start + Seq::<OpView>::empty() =~= start);
                Ok(())
            },
            _ => match ByteCodeValue::from_literal(literal) {
                Some(value) => {
                    emit(operations, ByteCodeOp::Const(value));
                    assert(ops_view(operations@) =~= start + seq![OpView::Const(value@)]);
                    Ok(())
                },
                None => Err(CompileError::NullInList),
            },
        },
        Expr::LocalVar(name) => match ctx.mem_store.get(name.as_str()) {
            Some(slot) => {
                let slot: usize = *slot;
                emit(operations, ByteCodeOp::LocalGet(slot));
                assert(ops_view(operations@) =~= start + seq![OpView::LocalGet(slot as nat)]);
                Ok(())
            },
            None => Err(CompileError::UnboundVariable(name.clone())),
        },
        Expr::Let(name, value, rest) => {
            match generate_function_bytecode(&**value, method_name, ctx, operations) {
                Err(e) => {
                    return Err(e);
                },
                Ok(()) => {},
            }
            let ghost first = lower(method_name@, **value, scope)->Ok_0;
            if ctx.store_ct == usize::MAX {
                return Err(CompileError::TooManyLocals);
            }
            let slot: usize = ctx.store_ct;
            ctx.mem_store.insert(name.clone(), slot);
            ctx.store_ct = slot + 1;
            assert(ctx@.slots =~= first.scope.slots.insert(name@, slot as nat));
            emit(operations, ByteCodeOp::LocalSet(slot));
            match generate_function_bytecode(&**rest, method_name, ctx, operations) {
                Err(e) => Err(e),
                Ok(()) => {
                    let ghost second = lower(
                        method_name@,
                        **rest,
                        after_binding(first.scope, name@),
                    )->Ok_0;
                    assert(ops_view(operations@) =~= start + (first.ops.push(
                        OpView::LocalSet(slot as nat),
                    ) + second.ops));
                    Ok(())
                },
            }
        },
        Expr::Then(first, second) => {
            match generate_function_bytecode(&**first, method_name, ctx, operations) {
                Err(e) => {
                    return Err(e);
                },
                Ok(()) => {},
            }
            let ghost a = lower(method_name@, **first, scope)->Ok_0;
            match generate_function_bytecode(&**second, method_name, ctx, operations) {
                Err(e) => Err(e),
                Ok(()) => {
                    let ghost b = lower(method_name@, **second, a.scope)->Ok_0;
                    assert(ops_view(operations@) =~= start + (a.ops + b.ops));
                    Ok(())
                },
            }
        },
        Expr::Binary(left, op, right) => {
            match generate_function_bytecode(&**left, method_name, ctx, operations) {
                Err(e) => {
                    return Err(e);
                },
                Ok(()) => {},
            }
            let ghost a = lower(method_name@, **left, scope)->Ok_0;
            match generate_function_bytecode(&**right, method_name, ctx, operations) {
                Err(e) => {
                    return Err(e);
                },
                Ok(()) => {},
            }
            let ghost b = lower(method_name@, **right, a.scope)->Ok_0;
            emit(operations, opcode_of(*op));
            assert(ops_view(operations@) =~= start + (a.ops + b.ops).push(binary_opcode(*op)));
            Ok(())
        },
        Expr::Call(callee, args) => {
            let mut i: usize = 0;
            assert(start + Seq::<OpView>::empty() =~= start);
            while i < args.len()
                invariant
                    i <= args.len(),
                    *expr == Expr::Call(*callee, *args),
                    scope == old(ctx)@,
                    decreases_to!(expr => args),
                    lower_args(method_name@, *args, i as nat, scope) is Ok,
                    ctx@ == lower_args(method_name@, *args, i as nat, scope)->Ok_0.scope,
                    ops_view(operations@) == start + lower_args(
                        method_name@,
                        *args,
                        i as nat,
                        scope,
                    )->Ok_0.ops,
                decreases args.len() - i,
            {
                let ghost before = lower_args(method_name@, *args, i as nat, scope)->Ok_0;
                match generate_function_bytecode(&args[i], method_name, ctx, operations) {
                    Err(e) => {
                        proof {
                            lemma_lower_args_fail(
                                method_name@,
                                *args,
                                (i + 1) as nat,
                                args.len() as nat,
                                scope,
                            );
                        }
                        return Err(e);
                    },
                    Ok(()) => {
                        let ghost last = lower(method_name@, args[i as int], before.scope)->Ok_0;
                        assert(ops_view(operations@) =~= start + (before.ops + last.ops));
                    },
                }
                i += 1;
            }
            let ghost a = lower_args(method_name@, *args, args.len() as nat, scope)->Ok_0;
            emit(operations, ByteCodeOp::Call(callee.clone(), args.len()));
            assert(ops_view(operations@) =~= start + a.ops.push(
                OpView::Call(callee@, args.len() as nat),
            ));
            Ok(())
        },
        Expr::If(condition, then, otherwise) => {
            if ctx.label_ctr == usize::MAX {
                return Err(CompileError::TooManyLabels);
            }
            let index: usize = ctx.label_ctr;
            ctx.label_ctr = index + 1;
            let ghost else_label = branch_label(method_name@, LabelKind::Else, index as nat);
            let ghost end_label = branch_label(method_name@, LabelKind::IfEnd, index as nat);
            match generate_function_bytecode(&**condition, method_name, ctx, operations) {
                Err(e) => {
                    return Err(e);
                },
                Ok(()) => {},
            }
            let ghost c = lower(method_name@, **condition, after_label(scope))->Ok_0;
            emit(
                operations,
                ByteCodeOp::JumpFalse(Label::branch(method_name, LabelKind::Else, index)),
            );
            match generate_function_bytecode(&**then, method_name, ctx, operations) {
                Err(e) => {
                    return Err(e);
                },
                Ok(()) => {},
            }
            let ghost t = lower(method_name@, **then, c.scope)->Ok_0;
            emit(operations, ByteCodeOp::Jump(Label::branch(method_name, LabelKind::IfEnd, index)));
            emit(operations, ByteCodeOp::Label(Label::branch(method_name, LabelKind::Else, index)));
            match generate_function_bytecode(&**otherwise, method_name, ctx, operations) {
                Err(e) => {
                    return Err(e);
                },
                Ok(()) => {},
            }
            let ghost o = lower(method_name@, **otherwise, t.scope)->Ok_0;
            emit(
                operations,
                ByteCodeOp::Label(Label::branch(method_name, LabelKind::IfEnd, index)),
            );
            assert(ops_view(operations@) =~= start + (c.ops.push(OpView::JumpFalse(else_label))
                + t.ops.push(OpView::Jump(end_label)).push(OpView::Label(else_label))
                + o.ops.push(OpView::Label(end_label))));
            Ok(())
        },
        Expr::Print(value) => {
            match generate_function_bytecode(&**value, method_name, ctx, operations) {
                Err(e) => {
                    return Err(e);
                },
                Ok(()) => {},
            }
            let ghost a = lower(method_name@, **value, scope)->Ok_0;
            emit(operations, ByteCodeOp::Print);
            assert(ops_view(operations@) =~= start + a.ops.push(OpView::Print));
            Ok(())
        },
        Expr::Return(value) => {
            match generate_function_bytecode(&**value, method_name, ctx, operations) {
                Err(e) => {
                    return Err(e);
                },
                Ok(()) => {},
            }
            let ghost a = lower(method_name@, **value, scope)->Ok_0;
            emit(operations, ByteCodeOp::Return);
            assert(ops_view(operations@) =~= start + a.ops.push(OpView::Return));
            Ok(())
        },
        Expr::Assign(name, value, rest) => {
            match generate_function_bytecode(&**value, method_name, ctx, operations) {
                Err(e) => {
                    return Err(e);
                },
                Ok(()) => {},
            }
            let ghost a = lower(method_name@, **value, scope)->Ok_0;
            let slot: usize = match ctx.mem_store.get(name.as_str()) {
                Some(slot) => *slot,
                None => {
                    return Err(CompileError::UnboundAssignment(name.clone()));
                },
            };
            emit(operations, ByteCodeOp::LocalSet(slot));
            match generate_function_bytecode(&**rest, method_name, ctx, operations) {
                Err(e) => Err(e),
                Ok(()) => {
                    let ghost b = lower(method_name@, **rest, a.scope)->Ok_0;
                    assert(ops_view(operations@) =~= start + (a.ops.push(
                        OpView::LocalSet(slot as nat),
                    ) + b.ops));
                    Ok(())
                },
            }
        },
        Expr::Loop(condition, body) => {
            if ctx.label_ctr == usize::MAX {
                return Err(CompileError::TooManyLabels);
            }
            let index: usize = ctx.label_ctr;
            ctx.label_ctr = index + 1;
            let ghost start_label = branch_label(method_name@, LabelKind::LoopStart, index as nat);
            let ghost end_label = branch_label(method_name@, LabelKind::LoopEnd, index as nat);
            emit(
                operations,
                ByteCodeOp::Label(Label::branch(method_name, LabelKind::LoopStart, index)),
            );
            match generate_function_bytecode(&**condition, method_name, ctx, operations) {
                Err(e) => {
                    return Err(e);
                },
                Ok(()) => {},
            }
            let ghost c = lower(method_name@, **condition, after_label(scope))->Ok_0;
            emit(
                operations,
                ByteCodeOp::JumpFalse(Label::branch(method_name, LabelKind::LoopEnd, index)),
            );
            match generate_function_bytecode(&**body, method_name, ctx, operations) {
                Err(e) => {
                    return Err(e);
                },
                Ok(()) => {},
            }
            let ghost b = lower(method_name@, **body, c.scope)->Ok_0;
            emit(
                operations,
                ByteCodeOp::Jump(Label::branch(method_name, LabelKind::LoopStart, index)),
            );
            emit(
                operations,
                ByteCodeOp::Label(Label::branch(method_name, LabelKind::LoopEnd, index)),
            );
            assert(ops_view(operations@) =~= start + (seq![OpView::Label(start_label)]
                + c.ops.push(OpView::JumpFalse(end_label)) + b.ops.push(
                OpView::Jump(start_label),
            ).push(OpView::Label(end_label))));
            Ok(())
        },
    }
}

/// Once one argument fails to lower, no longer list of arguments lowers, and
/// the error stays the same.
proof fn lemma_lower_args_fail(function: Seq<char>, args: Vec<Expr>, n: nat, m: nat, scope: Scope)
    requires
        n <= m <= args.len(),
        lower_args(function, args, n, scope) is Err,
    ensures
        lower_args(function, args, m, scope) == lower_args(function, args, n, scope),
    decreases m,
{
    if n < m {
        lemma_lower_args_fail(function, args, n, (m - 1) as nat, scope);
    }
}

/// The table of names that holds the first `n` parameters of `args`, each at
/// the slot of its position. Of two parameters of one name the later one
/// holds the name.
pub open spec fn parameter_slots(args: Seq<String>, n: nat) -> Map<Seq<char>, nat>
    decreases n,
{
    if n == 0 || n > args.len() {
        Map::empty()
    } else {
        parameter_slots(args, (n - 1) as nat).insert(args[n - 1]@, (n - 1) as nat)
    }
}

/// What the generator knows before it walks the body of `function`.
pub open spec fn initial_scope(function: Func) -> Scope {
    Scope {
        slots: parameter_slots(function.args@, function.args.len() as nat),
        next_slot: function.args.len() as nat,
        next_label: 0,
    }
}

/// The instructions of `function`: its entry label, the instructions of its
/// body, and `End` if it is the function at which a program starts.
pub open spec fn function_code(function: Func) -> Result<Seq<OpView>, CompileErrorView> {
    match lower(function.name@, function.body, initial_scope(function)) {
        Err(e) => Err(e),
        Ok(body) => Ok(
            seq![OpView::Label(entry_label(function.name@))] + body.ops + if function.name@
                == entry_name() {
                seq![OpView::End]
            } else {
                Seq::empty()
            },
        ),
    }
}

/// Whether one of `ast` is the function at which a program starts.
pub open spec fn has_entry(ast: Seq<Func>) -> bool {
    exists|i: int| 0 <= i < ast.len() && (#[trigger] ast[i]).name@ == entry_name()
}

/// The code of the first `n` functions of `ast`, in order; or the error of
/// the first of them that has one.
pub open spec fn functions_code(ast: Seq<Func>, n: nat) -> Result<
    Seq<FunctionView>,
    CompileErrorView,
>
    decreases n,
{
    if n == 0 || n > ast.len() {
        Ok(Seq::empty())
    } else {
        match functions_code(ast, (n - 1) as nat) {
            Err(e) => Err(e),
            Ok(before) => match function_code(ast[n - 1]) {
                Err(e) => Err(e),
                Ok(ops) => Ok(
                    before.push(
                        FunctionView {
                            name: ast[n - 1].name@,
                            ops,
                            arg_ct: ast[n - 1].args.len() as nat,
                        },
                    ),
                ),
            },
        }
    }
}

/// Whether function `at` of `ast` has the name of an earlier one.
pub open spec fn name_repeats(ast: Seq<Func>, at: int) -> bool {
    &&& 0 <= at < ast.len()
    &&& exists|before: int| 0 <= before < at && (#[trigger] ast[before]).name@ == ast[at].name@
}

/// Whether no two functions of `ast` have one name: the tree is a mapping
/// from names to functions.
pub open spec fn names_distinct(ast: Seq<Func>) -> bool {
    forall|at: int| !name_repeats(ast, at)
}

/// The first function from `from` on that has the name of an earlier one.
pub open spec fn first_repeated(ast: Seq<Func>, from: int) -> Option<int>
    decreases ast.len() - from,
{
    if from < 0 || from >= ast.len() {
        None
    } else if name_repeats(ast, from) {
        Some(from)
    } else {
        first_repeated(ast, from + 1)
    }
}

/// The code of a whole syntax tree: that of each function, in the order of
/// the tree. There is none without a function to start at, none where two
/// functions have one name, and none if any function has an error.
pub open spec fn program_code(ast: Seq<Func>) -> Result<Seq<FunctionView>, CompileErrorView> {
    if !has_entry(ast) {
        Err(CompileErrorView::NoEntryPoint)
    } else {
        match first_repeated(ast, 0) {
            Some(at) => Err(CompileErrorView::DuplicateFunction(ast[at].name@)),
            None => functions_code(ast, ast.len()),
        }
    }
}

/// Where no function is found to repeat a name, none does.
proof fn lemma_first_repeated_none(ast: Seq<Func>, from: int)
    requires
        0 <= from,
        first_repeated(ast, from) is None,
    ensures
        forall|at: int| from <= at ==> !name_repeats(ast, at),
    decreases ast.len() - from,
{
    if from < ast.len() {
        lemma_first_repeated_none(ast, from + 1);
    }
}

/// Where there is code, no two functions of the tree have one name.
pub proof fn lemma_code_has_distinct_names(ast: Seq<Func>)
    requires
        program_code(ast) is Ok,
    ensures
        names_distinct(ast),
{
    lemma_first_repeated_none(ast, 0);
}

/// Lowers one function to its instructions.
pub fn generate_function_code(function: &Func) -> (r: Result<
    Vec<RelativeOperation>,
    CompileError,
>)
    ensures
        match function_code(*function) {
            Ok(ops) => r is Ok && ops_view(r->Ok_0@) == ops,
            Err(e) => r is Err && r->Err_0@ == e,
        },
{
    let mut operations: Vec<RelativeOperation> = Vec::new();
    assert(ops_view(operations@) =~= Seq::<OpView>::empty());
    emit(&mut operations, ByteCodeOp::Label(Label::entry(function.name.as_str())));
    let mut ctx = Context::for_function(function);
    match generate_function_bytecode(
        &function.body,
        function.name.as_str(),
        &mut ctx,
        &mut operations,
    ) {
        Err(e) => {
            return Err(e);
        },
        Ok(()) => {},
    }
    let ghost body = lower(function.name@, function.body, initial_scope(*function))->Ok_0;
    let entry = "main".to_owned();
    if function.name == entry {
        emit(&mut operations, ByteCodeOp::End);
        assert(ops_view(operations@) =~= seq![OpView::Label(entry_label(function.name@))]
            + body.ops + seq![OpView::End]);
    } else {
        assert(ops_view(operations@) =~= seq![OpView::Label(entry_label(function.name@))]
            + body.ops + Seq::<OpView>::empty());
    }
    Ok(operations)
}

/// Generates the code of a program from its syntax tree: its functions, of
/// which no two may have one name.
pub struct Generator {
    ast: Vec<Func>,
}

impl Generator {
    /// The functions of the syntax tree, in order.
    pub closed spec fn functions(&self) -> Seq<Func> {
        self.ast@
    }

    pub fn new(ast: Vec<Func>) -> (r: Generator)
        ensures
            r.functions() == ast@,
    {
        Generator { ast }
    }

    /// Whether the tree holds the function at which a program starts.
    pub fn has_main(&self) -> (r: bool)
        ensures
            r == has_entry(self.functions()),
    {
        let entry = "main".to_owned();
        let mut i: usize = 0;
        while i < self.ast.len()
            invariant
                i <= self.ast.len(),
                entry@ == entry_name(),
                forall|j: int| 0 <= j < i ==> (#[trigger] self.ast@[j]).name@ != entry_name(),
            decreases self.ast.len() - i,
        {
            if self.ast[i].name == entry {
                return true;
            }
            i += 1;
        }
        false
    }

    /// The first function that has the name of an earlier one.
    fn repeated_name(&self) -> (r: Option<usize>)
        ensures
            match r {
                Some(at) => at < self.ast.len() && first_repeated(self.ast@, 0) == Some(at as int),
                None => first_repeated(self.ast@, 0) is None,
            },
    {
        let mut j: usize = 0;
        while j < self.ast.len()
            invariant
                j <= self.ast.len(),
                first_repeated(self.ast@, 0) == first_repeated(self.ast@, j as int),
            decreases self.ast.len() - j,
        {
            let mut i: usize = 0;
            while i < j
                invariant
                    i <= j < self.ast.len(),
                    first_repeated(self.ast@, 0) == first_repeated(self.ast@, j as int),
                    forall|before: int|
                        0 <= before < i ==> (#[trigger] self.ast@[before]).name@
                            != self.ast@[j as int].name@,
                decreases j - i,
            {
                if self.ast[i].name == self.ast[j].name {
                    assert(name_repeats(self.ast@, j as int));
                    return Some(j);
                }
                i += 1;
            }
            assert(!name_repeats(self.ast@, j as int));
            j += 1;
        }
        None
    }

    /// Lowers every function of the tree, in the order of the tree. Either
    /// all of them come back or none: without a `main`, with two functions
    /// of one name, and with an error in any function, the result is that
    /// error alone.
    pub fn generate_bytecod(&self) -> (r: Result<Vec<ByteCodeFunction>, CompileError>)
        ensures
            match program_code(self.functions()) {
                Ok(functions) => r is Ok && functions_view(r->Ok_0@) == functions,
                Err(e) => r is Err && r->Err_0@ == e,
            },
    {
        if !self.has_main() {
            return Err(CompileError::NoEntryPoint);
        }
        match self.repeated_name() {
            Some(at) => {
                return Err(CompileError::DuplicateFunction(self.ast[at].name.clone()));
            },
            None => {},
        }
        let mut out: Vec<ByteCodeFunction> = Vec::new();
        assert(functions_view(out@) =~= Seq::<FunctionView>::empty());
        let mut i: usize = 0;
        while i < self.ast.len()
            invariant
                i <= self.ast.len(),
                has_entry(self.ast@),
                first_repeated(self.ast@, 0) is None,
                functions_code(self.ast@, i as nat) == Ok::<_, CompileErrorView>(
                    functions_view(out@),
                ),
            decreases self.ast.len() - i,
        {
            let function = &self.ast[i];
            match generate_function_code(function) {
                Err(e) => {
                    proof {
                        lemma_functions_code_fail(
                            self.ast@,
                            (i + 1) as nat,
                            self.ast.len() as nat,
                        );
                    }
                    return Err(e);
                },
                Ok(ops) => {
                    let ghost before = functions_view(out@);
                    let code = ByteCodeFunction::new(
                        function.name.clone(),
                        ops,
                        function.args.len(),
                    );
                    out.push(code);
                    assert(functions_view(out@) =~= before.push(
                        FunctionView {
                            name: function.name@,
                            ops: ops_view(ops@),
                            arg_ct: function.args.len() as nat,
                        },
                    ));
                },
            }
            i += 1;
        }
        Ok(out)
    }
}

/// Once one function has an error, the code of no longer list of functions
/// exists, and the error stays the same.
proof fn lemma_functions_code_fail(ast: Seq<Func>, n: nat, m: nat)
    requires
        n <= m <= ast.len(),
        functions_code(ast, n) is Err,
    ensures
        functions_code(ast, m) == functions_code(ast, n),
    decreases m,
{
    if n < m {
        lemma_functions_code_fail(ast, n, (m - 1) as nat);
    }
}

/// Whether none of `ops` is a constant that is the sentinel of a call.
pub open spec fn no_sentinel_constant(ops: Seq<OpView>) -> bool {
    forall|i: int| 0 <= i < ops.len() ==> #[trigger] ops[i] != OpView::Const(ValueView::Return)
}

proof fn lemma_lower_args_no_sentinel(function: Seq<char>, args: Vec<Expr>, n: nat, scope: Scope)
    ensures
        lower_args(function, args, n, scope) matches Ok(lowered) ==> no_sentinel_constant(
            lowered.ops,
        ),
    decreases args, n,
{
    if n == 0 || n > args.len() {
    } else {
        lemma_lower_args_no_sentinel(function, args, (n - 1) as nat, scope);
        match lower_args(function, args, (n - 1) as nat, scope) {
            Ok(before) => {
                lemma_lower_no_sentinel(function, args[n - 1], before.scope);
            },
            Err(_) => {},
        }
    }
}

/// No program text denotes the sentinel of a call: the instructions of an
/// expression hold no constant that is one.
#[verifier::rlimit(60)]
pub proof fn lemma_lower_no_sentinel(function: Seq<char>, expr: Expr, scope: Scope)
    ensures
        lower(function, expr, scope) matches Ok(lowered) ==> no_sentinel_constant(lowered.ops),
    decreases expr, 0nat,
{
    match expr {
        Expr::Value(literal) => {
            lemma_literal_is_no_sentinel(literal);
        },
        Expr::LocalVar(_) => {},
        Expr::Let(name, value, rest) => {
            lemma_lower_no_sentinel(function, *value, scope);
            if let Ok(first) = lower(function, *value, scope) {
                lemma_lower_no_sentinel(function, *rest, after_binding(first.scope, name@));
            }
        },
        Expr::Then(first, second) => {
            lemma_lower_no_sentinel(function, *first, scope);
            if let Ok(a) = lower(function, *first, scope) {
                lemma_lower_no_sentinel(function, *second, a.scope);
            }
        },
        Expr::Binary(left, op, right) => {
            lemma_lower_no_sentinel(function, *left, scope);
            if let Ok(a) = lower(function, *left, scope) {
                lemma_lower_no_sentinel(function, *right, a.scope);
            }
        },
        Expr::Call(_, args) => {
            lemma_lower_args_no_sentinel(function, args, args.len() as nat, scope);
        },
        Expr::If(condition, then, otherwise) => {
            lemma_lower_no_sentinel(function, *condition, after_label(scope));
            if let Ok(c) = lower(function, *condition, after_label(scope)) {
                lemma_lower_no_sentinel(function, *then, c.scope);
                if let Ok(t) = lower(function, *then, c.scope) {
                    lemma_lower_no_sentinel(function, *otherwise, t.scope);
                }
            }
        },
        Expr::Print(value) => {
            lemma_lower_no_sentinel(function, *value, scope);
        },
        Expr::Return(value) => {
            lemma_lower_no_sentinel(function, *value, scope);
        },
        Expr::Assign(_, value, rest) => {
            lemma_lower_no_sentinel(function, *value, scope);
            if let Ok(a) = lower(function, *value, scope) {
                lemma_lower_no_sentinel(function, *rest, a.scope);
            }
        },
        Expr::Loop(condition, body) => {
            lemma_lower_no_sentinel(function, *condition, after_label(scope));
            if let Ok(c) = lower(function, *condition, after_label(scope)) {
                lemma_lower_no_sentinel(function, *body, c.scope);
            }
        },
    }
}

/// The code of a function holds no constant that is the sentinel of a call.
pub proof fn lemma_function_code_no_sentinel(function: Func)
    ensures
        function_code(function) matches Ok(ops) ==> no_sentinel_constant(ops),
{
    lemma_lower_no_sentinel(function.name@, function.body, initial_scope(function));
}

/// A syntax tree without a `main` has no code at all, whatever else it
/// holds.
pub proof fn lemma_no_entry_no_code(ast: Seq<Func>)
    requires
        !has_entry(ast),
    ensures
        program_code(ast) == Err::<Seq<FunctionView>, CompileErrorView>(
            CompileErrorView::NoEntryPoint,
        ),
{
}

} // verus!
