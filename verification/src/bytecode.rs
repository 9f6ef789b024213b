//! The instruction set: values, labels, instructions, and the code of one
//! function.

use crate::number::{number_eq, numbers_equal};
use vstd::prelude::*;

verus! {

/// Mathematical model of a run-time value.
pub enum ValueView {
    Number(u64),
    Boolean(bool),
    String(Seq<char>),
    List(Seq<ValueView>),
    Return,
}

/// A run-time value of the machine.
///
/// `Number` holds the 64 bits of a double. `Return` is the sentinel that the
/// machine pushes below the operands of each call; no program text denotes it.
///
/// The derived `==` compares representations. How the machine compares two
/// values is [`ByteCodeValue::equals`].
#[derive(Debug, PartialEq)]
pub enum ByteCodeValue {
    Number(u64),
    Boolean(bool),
    String(String),
    List(Vec<ByteCodeValue>),
    Return,
}

/// The views of the first `n` values of `items`, in order.
pub open spec fn list_view_prefix(items: Vec<ByteCodeValue>, n: nat) -> Seq<ValueView>
    decreases items, n,
{
    if n == 0 || n > items.len() {
        Seq::empty()
    } else {
        list_view_prefix(items, (n - 1) as nat).push(items[n - 1]@)
    }
}

impl View for ByteCodeValue {
    type V = ValueView;

    open spec fn view(&self) -> ValueView
        decreases self, 0nat,
    {
        match self {
            ByteCodeValue::Number(n) => ValueView::Number(*n),
            ByteCodeValue::Boolean(b) => ValueView::Boolean(*b),
            ByteCodeValue::String(s) => ValueView::String(s@),
            ByteCodeValue::List(items) => ValueView::List(
                list_view_prefix(*items, items.len() as nat),
            ),
            ByteCodeValue::Return => ValueView::Return,
        }
    }
}

/// The views of the values of `items`, in order.
pub open spec fn values_view(items: Seq<ByteCodeValue>) -> Seq<ValueView> {
    Seq::new(items.len(), |i: int| items[i]@)
}

/// Whether two values are equal to the machine: same variant and equal
/// content, numbers compared as doubles, lists item by item.
pub open spec fn values_equal(a: ValueView, b: ValueView) -> bool
    decreases a,
{
    match a {
        ValueView::Number(x) => b matches ValueView::Number(y) && number_eq(x, y),
        ValueView::Boolean(x) => b matches ValueView::Boolean(y) && x == y,
        ValueView::String(x) => b matches ValueView::String(y) && x == y,
        ValueView::List(xs) => {
            &&& b matches ValueView::List(ys)
            &&& xs.len() == ys.len()
            &&& forall|i: int| 0 <= i < xs.len() ==> values_equal(#[trigger] xs[i], ys[i])
        },
        ValueView::Return => b is Return,
    }
}

/// Two lists are equal when they are as long as each other and equal item
/// by item.
pub proof fn lemma_lists_equal(xs: Seq<ValueView>, ys: Seq<ValueView>)
    ensures
        values_equal(ValueView::List(xs), ValueView::List(ys)) <==> (xs.len() == ys.len()
            && forall|i: int| 0 <= i < xs.len() ==> values_equal(#[trigger] xs[i], ys[i])),
{
}

proof fn lemma_list_view_prefix(items: Vec<ByteCodeValue>, n: nat)
    requires
        n <= items.len(),
    ensures
        list_view_prefix(items, n) == values_view(items@.take(n as int)),
    decreases n,
{
    if n > 0 {
        lemma_list_view_prefix(items, (n - 1) as nat);
        assert(list_view_prefix(items, n) == list_view_prefix(items, (n - 1) as nat).push(
            items[n - 1]@,
        ));
        assert(list_view_prefix(items, n) =~= values_view(items@.take(n as int)));
    } else {
        assert(list_view_prefix(items, 0) == Seq::<ValueView>::empty());
        assert(list_view_prefix(items, 0) =~= values_view(items@.take(0)));
    }
}

/// The view of a list is the list of the views of its items.
pub proof fn lemma_list_view(items: Vec<ByteCodeValue>)
    ensures
        ByteCodeValue::List(items)@ == ValueView::List(values_view(items@)),
{
    lemma_list_view_prefix(items, items.len() as nat);
    assert(items@.take(items.len() as int) =~= items@);
}

impl Clone for ByteCodeValue {
    fn clone(&self) -> (r: ByteCodeValue)
        ensures
            r@ == self@,
        decreases self,
    {
        match self {
            ByteCodeValue::Number(n) => ByteCodeValue::Number(*n),
            ByteCodeValue::Boolean(b) => ByteCodeValue::Boolean(*b),
            ByteCodeValue::String(s) => ByteCodeValue::String(s.clone()),
            ByteCodeValue::List(items) => {
                let mut out: Vec<ByteCodeValue> = Vec::new();
                let mut i: usize = 0;
                while i < items.len()
                    invariant
                        i <= items.len(),
                        out@.len() == i,
                        forall|j: int| 0 <= j < i ==> out@[j]@ == items@[j]@,
                        decreases_to!(self => items),
                    decreases items.len() - i,
                {
                    out.push(items[i].clone());
                    i += 1;
                }
                proof {
                    lemma_list_view(out);
                    lemma_list_view(*items);
                    assert(values_view(out@) =~= values_view(items@));
                }
                ByteCodeValue::List(out)
            },
            ByteCodeValue::Return => ByteCodeValue::Return,
        }
    }
}

impl ByteCodeValue {
    /// Compares two values as the machine's `Equal` does.
    pub fn equals(&self, other: &ByteCodeValue) -> (r: bool)
        ensures
            r == values_equal(self@, other@),
        decreases self,
    {
        match self {
            ByteCodeValue::Number(x) => match other {
                ByteCodeValue::Number(y) => numbers_equal(*x, *y),
                _ => false,
            },
            ByteCodeValue::Boolean(x) => match other {
                ByteCodeValue::Boolean(y) => *x == *y,
                _ => false,
            },
            ByteCodeValue::String(x) => match other {
                ByteCodeValue::String(y) => *x == *y,
                _ => false,
            },
            ByteCodeValue::List(xs) => match other {
                ByteCodeValue::List(ys) => {
                    proof {
                        lemma_list_view(*xs);
                        lemma_list_view(*ys);
                        lemma_lists_equal(values_view(xs@), values_view(ys@));
                    }
                    if xs.len() != ys.len() {
                        return false;
                    }
                    let mut i: usize = 0;
                    while i < xs.len()
                        invariant
                            i <= xs.len(),
                            xs.len() == ys.len(),
                            self@ == ValueView::List(values_view(xs@)),
                            other@ == ValueView::List(values_view(ys@)),
                            forall|j: int|
                                0 <= j < i ==> #[trigger] values_equal(xs@[j]@, ys@[j]@),
                            decreases_to!(self => xs),
                        decreases xs.len() - i,
                    {
                        if !xs[i].equals(&ys[i]) {
                            assert(!values_equal(
                                values_view(xs@)[i as int],
                                values_view(ys@)[i as int],
                            ));
                            return false;
                        }
                        i += 1;
                    }
                    assert forall|j: int| 0 <= j < xs.len() implies #[trigger] values_equal(
                        values_view(xs@)[j],
                        values_view(ys@)[j],
                    ) by {
                        assert(values_equal(xs@[j]@, ys@[j]@));
                    }
                    true
                },
                _ => false,
            },
            ByteCodeValue::Return => match other {
                ByteCodeValue::Return => true,
                _ => false,
            },
        }
    }

    /// Whether this value is the sentinel of a call.
    pub fn is_sentinel(&self) -> (r: bool)
        ensures
            r == (self@ is Return),
    {
        match self {
            ByteCodeValue::Return => true,
            _ => false,
        }
    }
}

/// What a label marks inside its function.
#[derive(Debug, Clone, Copy, PartialEq, Eq, Structural)]
pub enum LabelKind {
    /// The first instruction of the function.
    Function,
    /// The start of the else branch of a conditional.
    Else,
    /// The instruction after a conditional.
    IfEnd,
    /// The start of a loop, before its condition.
    LoopStart,
    /// The instruction after a loop.
    LoopEnd,
}

/// Mathematical model of a label.
pub struct LabelView {
    pub function: Seq<char>,
    pub kind: LabelKind,
    pub index: nat,
}

/// The name of a place in the program: the function it lies in, what it
/// marks, and the number of the construct it belongs to within that function.
///
/// Two functions never share a label, whatever they are called, and within a
/// function each conditional and each loop has a number of its own.
#[derive(Debug, PartialEq)]
pub struct Label {
    pub function: String,
    pub kind: LabelKind,
    pub index: usize,
}

impl View for Label {
    type V = LabelView;

    open spec fn view(&self) -> LabelView {
        LabelView { function: self.function@, kind: self.kind, index: self.index as nat }
    }
}

impl Clone for Label {
    fn clone(&self) -> (r: Label)
        ensures
            r@ == self@,
    {
        Label { function: self.function.clone(), kind: self.kind, index: self.index }
    }
}

/// The name of the function at which a program starts.
pub open spec fn entry_name() -> Seq<char> {
    "main"@
}

/// The label of the first instruction of the function called `name`.
pub open spec fn entry_label(name: Seq<char>) -> LabelView {
    LabelView { function: name, kind: LabelKind::Function, index: 0 }
}

impl Label {
    /// The label of the first instruction of the function called `name`.
    pub fn entry(name: &str) -> (r: Label)
        ensures
            r@ == entry_label(name@),
    {
        Label { function: name.to_owned(), kind: LabelKind::Function, index: 0 }
    }

    /// The label of kind `kind` of construct number `index` in `function`.
    pub fn branch(function: &str, kind: LabelKind, index: usize) -> (r: Label)
        ensures
            r@ == (LabelView { function: function@, kind, index: index as nat }),
    {
        Label { function: function.to_owned(), kind, index }
    }

    /// Whether two labels name the same place.
    pub fn same(&self, other: &Label) -> (r: bool)
        ensures
            r == (self@ == other@),
    {
        let r = self.kind == other.kind && self.index == other.index && self.function
            == other.function;
        proof {
            if self@ == other@ {
                assert(self.function@ == other.function@);
            }
        }
        r
    }

    /// Whether this is the entry label of the function called `name`.
    pub fn is_entry_of(&self, name: &String) -> (r: bool)
        ensures
            r == (self@ == entry_label(name@)),
    {
        let r = self.kind == LabelKind::Function && self.index == 0 && self.function == *name;
        proof {
            if self@ == entry_label(name@) {
                assert(self.function@ == name@);
            }
        }
        r
    }
}

/// Mathematical model of an instruction.
pub enum OpView {
    Return,
    LocalGet(nat),
    LocalSet(nat),
    Const(ValueView),
    Add,
    Sub,
    Div,
    Mul,
    ListAt,
    LowerT,
    GreaterT,
    Equal,
    NotEq,
    Call(Seq<char>, nat),
    Print,
    Jump(LabelView),
    JumpTrue(LabelView),
    JumpFalse(LabelView),
    Label(LabelView),
    End,
}

/// One instruction of the machine.
#[derive(Debug, PartialEq)]
pub enum ByteCodeOp {
    Return,
    LocalGet(usize),
    LocalSet(usize),
    Const(ByteCodeValue),
    Add,
    Sub,
    Div,
    Mul,
    ListAt,
    LowerT,
    GreaterT,
    Equal,
    NotEq,
    Call(String, usize),
    Print,
    Jump(Label),
    JumpTrue(Label),
    JumpFalse(Label),
    Label(Label),
    End,
}

impl View for ByteCodeOp {
    type V = OpView;

    open spec fn view(&self) -> OpView {
        match self {
            ByteCodeOp::Return => OpView::Return,
            ByteCodeOp::LocalGet(slot) => OpView::LocalGet(*slot as nat),
            ByteCodeOp::LocalSet(slot) => OpView::LocalSet(*slot as nat),
            ByteCodeOp::Const(value) => OpView::Const(value@),
            ByteCodeOp::Add => OpView::Add,
            ByteCodeOp::Sub => OpView::Sub,
            ByteCodeOp::Div => OpView::Div,
            ByteCodeOp::Mul => OpView::Mul,
            ByteCodeOp::ListAt => OpView::ListAt,
            ByteCodeOp::LowerT => OpView::LowerT,
            ByteCodeOp::GreaterT => OpView::GreaterT,
            ByteCodeOp::Equal => OpView::Equal,
            ByteCodeOp::NotEq => OpView::NotEq,
            ByteCodeOp::Call(name, arity) => OpView::Call(name@, *arity as nat),
            ByteCodeOp::Print => OpView::Print,
            ByteCodeOp::Jump(label) => OpView::Jump(label@),
            ByteCodeOp::JumpTrue(label) => OpView::JumpTrue(label@),
            ByteCodeOp::JumpFalse(label) => OpView::JumpFalse(label@),
            ByteCodeOp::Label(label) => OpView::Label(label@),
            ByteCodeOp::End => OpView::End,
        }
    }
}

impl Clone for ByteCodeOp {
    fn clone(&self) -> (r: ByteCodeOp)
        ensures
            r@ == self@,
    {
        match self {
            ByteCodeOp::Return => ByteCodeOp::Return,
            ByteCodeOp::LocalGet(slot) => ByteCodeOp::LocalGet(*slot),
            ByteCodeOp::LocalSet(slot) => ByteCodeOp::LocalSet(*slot),
            ByteCodeOp::Const(value) => ByteCodeOp::Const(value.clone()),
            ByteCodeOp::Add => ByteCodeOp::Add,
            ByteCodeOp::Sub => ByteCodeOp::Sub,
            ByteCodeOp::Div => ByteCodeOp::Div,
            ByteCodeOp::Mul => ByteCodeOp::Mul,
            ByteCodeOp::ListAt => ByteCodeOp::ListAt,
            ByteCodeOp::LowerT => ByteCodeOp::LowerT,
            ByteCodeOp::GreaterT => ByteCodeOp::GreaterT,
            ByteCodeOp::Equal => ByteCodeOp::Equal,
            ByteCodeOp::NotEq => ByteCodeOp::NotEq,
            ByteCodeOp::Call(name, arity) => ByteCodeOp::Call(name.clone(), *arity),
            ByteCodeOp::Print => ByteCodeOp::Print,
            ByteCodeOp::Jump(label) => ByteCodeOp::Jump(label.clone()),
            ByteCodeOp::JumpTrue(label) => ByteCodeOp::JumpTrue(label.clone()),
            ByteCodeOp::JumpFalse(label) => ByteCodeOp::JumpFalse(label.clone()),
            ByteCodeOp::Label(label) => ByteCodeOp::Label(label.clone()),
            ByteCodeOp::End => ByteCodeOp::End,
        }
    }
}

/// An instruction as it stands in the code of one function, before the
/// functions are laid out in one program.
#[derive(Debug, PartialEq)]
pub struct RelativeOperation {
    pub bytecode_op: ByteCodeOp,
}

impl RelativeOperation {
    pub fn new(bop_type: ByteCodeOp) -> (r: RelativeOperation)
        ensures
            r.bytecode_op == bop_type,
    {
        RelativeOperation { bytecode_op: bop_type }
    }
}

/// The instructions that `ops` holds, in order.
pub open spec fn ops_view(ops: Seq<RelativeOperation>) -> Seq<OpView> {
    Seq::new(ops.len(), |i: int| ops[i].bytecode_op@)
}

/// Mathematical model of the code of one function.
pub struct FunctionView {
    pub name: Seq<char>,
    pub ops: Seq<OpView>,
    pub arg_ct: nat,
}

/// The code of one function: its name, its instructions, and the number of
/// its parameters.
#[derive(Debug, PartialEq)]
pub struct ByteCodeFunction {
    pub name: String,
    pub ops: Vec<RelativeOperation>,
    pub arg_ct: usize,
}

impl View for ByteCodeFunction {
    type V = FunctionView;

    open spec fn view(&self) -> FunctionView {
        FunctionView { name: self.name@, ops: ops_view(self.ops@), arg_ct: self.arg_ct as nat }
    }
}

impl ByteCodeFunction {
    pub fn new(name: String, ops: Vec<RelativeOperation>, arg_ct: usize) -> (r: ByteCodeFunction)
        ensures
            r.name == name,
            r.ops == ops,
            r.arg_ct == arg_ct,
    {
        ByteCodeFunction { name, ops, arg_ct }
    }
}

/// The views of the functions of `functions`, in order.
pub open spec fn functions_view(functions: Seq<ByteCodeFunction>) -> Seq<FunctionView> {
    Seq::new(functions.len(), |i: int| functions[i]@)
}

} // verus!
