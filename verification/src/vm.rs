//! The stack-based virtual machine: a value stack, a call-frame stack, and a
//! borrowed host context for extension calls. Arithmetic wraps in two's
//! complement; division truncates toward zero; structural faults and stack
//! discipline violations abort execution with a structured error.

use vstd::prelude::*;
use vstd::wrapping::i64_specs;

use crate::abi::{KayError, ValueModel};
use crate::api::{KayCallable, KayCtx, KayHandle};
use crate::bytecode::{BytecodeModule, ConstId, Constant, FunctionId, FunctionModel, HostSlot,
    Instruction, ModuleModel};
use crate::host::KayHost;
use crate::store::{apply_dec, EntryModel};

verus! {

/// A VM value: the interpreter's native representation. Handles appear only
/// when a value originated from, or was forced across, the host boundary.
#[derive(Debug, Clone)]
pub enum Value {
    Int(i64),
    Bool(bool),
    Str(String),
    Unit,
    Handle(KayHandle),
}

/// The ghost projection of a VM value.
pub enum ValueV {
    Int(i64),
    Bool(bool),
    Str(Seq<char>),
    Unit,
    Handle(u64),
}

impl View for Value {
    type V = ValueV;

    open spec fn view(&self) -> ValueV {
        match self {
            Value::Int(v) => ValueV::Int(*v),
            Value::Bool(v) => ValueV::Bool(*v),
            Value::Str(s) => ValueV::Str(s@),
            Value::Unit => ValueV::Unit,
            Value::Handle(h) => ValueV::Handle(h@),
        }
    }
}

/// Structural equality of VM values: payload equality per variant; handles
/// compare by raw id.
pub open spec fn value_eq(a: ValueV, b: ValueV) -> bool {
    match (a, b) {
        (ValueV::Int(x), ValueV::Int(y)) => x == y,
        (ValueV::Bool(x), ValueV::Bool(y)) => x == y,
        (ValueV::Str(x), ValueV::Str(y)) => x == y,
        (ValueV::Unit, ValueV::Unit) => true,
        (ValueV::Handle(x), ValueV::Handle(y)) => x == y,
        _ => false,
    }
}

impl PartialEq for Value {
    fn eq(&self, other: &Self) -> (r: bool) {
        match (self, other) {
            (Value::Int(a), Value::Int(b)) => *a == *b,
            (Value::Bool(a), Value::Bool(b)) => *a == *b,
            (Value::Str(a), Value::Str(b)) => crate::text::str_eq(a.as_str(), b.as_str()),
            (Value::Unit, Value::Unit) => true,
            (Value::Handle(a), Value::Handle(b)) => a.raw() == b.raw(),
            _ => false,
        }
    }
}

impl vstd::std_specs::cmp::PartialEqSpecImpl for Value {
    open spec fn obeys_eq_spec() -> bool {
        true
    }

    open spec fn eq_spec(&self, other: &Value) -> bool {
        value_eq(self@, other@)
    }
}

impl Value {
    /// An explicit copy of the value: VM values are duplicated when a local
    /// is read onto the stack.
    pub fn duplicate(&self) -> (r: Value)
        ensures
            r@ == self@,
    {
        match self {
            Value::Int(v) => Value::Int(*v),
            Value::Bool(v) => Value::Bool(*v),
            Value::Str(s) => Value::Str(s.clone()),
            Value::Unit => Value::Unit,
            Value::Handle(h) => Value::Handle(*h),
        }
    }

    /// Converts a constant-pool entry into its VM value.
    pub fn from_constant(constant: &Constant) -> (r: Value)
        ensures
            r@ == const_value(constant@),
    {
        match constant {
            Constant::Int(v) => Value::Int(*v),
            Constant::Bool(v) => Value::Bool(*v),
            Constant::String(s) => Value::Str(s.clone()),
            Constant::Unit => Value::Unit,
        }
    }
}

/// The VM value a constant denotes.
pub open spec fn const_value(c: crate::bytecode::ConstModel) -> ValueV {
    match c {
        crate::bytecode::ConstModel::Int(v) => ValueV::Int(v),
        crate::bytecode::ConstModel::Bool(v) => ValueV::Bool(v),
        crate::bytecode::ConstModel::Str(s) => ValueV::Str(s),
        crate::bytecode::ConstModel::Unit => ValueV::Unit,
    }
}

/// A structured runtime error; the VM does not recover from any of these.
#[derive(Debug)]
pub enum VmError {
    EntryNotFound(String),
    BadFunction(FunctionId),
    BadConstant(ConstId),
    HostNameType,
    BadLocal,
    StackUnderflow,
    TypeError { expected: String },
    CallArity { expected: usize, found: usize },
    DivisionByZero,
    Interrupted,
    HostFailure(KayError),
}

/// One call-stack entry: function id, instruction pointer, locals.
struct Frame {
    function: FunctionId,
    ip: usize,
    locals: Vec<Value>,
}

/// Truncated (toward-zero) integer division, on unbounded integers.
pub open spec fn trunc_div(a: int, b: int) -> int
    recommends
        b != 0,
{
    let q = (if a >= 0 {
        a
    } else {
        -a
    }) / (if b >= 0 {
        b
    } else {
        -b
    });
    if (a < 0) != (b < 0) {
        -q
    } else {
        q
    }
}

/// Two's-complement division: truncates toward zero and wraps on the one
/// overflowing case (`i64::MIN / -1`).
fn wrap_div(lhs: i64, rhs: i64) -> (r: i64)
    requires
        rhs != 0,
    ensures
        r as int == i64_specs::signed_crop(trunc_div(lhs as int, rhs as int)),
{
    let neg = (lhs < 0) != (rhs < 0);
    let ua: u64 = if lhs >= 0 {
        lhs as u64
    } else {
        ((-(lhs + 1)) as u64) + 1
    };
    let ub: u64 = if rhs >= 0 {
        rhs as u64
    } else {
        ((-(rhs + 1)) as u64) + 1
    };
    let q: u64 = ua / ub;
    proof {
        assert(ua == (if lhs as int >= 0 { lhs as int } else { -(lhs as int) }));
        assert(ub == (if rhs as int >= 0 { rhs as int } else { -(rhs as int) }));
        assert(ub >= 1);
        assert(q == ua as int / ub as int);
        assert(q <= ua) by {
            vstd::arithmetic::div_mod::lemma_div_is_ordered_by_denominator(
                ua as int,
                1,
                ub as int,
            );
        }
    }
    if neg {
        if q == 9223372036854775808u64 {
            i64::MIN
        } else {
            -(q as i64)
        }
    } else {
        if q >= 9223372036854775808u64 {
            i64::MIN
        } else {
            q as i64
        }
    }
}

/// What lifting a primitive VM value stores in the context:
/// the corresponding handle-store value. Handles are never lifted — they
/// pass through — so their case is immaterial.
pub open spec fn lift_model(v: ValueV) -> ValueModel {
    match v {
        ValueV::Int(i) => ValueModel::Int(i),
        ValueV::Bool(b) => ValueModel::Bool(b),
        ValueV::Str(s) => ValueModel::Str(s),
        ValueV::Unit => ValueModel::Unit,
        ValueV::Handle(_) => ValueModel::Unit,
    }
}

/// What lowering a handle yields: integers, booleans and unit are
/// destructured into native VM values; strings, bytes and capsules stay
/// behind the handle, retained by the VM until popped.
pub open spec fn lower_value(h: u64, stored: ValueModel) -> ValueV {
    match stored {
        ValueModel::Int(i) => ValueV::Int(i),
        ValueModel::Bool(b) => ValueV::Bool(b),
        ValueModel::Unit => ValueV::Unit,
        ValueModel::Str(_) => ValueV::Handle(h),
        ValueModel::Bytes(_) => ValueV::Handle(h),
        ValueModel::Capsule { .. } => ValueV::Handle(h),
    }
}

/// Whether a model value denotes `d` in store `m`: directly for primitives,
/// through the store for handles.
pub open spec fn denotes(m: Map<u64, EntryModel>, v: ValueV, d: ValueModel) -> bool {
    match v {
        ValueV::Handle(h) => m.contains_key(h) && m[h].value == d,
        ValueV::Int(i) => d == ValueModel::Int(i),
        ValueV::Bool(b) => d == ValueModel::Bool(b),
        ValueV::Str(s) => d == ValueModel::Str(s),
        ValueV::Unit => d == ValueModel::Unit,
    }
}


/// The ghost projection of a call frame.
#[verifier::ext_equal]
pub struct FrameV {
    pub function: FunctionId,
    pub ip: int,
    pub locals: Seq<ValueV>,
}

impl View for Frame {
    type V = FrameV;

    closed spec fn view(&self) -> FrameV {
        FrameV {
            function: self.function,
            ip: self.ip as int,
            locals: self.locals@.map_values(|v: Value| v@),
        }
    }
}

/// The ghost projection of the whole VM state: value stack and call stack.
#[verifier::ext_equal]
pub struct VmSnap {
    pub stack: Seq<ValueV>,
    pub frames: Seq<FrameV>,
}

/// The error classes of the small-step semantics. `HostFailureK` covers
/// every failure that originates at the host boundary, whose payload the
/// semantics does not constrain.
pub enum ErrKind {
    EntryNotFoundK,
    BadFunctionK(FunctionId),
    BadConstantK(ConstId),
    HostNameTypeK,
    BadLocalK,
    StackUnderflowK,
    TypeErrK,
    CallArityK(int, int),
    DivisionByZeroK,
    InterruptedK,
    HostFailureK,
}

/// The error class a structured runtime error belongs to.
pub open spec fn err_kind(e: VmError) -> ErrKind {
    match e {
        VmError::EntryNotFound(_) => ErrKind::EntryNotFoundK,
        VmError::BadFunction(f) => ErrKind::BadFunctionK(f),
        VmError::BadConstant(c) => ErrKind::BadConstantK(c),
        VmError::HostNameType => ErrKind::HostNameTypeK,
        VmError::BadLocal => ErrKind::BadLocalK,
        VmError::StackUnderflow => ErrKind::StackUnderflowK,
        VmError::TypeError { .. } => ErrKind::TypeErrK,
        VmError::CallArity { expected, found } => ErrKind::CallArityK(
            expected as int,
            found as int,
        ),
        VmError::DivisionByZero => ErrKind::DivisionByZeroK,
        VmError::Interrupted => ErrKind::InterruptedK,
        VmError::HostFailure(_) => ErrKind::HostFailureK,
    }
}

/// What one dispatch does: continue, finish with the program's value, abort
/// with an error, or hand control to the host (whose effect on the store and
/// whose result the semantics does not determine).
pub enum StepOut {
    Next(VmSnap),
    Finish(ValueV),
    Abort(ErrKind),
    HostCall { after: VmSnap, underflow: bool },
}

/// The state after replacing the stack and advancing the top frame by one
/// instruction.
pub open spec fn snap_advance(s: VmSnap, stack2: Seq<ValueV>) -> VmSnap {
    let fr = s.frames.last();
    VmSnap {
        stack: stack2,
        frames: s.frames.update(
            s.frames.len() - 1,
            FrameV { function: fr.function, ip: fr.ip + 1, locals: fr.locals },
        ),
    }
}

/// The state after replacing the stack and setting the top frame's
/// instruction pointer.
pub open spec fn snap_jump(s: VmSnap, stack2: Seq<ValueV>, target: int) -> VmSnap {
    let fr = s.frames.last();
    VmSnap {
        stack: stack2,
        frames: s.frames.update(
            s.frames.len() - 1,
            FrameV { function: fr.function, ip: target, locals: fr.locals },
        ),
    }
}

/// Whether the top two stack slots hold integers; errors follow pop order:
/// the right operand is popped and checked first, then the left.
pub open spec fn binop_operands(st: Seq<ValueV>) -> Result<(i64, i64), ErrKind> {
    if st.len() == 0 {
        Err(ErrKind::StackUnderflowK)
    } else if !(st.last() is Int) {
        Err(ErrKind::TypeErrK)
    } else if st.len() == 1 {
        Err(ErrKind::StackUnderflowK)
    } else if !(st.drop_last().last() is Int) {
        Err(ErrKind::TypeErrK)
    } else {
        Ok((st.drop_last().last()->Int_0, st.last()->Int_0))
    }
}

/// The two-integer instructions.
pub open spec fn is_int_binop(ins: Instruction) -> bool {
    ||| ins is Add
    ||| ins is Sub
    ||| ins is Mul
    ||| ins is Div
    ||| ins is Eq
    ||| ins is Ne
    ||| ins is Lt
    ||| ins is Le
    ||| ins is Gt
    ||| ins is Ge
}

/// What a two-integer instruction pushes: wrapped two's-complement
/// arithmetic, truncating division, or an integer comparison.
pub open spec fn binop_result(ins: Instruction, lhs: i64, rhs: i64) -> ValueV {
    match ins {
        Instruction::Add => ValueV::Int(i64_specs::wrapping_add(lhs, rhs)),
        Instruction::Sub => ValueV::Int(i64_specs::wrapping_sub(lhs, rhs)),
        Instruction::Mul => ValueV::Int(i64_specs::wrapping_mul(lhs, rhs)),
        Instruction::Div => ValueV::Int(
            i64_specs::signed_crop(trunc_div(lhs as int, rhs as int)),
        ),
        Instruction::Eq => ValueV::Bool(lhs == rhs),
        Instruction::Ne => ValueV::Bool(lhs != rhs),
        Instruction::Lt => ValueV::Bool(lhs < rhs),
        Instruction::Le => ValueV::Bool(lhs <= rhs),
        Instruction::Gt => ValueV::Bool(lhs > rhs),
        _ => ValueV::Bool(lhs >= rhs),
    }
}

/// The semantics of one instruction, dispatched in state `s` whose top frame
/// is in bounds of function `f`.
pub open spec fn instr_step(m: ModuleModel, s: VmSnap, f: FunctionModel, ins: Instruction) -> StepOut {
    let fr = s.frames.last();
    let st = s.stack;
    let n = st.len() as int;
    match ins {
        Instruction::LoadConst(id) => StepOut::Next(
            snap_advance(
                s,
                st.push(
                    if (id as int) < m.constants.len() {
                        const_value(m.constants[id as int])
                    } else {
                        ValueV::Unit
                    },
                ),
            ),
        ),
        Instruction::LoadLocal(idx) => if (idx as int) < fr.locals.len() {
            StepOut::Next(snap_advance(s, st.push(fr.locals[idx as int])))
        } else {
            StepOut::Abort(ErrKind::BadLocalK)
        },
        Instruction::StoreLocal(idx) => if n == 0 {
            StepOut::Abort(ErrKind::StackUnderflowK)
        } else if (idx as int) >= fr.locals.len() {
            StepOut::Abort(ErrKind::BadLocalK)
        } else {
            StepOut::Next(
                VmSnap {
                    stack: st.drop_last(),
                    frames: s.frames.update(
                        s.frames.len() - 1,
                        FrameV {
                            function: fr.function,
                            ip: fr.ip + 1,
                            locals: fr.locals.update(idx as int, st.last()),
                        },
                    ),
                },
            )
        },
        Instruction::Jump(target) => StepOut::Next(snap_jump(s, st, target as int)),
        Instruction::JumpIfFalse(target) => if n == 0 {
            StepOut::Abort(ErrKind::StackUnderflowK)
        } else {
            match st.last() {
                ValueV::Bool(b) => if !b {
                    StepOut::Next(snap_jump(s, st.drop_last(), target as int))
                } else {
                    StepOut::Next(snap_advance(s, st.drop_last()))
                },
                _ => StepOut::Abort(ErrKind::TypeErrK),
            }
        },
        Instruction::Add
        | Instruction::Sub
        | Instruction::Mul
        | Instruction::Div
        | Instruction::Eq
        | Instruction::Ne
        | Instruction::Lt
        | Instruction::Le
        | Instruction::Gt
        | Instruction::Ge => match binop_operands(st) {
            Ok((lhs, rhs)) => if ins is Div && rhs == 0 {
                StepOut::Abort(ErrKind::DivisionByZeroK)
            } else {
                StepOut::Next(
                    snap_advance(s, st.drop_last().drop_last().push(binop_result(ins, lhs, rhs))),
                )
            },
            Err(e) => StepOut::Abort(e),
        },
        Instruction::Neg => if n == 0 {
            StepOut::Abort(ErrKind::StackUnderflowK)
        } else {
            match st.last() {
                ValueV::Int(v) => StepOut::Next(
                    snap_advance(
                        s,
                        st.drop_last().push(ValueV::Int(i64_specs::wrapping_sub(0i64, v))),
                    ),
                ),
                _ => StepOut::Abort(ErrKind::TypeErrK),
            }
        },
        Instruction::Not => if n == 0 {
            StepOut::Abort(ErrKind::StackUnderflowK)
        } else {
            match st.last() {
                ValueV::Bool(b) => StepOut::Next(
                    snap_advance(s, st.drop_last().push(ValueV::Bool(!b))),
                ),
                _ => StepOut::Abort(ErrKind::TypeErrK),
            }
        },
        Instruction::Call(func, argc) => if n < argc as int {
            StepOut::Abort(ErrKind::StackUnderflowK)
        } else if (func as int) >= m.functions.len() {
            StepOut::Abort(ErrKind::BadFunctionK(func))
        } else if m.functions[func as int].params as int != argc as int {
            StepOut::Abort(
                ErrKind::CallArityK(m.functions[func as int].params as int, argc as int),
            )
        } else if argc as int > m.functions[func as int].locals as int {
            StepOut::Abort(ErrKind::BadLocalK)
        } else {
            let args = st.subrange(n - argc as int, n);
            StepOut::Next(
                VmSnap {
                    stack: st.take(n - argc as int),
                    frames: s.frames.push(
                        FrameV {
                            function: func,
                            ip: 0,
                            locals: Seq::new(
                                m.functions[func as int].locals as nat,
                                |k: int| if k < argc as int {
                                    args[k]
                                } else {
                                    ValueV::Unit
                                },
                            ),
                        },
                    ),
                },
            )
        },
        Instruction::CallHost(_, argc) => StepOut::HostCall {
            after: snap_advance(s, st.take(if n >= argc as int { n - argc as int } else { 0 })),
            underflow: n < argc as int,
        },
        Instruction::CallHostDynamic(name_const, argc) => if (name_const as int)
            >= m.constants.len() {
            StepOut::Abort(ErrKind::BadConstantK(name_const))
        } else if !(m.constants[name_const as int] is Str) {
            StepOut::Abort(ErrKind::HostNameTypeK)
        } else {
            StepOut::HostCall {
                after: snap_advance(
                    s,
                    st.take(if n >= argc as int { n - argc as int } else { 0 }),
                ),
                underflow: n < argc as int,
            }
        },
        Instruction::Return => {
            let res = if n == 0 { ValueV::Unit } else { st.last() };
            let st2 = if n == 0 { st } else { st.drop_last() };
            let frames2 = s.frames.drop_last();
            if frames2.len() > 0 {
                let caller = frames2.last();
                StepOut::Next(
                    VmSnap {
                        stack: st2.push(res),
                        frames: frames2.update(
                            frames2.len() - 1,
                            FrameV {
                                function: caller.function,
                                // An instruction pointer never validly
                                // reaches usize::MAX, so saturation only
                                // defers the BadFunction report.
                                ip: if caller.ip < usize::MAX { caller.ip + 1 } else { caller.ip },
                                locals: caller.locals,
                            },
                        ),
                    },
                )
            } else {
                StepOut::Finish(res)
            }
        },
        Instruction::Pop => if n == 0 {
            StepOut::Abort(ErrKind::StackUnderflowK)
        } else {
            StepOut::Next(snap_advance(s, st.drop_last()))
        },
    }
}

/// One dispatch of the interpreter: fetch the top frame's instruction and
/// execute it; an empty call stack finishes with `Unit`, a dangling function
/// id or instruction pointer aborts `BadFunction`.
pub open spec fn step_of(m: ModuleModel, s: VmSnap) -> StepOut {
    if s.frames.len() == 0 {
        StepOut::Finish(ValueV::Unit)
    } else {
        let fr = s.frames.last();
        if (fr.function as int) >= m.functions.len() {
            StepOut::Abort(ErrKind::BadFunctionK(fr.function))
        } else {
            let f = m.functions[fr.function as int];
            if fr.ip < 0 || fr.ip >= f.instructions.len() {
                StepOut::Abort(ErrKind::BadFunctionK(fr.function))
            } else {
                instr_step(m, s, f, f.instructions[fr.ip])
            }
        }
    }
}

/// One transition of the machine: a deterministic `Next` step, or a host
/// call whose single effect on the VM state is to push one result value.
pub open spec fn vm_step_ok(m: ModuleModel, s1: VmSnap, s2: VmSnap) -> bool {
    match step_of(m, s1) {
        StepOut::Next(s) => s2 == s,
        StepOut::HostCall { after, underflow } => {
            &&& !underflow
            &&& s2.frames == after.frames
            &&& s2.stack.len() == after.stack.len() + 1
            &&& s2.stack.drop_last() == after.stack
        },
        _ => false,
    }
}

/// Reachability in exactly `k` transitions.
pub open spec fn vm_reaches(m: ModuleModel, s1: VmSnap, s2: VmSnap, k: nat) -> bool
    decreases k,
{
    if k == 0 {
        s1 == s2
    } else {
        exists|mid: VmSnap|
            #[trigger] vm_step_ok(m, s1, mid) && vm_reaches(m, mid, s2, (k - 1) as nat)
    }
}

/// Reachability extends by one transition at the end.
pub proof fn lemma_reaches_step(m: ModuleModel, a: VmSnap, b: VmSnap, c: VmSnap, k: nat)
    requires
        vm_reaches(m, a, b, k),
        vm_step_ok(m, b, c),
    ensures
        vm_reaches(m, a, c, (k + 1) as nat),
    decreases k,
{
    if k == 0 {
        assert(vm_reaches(m, c, c, 0));
        assert(vm_step_ok(m, a, c) && vm_reaches(m, c, c, 0));
    } else {
        let mid = choose|mid: VmSnap|
            #[trigger] vm_step_ok(m, a, mid) && vm_reaches(m, mid, b, (k - 1) as nat);
        lemma_reaches_step(m, mid, b, c, (k - 1) as nat);
        assert(vm_step_ok(m, a, mid) && vm_reaches(m, mid, c, k));
    }
}

/// Whether the machine, dispatching once in state `s`, ends the run with
/// result `r`. A host-boundary failure can surface from any host call; a
/// host call on a too-short stack surfaces either the underflow or a
/// host-boundary failure, whichever the interleaved lifting hits first.
pub open spec fn vm_outcome(m: ModuleModel, s: VmSnap, r: Result<ValueV, ErrKind>) -> bool {
    match step_of(m, s) {
        StepOut::Finish(v) => r == Ok::<ValueV, ErrKind>(v),
        StepOut::Abort(e) => r == Err::<ValueV, ErrKind>(e),
        StepOut::HostCall { underflow, .. } => r == Err::<ValueV, ErrKind>(ErrKind::HostFailureK)
            || (underflow && r == Err::<ValueV, ErrKind>(ErrKind::StackUnderflowK)),
        StepOut::Next(_) => false,
    }
}

/// Where a run of `entry` starts: one frame at instruction 0 with all
/// locals `Unit`, over an empty value stack.
pub open spec fn init_snap(m: ModuleModel, fid: int) -> VmSnap {
    VmSnap {
        stack: Seq::<ValueV>::empty(),
        frames: seq![
            FrameV {
                function: fid as FunctionId,
                ip: 0,
                locals: Seq::new(m.functions[fid].locals as nat, |k: int| ValueV::Unit),
            },
        ],
    }
}

/// Whether `fid` is the function a run named `name` starts in: the first
/// function carrying the entry name.
pub open spec fn entry_resolves(m: ModuleModel, name: Seq<char>, fid: int) -> bool {
    &&& 0 <= fid < m.functions.len()
    &&& m.functions[fid].name == name
    &&& forall|j: int| 0 <= j < fid ==> (#[trigger] m.functions[j].name) != name
}

/// Bridge round trip: lifting a primitive VM value installs exactly its
/// model value in the store, and lowering the fresh handle yields a VM value
/// that denotes that same model value; integers, booleans and unit come back
/// as exactly the original VM value.
pub proof fn lemma_bridge_round_trip(pre: Map<u64, EntryModel>, h: u64, v: ValueV)
    requires
        !(v is Handle),
        !pre.contains_key(h),
    ensures
        ({
            let mid = pre.insert(h, EntryModel { value: lift_model(v), refs: 1 });
            let low = lower_value(h, lift_model(v));
            &&& denotes(mid, low, lift_model(v))
            &&& ((v is Int || v is Bool || v is Unit) ==> low == v)
        }),
{
}

/// The VM's mutable state: value stack and call stack.
struct Vm {
    stack: Vec<Value>,
    frames: Vec<Frame>,
}

impl Vm {
    /// The ghost view of the value stack.
    closed spec fn stack_v(&self) -> Seq<ValueV> {
        self.stack@.map_values(|v: Value| v@)
    }

    /// The ghost view of the whole machine state.
    closed spec fn snap(&self) -> VmSnap {
        VmSnap { stack: self.stack_v(), frames: self.frames@.map_values(|f: Frame| f@) }
    }

    /// Pops the top of the value stack; an empty stack is a fatal
    /// `StackUnderflow`.
    fn pop(&mut self) -> (r: Result<Value, VmError>)
        ensures
            final(self).frames == old(self).frames,
            match r {
                Ok(v) => {
                    &&& old(self).stack@.len() > 0
                    &&& v == old(self).stack@.last()
                    &&& final(self).stack@ == old(self).stack@.drop_last()
                },
                Err(e) => {
                    &&& old(self).stack@.len() == 0
                    &&& final(self).stack@ == old(self).stack@
                    &&& e is StackUnderflow
                },
            },
    {
        match self.stack.pop() {
            Some(v) => Ok(v),
            None => Err(VmError::StackUnderflow),
        }
    }

    /// Pops an integer; a wrong operand kind is a fatal `TypeError`. The
    /// offending value is consumed either way.
    fn pop_int(&mut self) -> (r: Result<i64, VmError>)
        ensures
            final(self).frames == old(self).frames,
            match r {
                Ok(i) => {
                    &&& old(self).stack@.len() > 0
                    &&& old(self).stack@.last()@ == ValueV::Int(i)
                    &&& final(self).stack@ == old(self).stack@.drop_last()
                },
                Err(e) => {
                    &&& old(self).stack@.len() == 0 ==> (final(self).stack@ == old(self).stack@
                        && e is StackUnderflow)
                    &&& old(self).stack@.len() > 0 ==> (!(old(self).stack@.last()@ is Int)
                        && final(self).stack@ == old(self).stack@.drop_last() && e is TypeError)
                },
            },
    {
        match self.pop() {
            Err(e) => Err(e),
            Ok(v) => match v {
                Value::Int(i) => Ok(i),
                _ => Err(VmError::TypeError { expected: String::from_str("int") }),
            },
        }
    }

    /// Pops a boolean; a wrong operand kind is a fatal `TypeError`.
    fn pop_bool(&mut self) -> (r: Result<bool, VmError>)
        ensures
            final(self).frames == old(self).frames,
            match r {
                Ok(b) => {
                    &&& old(self).stack@.len() > 0
                    &&& old(self).stack@.last()@ == ValueV::Bool(b)
                    &&& final(self).stack@ == old(self).stack@.drop_last()
                },
                Err(e) => {
                    &&& old(self).stack@.len() == 0 ==> (final(self).stack@ == old(self).stack@
                        && e is StackUnderflow)
                    &&& old(self).stack@.len() > 0 ==> (!(old(self).stack@.last()@ is Bool)
                        && final(self).stack@ == old(self).stack@.drop_last() && e is TypeError)
                },
            },
    {
        match self.pop() {
            Err(e) => Err(e),
            Ok(v) => match v {
                Value::Bool(b) => Ok(b),
                _ => Err(VmError::TypeError { expected: String::from_str("bool") }),
            },
        }
    }

    /// Pushes a frame for `func_id` with the arguments in `locals[0..argc]`
    /// and the remaining locals `Unit`. An unknown function id is
    /// `BadFunction`; an argument count that differs from the callee's
    /// parameter count is `CallArity`; parameters that do not fit in the
    /// callee's declared locals are `BadLocal`.
    fn call_function(&mut self, module: &BytecodeModule, func_id: FunctionId, args: Vec<Value>) -> (
        r: Result<(), VmError>)
        ensures
            final(self).stack@ == old(self).stack@,
            r is Ok <==> ({
                &&& (func_id as int) < module@.functions.len()
                &&& module@.functions[func_id as int].params as int == args@.len()
                &&& args@.len() <= module@.functions[func_id as int].locals as int
            }),
            match r {
                Ok(_) => {
                    &&& final(self).frames@.len() == old(self).frames@.len() + 1
                    &&& final(self).frames@.take(old(self).frames@.len() as int) == old(
                        self,
                    ).frames@
                    &&& ({
                        let fr = final(self).frames@.last();
                        &&& fr.function == func_id
                        &&& fr.ip == 0
                        &&& fr.locals@.len() == module@.functions[func_id as int].locals as int
                        &&& forall|k: int|
                            0 <= k < args@.len() ==> #[trigger] fr.locals@[k] == args@[k]
                        &&& forall|k: int|
                            args@.len() <= k < fr.locals@.len() ==> (#[trigger] fr.locals@[k])@
                                is Unit
                    })
                },
                Err(e) => {
                    &&& final(self).frames@ == old(self).frames@
                    &&& (e is BadFunction || e is CallArity || e is BadLocal)
                    &&& (module@.functions.len() <= func_id as int) ==> e == VmError::BadFunction(
                        func_id,
                    )
                    &&& ((func_id as int) < module@.functions.len()
                        && module@.functions[func_id as int].params as int != args@.len()) ==> (e
                        matches VmError::CallArity { expected, found } && expected as int
                        == module@.functions[func_id as int].params as int && found as int
                        == args@.len())
                    &&& ((func_id as int) < module@.functions.len()
                        && module@.functions[func_id as int].params as int == args@.len()
                        && args@.len() > module@.functions[func_id as int].locals as int) ==> e
                        is BadLocal
                },
            },
    {
        proof {
            assert(forall|j: int|
                0 <= j < module.functions@.len() ==> #[trigger] module@.functions[j]
                    == module.functions@[j]@);
        }
        if (func_id as usize) >= module.functions.len() {
            return Err(VmError::BadFunction(func_id));
        }
        let function = &module.functions[func_id as usize];
        let expected = function.params as usize;
        let mut args = args;
        if expected != args.len() {
            return Err(VmError::CallArity { expected, found: args.len() });
        }
        let local_count = function.locals as usize;
        if args.len() > local_count {
            return Err(VmError::BadLocal);
        }
        let ghost args_snap = args@;
        let argc = args.len();
        let mut locals: Vec<Value> = Vec::new();
        let mut k: usize = 0;
        while k < local_count
            invariant
                k <= local_count,
                locals@.len() == k,
                forall|j: int| 0 <= j < k ==> (#[trigger] locals@[j])@ is Unit,
            decreases local_count - k,
        {
            locals.push(Value::Unit);
            k = k + 1;
        }
        let mut k: usize = argc;
        while k > 0
            invariant
                k <= argc,
                argc <= local_count,
                argc == args_snap.len(),
                args@ == args_snap.take(k as int),
                locals@.len() == local_count,
                forall|j: int| k <= j < argc ==> #[trigger] locals@[j] == args_snap[j],
                forall|j: int| argc <= j < local_count ==> (#[trigger] locals@[j])@ is Unit,
                forall|j: int| 0 <= j < k ==> (#[trigger] locals@[j])@ is Unit,
            decreases k,
        {
            k = k - 1;
            let arg = match args.pop() {
                Some(a) => a,
                None => {
                    return Err(VmError::BadLocal);
                },
            };
            proof {
                assert(arg == args_snap[k as int]);
                assert(args@ =~= args_snap.take(k as int));
            }
            let slot = &mut locals[k];
            *slot = arg;
        }
        self.frames.push(Frame { function: func_id, ip: 0, locals });
        proof {
            assert(final(self).frames@.take(old(self).frames@.len() as int) =~= old(
                self,
            ).frames@);
        }
        Ok(())
    }
}

/// Lifts a VM value across the host boundary: primitives are allocated as
/// fresh handles, existing handles pass through unchanged (their count
/// already reflects the VM's reference).
fn ensure_handle<E: KayCallable>(ctx: &mut KayCtx<E>, value: Value) -> (r: Result<
    KayHandle,
    VmError,
>)
    requires
        old(ctx).wf(),
    ensures
        final(ctx).wf(),
        final(ctx).id_spec() == old(ctx).id_spec(),
        final(ctx).exts() == old(ctx).exts(),
        final(ctx).next_handle() >= old(ctx).next_handle(),
        r is Ok <==> (value@ is Handle || old(ctx).next_handle() < u64::MAX),
        match r {
            Ok(h) => match value@ {
                ValueV::Handle(raw) => h@ == raw && final(ctx).store_model() == old(
                    ctx,
                ).store_model(),
                _ => {
                    &&& h@ == old(ctx).next_handle()
                    &&& !old(ctx).store_model().contains_key(h@)
                    &&& final(ctx).store_model() == old(ctx).store_model().insert(
                        h@,
                        EntryModel { value: lift_model(value@), refs: 1 },
                    )
                },
            },
            Err(e) => e is HostFailure && final(ctx).store_model() == old(ctx).store_model(),
        },
{
    let res = match value {
        Value::Int(v) => ctx.alloc_int(v),
        Value::Bool(v) => ctx.alloc_bool(v),
        Value::Str(s) => ctx.alloc_string(s),
        Value::Unit => ctx.alloc_unit(),
        Value::Handle(h) => {
            return Ok(h);
        },
    };
    match res {
        Ok(h) => Ok(h),
        Err(e) => Err(VmError::HostFailure(e)),
    }
}

/// Lowers a handle returned by the host into a VM value: integers, booleans
/// and unit are destructured and their handle reference released (no wrapper
/// is kept); strings, bytes and capsules stay as `Handle` values retained by
/// the VM. A dead handle is a fatal `HostFailure`.
fn handle_to_value<E: KayCallable>(ctx: &mut KayCtx<E>, handle: KayHandle) -> (r: Result<
    Value,
    VmError,
>)
    requires
        old(ctx).wf(),
    ensures
        final(ctx).wf(),
        final(ctx).id_spec() == old(ctx).id_spec(),
        final(ctx).exts() == old(ctx).exts(),
        final(ctx).next_handle() == old(ctx).next_handle(),
        r is Ok <==> old(ctx).store_model().contains_key(handle@),
        match r {
            Ok(v) => {
                &&& v@ == lower_value(handle@, old(ctx).store_model()[handle@].value)
                &&& (old(ctx).store_model()[handle@].value is Int || old(
                    ctx,
                ).store_model()[handle@].value is Bool || old(ctx).store_model()[handle@].value
                    is Unit) ==> final(ctx).store_model() == apply_dec(
                    old(ctx).store_model(),
                    handle@,
                )
                &&& !(old(ctx).store_model()[handle@].value is Int || old(
                    ctx,
                ).store_model()[handle@].value is Bool || old(ctx).store_model()[handle@].value
                    is Unit) ==> final(ctx).store_model() == old(ctx).store_model()
            },
            Err(e) => e is HostFailure && final(ctx).store_model() == old(ctx).store_model(),
        },
{
    let kind = match handle.describe(ctx) {
        Ok(kind) => kind,
        Err(e) => {
            return Err(VmError::HostFailure(e));
        },
    };
    match kind {
        crate::abi::KayValueKind::Int(v) => {
            let _ = ctx.dec_ref(handle.raw());
            Ok(Value::Int(v))
        },
        crate::abi::KayValueKind::Bool(v) => {
            let _ = ctx.dec_ref(handle.raw());
            Ok(Value::Bool(v))
        },
        crate::abi::KayValueKind::Unit => {
            let _ = ctx.dec_ref(handle.raw());
            Ok(Value::Unit)
        },
        _ => Ok(Value::Handle(handle)),
    }
}

impl Vm {
    /// Pops `arg_count` values and lifts each into a handle, restoring
    /// source order.
    fn collect_host_args<E: KayCallable>(
        &mut self,
        ctx: &mut KayCtx<E>,
        arg_count: u16,
    ) -> (r: Result<Vec<KayHandle>, VmError>)
        requires
            old(ctx).wf(),
        ensures
            final(ctx).wf(),
            final(ctx).id_spec() == old(ctx).id_spec(),
            final(ctx).exts() == old(ctx).exts(),
            final(ctx).next_handle() >= old(ctx).next_handle(),
            final(self).frames == old(self).frames,
            match r {
                Ok(handles) => {
                    &&& handles@.len() == arg_count as int
                    &&& old(self).stack@.len() >= arg_count as int
                    &&& final(self).stack@ == old(self).stack@.take(
                        old(self).stack@.len() - arg_count as int,
                    )
                },
                Err(e) => {
                    &&& (e is StackUnderflow || e is HostFailure)
                    &&& e is StackUnderflow ==> old(self).stack@.len() < arg_count as int
                },
            },
    {
        let n = arg_count as usize;
        let mut rev: Vec<KayHandle> = Vec::new();
        let mut i: usize = 0;
        while i < n
            invariant
                old(ctx).wf(),
                ctx.wf(),
                ctx.id_spec() == old(ctx).id_spec(),
                ctx.exts() == old(ctx).exts(),
                ctx.next_handle() >= old(ctx).next_handle(),
                i <= n,
                n == arg_count as usize,
                rev@.len() == i,
                self.frames == old(self).frames,
                old(self).stack@.len() >= i,
                self.stack@ == old(self).stack@.take(old(self).stack@.len() - i),
            decreases n - i,
        {
            let value = match self.pop() {
                Ok(v) => v,
                Err(e) => {
                    return Err(e);
                },
            };
            let handle = match ensure_handle(ctx, value) {
                Ok(h) => h,
                Err(e) => {
                    return Err(e);
                },
            };
            rev.push(handle);
            proof {
                assert(self.stack@ =~= old(self).stack@.take(old(self).stack@.len() - (i + 1)));
            }
            i = i + 1;
        }
        let mut out: Vec<KayHandle> = Vec::new();
        let mut rev = rev;
        while rev.len() > 0
            invariant
                out@.len() + rev@.len() == n,
            decreases rev@.len(),
        {
            match rev.pop() {
                Some(h) => out.push(h),
                None => {},
            }
        }
        Ok(out)
    }

    /// Executes a fast-path host call: lift arguments, call through the
    /// context by slot, lower the result.
    fn invoke_host<E: KayCallable>(
        &mut self,
        ctx: &mut KayCtx<E>,
        slot: HostSlot,
        arg_count: u16,
    ) -> (r: Result<Value, VmError>)
        requires
            old(ctx).wf(),
        ensures
            final(ctx).wf(),
            final(ctx).id_spec() == old(ctx).id_spec(),
            final(ctx).exts() == old(ctx).exts(),
            final(self).frames == old(self).frames,
            match r {
                Ok(_) => {
                    &&& old(self).stack@.len() >= arg_count as int
                    &&& final(self).stack@ == old(self).stack@.take(
                        old(self).stack@.len() - arg_count as int,
                    )
                },
                Err(e) => {
                    &&& (e is StackUnderflow || e is HostFailure)
                    &&& e is StackUnderflow ==> old(self).stack@.len() < arg_count as int
                },
            },
    {
        let handles = match self.collect_host_args(ctx, arg_count) {
            Ok(h) => h,
            Err(e) => {
                return Err(e);
            },
        };
        let result = match ctx.call_slot(slot, &handles) {
            Ok(h) => h,
            Err(e) => {
                return Err(VmError::HostFailure(e));
            },
        };
        match handle_to_value(ctx, result) {
            Ok(v) => Ok(v),
            Err(e) => Err(e),
        }
    }

    /// Executes a by-name host call: lift arguments, call through the
    /// context by name, lower the result.
    fn invoke_host_dynamic<E: KayCallable>(
        &mut self,
        ctx: &mut KayCtx<E>,
        name: &str,
        arg_count: u16,
    ) -> (r: Result<Value, VmError>)
        requires
            old(ctx).wf(),
        ensures
            final(ctx).wf(),
            final(ctx).id_spec() == old(ctx).id_spec(),
            final(ctx).exts() == old(ctx).exts(),
            final(self).frames == old(self).frames,
            match r {
                Ok(_) => {
                    &&& old(self).stack@.len() >= arg_count as int
                    &&& final(self).stack@ == old(self).stack@.take(
                        old(self).stack@.len() - arg_count as int,
                    )
                },
                Err(e) => {
                    &&& (e is StackUnderflow || e is HostFailure)
                    &&& e is StackUnderflow ==> old(self).stack@.len() < arg_count as int
                },
            },
    {
        let handles = match self.collect_host_args(ctx, arg_count) {
            Ok(h) => h,
            Err(e) => {
                return Err(e);
            },
        };
        let result = match ctx.call_dynamic(name, &handles) {
            Ok(h) => h,
            Err(e) => {
                return Err(VmError::HostFailure(e));
            },
        };
        match handle_to_value(ctx, result) {
            Ok(v) => Ok(v),
            Err(e) => Err(e),
        }
    }
}

/// Runs `entry` (by name) in `module` against the host's context and
/// returns the entry function's result. `EntryNotFound` is returned exactly
/// when no function carries the entry name; an entry function that declares
/// parameters cannot be started and fails `CallArity`. Any other result —
/// value or error — is the outcome of a state of the small-step semantics
/// [`step_of`] reachable from the entry function's initial state, and
/// `Interrupted` can only be reported after `u64::MAX` genuine transitions,
/// so on any module whose run terminates sooner the semantics' outcome is
/// owed. Whatever
/// the module or the host's extensions do, the host's context stays well
/// formed and its registered extensions are untouched.
pub fn run_module<E: KayCallable>(
    module: &BytecodeModule,
    entry: &str,
    host: &mut KayHost<E>,
) -> (r: Result<Value, VmError>)
    requires
        old(host).wf(),
        module.functions@.len() <= u32::MAX,
    ensures
        final(host).wf(),
        final(host).ctx_spec().id_spec() == old(host).ctx_spec().id_spec(),
        final(host).ctx_spec().exts() == old(host).ctx_spec().exts(),
        (forall|j: int|
            0 <= j < module@.functions.len() ==> (#[trigger] module@.functions[j].name)
                != entry@) <==> (r matches Err(VmError::EntryNotFound(_))),
        r matches Err(VmError::EntryNotFound(n)) ==> n@ == entry@,
        forall|fid: int|
            (#[trigger] entry_resolves(module@, entry@, fid) && module@.functions[fid].params
                != 0) ==> (r matches Err(VmError::CallArity { expected, found })
                && expected as int == module@.functions[fid].params as int && found == 0),
        match r {
            Ok(v) => exists|fid: int, s: VmSnap, k: nat|
                #![trigger vm_reaches(module@, init_snap(module@, fid), s, k)]
                {
                    &&& entry_resolves(module@, entry@, fid)
                    &&& vm_reaches(module@, init_snap(module@, fid), s, k)
                    &&& vm_outcome(module@, s, Ok(v@))
                },
            Err(e) => {
                ||| e is EntryNotFound
                ||| (e is Interrupted && exists|fid: int, s: VmSnap|
                    #![trigger vm_reaches(module@, init_snap(module@, fid), s, u64::MAX as nat)]
                    {
                        &&& entry_resolves(module@, entry@, fid)
                        &&& vm_reaches(module@, init_snap(module@, fid), s, u64::MAX as nat)
                    })
                ||| exists|fid: int|
                    #[trigger] entry_resolves(module@, entry@, fid)
                        && module@.functions[fid].params != 0
                ||| exists|fid: int, s: VmSnap, k: nat|
                    #![trigger vm_reaches(module@, init_snap(module@, fid), s, k)]
                    {
                        &&& entry_resolves(module@, entry@, fid)
                        &&& vm_reaches(module@, init_snap(module@, fid), s, k)
                        &&& vm_outcome(module@, s, Err(err_kind(e)))
                    }
            },
        },
{
    let entry_id = match module.function_index(entry) {
        Some(id) => id,
        None => {
            return Err(VmError::EntryNotFound(String::from_str(entry)));
        },
    };
    proof {
        assert(entry_resolves(module@, entry@, entry_id as int));
        assert forall|fid: int| #[trigger] entry_resolves(module@, entry@, fid) implies fid
            == entry_id as int by {
            if fid < entry_id as int {
                assert(module@.functions[fid].name == entry@);
            }
            if fid > entry_id as int {
                assert(module@.functions[entry_id as int].name == entry@);
            }
        }
    }
    let ctx = host.api_ctx();
    let mut vm = Vm { stack: Vec::new(), frames: Vec::new() };
    proof {
        assert(vm.snap().stack =~= Seq::<ValueV>::empty());
        assert(vm.snap().frames =~= Seq::<FrameV>::empty());
    }
    match vm.call_function(module, entry_id, Vec::new()) {
        Ok(_) => {},
        Err(e) => {
            return Err(e);
        },
    }
    proof {
        assert(vm.snap().frames.len() == 1);
        assert(vm.snap().frames.last().locals =~= Seq::new(
            module@.functions[entry_id as int].locals as nat,
            |k: int| ValueV::Unit,
        ));
        assert(vm.snap().frames =~= init_snap(module@, entry_id as int).frames);
        assert(vm.snap() =~= init_snap(module@, entry_id as int));
    }
    vm.run(module, ctx)
}

impl Vm {
    fn advance_ip(&mut self, frame_index: usize)
        requires
            frame_index < old(self).frames@.len(),
            old(self).frames@[frame_index as int].ip < usize::MAX,
        ensures
            final(self).stack == old(self).stack,
            final(self).frames@ == old(self).frames@.update(
                frame_index as int,
                Frame {
                    function: old(self).frames@[frame_index as int].function,
                    ip: (old(self).frames@[frame_index as int].ip + 1) as usize,
                    locals: old(self).frames@[frame_index as int].locals,
                },
            ),
    {
        let frame = &mut self.frames[frame_index];
        frame.ip = frame.ip + 1;
    }

    /// Advances a frame's instruction pointer, saturating at the top: a
    /// pointer can never validly reach `usize::MAX`, so saturation only
    /// defers the `BadFunction` report to the next dispatch.
    fn advance_ip_saturating(&mut self, frame_index: usize)
        requires
            frame_index < old(self).frames@.len(),
        ensures
            final(self).stack == old(self).stack,
            final(self).frames@ == old(self).frames@.update(
                frame_index as int,
                Frame {
                    function: old(self).frames@[frame_index as int].function,
                    ip: if old(self).frames@[frame_index as int].ip < usize::MAX {
                        (old(self).frames@[frame_index as int].ip + 1) as usize
                    } else {
                        old(self).frames@[frame_index as int].ip
                    },
                    locals: old(self).frames@[frame_index as int].locals,
                },
            ),
    {
        let frame = &mut self.frames[frame_index];
        if frame.ip < usize::MAX {
            frame.ip = frame.ip + 1;
        }
        proof {
            assert(self.frames@ =~= old(self).frames@.update(
                frame_index as int,
                Frame {
                    function: old(self).frames@[frame_index as int].function,
                    ip: if old(self).frames@[frame_index as int].ip < usize::MAX {
                        (old(self).frames@[frame_index as int].ip + 1) as usize
                    } else {
                        old(self).frames@[frame_index as int].ip
                    },
                    locals: old(self).frames@[frame_index as int].locals,
                },
            ));
        }
    }

    /// Sets a frame's instruction pointer to an absolute target.
    fn set_ip(&mut self, frame_index: usize, target: usize)
        requires
            frame_index < old(self).frames@.len(),
        ensures
            final(self).stack == old(self).stack,
            final(self).frames@ == old(self).frames@.update(
                frame_index as int,
                Frame {
                    function: old(self).frames@[frame_index as int].function,
                    ip: target,
                    locals: old(self).frames@[frame_index as int].locals,
                },
            ),
    {
        let frame = &mut self.frames[frame_index];
        frame.ip = target;
    }

    /// Writes a local slot and advances the frame's pointer; reports whether
    /// the slot exists.
    fn store_local(&mut self, frame_index: usize, idx: u16, value: Value) -> (r: bool)
        requires
            frame_index < old(self).frames@.len(),
            old(self).frames@[frame_index as int].ip < usize::MAX,
        ensures
            final(self).stack == old(self).stack,
            r == ((idx as int) < old(self).frames@[frame_index as int].locals@.len()),
            final(self).frames@.len() == old(self).frames@.len(),
            forall|j: int|
                0 <= j < old(self).frames@.len() && j != frame_index as int
                    ==> #[trigger] final(self).frames@[j] == old(self).frames@[j],
            r ==> {
                &&& final(self).frames@[frame_index as int].function == old(
                    self,
                ).frames@[frame_index as int].function
                &&& final(self).frames@[frame_index as int].ip == old(
                    self,
                ).frames@[frame_index as int].ip + 1
                &&& final(self).frames@[frame_index as int].locals@ == old(
                    self,
                ).frames@[frame_index as int].locals@.update(idx as int, value)
            },
            !r ==> final(self).frames@ == old(self).frames@,
    {
        let frame = &mut self.frames[frame_index];
        if (idx as usize) >= frame.locals.len() {
            return false;
        }
        let slot = &mut frame.locals[idx as usize];
        *slot = value;
        frame.ip = frame.ip + 1;
        true
    }

    /// Pops the two integer operands (right first) and pushes the
    /// instruction's result; division by zero is fatal. A failing pop has
    /// consumed what it popped.
    fn int_binop(&mut self, ins: Instruction) -> (r: Result<(), VmError>)
        requires
            is_int_binop(ins),
        ensures
            final(self).frames == old(self).frames,
            match r {
                Ok(_) => (binop_operands(old(self).stack_v()) matches Ok((lhs, rhs)) && !(ins
                    is Div && rhs == 0) && final(self).stack_v() == old(
                    self,
                ).stack_v().drop_last().drop_last().push(binop_result(ins, lhs, rhs))),
                Err(e) => match binop_operands(old(self).stack_v()) {
                    Ok((lhs, rhs)) => ins is Div && rhs == 0 && e is DivisionByZero,
                    Err(k) => err_kind(e) == k,
                },
            },
    {
        proof {
            if old(self).stack@.len() > 0 {
                assert(old(self).stack_v().last() == old(self).stack@.last()@);
            }
        }
        let rhs = match self.pop_int() {
            Ok(v) => v,
            Err(e) => {
                return Err(e);
            },
        };
        proof {
            assert(self.stack_v() =~= old(self).stack_v().drop_last());
            assert(old(self).stack_v().last() == ValueV::Int(rhs));
            if self.stack@.len() > 0 {
                assert(self.stack_v().last() == self.stack@.last()@);
            }
        }
        let lhs = match self.pop_int() {
            Ok(v) => v,
            Err(e) => {
                return Err(e);
            },
        };
        proof {
            assert(old(self).stack_v().drop_last().last() == ValueV::Int(lhs));
        }
        let out = match ins {
            Instruction::Add => Value::Int(lhs.wrapping_add(rhs)),
            Instruction::Sub => Value::Int(lhs.wrapping_sub(rhs)),
            Instruction::Mul => Value::Int(lhs.wrapping_mul(rhs)),
            Instruction::Div => {
                if rhs == 0 {
                    return Err(VmError::DivisionByZero);
                }
                Value::Int(wrap_div(lhs, rhs))
            },
            Instruction::Eq => Value::Bool(lhs == rhs),
            Instruction::Ne => Value::Bool(lhs != rhs),
            Instruction::Lt => Value::Bool(lhs < rhs),
            Instruction::Le => Value::Bool(lhs <= rhs),
            Instruction::Gt => Value::Bool(lhs > rhs),
            Instruction::Ge => Value::Bool(lhs >= rhs),
            _ => {
                proof {
                    assert(false);
                }
                Value::Unit
            },
        };
        self.stack.push(out);
        proof {
            assert(self.stack_v() =~= old(self).stack_v().drop_last().drop_last().push(out@));
        }
        Ok(())
    }

    /// The interpreter loop: fetch the current frame's instruction, execute
    /// it, update the instruction pointer. Every dispatch is one transition
    /// of the small-step semantics [`step_of`], and the returned result is
    /// the outcome of a reachable state. `Interrupted` is returned only when
    /// the dispatch budget was genuinely exhausted: a state `u64::MAX`
    /// transitions deep was reached, which no practical run attains.
    #[verifier::rlimit(100)]
    fn run<E: KayCallable>(&mut self, module: &BytecodeModule, ctx: &mut KayCtx<E>) -> (r: Result<
        Value,
        VmError,
    >)
        requires
            old(ctx).wf(),
            module.functions@.len() <= u32::MAX,
        ensures
            final(ctx).wf(),
            final(ctx).id_spec() == old(ctx).id_spec(),
            final(ctx).exts() == old(ctx).exts(),
            !(r matches Err(VmError::EntryNotFound(_))),
            r matches Err(e) && e is Interrupted ==> exists|s: VmSnap|
                #[trigger] vm_reaches(module@, old(self).snap(), s, u64::MAX as nat),
            match r {
                Ok(v) => exists|s: VmSnap, k: nat|
                    #![trigger vm_reaches(module@, old(self).snap(), s, k)]
                    vm_reaches(module@, old(self).snap(), s, k) && vm_outcome(
                        module@,
                        s,
                        Ok(v@),
                    ),
                Err(e) => e is Interrupted || exists|s: VmSnap, k: nat|
                    #![trigger vm_reaches(module@, old(self).snap(), s, k)]
                    vm_reaches(module@, old(self).snap(), s, k) && vm_outcome(
                        module@,
                        s,
                        Err(err_kind(e)),
                    ),
            },
    {
        let ghost m = module@;
        let ghost init = self.snap();
        let ghost mut steps: nat = 0;
        proof {
            assert(vm_reaches(m, init, self.snap(), 0));
        }
        let mut fuel: u64 = u64::MAX;
        while fuel > 0
            invariant
                ctx.wf(),
                ctx.id_spec() == old(ctx).id_spec(),
                ctx.exts() == old(ctx).exts(),
                m == module@,
                init == old(self).snap(),
                module.functions@.len() <= u32::MAX,
                m.functions.len() == module.functions@.len(),
                m.constants.len() == module.constants@.len(),
                forall|j: int|
                    0 <= j < module.functions@.len() ==> #[trigger] m.functions[j]
                        == module.functions@[j]@,
                forall|j: int|
                    0 <= j < module.constants@.len() ==> #[trigger] m.constants[j]
                        == module.constants@[j]@,
                steps + fuel == u64::MAX,
                vm_reaches(m, init, self.snap(), steps),
            decreases fuel,
        {
            fuel = fuel - 1;
            let ghost pre = self.snap();
            if self.frames.len() == 0 {
                proof {
                    assert(pre.frames.len() == 0);
                    assert(vm_outcome(m, pre, Ok(ValueV::Unit)));
                }
                return Ok(Value::Unit);
            }
            let frame_index = self.frames.len() - 1;
            let current_ip = self.frames[frame_index].ip;
            let function_id = self.frames[frame_index].function;
            proof {
                assert(pre.frames.len() == self.frames@.len());
                assert(pre.frames.last() == self.frames@[frame_index as int]@);
            }
            if (function_id as usize) >= module.functions.len() {
                proof {
                    assert(vm_outcome(m, pre, Err(ErrKind::BadFunctionK(function_id))));
                }
                return Err(VmError::BadFunction(function_id));
            }
            let function = &module.functions[function_id as usize];
            let ghost fm = m.functions[function_id as int];
            proof {
                assert(fm == module.functions@[function_id as int]@);
            }
            if current_ip >= function.instructions.len() {
                proof {
                    assert(vm_outcome(m, pre, Err(ErrKind::BadFunctionK(function_id))));
                }
                return Err(VmError::BadFunction(function_id));
            }
            let instruction = function.instructions[current_ip];
            proof {
                assert(fm.instructions[current_ip as int] == instruction);
                assert(step_of(m, pre) == instr_step(m, pre, fm, instruction));
            }
            match instruction {
                Instruction::LoadConst(id) => {
                    let value = if (id as usize) < module.constants.len() {
                        Value::from_constant(&module.constants[id as usize])
                    } else {
                        Value::Unit
                    };
                    proof {
                        if (id as int) < m.constants.len() {
                            assert(value@ == const_value(m.constants[id as int]));
                        }
                    }
                    self.stack.push(value);
                    self.advance_ip(frame_index);
                    proof {
                        assert(self.snap().stack =~= pre.stack.push(value@));
                        assert(self.snap().frames =~~= snap_advance(
                            pre,
                            pre.stack.push(value@),
                        ).frames);
                        assert(self.snap() =~~= snap_advance(pre, pre.stack.push(value@)));
                        assert(vm_step_ok(m, pre, self.snap()));
                        lemma_reaches_step(m, init, pre, self.snap(), steps);
                        steps = steps + 1;
                    }
                },
                Instruction::LoadLocal(idx) => {
                    let frame = &self.frames[frame_index];
                    if (idx as usize) >= frame.locals.len() {
                        proof {
                            assert(pre.frames.last().locals.len() == frame.locals@.len());
                            assert(vm_outcome(m, pre, Err(ErrKind::BadLocalK)));
                        }
                        return Err(VmError::BadLocal);
                    }
                    let value = frame.locals[idx as usize].duplicate();
                    proof {
                        assert(pre.frames.last().locals[idx as int] == frame.locals@[idx as int]@);
                        assert(value@ == pre.frames.last().locals[idx as int]);
                    }
                    self.stack.push(value);
                    self.advance_ip(frame_index);
                    proof {
                        assert(self.snap().stack =~= pre.stack.push(value@));
                        assert(self.snap().frames =~~= snap_advance(
                            pre,
                            pre.stack.push(value@),
                        ).frames);
                        assert(self.snap() =~~= snap_advance(pre, pre.stack.push(value@)));
                        assert(vm_step_ok(m, pre, self.snap()));
                        lemma_reaches_step(m, init, pre, self.snap(), steps);
                        steps = steps + 1;
                    }
                },
                Instruction::StoreLocal(idx) => {
                    let value = match self.pop() {
                        Ok(v) => v,
                        Err(e) => {
                            proof {
                                assert(pre.stack.len() == 0);
                                assert(vm_outcome(m, pre, Err(ErrKind::StackUnderflowK)));
                            }
                            return Err(e);
                        },
                    };
                    proof {
                        assert(value@ == pre.stack.last());
                        assert(self.stack_v() =~= pre.stack.drop_last());
                        assert(self.frames@[frame_index as int]@ == pre.frames.last());
                        assert(pre.frames.last().locals.len() == self.frames@[frame_index as
                            int].locals@.len());
                    }
                    if !self.store_local(frame_index, idx, value) {
                        proof {
                            assert(vm_outcome(m, pre, Err(ErrKind::BadLocalK)));
                        }
                        return Err(VmError::BadLocal);
                    }
                    proof {
                        let target = VmSnap {
                            stack: pre.stack.drop_last(),
                            frames: pre.frames.update(
                                frame_index as int,
                                FrameV {
                                    function: pre.frames.last().function,
                                    ip: pre.frames.last().ip + 1,
                                    locals: pre.frames.last().locals.update(
                                        idx as int,
                                        pre.stack.last(),
                                    ),
                                },
                            ),
                        };
                        assert(self.snap().frames =~~= target.frames);
                        assert(self.snap().stack =~= target.stack);
                        assert(self.snap() =~~= target);
                        assert(vm_step_ok(m, pre, self.snap()));
                        lemma_reaches_step(m, init, pre, self.snap(), steps);
                        steps = steps + 1;
                    }
                },
                Instruction::Jump(target) => {
                    self.set_ip(frame_index, target);
                    proof {
                        assert(self.snap().stack =~= pre.stack);
                        assert(self.snap().frames =~~= snap_jump(
                            pre,
                            pre.stack,
                            target as int,
                        ).frames);
                        assert(self.snap() =~~= snap_jump(pre, pre.stack, target as int));
                        assert(vm_step_ok(m, pre, self.snap()));
                        lemma_reaches_step(m, init, pre, self.snap(), steps);
                        steps = steps + 1;
                    }
                },
                Instruction::JumpIfFalse(target) => {
                    proof {
                        if pre.stack.len() > 0 {
                            assert(pre.stack.last() == self.stack@.last()@);
                        }
                    }
                    let cond = match self.pop_bool() {
                        Ok(b) => b,
                        Err(e) => {
                            proof {
                                if pre.stack.len() == 0 {
                                    assert(vm_outcome(m, pre, Err(ErrKind::StackUnderflowK)));
                                } else {
                                    assert(!(pre.stack.last() is Bool));
                                    assert(vm_outcome(m, pre, Err(ErrKind::TypeErrK)));
                                }
                            }
                            return Err(e);
                        },
                    };
                    proof {
                        assert(pre.stack.last() == ValueV::Bool(cond));
                        assert(self.stack_v() =~= pre.stack.drop_last());
                    }
                    if !cond {
                        self.set_ip(frame_index, target);
                        proof {
                            assert(self.snap().stack =~= pre.stack.drop_last());
                            assert(self.snap().frames =~~= snap_jump(
                                pre,
                                pre.stack.drop_last(),
                                target as int,
                            ).frames);
                            assert(self.snap() =~~= snap_jump(
                                pre,
                                pre.stack.drop_last(),
                                target as int,
                            ));
                            assert(vm_step_ok(m, pre, self.snap()));
                            lemma_reaches_step(m, init, pre, self.snap(), steps);
                            steps = steps + 1;
                        }
                    } else {
                        self.advance_ip(frame_index);
                        proof {
                            assert(self.snap().stack =~= pre.stack.drop_last());
                            assert(self.snap().frames =~~= snap_advance(
                                pre,
                                pre.stack.drop_last(),
                            ).frames);
                            assert(self.snap() =~~= snap_advance(pre, pre.stack.drop_last()));
                            assert(vm_step_ok(m, pre, self.snap()));
                            lemma_reaches_step(m, init, pre, self.snap(), steps);
                            steps = steps + 1;
                        }
                    }
                },
                Instruction::Add
                | Instruction::Sub
                | Instruction::Mul
                | Instruction::Div
                | Instruction::Eq
                | Instruction::Ne
                | Instruction::Lt
                | Instruction::Le
                | Instruction::Gt
                | Instruction::Ge => {
                    proof {
                        assert(pre.stack == self.stack_v());
                    }
                    match self.int_binop(instruction) {
                        Ok(_) => {},
                        Err(e) => {
                            proof {
                                assert(vm_outcome(m, pre, Err(err_kind(e))));
                            }
                            return Err(e);
                        },
                    }
                    self.advance_ip(frame_index);
                    proof {
                        let ghost ops = binop_operands(pre.stack)->Ok_0;
                        let ghost stack2 = pre.stack.drop_last().drop_last().push(
                            binop_result(instruction, ops.0, ops.1),
                        );
                        assert(self.snap().stack =~= stack2);
                        assert(self.snap().frames =~~= snap_advance(pre, stack2).frames);
                        assert(self.snap() =~~= snap_advance(pre, stack2));
                        assert(vm_step_ok(m, pre, self.snap()));
                        lemma_reaches_step(m, init, pre, self.snap(), steps);
                        steps = steps + 1;
                    }
                },
                Instruction::Neg => {
                    proof {
                        if pre.stack.len() > 0 {
                            assert(pre.stack.last() == self.stack@.last()@);
                        }
                    }
                    let value = match self.pop_int() {
                        Ok(v) => v,
                        Err(e) => {
                            proof {
                                if pre.stack.len() == 0 {
                                    assert(vm_outcome(m, pre, Err(ErrKind::StackUnderflowK)));
                                } else {
                                    assert(!(pre.stack.last() is Int));
                                    assert(vm_outcome(m, pre, Err(ErrKind::TypeErrK)));
                                }
                            }
                            return Err(e);
                        },
                    };
                    proof {
                        assert(pre.stack.last() == ValueV::Int(value));
                        assert(self.stack_v() =~= pre.stack.drop_last());
                    }
                    let negated = (0i64).wrapping_sub(value);
                    self.stack.push(Value::Int(negated));
                    self.advance_ip(frame_index);
                    proof {
                        let ghost stack2 = pre.stack.drop_last().push(
                            ValueV::Int(i64_specs::wrapping_sub(0i64, value)),
                        );
                        assert(self.snap().stack =~= stack2);
                        assert(self.snap().frames =~~= snap_advance(pre, stack2).frames);
                        assert(self.snap() =~~= snap_advance(pre, stack2));
                        assert(vm_step_ok(m, pre, self.snap()));
                        lemma_reaches_step(m, init, pre, self.snap(), steps);
                        steps = steps + 1;
                    }
                },
                Instruction::Not => {
                    proof {
                        if pre.stack.len() > 0 {
                            assert(pre.stack.last() == self.stack@.last()@);
                        }
                    }
                    let value = match self.pop_bool() {
                        Ok(v) => v,
                        Err(e) => {
                            proof {
                                if pre.stack.len() == 0 {
                                    assert(vm_outcome(m, pre, Err(ErrKind::StackUnderflowK)));
                                } else {
                                    assert(!(pre.stack.last() is Bool));
                                    assert(vm_outcome(m, pre, Err(ErrKind::TypeErrK)));
                                }
                            }
                            return Err(e);
                        },
                    };
                    proof {
                        assert(pre.stack.last() == ValueV::Bool(value));
                        assert(self.stack_v() =~= pre.stack.drop_last());
                    }
                    self.stack.push(Value::Bool(!value));
                    self.advance_ip(frame_index);
                    proof {
                        let ghost stack2 = pre.stack.drop_last().push(ValueV::Bool(!value));
                        assert(self.snap().stack =~= stack2);
                        assert(self.snap().frames =~~= snap_advance(pre, stack2).frames);
                        assert(self.snap() =~~= snap_advance(pre, stack2));
                        assert(vm_step_ok(m, pre, self.snap()));
                        lemma_reaches_step(m, init, pre, self.snap(), steps);
                        steps = steps + 1;
                    }
                },
                Instruction::Call(func, arg_count) => {
                    let ghost n0 = pre.stack.len() as int;
                    let argc = arg_count as usize;
                    let mut args: Vec<Value> = Vec::new();
                    let mut k: usize = 0;
                    while k < argc
                        invariant
                            ctx.wf(),
                            ctx.id_spec() == old(ctx).id_spec(),
                            ctx.exts() == old(ctx).exts(),
                            m == module@,
                            init == old(self).snap(),
                            vm_reaches(m, init, pre, steps),
                            step_of(m, pre) == instr_step(m, pre, fm, instruction),
                            instruction == Instruction::Call(func, arg_count),
                            argc == arg_count as usize,
                            k <= argc,
                            args@.len() == k,
                            n0 == pre.stack.len(),
                            n0 >= k,
                            self.snap().frames == pre.frames,
                            self.stack_v() == pre.stack.take(n0 - k),
                            forall|j: int|
                                0 <= j < k ==> (#[trigger] args@[j])@ == pre.stack[n0 - 1 - j],
                        decreases argc - k,
                    {
                        let ghost prev = self.stack_v();
                        proof {
                            assert(prev == pre.stack.take(n0 - k));
                            if n0 - k > 0 {
                                assert(prev.last() == pre.stack[n0 - 1 - k]);
                                assert(self.stack@.last()@ == prev.last());
                            }
                        }
                        match self.pop() {
                            Ok(v) => {
                                proof {
                                    assert(n0 - k >= 1);
                                    assert(v@ == prev.last());
                                    assert(v@ == pre.stack[n0 - 1 - k]);
                                    assert(self.stack_v() =~= pre.stack.take(n0 - (k + 1)));
                                }
                                args.push(v);
                            },
                            Err(e) => {
                                proof {
                                    assert(n0 - k == 0);
                                    assert(n0 < arg_count as int);
                                    assert(vm_outcome(m, pre, Err(ErrKind::StackUnderflowK)));
                                }
                                return Err(e);
                            },
                        }
                        k = k + 1;
                    }
                    let ghost args_snap = args@;
                    let mut ordered: Vec<Value> = Vec::new();
                    let mut rest = args;
                    while rest.len() > 0
                        invariant
                            ctx.wf(),
                            ctx.id_spec() == old(ctx).id_spec(),
                            ctx.exts() == old(ctx).exts(),
                            m == module@,
                            init == old(self).snap(),
                            vm_reaches(m, init, pre, steps),
                            step_of(m, pre) == instr_step(m, pre, fm, instruction),
                            instruction == Instruction::Call(func, arg_count),
                            argc == arg_count as usize,
                            args_snap.len() == argc,
                            n0 == pre.stack.len(),
                            n0 >= argc,
                            rest@ == args_snap.take(rest@.len() as int),
                            ordered@.len() + rest@.len() == argc,
                            forall|j: int|
                                0 <= j < ordered@.len() ==> #[trigger] ordered@[j] == args_snap[
                                    argc - 1 - j],
                            forall|j: int|
                                0 <= j < argc ==> (#[trigger] args_snap[j])@ == pre.stack[n0 - 1
                                    - j],
                            self.snap().frames == pre.frames,
                            self.stack_v() == pre.stack.take(n0 - argc),
                        decreases rest@.len(),
                    {
                        match rest.pop() {
                            Some(v) => {
                                proof {
                                    assert(v == args_snap[rest@.len() as int]);
                                    assert(rest@ =~= args_snap.take(rest@.len() as int));
                                }
                                ordered.push(v);
                            },
                            None => {},
                        }
                    }
                    proof {
                        assert(ordered@.map_values(|v: Value| v@) =~= pre.stack.subrange(
                            n0 - argc,
                            n0,
                        ));
                    }
                    match self.call_function(module, func, ordered) {
                        Ok(_) => {
                            proof {
                                let target_locals = Seq::new(
                                    m.functions[func as int].locals as nat,
                                    |kk: int| if kk < argc as int {
                                        pre.stack.subrange(n0 - argc, n0)[kk]
                                    } else {
                                        ValueV::Unit
                                    },
                                );
                                let target = VmSnap {
                                    stack: pre.stack.take(n0 - argc),
                                    frames: pre.frames.push(
                                        FrameV { function: func, ip: 0, locals: target_locals },
                                    ),
                                };
                                assert(self.snap().stack =~= target.stack);
                                assert(self.snap().frames.last().locals =~= target_locals);
                                assert(self.snap().frames.last() =~~= FrameV {
                                    function: func,
                                    ip: 0,
                                    locals: target_locals,
                                });
                                assert(self.snap().frames =~~= target.frames);
                                assert(self.snap() =~~= target);
                                assert(vm_step_ok(m, pre, self.snap()));
                                lemma_reaches_step(m, init, pre, self.snap(), steps);
                                steps = steps + 1;
                            }
                        },
                        Err(e) => {
                            proof {
                                assert(vm_outcome(m, pre, Err(err_kind(e))));
                            }
                            return Err(e);
                        },
                    }
                },
                Instruction::CallHost(slot, arg_count) => {
                    let result = match self.invoke_host(ctx, slot, arg_count) {
                        Ok(v) => v,
                        Err(e) => {
                            proof {
                                if e is StackUnderflow {
                                    assert(pre.stack.len() < arg_count as int);
                                }
                                assert(vm_outcome(m, pre, Err(err_kind(e))));
                            }
                            return Err(e);
                        },
                    };
                    self.stack.push(result);
                    self.advance_ip(frame_index);
                    proof {
                        let ghost after = snap_advance(
                            pre,
                            pre.stack.take(pre.stack.len() - arg_count as int),
                        );
                        assert(self.snap().frames =~= after.frames);
                        assert(self.snap().stack.drop_last() =~= after.stack);
                        assert(vm_step_ok(m, pre, self.snap()));
                        lemma_reaches_step(m, init, pre, self.snap(), steps);
                        steps = steps + 1;
                    }
                },
                Instruction::CallHostDynamic(name_const, arg_count) => {
                    if (name_const as usize) >= module.constants.len() {
                        proof {
                            assert(vm_outcome(m, pre, Err(ErrKind::BadConstantK(name_const))));
                        }
                        return Err(VmError::BadConstant(name_const));
                    }
                    let symbol = match &module.constants[name_const as usize] {
                        Constant::String(sym) => sym.clone(),
                        _ => {
                            proof {
                                assert(!(m.constants[name_const as int] is Str));
                                assert(vm_outcome(m, pre, Err(ErrKind::HostNameTypeK)));
                            }
                            return Err(VmError::HostNameType);
                        },
                    };
                    proof {
                        assert(m.constants[name_const as int] is Str);
                    }
                    let result = match self.invoke_host_dynamic(ctx, symbol.as_str(), arg_count) {
                        Ok(v) => v,
                        Err(e) => {
                            proof {
                                if e is StackUnderflow {
                                    assert(pre.stack.len() < arg_count as int);
                                }
                                assert(vm_outcome(m, pre, Err(err_kind(e))));
                            }
                            return Err(e);
                        },
                    };
                    self.stack.push(result);
                    self.advance_ip(frame_index);
                    proof {
                        let ghost after = snap_advance(
                            pre,
                            pre.stack.take(pre.stack.len() - arg_count as int),
                        );
                        assert(self.snap().frames =~= after.frames);
                        assert(self.snap().stack.drop_last() =~= after.stack);
                        assert(vm_step_ok(m, pre, self.snap()));
                        lemma_reaches_step(m, init, pre, self.snap(), steps);
                        steps = steps + 1;
                    }
                },
                Instruction::Return => {
                    proof {
                        if pre.stack.len() > 0 {
                            assert(pre.stack.last() == self.stack@.last()@);
                        }
                    }
                    let result = match self.stack.pop() {
                        Some(v) => v,
                        None => Value::Unit,
                    };
                    let ghost res = if pre.stack.len() == 0 {
                        ValueV::Unit
                    } else {
                        pre.stack.last()
                    };
                    let ghost st2 = if pre.stack.len() == 0 {
                        pre.stack
                    } else {
                        pre.stack.drop_last()
                    };
                    proof {
                        assert(result@ == res);
                        assert(self.stack_v() =~= st2);
                    }
                    let _ = self.frames.pop();
                    proof {
                        assert(self.snap().frames =~= pre.frames.drop_last());
                    }
                    if self.frames.len() > 0 {
                        self.stack.push(result);
                        let last = self.frames.len() - 1;
                        self.advance_ip_saturating(last);
                        proof {
                            let frames2 = pre.frames.drop_last();
                            let caller = frames2.last();
                            let target = VmSnap {
                                stack: st2.push(res),
                                frames: frames2.update(
                                    frames2.len() - 1,
                                    FrameV {
                                        function: caller.function,
                                        ip: if caller.ip < usize::MAX {
                                            caller.ip + 1
                                        } else {
                                            caller.ip
                                        },
                                        locals: caller.locals,
                                    },
                                ),
                            };
                            assert(self.snap().stack =~= target.stack);
                            assert(self.snap().frames =~~= target.frames);
                            assert(self.snap() =~~= target);
                            assert(vm_step_ok(m, pre, self.snap()));
                            lemma_reaches_step(m, init, pre, self.snap(), steps);
                            steps = steps + 1;
                        }
                    } else {
                        proof {
                            assert(pre.frames.drop_last().len() == 0);
                            assert(vm_outcome(m, pre, Ok(res)));
                        }
                        return Ok(result);
                    }
                },
                Instruction::Pop => {
                    match self.pop() {
                        Ok(_) => {},
                        Err(e) => {
                            proof {
                                assert(pre.stack.len() == 0);
                                assert(vm_outcome(m, pre, Err(ErrKind::StackUnderflowK)));
                            }
                            return Err(e);
                        },
                    }
                    self.advance_ip(frame_index);
                    proof {
                        assert(self.snap().stack =~= pre.stack.drop_last());
                        assert(self.snap().frames =~~= snap_advance(
                            pre,
                            pre.stack.drop_last(),
                        ).frames);
                        assert(self.snap() =~~= snap_advance(pre, pre.stack.drop_last()));
                        assert(vm_step_ok(m, pre, self.snap()));
                        lemma_reaches_step(m, init, pre, self.snap(), steps);
                        steps = steps + 1;
                    }
                },
            }
        }
        proof {
            assert(steps == u64::MAX as nat);
            assert(vm_reaches(m, init, self.snap(), u64::MAX as nat));
        }
        Err(VmError::Interrupted)
    }
}

} // verus!
