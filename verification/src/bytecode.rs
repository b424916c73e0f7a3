//! The bytecode format the compiler front-end produces and the VM consumes:
//! constants, globals, functions, instructions — and the structural
//! verifier, which accepts a module exactly when every instruction's
//! references are in bounds. The verifier does not type-check the stack;
//! operand typing is the VM's own runtime check.

use vstd::prelude::*;

use crate::text::str_eq;

verus! {

pub type ConstId = u32;

pub type FunctionId = u32;

pub type HostSlot = u32;

/// A literal stored in a module's constant pool.
#[derive(Debug, Clone, PartialEq, Eq)]
pub enum Constant {
    Int(i64),
    Bool(bool),
    String(String),
    Unit,
}

/// The ghost projection of a constant.
pub enum ConstModel {
    Int(i64),
    Bool(bool),
    Str(Seq<char>),
    Unit,
}

impl View for Constant {
    type V = ConstModel;

    open spec fn view(&self) -> ConstModel {
        match self {
            Constant::Int(v) => ConstModel::Int(*v),
            Constant::Bool(v) => ConstModel::Bool(*v),
            Constant::String(s) => ConstModel::Str(s@),
            Constant::Unit => ConstModel::Unit,
        }
    }
}

/// A named global, bound to a constant-pool entry.
#[derive(Debug, Clone)]
pub struct Global {
    pub name: String,
    pub value: ConstId,
}

/// The ghost projection of a global.
pub struct GlobalModel {
    pub name: Seq<char>,
    pub value: ConstId,
}

impl View for Global {
    type V = GlobalModel;

    open spec fn view(&self) -> GlobalModel {
        GlobalModel { name: self.name@, value: self.value }
    }
}

/// One VM instruction. Jump targets are absolute instruction indices within
/// the current function.
#[derive(Debug, Clone, Copy, PartialEq, Eq, Structural)]
pub enum Instruction {
    LoadConst(ConstId),
    LoadLocal(u16),
    StoreLocal(u16),
    Jump(usize),
    JumpIfFalse(usize),
    Add,
    Sub,
    Mul,
    Div,
    Neg,
    Not,
    Eq,
    Ne,
    Lt,
    Le,
    Gt,
    Ge,
    Call(FunctionId, u16),
    CallHost(HostSlot, u16),
    CallHostDynamic(ConstId, u16),
    Return,
    Pop,
}

/// One bytecode function: `locals[0..params]` hold the arguments on entry.
#[derive(Debug, Clone)]
pub struct Function {
    pub name: String,
    pub params: u16,
    pub locals: u16,
    pub instructions: Vec<Instruction>,
}

/// The ghost projection of a function.
pub struct FunctionModel {
    pub name: Seq<char>,
    pub params: u16,
    pub locals: u16,
    pub instructions: Seq<Instruction>,
}

impl View for Function {
    type V = FunctionModel;

    open spec fn view(&self) -> FunctionModel {
        FunctionModel {
            name: self.name@,
            params: self.params,
            locals: self.locals,
            instructions: self.instructions@,
        }
    }
}

impl Function {
    pub fn new(name: &str, params: u16, locals: u16, instructions: Vec<Instruction>) -> (r: Self)
        ensures
            r@.name == name@,
            r@.params == params,
            r@.locals == locals,
            r@.instructions == instructions@,
    {
        Function { name: String::from_str(name), params, locals, instructions }
    }
}

/// A compiled module: constant pool, named globals, functions. Function ids
/// are list indices.
#[derive(Debug, Clone)]
pub struct BytecodeModule {
    pub constants: Vec<Constant>,
    pub globals: Vec<Global>,
    pub functions: Vec<Function>,
}

/// The ghost projection of a whole module.
pub struct ModuleModel {
    pub constants: Seq<ConstModel>,
    pub globals: Seq<GlobalModel>,
    pub functions: Seq<FunctionModel>,
}

impl View for BytecodeModule {
    type V = ModuleModel;

    open spec fn view(&self) -> ModuleModel {
        ModuleModel {
            constants: self.constants@.map_values(|c: Constant| c@),
            globals: self.globals@.map_values(|g: Global| g@),
            functions: self.functions@.map_values(|f: Function| f@),
        }
    }
}

impl BytecodeModule {
    pub fn new() -> (r: Self)
        ensures
            r@.constants == Seq::<ConstModel>::empty(),
            r@.globals == Seq::<GlobalModel>::empty(),
            r@.functions == Seq::<FunctionModel>::empty(),
    {
        let r = BytecodeModule { constants: Vec::new(), globals: Vec::new(), functions: Vec::new() };
        proof {
            assert(r@.constants =~= Seq::<ConstModel>::empty());
            assert(r@.globals =~= Seq::<GlobalModel>::empty());
            assert(r@.functions =~= Seq::<FunctionModel>::empty());
        }
        r
    }

    /// Appends a constant and returns its id: its index in the pool.
    pub fn add_constant(&mut self, constant: Constant) -> (r: ConstId)
        requires
            old(self).constants@.len() < u32::MAX,
        ensures
            r == old(self)@.constants.len(),
            final(self)@.constants == old(self)@.constants.push(constant@),
            final(self)@.globals == old(self)@.globals,
            final(self)@.functions == old(self)@.functions,
    {
        let id = self.constants.len() as u32;
        self.constants.push(constant);
        proof {
            assert(self@.constants =~= old(self)@.constants.push(constant@));
            assert(self@.globals =~= old(self)@.globals);
            assert(self@.functions =~= old(self)@.functions);
        }
        id
    }

    /// Appends a named global bound to a constant id.
    pub fn add_global(&mut self, name: &str, value: ConstId)
        ensures
            final(self)@.globals == old(self)@.globals.push(
                GlobalModel { name: name@, value: value },
            ),
            final(self)@.constants == old(self)@.constants,
            final(self)@.functions == old(self)@.functions,
    {
        self.globals.push(Global { name: String::from_str(name), value });
        proof {
            assert(self@.globals =~= old(self)@.globals.push(
                GlobalModel { name: name@, value: value },
            ));
            assert(self@.constants =~= old(self)@.constants);
            assert(self@.functions =~= old(self)@.functions);
        }
    }

    /// Appends a function and returns its id: its index in the list.
    pub fn add_function(&mut self, function: Function) -> (r: FunctionId)
        requires
            old(self).functions@.len() < u32::MAX,
        ensures
            r == old(self)@.functions.len(),
            final(self)@.functions == old(self)@.functions.push(function@),
            final(self)@.constants == old(self)@.constants,
            final(self)@.globals == old(self)@.globals,
    {
        let id = self.functions.len() as u32;
        self.functions.push(function);
        proof {
            assert(self@.functions =~= old(self)@.functions.push(function@));
            assert(self@.constants =~= old(self)@.constants);
            assert(self@.globals =~= old(self)@.globals);
        }
        id
    }

    /// The id of the first function with the given name, if any.
    pub fn function_index(&self, name: &str) -> (r: Option<FunctionId>)
        requires
            self.functions@.len() <= u32::MAX,
        ensures
            match r {
                Some(id) => {
                    &&& (id as int) < self@.functions.len()
                    &&& self@.functions[id as int].name == name@
                    &&& forall|j: int|
                        0 <= j < id as int ==> #[trigger] self@.functions[j].name != name@
                },
                None => forall|j: int|
                    0 <= j < self@.functions.len() ==> #[trigger] self@.functions[j].name
                        != name@,
            },
    {
        let n = self.functions.len();
        let mut i: usize = 0;
        while i < n
            invariant
                i <= n,
                n == self.functions@.len(),
                n <= u32::MAX,
                self@.functions.len() == n,
                forall|j: int| 0 <= j < i ==> #[trigger] self@.functions[j].name != name@,
                forall|j: int|
                    0 <= j < n ==> #[trigger] self@.functions[j] == self.functions@[j]@,
            decreases n - i,
        {
            if str_eq(self.functions[i].name.as_str(), name) {
                return Some(i as u32);
            }
            i = i + 1;
        }
        None
    }

    /// Encodes the module as its persisted byte format; see [`crate::codec`].
    pub fn serialize(&self) -> (out: Vec<u8>)
        ensures
            out@ == crate::codec::enc_module(self@),
    {
        crate::codec::serialize_module(self)
    }

    /// Decodes a module from its persisted byte format; fails on any input
    /// that is not exactly an encoded module.
    pub fn deserialize(bytes: &[u8]) -> (r: Result<Self, crate::codec::DecodeError>)
        ensures
            match r {
                Ok(m) => crate::codec::dec_module(bytes@) == Some(m@),
                Err(_) => crate::codec::dec_module(bytes@) is None,
            },
    {
        crate::codec::deserialize_module(bytes)
    }

    /// Checks the module's structural safety: accepted exactly when every
    /// instruction's references are in bounds, and any error names the first
    /// offending instruction; see [`Verifier::verify`].
    pub fn verify(&self) -> (r: Result<(), VerificationError>)
        ensures
            r is Ok <==> module_wf(self@),
            match r {
                Ok(_) => true,
                Err(e) => exists|fk: int, ik: int|
                    {
                        &&& 0 <= fk < self@.functions.len()
                        &&& forall|j: int|
                            0 <= j < fk ==> function_wf(self@, #[trigger] self@.functions[j])
                        &&& 0 <= ik < self@.functions[fk].instructions.len()
                        &&& forall|j: int|
                            0 <= j < ik ==> instr_wf(
                                #[trigger] self@.functions[fk].instructions[j],
                                self@.constants.len() as int,
                                self@.functions[fk].locals as int,
                                self@.functions.len() as int,
                                self@.functions[fk].instructions.len() as int,
                            )
                        &&& !instr_wf(
                            self@.functions[fk].instructions[ik],
                            self@.constants.len() as int,
                            self@.functions[fk].locals as int,
                            self@.functions.len() as int,
                            self@.functions[fk].instructions.len() as int,
                        )
                        &&& e == instr_failure(self@.functions[fk].instructions[ik], ik as usize)
                    },
            },
    {
        let v = Verifier;
        v.verify(self)
    }
}

impl Default for BytecodeModule {
    fn default() -> (r: Self)
        ensures
            r@.constants == Seq::<ConstModel>::empty(),
            r@.globals == Seq::<GlobalModel>::empty(),
            r@.functions == Seq::<FunctionModel>::empty(),
    {
        BytecodeModule::new()
    }
}

/// Why the verifier rejected a module; `instruction` is the offending
/// instruction's index within its function.
#[derive(Debug, Clone, Copy, PartialEq, Eq, Structural)]
pub enum VerificationError {
    BadConstant { instruction: usize },
    BadLocal { instruction: usize },
    BadFunction { instruction: usize },
    BadJump { instruction: usize },
}

/// Whether one instruction's references are in bounds, per the structural
/// rules: constant ids within the pool, local indices below the function's
/// local count, call targets within the function list, jump targets within
/// the instruction list. All other instructions are unconditionally fine.
pub open spec fn instr_wf(
    ins: Instruction,
    n_consts: int,
    n_locals: int,
    n_funcs: int,
    n_instrs: int,
) -> bool {
    match ins {
        Instruction::LoadConst(id) => (id as int) < n_consts,
        Instruction::LoadLocal(i) => (i as int) < n_locals,
        Instruction::StoreLocal(i) => (i as int) < n_locals,
        Instruction::Call(f, _) => (f as int) < n_funcs,
        Instruction::Jump(t) => (t as int) < n_instrs,
        Instruction::JumpIfFalse(t) => (t as int) < n_instrs,
        _ => true,
    }
}

/// The error the verifier reports for an out-of-bounds instruction.
pub open spec fn instr_failure(ins: Instruction, idx: usize) -> VerificationError {
    match ins {
        Instruction::LoadConst(_) => VerificationError::BadConstant { instruction: idx },
        Instruction::LoadLocal(_) => VerificationError::BadLocal { instruction: idx },
        Instruction::StoreLocal(_) => VerificationError::BadLocal { instruction: idx },
        Instruction::Call(_, _) => VerificationError::BadFunction { instruction: idx },
        _ => VerificationError::BadJump { instruction: idx },
    }
}

/// Whether every instruction of one function is in bounds within the module.
pub open spec fn function_wf(m: ModuleModel, f: FunctionModel) -> bool {
    forall|i: int|
        0 <= i < f.instructions.len() ==> instr_wf(
            #[trigger] f.instructions[i],
            m.constants.len() as int,
            f.locals as int,
            m.functions.len() as int,
            f.instructions.len() as int,
        )
}

/// Whether every function of the module is in bounds: exactly what the
/// structural verifier accepts.
pub open spec fn module_wf(m: ModuleModel) -> bool {
    forall|k: int| 0 <= k < m.functions.len() ==> function_wf(m, #[trigger] m.functions[k])
}

/// The structural verifier.
#[derive(Debug, Clone, Copy, Default)]
pub struct Verifier;

impl Verifier {
    /// Accepts a module exactly when every instruction's references are in
    /// bounds. On rejection the error names the first offending instruction,
    /// scanning functions in order and instructions within each function in
    /// order.
    pub fn verify(&self, module: &BytecodeModule) -> (r: Result<(), VerificationError>)
        ensures
            r is Ok <==> module_wf(module@),
            match r {
                Ok(_) => true,
                Err(e) => exists|fk: int, ik: int|
                    {
                        &&& 0 <= fk < module@.functions.len()
                        &&& forall|j: int|
                            0 <= j < fk ==> function_wf(module@, #[trigger] module@.functions[j])
                        &&& 0 <= ik < module@.functions[fk].instructions.len()
                        &&& forall|j: int|
                            0 <= j < ik ==> instr_wf(
                                #[trigger] module@.functions[fk].instructions[j],
                                module@.constants.len() as int,
                                module@.functions[fk].locals as int,
                                module@.functions.len() as int,
                                module@.functions[fk].instructions.len() as int,
                            )
                        &&& !instr_wf(
                            module@.functions[fk].instructions[ik],
                            module@.constants.len() as int,
                            module@.functions[fk].locals as int,
                            module@.functions.len() as int,
                            module@.functions[fk].instructions.len() as int,
                        )
                        &&& e == instr_failure(module@.functions[fk].instructions[ik], ik as usize)
                    },
            },
    {
        let n_funcs = module.functions.len();
        let n_consts = module.constants.len();
        let mut fk: usize = 0;
        while fk < n_funcs
            invariant
                fk <= n_funcs,
                n_funcs == module.functions@.len(),
                n_consts == module.constants@.len(),
                module@.functions.len() == n_funcs,
                module@.constants.len() == n_consts,
                forall|j: int|
                    0 <= j < n_funcs ==> #[trigger] module@.functions[j] == module.functions@[j]@,
                forall|j: int|
                    0 <= j < fk ==> function_wf(module@, #[trigger] module@.functions[j]),
            decreases n_funcs - fk,
        {
            let function = &module.functions[fk];
            let local_limit = function.locals;
            let n_instrs = function.instructions.len();
            let mut ik: usize = 0;
            while ik < n_instrs
                invariant
                    fk < n_funcs,
                    ik <= n_instrs,
                    n_funcs == module.functions@.len(),
                    n_consts == module.constants@.len(),
                    module@.functions.len() == n_funcs,
                    module@.constants.len() == n_consts,
                    function == module.functions@[fk as int],
                    local_limit == function.locals,
                    n_instrs == function.instructions@.len(),
                    forall|j: int|
                        0 <= j < n_funcs ==> #[trigger] module@.functions[j] == module.functions@[
                            j]@,
                    forall|j: int|
                        0 <= j < fk ==> function_wf(module@, #[trigger] module@.functions[j]),
                    forall|j: int|
                        0 <= j < ik ==> instr_wf(
                            #[trigger] module@.functions[fk as int].instructions[j],
                            n_consts as int,
                            local_limit as int,
                            n_funcs as int,
                            n_instrs as int,
                        ),
                decreases n_instrs - ik,
            {
                let ins = function.instructions[ik];
                let ok: bool = match ins {
                    Instruction::LoadConst(id) => (id as usize) < n_consts,
                    Instruction::LoadLocal(i) => i < local_limit,
                    Instruction::StoreLocal(i) => i < local_limit,
                    Instruction::Call(f, _) => (f as usize) < n_funcs,
                    Instruction::Jump(t) => t < n_instrs,
                    Instruction::JumpIfFalse(t) => t < n_instrs,
                    _ => true,
                };
                if !ok {
                    let e = match ins {
                        Instruction::LoadConst(_) => VerificationError::BadConstant {
                            instruction: ik,
                        },
                        Instruction::LoadLocal(_) => VerificationError::BadLocal {
                            instruction: ik,
                        },
                        Instruction::StoreLocal(_) => VerificationError::BadLocal {
                            instruction: ik,
                        },
                        Instruction::Call(_, _) => VerificationError::BadFunction {
                            instruction: ik,
                        },
                        _ => VerificationError::BadJump { instruction: ik },
                    };
                    proof {
                        assert(!instr_wf(
                            module@.functions[fk as int].instructions[ik as int],
                            n_consts as int,
                            local_limit as int,
                            n_funcs as int,
                            n_instrs as int,
                        ));
                        assert(!function_wf(module@, module@.functions[fk as int]));
                        assert(!module_wf(module@));
                    }
                    return Err(e);
                }
                ik = ik + 1;
            }
            proof {
                assert(function_wf(module@, module@.functions[fk as int]));
            }
            fk = fk + 1;
        }
        Ok(())
    }
}

} // verus!
