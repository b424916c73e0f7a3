//! The persisted bytecode format: a self-describing tagged binary document
//! with the module's three sections — constants, globals, functions — in
//! order. Every number is a little-endian 64-bit field, every string is
//! length-prefixed UTF-8, every constant and instruction carries a leading
//! tag byte. The format round-trips: decoding an encoded module yields a
//! structurally equal module, proved in [`lemma_codec_round_trip`].

use vstd::prelude::*;
use vstd::utf8::{decode_utf8, encode_utf8, encode_utf8_decode_utf8, encode_utf8_valid_utf8,
    valid_utf8};

use crate::bytecode::{BytecodeModule, ConstModel, Constant, Function, FunctionModel, Global,
    GlobalModel, Instruction, ModuleModel};
use crate::text::string_from_utf8;

verus! {

/// Decoding failure: the input is not a well-formed encoded module.
#[derive(Debug, Clone, Copy, PartialEq, Eq, Structural)]
pub struct DecodeError;

// ---------------------------------------------------------------------------
// 64-bit fields
// ---------------------------------------------------------------------------

/// The eight little-endian bytes of a 64-bit field.
pub open spec fn enc_u64(n: u64) -> Seq<u8> {
    seq![
        (n & 0xff) as u8,
        ((n >> 8) & 0xff) as u8,
        ((n >> 16) & 0xff) as u8,
        ((n >> 24) & 0xff) as u8,
        ((n >> 32) & 0xff) as u8,
        ((n >> 40) & 0xff) as u8,
        ((n >> 48) & 0xff) as u8,
        ((n >> 56) & 0xff) as u8,
    ]
}

/// Reads a 64-bit field at `pos`.
pub open spec fn dec_u64(b: Seq<u8>, pos: int) -> Option<(u64, int)> {
    if 0 <= pos && pos + 8 <= b.len() {
        let n = (b[pos] as u64) | ((b[pos + 1] as u64) << 8) | ((b[pos + 2] as u64) << 16) | ((b[
            pos + 3] as u64) << 24) | ((b[pos + 4] as u64) << 32) | ((b[pos + 5] as u64) << 40) | ((
        b[pos + 6] as u64) << 48) | ((b[pos + 7] as u64) << 56);
        Some((n, pos + 8))
    } else {
        None
    }
}

proof fn lemma_u64_bytes_roundtrip(n: u64)
    ensures
        ((n & 0xff) as u8 as u64) | (((n >> 8) & 0xff) as u8 as u64) << 8 | (((n >> 16)
            & 0xff) as u8 as u64) << 16 | (((n >> 24) & 0xff) as u8 as u64) << 24 | (((n >> 32)
            & 0xff) as u8 as u64) << 32 | (((n >> 40) & 0xff) as u8 as u64) << 40 | (((n >> 48)
            & 0xff) as u8 as u64) << 48 | (((n >> 56) & 0xff) as u8 as u64) << 56 == n,
{
    assert(((n & 0xff) as u8 as u64) | (((n >> 8) & 0xff) as u8 as u64) << 8 | (((n >> 16)
        & 0xff) as u8 as u64) << 16 | (((n >> 24) & 0xff) as u8 as u64) << 24 | (((n >> 32)
        & 0xff) as u8 as u64) << 32 | (((n >> 40) & 0xff) as u8 as u64) << 40 | (((n >> 48)
        & 0xff) as u8 as u64) << 48 | (((n >> 56) & 0xff) as u8 as u64) << 56 == n)
        by (bit_vector);
}

/// Decoding inverts encoding for 64-bit fields, wherever the field sits in
/// the buffer.
proof fn lemma_dec_enc_u64(b: Seq<u8>, pos: int, n: u64)
    requires
        0 <= pos,
        pos + 8 <= b.len(),
        b.subrange(pos, pos + 8) == enc_u64(n),
    ensures
        dec_u64(b, pos) == Some((n, pos + 8)),
{
    assert forall|k: int| 0 <= k < 8 implies b[pos + k] == enc_u64(n)[k] by {
        assert(b.subrange(pos, pos + 8)[k] == b[pos + k]);
    }
    lemma_u64_bytes_roundtrip(n);
}


/// If `whole` sits in `b` at `pos`, any part of `whole` sits in `b` at the
/// corresponding offset.
proof fn lemma_subrange_within(b: Seq<u8>, pos: int, whole: Seq<u8>, off: int, part: Seq<u8>)
    requires
        0 <= pos,
        pos + whole.len() <= b.len(),
        b.subrange(pos, pos + whole.len()) == whole,
        0 <= off,
        off + part.len() <= whole.len(),
        part == whole.subrange(off, off + part.len()),
    ensures
        b.subrange(pos + off, pos + off + part.len()) == part,
{
    assert forall|k: int| 0 <= k < part.len() implies b.subrange(
        pos + off,
        pos + off + part.len(),
    )[k] == part[k] by {
        assert(b.subrange(pos, pos + whole.len())[off + k] == b[pos + off + k]);
        assert(whole.subrange(off, off + part.len())[k] == whole[off + k]);
    }
    assert(b.subrange(pos + off, pos + off + part.len()) =~= part);
}

// ---------------------------------------------------------------------------
// strings
// ---------------------------------------------------------------------------

/// A string: the byte length of its UTF-8 encoding, then those bytes.
pub open spec fn enc_str(s: Seq<char>) -> Seq<u8> {
    enc_u64(encode_utf8(s).len() as u64) + encode_utf8(s)
}

/// Reads a length-prefixed UTF-8 string at `pos`.
pub open spec fn dec_str(b: Seq<u8>, pos: int) -> Option<(Seq<char>, int)> {
    match dec_u64(b, pos) {
        None => None,
        Some((len, p1)) => if p1 + len <= b.len() && valid_utf8(
            b.subrange(p1, p1 + len as int),
        ) {
            Some((decode_utf8(b.subrange(p1, p1 + len as int)), p1 + len as int))
        } else {
            None
        },
    }
}

/// Whether a string's UTF-8 encoding fits a 64-bit length field.
pub open spec fn str_bounded(s: Seq<char>) -> bool {
    encode_utf8(s).len() <= u64::MAX
}

/// Decoding inverts encoding for strings.
proof fn lemma_dec_enc_str(b: Seq<u8>, pos: int, s: Seq<char>)
    requires
        0 <= pos,
        str_bounded(s),
        pos + enc_str(s).len() <= b.len(),
        b.subrange(pos, pos + enc_str(s).len()) == enc_str(s),
    ensures
        dec_str(b, pos) == Some((s, pos + enc_str(s).len())),
{
    let bytes = encode_utf8(s);
    let n = bytes.len() as u64;
    let whole = enc_str(s);
    assert(enc_u64(n) =~= whole.subrange(0, 8));
    lemma_subrange_within(b, pos, whole, 0, enc_u64(n));
    lemma_dec_enc_u64(b, pos, n);
    let p1 = pos + 8;
    assert(bytes =~= whole.subrange(8, 8 + bytes.len() as int));
    lemma_subrange_within(b, pos, whole, 8, bytes);
    assert(b.subrange(p1, p1 + n as int) == bytes);
    encode_utf8_valid_utf8(s);
    encode_utf8_decode_utf8(s);
}

// ---------------------------------------------------------------------------
// constants
// ---------------------------------------------------------------------------

/// A constant: a tag byte, then its payload.
pub open spec fn enc_const(c: ConstModel) -> Seq<u8> {
    match c {
        ConstModel::Int(v) => seq![0u8] + enc_u64(v as u64),
        ConstModel::Bool(v) => seq![1u8, (if v { 1u8 } else { 0u8 })],
        ConstModel::Str(s) => seq![2u8] + enc_str(s),
        ConstModel::Unit => seq![3u8],
    }
}

/// Reads a constant at `pos`.
pub open spec fn dec_const(b: Seq<u8>, pos: int) -> Option<(ConstModel, int)> {
    if 0 <= pos && pos < b.len() {
        let tag = b[pos];
        if tag == 0 {
            match dec_u64(b, pos + 1) {
                Some((n, p1)) => Some((ConstModel::Int(n as i64), p1)),
                None => None,
            }
        } else if tag == 1 {
            if pos + 2 <= b.len() && (b[pos + 1] == 0 || b[pos + 1] == 1) {
                Some((ConstModel::Bool(b[pos + 1] == 1), pos + 2))
            } else {
                None
            }
        } else if tag == 2 {
            match dec_str(b, pos + 1) {
                Some((s, p1)) => Some((ConstModel::Str(s), p1)),
                None => None,
            }
        } else if tag == 3 {
            Some((ConstModel::Unit, pos + 1))
        } else {
            None
        }
    } else {
        None
    }
}

/// Whether a constant's encoding fits its length fields.
pub open spec fn const_bounded(c: ConstModel) -> bool {
    match c {
        ConstModel::Str(s) => str_bounded(s),
        _ => true,
    }
}

/// Decoding inverts encoding for constants.
proof fn lemma_dec_enc_const(b: Seq<u8>, pos: int, c: ConstModel)
    requires
        0 <= pos,
        const_bounded(c),
        pos + enc_const(c).len() <= b.len(),
        b.subrange(pos, pos + enc_const(c).len()) == enc_const(c),
    ensures
        dec_const(b, pos) == Some((c, pos + enc_const(c).len())),
{
    let whole = enc_const(c);
    assert(b[pos] == whole[0]) by {
        assert(b.subrange(pos, pos + whole.len())[0] == b[pos]);
    }
    match c {
        ConstModel::Int(v) => {
            assert(enc_u64(v as u64) =~= whole.subrange(1, 9));
            lemma_subrange_within(b, pos, whole, 1, enc_u64(v as u64));
            lemma_dec_enc_u64(b, pos + 1, v as u64);
            assert((v as u64) as i64 == v) by (bit_vector);
        },
        ConstModel::Bool(v) => {
            assert(b[pos + 1] == whole[1]) by {
                assert(b.subrange(pos, pos + whole.len())[1] == b[pos + 1]);
            }
        },
        ConstModel::Str(s) => {
            assert(enc_str(s) =~= whole.subrange(1, 1 + enc_str(s).len() as int));
            lemma_subrange_within(b, pos, whole, 1, enc_str(s));
            lemma_dec_enc_str(b, pos + 1, s);
        },
        ConstModel::Unit => {},
    }
}

// ---------------------------------------------------------------------------
// instructions
// ---------------------------------------------------------------------------

/// The tag byte of an instruction.
pub open spec fn instr_tag(i: Instruction) -> u8 {
    match i {
        Instruction::LoadConst(_) => 0u8,
        Instruction::LoadLocal(_) => 1u8,
        Instruction::StoreLocal(_) => 2u8,
        Instruction::Jump(_) => 3u8,
        Instruction::JumpIfFalse(_) => 4u8,
        Instruction::Add => 5u8,
        Instruction::Sub => 6u8,
        Instruction::Mul => 7u8,
        Instruction::Div => 8u8,
        Instruction::Neg => 9u8,
        Instruction::Not => 10u8,
        Instruction::Eq => 11u8,
        Instruction::Ne => 12u8,
        Instruction::Lt => 13u8,
        Instruction::Le => 14u8,
        Instruction::Gt => 15u8,
        Instruction::Ge => 16u8,
        Instruction::Call(_, _) => 17u8,
        Instruction::CallHost(_, _) => 18u8,
        Instruction::CallHostDynamic(_, _) => 19u8,
        Instruction::Return => 20u8,
        Instruction::Pop => 21u8,
    }
}

/// The two 64-bit operand fields of an instruction (zero when unused).
pub open spec fn instr_operands(i: Instruction) -> (u64, u64) {
    match i {
        Instruction::LoadConst(id) => (id as u64, 0u64),
        Instruction::LoadLocal(x) => (x as u64, 0u64),
        Instruction::StoreLocal(x) => (x as u64, 0u64),
        Instruction::Jump(t) => (t as u64, 0u64),
        Instruction::JumpIfFalse(t) => (t as u64, 0u64),
        Instruction::Call(f, argc) => (f as u64, argc as u64),
        Instruction::CallHost(s, argc) => (s as u64, argc as u64),
        Instruction::CallHostDynamic(c, argc) => (c as u64, argc as u64),
        _ => (0u64, 0u64),
    }
}

/// An instruction: its tag byte and its two operand fields.
pub open spec fn enc_instr(i: Instruction) -> Seq<u8> {
    seq![instr_tag(i)] + enc_u64(instr_operands(i).0) + enc_u64(instr_operands(i).1)
}

/// Rebuilds an instruction from its tag and operand fields, when the
/// operands are in range for the tag.
pub open spec fn instr_from_parts(tag: u8, a: u64, c: u64) -> Option<Instruction> {
    if tag == 0 {
        if a <= u32::MAX {
            Some(Instruction::LoadConst(a as u32))
        } else {
            None
        }
    } else if tag == 1 {
        if a <= u16::MAX {
            Some(Instruction::LoadLocal(a as u16))
        } else {
            None
        }
    } else if tag == 2 {
        if a <= u16::MAX {
            Some(Instruction::StoreLocal(a as u16))
        } else {
            None
        }
    } else if tag == 3 {
        if a <= usize::MAX {
            Some(Instruction::Jump(a as usize))
        } else {
            None
        }
    } else if tag == 4 {
        if a <= usize::MAX {
            Some(Instruction::JumpIfFalse(a as usize))
        } else {
            None
        }
    } else if tag == 5 {
        Some(Instruction::Add)
    } else if tag == 6 {
        Some(Instruction::Sub)
    } else if tag == 7 {
        Some(Instruction::Mul)
    } else if tag == 8 {
        Some(Instruction::Div)
    } else if tag == 9 {
        Some(Instruction::Neg)
    } else if tag == 10 {
        Some(Instruction::Not)
    } else if tag == 11 {
        Some(Instruction::Eq)
    } else if tag == 12 {
        Some(Instruction::Ne)
    } else if tag == 13 {
        Some(Instruction::Lt)
    } else if tag == 14 {
        Some(Instruction::Le)
    } else if tag == 15 {
        Some(Instruction::Gt)
    } else if tag == 16 {
        Some(Instruction::Ge)
    } else if tag == 17 {
        if a <= u32::MAX && c <= u16::MAX {
            Some(Instruction::Call(a as u32, c as u16))
        } else {
            None
        }
    } else if tag == 18 {
        if a <= u32::MAX && c <= u16::MAX {
            Some(Instruction::CallHost(a as u32, c as u16))
        } else {
            None
        }
    } else if tag == 19 {
        if a <= u32::MAX && c <= u16::MAX {
            Some(Instruction::CallHostDynamic(a as u32, c as u16))
        } else {
            None
        }
    } else if tag == 20 {
        Some(Instruction::Return)
    } else if tag == 21 {
        Some(Instruction::Pop)
    } else {
        None
    }
}

/// Reads an instruction at `pos`.
pub open spec fn dec_instr(b: Seq<u8>, pos: int) -> Option<(Instruction, int)> {
    if 0 <= pos && pos < b.len() {
        let tag = b[pos];
        match dec_u64(b, pos + 1) {
            None => None,
            Some((a, p1)) => match dec_u64(b, p1) {
                None => None,
                Some((c, p2)) => match instr_from_parts(tag, a, c) {
                    Some(i) => Some((i, p2)),
                    None => None,
                },
            },
        }
    } else {
        None
    }
}

/// Decoding inverts encoding for instructions.
proof fn lemma_dec_enc_instr(b: Seq<u8>, pos: int, i: Instruction)
    requires
        0 <= pos,
        pos + 17 <= b.len(),
        b.subrange(pos, pos + 17) == enc_instr(i),
    ensures
        dec_instr(b, pos) == Some((i, pos + 17)),
{
    let whole = enc_instr(i);
    assert(whole.len() == 17);
    assert(b[pos] == whole[0]) by {
        assert(b.subrange(pos, pos + 17)[0] == b[pos]);
    }
    assert(enc_u64(instr_operands(i).0) =~= whole.subrange(1, 9));
    lemma_subrange_within(b, pos, whole, 1, enc_u64(instr_operands(i).0));
    assert(enc_u64(instr_operands(i).1) =~= whole.subrange(9, 17));
    lemma_subrange_within(b, pos, whole, 9, enc_u64(instr_operands(i).1));
    lemma_dec_enc_u64(b, pos + 1, instr_operands(i).0);
    lemma_dec_enc_u64(b, pos + 9, instr_operands(i).1);
}

// ---------------------------------------------------------------------------
// sequences of encodables
// ---------------------------------------------------------------------------

/// The concatenation of instruction encodings.
pub open spec fn enc_instrs(l: Seq<Instruction>) -> Seq<u8>
    decreases l.len(),
{
    if l.len() == 0 {
        Seq::<u8>::empty()
    } else {
        enc_instr(l[0]) + enc_instrs(l.drop_first())
    }
}

/// Reads `count` instructions at `pos`.
pub open spec fn dec_instrs(b: Seq<u8>, pos: int, count: int) -> Option<(Seq<Instruction>, int)>
    decreases count,
{
    if count <= 0 {
        Some((Seq::<Instruction>::empty(), pos))
    } else {
        match dec_instr(b, pos) {
            None => None,
            Some((i, p1)) => match dec_instrs(b, p1, count - 1) {
                None => None,
                Some((rest, p2)) => Some((seq![i] + rest, p2)),
            },
        }
    }
}

/// Decoding inverts encoding for instruction lists.
proof fn lemma_dec_enc_instrs(b: Seq<u8>, pos: int, l: Seq<Instruction>)
    requires
        0 <= pos,
        pos + enc_instrs(l).len() <= b.len(),
        b.subrange(pos, pos + enc_instrs(l).len()) == enc_instrs(l),
    ensures
        dec_instrs(b, pos, l.len() as int) == Some((l, pos + enc_instrs(l).len())),
    decreases l.len(),
{
    if l.len() == 0 {
        assert(l =~= Seq::<Instruction>::empty());
    } else {
        let whole = enc_instrs(l);
        let rest = l.drop_first();
        assert(enc_instr(l[0]).len() == 17);
        assert(enc_instr(l[0]) =~= whole.subrange(0, 17));
        lemma_subrange_within(b, pos, whole, 0, enc_instr(l[0]));
        lemma_dec_enc_instr(b, pos, l[0]);
        assert(enc_instrs(rest) =~= whole.subrange(17, 17 + enc_instrs(rest).len() as int));
        lemma_subrange_within(b, pos, whole, 17, enc_instrs(rest));
        lemma_dec_enc_instrs(b, pos + 17, rest);
        assert(seq![l[0]] + rest =~= l);
    }
}

// ---------------------------------------------------------------------------
// globals and functions
// ---------------------------------------------------------------------------

/// A global: its name, then its constant id.
pub open spec fn enc_global(g: GlobalModel) -> Seq<u8> {
    enc_str(g.name) + enc_u64(g.value as u64)
}

/// Reads a global at `pos`.
pub open spec fn dec_global(b: Seq<u8>, pos: int) -> Option<(GlobalModel, int)> {
    match dec_str(b, pos) {
        None => None,
        Some((name, p1)) => match dec_u64(b, p1) {
            None => None,
            Some((v, p2)) => if v <= u32::MAX {
                Some((GlobalModel { name, value: v as u32 }, p2))
            } else {
                None
            },
        },
    }
}

pub open spec fn global_bounded(g: GlobalModel) -> bool {
    str_bounded(g.name)
}

proof fn lemma_dec_enc_global(b: Seq<u8>, pos: int, g: GlobalModel)
    requires
        0 <= pos,
        global_bounded(g),
        pos + enc_global(g).len() <= b.len(),
        b.subrange(pos, pos + enc_global(g).len()) == enc_global(g),
    ensures
        dec_global(b, pos) == Some((g, pos + enc_global(g).len())),
{
    let whole = enc_global(g);
    let sl = enc_str(g.name).len() as int;
    assert(enc_str(g.name) =~= whole.subrange(0, sl));
    lemma_subrange_within(b, pos, whole, 0, enc_str(g.name));
    lemma_dec_enc_str(b, pos, g.name);
    assert(enc_u64(g.value as u64) =~= whole.subrange(sl, sl + 8));
    lemma_subrange_within(b, pos, whole, sl, enc_u64(g.value as u64));
    lemma_dec_enc_u64(b, pos + sl, g.value as u64);
}

/// The concatenation of global encodings.
pub open spec fn enc_globals(l: Seq<GlobalModel>) -> Seq<u8>
    decreases l.len(),
{
    if l.len() == 0 {
        Seq::<u8>::empty()
    } else {
        enc_global(l[0]) + enc_globals(l.drop_first())
    }
}

/// Reads `count` globals at `pos`.
pub open spec fn dec_globals(b: Seq<u8>, pos: int, count: int) -> Option<(Seq<GlobalModel>, int)>
    decreases count,
{
    if count <= 0 {
        Some((Seq::<GlobalModel>::empty(), pos))
    } else {
        match dec_global(b, pos) {
            None => None,
            Some((g, p1)) => match dec_globals(b, p1, count - 1) {
                None => None,
                Some((rest, p2)) => Some((seq![g] + rest, p2)),
            },
        }
    }
}

pub open spec fn globals_bounded(l: Seq<GlobalModel>) -> bool {
    forall|k: int| 0 <= k < l.len() ==> global_bounded(#[trigger] l[k])
}

proof fn lemma_dec_enc_globals(b: Seq<u8>, pos: int, l: Seq<GlobalModel>)
    requires
        0 <= pos,
        globals_bounded(l),
        pos + enc_globals(l).len() <= b.len(),
        b.subrange(pos, pos + enc_globals(l).len()) == enc_globals(l),
    ensures
        dec_globals(b, pos, l.len() as int) == Some((l, pos + enc_globals(l).len())),
    decreases l.len(),
{
    if l.len() == 0 {
        assert(l =~= Seq::<GlobalModel>::empty());
    } else {
        let whole = enc_globals(l);
        let rest = l.drop_first();
        let gl = enc_global(l[0]).len() as int;
        assert(enc_global(l[0]) =~= whole.subrange(0, gl));
        lemma_subrange_within(b, pos, whole, 0, enc_global(l[0]));
        lemma_dec_enc_global(b, pos, l[0]);
        assert(enc_globals(rest) =~= whole.subrange(gl, gl + enc_globals(rest).len()));
        lemma_subrange_within(b, pos, whole, gl, enc_globals(rest));
        lemma_dec_enc_globals(b, pos + gl, rest);
        assert(seq![l[0]] + rest =~= l);
    }
}

/// A function: its name, parameter and local counts, then its instruction
/// count and instructions.
pub open spec fn enc_function(f: FunctionModel) -> Seq<u8> {
    enc_str(f.name) + enc_u64(f.params as u64) + enc_u64(f.locals as u64) + enc_u64(
        f.instructions.len() as u64,
    ) + enc_instrs(f.instructions)
}

/// Reads a function at `pos`.
pub open spec fn dec_function(b: Seq<u8>, pos: int) -> Option<(FunctionModel, int)> {
    match dec_str(b, pos) {
        None => None,
        Some((name, p1)) => match dec_u64(b, p1) {
            None => None,
            Some((params, p2)) => match dec_u64(b, p2) {
                None => None,
                Some((locals, p3)) => match dec_u64(b, p3) {
                    None => None,
                    Some((count, p4)) => if params <= u16::MAX && locals <= u16::MAX {
                        match dec_instrs(b, p4, count as int) {
                            None => None,
                            Some((instrs, p5)) => Some(
                                (
                                    FunctionModel {
                                        name,
                                        params: params as u16,
                                        locals: locals as u16,
                                        instructions: instrs,
                                    },
                                    p5,
                                ),
                            ),
                        }
                    } else {
                        None
                    },
                },
            },
        },
    }
}

pub open spec fn function_bounded(f: FunctionModel) -> bool {
    &&& str_bounded(f.name)
    &&& f.instructions.len() <= u64::MAX
}

proof fn lemma_dec_enc_function(b: Seq<u8>, pos: int, f: FunctionModel)
    requires
        0 <= pos,
        function_bounded(f),
        pos + enc_function(f).len() <= b.len(),
        b.subrange(pos, pos + enc_function(f).len()) == enc_function(f),
    ensures
        dec_function(b, pos) == Some((f, pos + enc_function(f).len())),
{
    let whole = enc_function(f);
    let sl = enc_str(f.name).len() as int;
    assert(enc_str(f.name) =~= whole.subrange(0, sl));
    lemma_subrange_within(b, pos, whole, 0, enc_str(f.name));
    lemma_dec_enc_str(b, pos, f.name);
    assert(enc_u64(f.params as u64) =~= whole.subrange(sl, sl + 8));
    lemma_subrange_within(b, pos, whole, sl, enc_u64(f.params as u64));
    lemma_dec_enc_u64(b, pos + sl, f.params as u64);
    assert(enc_u64(f.locals as u64) =~= whole.subrange(sl + 8, sl + 16));
    lemma_subrange_within(b, pos, whole, sl + 8, enc_u64(f.locals as u64));
    lemma_dec_enc_u64(b, pos + sl + 8, f.locals as u64);
    assert(enc_u64(f.instructions.len() as u64) =~= whole.subrange(sl + 16, sl + 24));
    lemma_subrange_within(b, pos, whole, sl + 16, enc_u64(f.instructions.len() as u64));
    lemma_dec_enc_u64(b, pos + sl + 16, f.instructions.len() as u64);
    assert(enc_instrs(f.instructions) =~= whole.subrange(
        sl + 24,
        sl + 24 + enc_instrs(f.instructions).len(),
    ));
    lemma_subrange_within(b, pos, whole, sl + 24, enc_instrs(f.instructions));
    lemma_dec_enc_instrs(b, pos + sl + 24, f.instructions);
}

/// The concatenation of function encodings.
pub open spec fn enc_functions(l: Seq<FunctionModel>) -> Seq<u8>
    decreases l.len(),
{
    if l.len() == 0 {
        Seq::<u8>::empty()
    } else {
        enc_function(l[0]) + enc_functions(l.drop_first())
    }
}

/// Reads `count` functions at `pos`.
pub open spec fn dec_functions(b: Seq<u8>, pos: int, count: int) -> Option<
    (Seq<FunctionModel>, int),
>
    decreases count,
{
    if count <= 0 {
        Some((Seq::<FunctionModel>::empty(), pos))
    } else {
        match dec_function(b, pos) {
            None => None,
            Some((f, p1)) => match dec_functions(b, p1, count - 1) {
                None => None,
                Some((rest, p2)) => Some((seq![f] + rest, p2)),
            },
        }
    }
}

pub open spec fn functions_bounded(l: Seq<FunctionModel>) -> bool {
    forall|k: int| 0 <= k < l.len() ==> function_bounded(#[trigger] l[k])
}

proof fn lemma_dec_enc_functions(b: Seq<u8>, pos: int, l: Seq<FunctionModel>)
    requires
        0 <= pos,
        functions_bounded(l),
        pos + enc_functions(l).len() <= b.len(),
        b.subrange(pos, pos + enc_functions(l).len()) == enc_functions(l),
    ensures
        dec_functions(b, pos, l.len() as int) == Some((l, pos + enc_functions(l).len())),
    decreases l.len(),
{
    if l.len() == 0 {
        assert(l =~= Seq::<FunctionModel>::empty());
    } else {
        let whole = enc_functions(l);
        let rest = l.drop_first();
        let fl = enc_function(l[0]).len() as int;
        assert(enc_function(l[0]) =~= whole.subrange(0, fl));
        lemma_subrange_within(b, pos, whole, 0, enc_function(l[0]));
        lemma_dec_enc_function(b, pos, l[0]);
        assert(enc_functions(rest) =~= whole.subrange(fl, fl + enc_functions(rest).len()));
        lemma_subrange_within(b, pos, whole, fl, enc_functions(rest));
        lemma_dec_enc_functions(b, pos + fl, rest);
        assert(seq![l[0]] + rest =~= l);
    }
}

// ---------------------------------------------------------------------------
// constants section and whole module
// ---------------------------------------------------------------------------

/// The concatenation of constant encodings.
pub open spec fn enc_consts(l: Seq<ConstModel>) -> Seq<u8>
    decreases l.len(),
{
    if l.len() == 0 {
        Seq::<u8>::empty()
    } else {
        enc_const(l[0]) + enc_consts(l.drop_first())
    }
}

/// Reads `count` constants at `pos`.
pub open spec fn dec_consts(b: Seq<u8>, pos: int, count: int) -> Option<(Seq<ConstModel>, int)>
    decreases count,
{
    if count <= 0 {
        Some((Seq::<ConstModel>::empty(), pos))
    } else {
        match dec_const(b, pos) {
            None => None,
            Some((c, p1)) => match dec_consts(b, p1, count - 1) {
                None => None,
                Some((rest, p2)) => Some((seq![c] + rest, p2)),
            },
        }
    }
}

pub open spec fn consts_bounded(l: Seq<ConstModel>) -> bool {
    forall|k: int| 0 <= k < l.len() ==> const_bounded(#[trigger] l[k])
}

proof fn lemma_dec_enc_consts(b: Seq<u8>, pos: int, l: Seq<ConstModel>)
    requires
        0 <= pos,
        consts_bounded(l),
        pos + enc_consts(l).len() <= b.len(),
        b.subrange(pos, pos + enc_consts(l).len()) == enc_consts(l),
    ensures
        dec_consts(b, pos, l.len() as int) == Some((l, pos + enc_consts(l).len())),
    decreases l.len(),
{
    if l.len() == 0 {
        assert(l =~= Seq::<ConstModel>::empty());
    } else {
        let whole = enc_consts(l);
        let rest = l.drop_first();
        let cl = enc_const(l[0]).len() as int;
        assert(enc_const(l[0]) =~= whole.subrange(0, cl));
        lemma_subrange_within(b, pos, whole, 0, enc_const(l[0]));
        lemma_dec_enc_const(b, pos, l[0]);
        assert(enc_consts(rest) =~= whole.subrange(cl, cl + enc_consts(rest).len()));
        lemma_subrange_within(b, pos, whole, cl, enc_consts(rest));
        lemma_dec_enc_consts(b, pos + cl, rest);
        assert(seq![l[0]] + rest =~= l);
    }
}

/// A whole module: the three sections in order, each preceded by its entry
/// count.
pub open spec fn enc_module(m: ModuleModel) -> Seq<u8> {
    enc_u64(m.constants.len() as u64) + enc_consts(m.constants) + enc_u64(
        m.globals.len() as u64,
    ) + enc_globals(m.globals) + enc_u64(m.functions.len() as u64) + enc_functions(m.functions)
}

/// Reads a whole module: all input must be consumed.
pub open spec fn dec_module(b: Seq<u8>) -> Option<ModuleModel> {
    match dec_u64(b, 0) {
        None => None,
        Some((nc, p1)) => match dec_consts(b, p1, nc as int) {
            None => None,
            Some((constants, p2)) => match dec_u64(b, p2) {
                None => None,
                Some((ng, p3)) => match dec_globals(b, p3, ng as int) {
                    None => None,
                    Some((globals, p4)) => match dec_u64(b, p4) {
                        None => None,
                        Some((nf, p5)) => match dec_functions(b, p5, nf as int) {
                            None => None,
                            Some((functions, p6)) => if p6 == b.len() {
                                Some(ModuleModel { constants, globals, functions })
                            } else {
                                None
                            },
                        },
                    },
                },
            },
        },
    }
}

/// Whether a module's counts and string lengths fit the format's 64-bit
/// fields; every module held in memory satisfies this.
pub open spec fn module_bounded(m: ModuleModel) -> bool {
    &&& m.constants.len() <= u64::MAX
    &&& m.globals.len() <= u64::MAX
    &&& m.functions.len() <= u64::MAX
    &&& consts_bounded(m.constants)
    &&& globals_bounded(m.globals)
    &&& functions_bounded(m.functions)
}

/// The format round-trips: decoding an encoded module yields exactly the
/// module that was encoded.
#[verifier::rlimit(100)]
pub proof fn lemma_codec_round_trip(m: ModuleModel)
    requires
        module_bounded(m),
    ensures
        dec_module(enc_module(m)) == Some(m),
{
    let b = enc_module(m);
    let p1 = 8int;
    let p2 = p1 + enc_consts(m.constants).len();
    let p3 = p2 + 8;
    let p4 = p3 + enc_globals(m.globals).len();
    let p5 = p4 + 8;
    let p6 = p5 + enc_functions(m.functions).len();
    assert(b.len() == p6);
    assert(b.subrange(0, b.len() as int) =~= b);
    assert(enc_u64(m.constants.len() as u64) =~= b.subrange(0, 8));
    lemma_dec_enc_u64(b, 0, m.constants.len() as u64);
    assert(enc_consts(m.constants) =~= b.subrange(p1, p2));
    lemma_subrange_within(b, 0, b, p1, enc_consts(m.constants));
    lemma_dec_enc_consts(b, p1, m.constants);
    assert(enc_u64(m.globals.len() as u64) =~= b.subrange(p2, p3));
    lemma_dec_enc_u64(b, p2, m.globals.len() as u64);
    assert(enc_globals(m.globals) =~= b.subrange(p3, p4));
    lemma_dec_enc_globals(b, p3, m.globals);
    assert(enc_u64(m.functions.len() as u64) =~= b.subrange(p4, p5));
    lemma_dec_enc_u64(b, p4, m.functions.len() as u64);
    assert(enc_functions(m.functions) =~= b.subrange(p5, p6));
    lemma_dec_enc_functions(b, p5, m.functions);
    assert(ModuleModel {
        constants: m.constants,
        globals: m.globals,
        functions: m.functions,
    } =~= m);
}

// ---------------------------------------------------------------------------
// executable encoder
// ---------------------------------------------------------------------------

proof fn lemma_enc_consts_push(l: Seq<ConstModel>, c: ConstModel)
    ensures
        enc_consts(l.push(c)) == enc_consts(l) + enc_const(c),
    decreases l.len(),
{
    if l.len() == 0 {
        assert(l.push(c)[0] == c);
        assert(l.push(c).drop_first() =~= Seq::<ConstModel>::empty());
        assert(enc_consts(Seq::<ConstModel>::empty()) == Seq::<u8>::empty());
        assert(enc_consts(l.push(c)) == enc_const(c) + Seq::<u8>::empty());
        assert(enc_const(c) + Seq::<u8>::empty() =~= Seq::<u8>::empty() + enc_const(c));
    } else {
        assert(l.push(c).drop_first() =~= l.drop_first().push(c));
        lemma_enc_consts_push(l.drop_first(), c);
        assert(l.push(c)[0] == l[0]);
        assert(enc_consts(l.push(c)) == enc_const(l[0]) + (enc_consts(l.drop_first()) + enc_const(c)));
        assert(enc_const(l[0]) + (enc_consts(l.drop_first()) + enc_const(c)) =~= (enc_const(l[0]) + enc_consts(
            l.drop_first(),
        )) + enc_const(c));
    }
}

proof fn lemma_enc_globals_push(l: Seq<GlobalModel>, g: GlobalModel)
    ensures
        enc_globals(l.push(g)) == enc_globals(l) + enc_global(g),
    decreases l.len(),
{
    if l.len() == 0 {
        assert(l.push(g)[0] == g);
        assert(l.push(g).drop_first() =~= Seq::<GlobalModel>::empty());
        assert(enc_globals(Seq::<GlobalModel>::empty()) == Seq::<u8>::empty());
        assert(enc_globals(l.push(g)) == enc_global(g) + Seq::<u8>::empty());
        assert(enc_global(g) + Seq::<u8>::empty() =~= Seq::<u8>::empty() + enc_global(g));
    } else {
        assert(l.push(g).drop_first() =~= l.drop_first().push(g));
        lemma_enc_globals_push(l.drop_first(), g);
        assert(l.push(g)[0] == l[0]);
        assert(enc_globals(l.push(g)) == enc_global(l[0]) + (enc_globals(l.drop_first()) + enc_global(g)));
        assert(enc_global(l[0]) + (enc_globals(l.drop_first()) + enc_global(g)) =~= (enc_global(l[0]) + enc_globals(
            l.drop_first(),
        )) + enc_global(g));
    }
}

proof fn lemma_enc_functions_push(l: Seq<FunctionModel>, f: FunctionModel)
    ensures
        enc_functions(l.push(f)) == enc_functions(l) + enc_function(f),
    decreases l.len(),
{
    if l.len() == 0 {
        assert(l.push(f)[0] == f);
        assert(l.push(f).drop_first() =~= Seq::<FunctionModel>::empty());
        assert(enc_functions(Seq::<FunctionModel>::empty()) == Seq::<u8>::empty());
        assert(enc_functions(l.push(f)) == enc_function(f) + Seq::<u8>::empty());
        assert(enc_function(f) + Seq::<u8>::empty() =~= Seq::<u8>::empty() + enc_function(f));
    } else {
        assert(l.push(f).drop_first() =~= l.drop_first().push(f));
        lemma_enc_functions_push(l.drop_first(), f);
        assert(l.push(f)[0] == l[0]);
        assert(enc_functions(l.push(f)) == enc_function(l[0]) + (enc_functions(l.drop_first()) + enc_function(f)));
        assert(enc_function(l[0]) + (enc_functions(l.drop_first()) + enc_function(f)) =~= (enc_function(l[0]) + enc_functions(
            l.drop_first(),
        )) + enc_function(f));
    }
}

proof fn lemma_enc_instrs_push(l: Seq<Instruction>, i: Instruction)
    ensures
        enc_instrs(l.push(i)) == enc_instrs(l) + enc_instr(i),
    decreases l.len(),
{
    if l.len() == 0 {
        assert(l.push(i)[0] == i);
        assert(l.push(i).drop_first() =~= Seq::<Instruction>::empty());
        assert(enc_instrs(Seq::<Instruction>::empty()) == Seq::<u8>::empty());
        assert(enc_instrs(l.push(i)) == enc_instr(i) + Seq::<u8>::empty());
        assert(enc_instr(i) + Seq::<u8>::empty() =~= Seq::<u8>::empty() + enc_instr(i));
    } else {
        assert(l.push(i).drop_first() =~= l.drop_first().push(i));
        lemma_enc_instrs_push(l.drop_first(), i);
        assert(l.push(i)[0] == l[0]);
        assert(enc_instrs(l.push(i)) == enc_instr(l[0]) + (enc_instrs(l.drop_first()) + enc_instr(i)));
        assert(enc_instr(l[0]) + (enc_instrs(l.drop_first()) + enc_instr(i)) =~= (enc_instr(l[0]) + enc_instrs(
            l.drop_first(),
        )) + enc_instr(i));
    }
}

fn push_u64(out: &mut Vec<u8>, n: u64)
    ensures
        final(out)@ == old(out)@ + enc_u64(n),
{
    proof {
        assert((n & 0xff) < 256 && ((n >> 8) & 0xff) < 256 && ((n >> 16) & 0xff) < 256 && ((n
            >> 24) & 0xff) < 256 && ((n >> 32) & 0xff) < 256 && ((n >> 40) & 0xff) < 256 && ((n
            >> 48) & 0xff) < 256 && ((n >> 56) & 0xff) < 256) by (bit_vector);
    }
    out.push((n & 0xff) as u8);
    out.push(((n >> 8) & 0xff) as u8);
    out.push(((n >> 16) & 0xff) as u8);
    out.push(((n >> 24) & 0xff) as u8);
    out.push(((n >> 32) & 0xff) as u8);
    out.push(((n >> 40) & 0xff) as u8);
    out.push(((n >> 48) & 0xff) as u8);
    out.push(((n >> 56) & 0xff) as u8);
    proof {
        assert(final(out)@ =~= old(out)@ + enc_u64(n));
    }
}

fn push_str(out: &mut Vec<u8>, s: &str)
    ensures
        final(out)@ == old(out)@ + enc_str(s@),
{
    let mut bytes = s.as_bytes_vec();
    push_u64(out, bytes.len() as u64);
    out.append(&mut bytes);
    proof {
        assert(final(out)@ =~= old(out)@ + enc_str(s@));
    }
}

fn push_instr(out: &mut Vec<u8>, ins: Instruction)
    ensures
        final(out)@ == old(out)@ + enc_instr(ins),
{
    let (tag, a, c): (u8, u64, u64) = match ins {
        Instruction::LoadConst(id) => (0u8, id as u64, 0u64),
        Instruction::LoadLocal(x) => (1u8, x as u64, 0u64),
        Instruction::StoreLocal(x) => (2u8, x as u64, 0u64),
        Instruction::Jump(t) => (3u8, t as u64, 0u64),
        Instruction::JumpIfFalse(t) => (4u8, t as u64, 0u64),
        Instruction::Add => (5u8, 0u64, 0u64),
        Instruction::Sub => (6u8, 0u64, 0u64),
        Instruction::Mul => (7u8, 0u64, 0u64),
        Instruction::Div => (8u8, 0u64, 0u64),
        Instruction::Neg => (9u8, 0u64, 0u64),
        Instruction::Not => (10u8, 0u64, 0u64),
        Instruction::Eq => (11u8, 0u64, 0u64),
        Instruction::Ne => (12u8, 0u64, 0u64),
        Instruction::Lt => (13u8, 0u64, 0u64),
        Instruction::Le => (14u8, 0u64, 0u64),
        Instruction::Gt => (15u8, 0u64, 0u64),
        Instruction::Ge => (16u8, 0u64, 0u64),
        Instruction::Call(f, argc) => (17u8, f as u64, argc as u64),
        Instruction::CallHost(sl, argc) => (18u8, sl as u64, argc as u64),
        Instruction::CallHostDynamic(cid, argc) => (19u8, cid as u64, argc as u64),
        Instruction::Return => (20u8, 0u64, 0u64),
        Instruction::Pop => (21u8, 0u64, 0u64),
    };
    out.push(tag);
    push_u64(out, a);
    push_u64(out, c);
    proof {
        assert(final(out)@ =~= old(out)@ + enc_instr(ins));
    }
}

fn push_const(out: &mut Vec<u8>, c: &Constant)
    ensures
        final(out)@ == old(out)@ + enc_const(c@),
{
    match c {
        Constant::Int(v) => {
            out.push(0u8);
            let uv: u64 = i64_to_u64(*v);
            push_u64(out, uv);
        },
        Constant::Bool(v) => {
            out.push(1u8);
            out.push(if *v {
                1u8
            } else {
                0u8
            });
        },
        Constant::String(s) => {
            out.push(2u8);
            push_str(out, s.as_str());
        },
        Constant::Unit => {
            out.push(3u8);
        },
    }
    proof {
        assert(final(out)@ =~= old(out)@ + enc_const(c@));
    }
}

/// Two's-complement reinterpretation of an integer constant.
fn i64_to_u64(v: i64) -> (r: u64)
    ensures
        r == v as u64,
{
    #[verifier::truncate] (v as u64)
}

/// Two's-complement reinterpretation back.
fn u64_to_i64(v: u64) -> (r: i64)
    ensures
        r == v as i64,
{
    #[verifier::truncate] (v as i64)
}

/// Encodes a whole module; see the module documentation for the layout.
pub fn serialize_module(m: &BytecodeModule) -> (out: Vec<u8>)
    ensures
        out@ == enc_module(m@),
{
    let mut out: Vec<u8> = Vec::new();
    push_u64(&mut out, m.constants.len() as u64);
    let mut i: usize = 0;
    while i < m.constants.len()
        invariant
            i <= m.constants@.len(),
            m@.constants.len() == m.constants@.len(),
            forall|j: int|
                0 <= j < m.constants@.len() ==> #[trigger] m@.constants[j] == m.constants@[j]@,
            out@ == enc_u64(m.constants@.len() as u64) + enc_consts(m@.constants.take(i as int)),
        decreases m.constants@.len() - i,
    {
        proof {
            lemma_enc_consts_push(m@.constants.take(i as int), m@.constants[i as int]);
            assert(m@.constants.take(i as int).push(m@.constants[i as int]) =~= m@.constants.take(
                i as int + 1,
            ));
        }
        push_const(&mut out, &m.constants[i]);
        proof {
            assert(out@ =~= enc_u64(m.constants@.len() as u64) + enc_consts(
                m@.constants.take(i as int + 1),
            ));
        }
        i = i + 1;
    }
    proof {
        assert(m@.constants.take(m@.constants.len() as int) =~= m@.constants);
    }
    push_u64(&mut out, m.globals.len() as u64);
    let ghost pre_globals = out@;
    let mut i: usize = 0;
    while i < m.globals.len()
        invariant
            i <= m.globals@.len(),
            m@.globals.len() == m.globals@.len(),
            forall|j: int|
                0 <= j < m.globals@.len() ==> #[trigger] m@.globals[j] == m.globals@[j]@,
            out@ == pre_globals + enc_globals(m@.globals.take(i as int)),
        decreases m.globals@.len() - i,
    {
        proof {
            lemma_enc_globals_push(m@.globals.take(i as int), m@.globals[i as int]);
            assert(m@.globals.take(i as int).push(m@.globals[i as int]) =~= m@.globals.take(
                i as int + 1,
            ));
        }
        let g = &m.globals[i];
        push_str(&mut out, g.name.as_str());
        push_u64(&mut out, g.value as u64);
        proof {
            assert(out@ =~= pre_globals + enc_globals(m@.globals.take(i as int + 1)));
        }
        i = i + 1;
    }
    proof {
        assert(m@.globals.take(m@.globals.len() as int) =~= m@.globals);
    }
    push_u64(&mut out, m.functions.len() as u64);
    let ghost pre_functions = out@;
    let mut i: usize = 0;
    while i < m.functions.len()
        invariant
            i <= m.functions@.len(),
            m@.functions.len() == m.functions@.len(),
            forall|j: int|
                0 <= j < m.functions@.len() ==> #[trigger] m@.functions[j] == m.functions@[j]@,
            out@ == pre_functions + enc_functions(m@.functions.take(i as int)),
        decreases m.functions@.len() - i,
    {
        proof {
            lemma_enc_functions_push(m@.functions.take(i as int), m@.functions[i as int]);
            assert(m@.functions.take(i as int).push(m@.functions[i as int]) =~= m@.functions.take(
                i as int + 1,
            ));
        }
        push_function(&mut out, &m.functions[i]);
        proof {
            assert(out@ =~= pre_functions + enc_functions(m@.functions.take(i as int + 1)));
        }
        i = i + 1;
    }
    proof {
        assert(m@.functions.take(m@.functions.len() as int) =~= m@.functions);
        assert(out@ =~= enc_module(m@));
    }
    out
}

fn push_function(out: &mut Vec<u8>, f: &Function)
    ensures
        final(out)@ == old(out)@ + enc_function(f@),
{
    push_str(out, f.name.as_str());
    push_u64(out, f.params as u64);
    push_u64(out, f.locals as u64);
    push_u64(out, f.instructions.len() as u64);
    let ghost pre = out@;
    let mut i: usize = 0;
    while i < f.instructions.len()
        invariant
            i <= f.instructions@.len(),
            f@.instructions.len() == f.instructions@.len(),
            f@.instructions == f.instructions@,
            out@ == pre + enc_instrs(f@.instructions.take(i as int)),
        decreases f.instructions@.len() - i,
    {
        proof {
            lemma_enc_instrs_push(f@.instructions.take(i as int), f@.instructions[i as int]);
            assert(f@.instructions.take(i as int).push(f@.instructions[i as int])
                =~= f@.instructions.take(i as int + 1));
        }
        push_instr(out, f.instructions[i]);
        proof {
            assert(out@ =~= pre + enc_instrs(f@.instructions.take(i as int + 1)));
        }
        i = i + 1;
    }
    proof {
        assert(f@.instructions.take(f@.instructions.len() as int) =~= f@.instructions);
        assert(final(out)@ =~= old(out)@ + enc_function(f@));
    }
}

// ---------------------------------------------------------------------------
// executable decoder
// ---------------------------------------------------------------------------

fn read_u64(bytes: &[u8], pos: usize) -> (r: Result<(u64, usize), DecodeError>)
    ensures
        match r {
            Ok((n, p)) => dec_u64(bytes@, pos as int) == Some((n, p as int)),
            Err(_) => dec_u64(bytes@, pos as int) is None,
        },
{
    if bytes.len() >= 8 && pos <= bytes.len() - 8 {
        let n = (bytes[pos] as u64) | ((bytes[pos + 1] as u64) << 8) | ((bytes[pos + 2] as u64)
            << 16) | ((bytes[pos + 3] as u64) << 24) | ((bytes[pos + 4] as u64) << 32) | ((bytes[
            pos + 5] as u64) << 40) | ((bytes[pos + 6] as u64) << 48) | ((bytes[pos + 7] as u64)
            << 56);
        Ok((n, pos + 8))
    } else {
        Err(DecodeError)
    }
}

#[verifier::loop_isolation(false)]
fn read_str(bytes: &[u8], pos: usize) -> (r: Result<(String, usize), DecodeError>)
    ensures
        match r {
            Ok((s, p)) => dec_str(bytes@, pos as int) == Some((s@, p as int)),
            Err(_) => dec_str(bytes@, pos as int) is None,
        },
{
    let (len, p1) = match read_u64(bytes, pos) {
        Ok(v) => v,
        Err(e) => {
            return Err(e);
        },
    };
    if len > (bytes.len() - p1) as u64 {
        return Err(DecodeError);
    }
    let n = len as usize;
    let mut buf: Vec<u8> = Vec::new();
    let mut i: usize = 0;
    while i < n
        invariant
            i <= n,
            p1 + n <= bytes@.len(),
            buf@ == bytes@.subrange(p1 as int, p1 as int + i as int),
        decreases n - i,
    {
        buf.push(bytes[p1 + i]);
        proof {
            assert(buf@ =~= bytes@.subrange(p1 as int, p1 as int + i as int + 1));
        }
        i = i + 1;
    }
    match string_from_utf8(buf) {
        Some(s) => Ok((s, p1 + n)),
        None => Err(DecodeError),
    }
}

fn build_instr(tag: u8, a: u64, c: u64) -> (r: Option<Instruction>)
    ensures
        r == instr_from_parts(tag, a, c),
{
    if tag == 0 {
        if a <= u32::MAX as u64 {
            Some(Instruction::LoadConst(a as u32))
        } else {
            None
        }
    } else if tag == 1 {
        if a <= u16::MAX as u64 {
            Some(Instruction::LoadLocal(a as u16))
        } else {
            None
        }
    } else if tag == 2 {
        if a <= u16::MAX as u64 {
            Some(Instruction::StoreLocal(a as u16))
        } else {
            None
        }
    } else if tag == 3 {
        if a <= usize::MAX as u64 {
            Some(Instruction::Jump(a as usize))
        } else {
            None
        }
    } else if tag == 4 {
        if a <= usize::MAX as u64 {
            Some(Instruction::JumpIfFalse(a as usize))
        } else {
            None
        }
    } else if tag == 5 {
        Some(Instruction::Add)
    } else if tag == 6 {
        Some(Instruction::Sub)
    } else if tag == 7 {
        Some(Instruction::Mul)
    } else if tag == 8 {
        Some(Instruction::Div)
    } else if tag == 9 {
        Some(Instruction::Neg)
    } else if tag == 10 {
        Some(Instruction::Not)
    } else if tag == 11 {
        Some(Instruction::Eq)
    } else if tag == 12 {
        Some(Instruction::Ne)
    } else if tag == 13 {
        Some(Instruction::Lt)
    } else if tag == 14 {
        Some(Instruction::Le)
    } else if tag == 15 {
        Some(Instruction::Gt)
    } else if tag == 16 {
        Some(Instruction::Ge)
    } else if tag == 17 {
        if a <= u32::MAX as u64 && c <= u16::MAX as u64 {
            Some(Instruction::Call(a as u32, c as u16))
        } else {
            None
        }
    } else if tag == 18 {
        if a <= u32::MAX as u64 && c <= u16::MAX as u64 {
            Some(Instruction::CallHost(a as u32, c as u16))
        } else {
            None
        }
    } else if tag == 19 {
        if a <= u32::MAX as u64 && c <= u16::MAX as u64 {
            Some(Instruction::CallHostDynamic(a as u32, c as u16))
        } else {
            None
        }
    } else if tag == 20 {
        Some(Instruction::Return)
    } else if tag == 21 {
        Some(Instruction::Pop)
    } else {
        None
    }
}

fn read_instr(bytes: &[u8], pos: usize) -> (r: Result<(Instruction, usize), DecodeError>)
    ensures
        match r {
            Ok((i, p)) => dec_instr(bytes@, pos as int) == Some((i, p as int)),
            Err(_) => dec_instr(bytes@, pos as int) is None,
        },
{
    if pos >= bytes.len() {
        return Err(DecodeError);
    }
    let tag = bytes[pos];
    let (a, p1) = match read_u64(bytes, pos + 1) {
        Ok(v) => v,
        Err(e) => {
            return Err(e);
        },
    };
    let (c, p2) = match read_u64(bytes, p1) {
        Ok(v) => v,
        Err(e) => {
            return Err(e);
        },
    };
    match build_instr(tag, a, c) {
        Some(i) => Ok((i, p2)),
        None => Err(DecodeError),
    }
}

fn read_const(bytes: &[u8], pos: usize) -> (r: Result<(Constant, usize), DecodeError>)
    ensures
        match r {
            Ok((c, p)) => dec_const(bytes@, pos as int) == Some((c@, p as int)),
            Err(_) => dec_const(bytes@, pos as int) is None,
        },
{
    if pos >= bytes.len() {
        return Err(DecodeError);
    }
    let tag = bytes[pos];
    if tag == 0 {
        match read_u64(bytes, pos + 1) {
            Ok((n, p1)) => Ok((Constant::Int(u64_to_i64(n)), p1)),
            Err(e) => Err(e),
        }
    } else if tag == 1 {
        if bytes.len() - pos >= 2 && (bytes[pos + 1] == 0 || bytes[pos + 1] == 1) {
            Ok((Constant::Bool(bytes[pos + 1] == 1), pos + 2))
        } else {
            Err(DecodeError)
        }
    } else if tag == 2 {
        match read_str(bytes, pos + 1) {
            Ok((s, p1)) => Ok((Constant::String(s), p1)),
            Err(e) => Err(e),
        }
    } else if tag == 3 {
        Ok((Constant::Unit, pos + 1))
    } else {
        Err(DecodeError)
    }
}

fn read_global(bytes: &[u8], pos: usize) -> (r: Result<(Global, usize), DecodeError>)
    ensures
        match r {
            Ok((g, p)) => dec_global(bytes@, pos as int) == Some((g@, p as int)),
            Err(_) => dec_global(bytes@, pos as int) is None,
        },
{
    let (name, p1) = match read_str(bytes, pos) {
        Ok(v) => v,
        Err(e) => {
            return Err(e);
        },
    };
    let (v, p2) = match read_u64(bytes, p1) {
        Ok(v) => v,
        Err(e) => {
            return Err(e);
        },
    };
    if v <= u32::MAX as u64 {
        Ok((Global { name, value: v as u32 }, p2))
    } else {
        Err(DecodeError)
    }
}

/// Prepending one decoded element commutes with extending the accumulator.
proof fn lemma_cons_assoc<T>(pre: Seq<T>, x: T, o: Option<(Seq<T>, int)>)
    ensures
        (match o {
            Some((rest, p)) => Some::<(Seq<T>, int)>((pre + (seq![x] + rest), p)),
            None => None,
        }) == (match o {
            Some((rest, p)) => Some::<(Seq<T>, int)>((pre.push(x) + rest, p)),
            None => None,
        }),
{
    match o {
        Some((rest, p)) => {
            assert(pre + (seq![x] + rest) =~= pre.push(x) + rest);
        },
        None => {},
    }
}

#[verifier::loop_isolation(false)]
fn read_function(bytes: &[u8], pos: usize) -> (r: Result<(Function, usize), DecodeError>)
    ensures
        match r {
            Ok((f, p)) => dec_function(bytes@, pos as int) == Some((f@, p as int)),
            Err(_) => dec_function(bytes@, pos as int) is None,
        },
{
    let (name, p1) = match read_str(bytes, pos) {
        Ok(v) => v,
        Err(e) => {
            return Err(e);
        },
    };
    let (params, p2) = match read_u64(bytes, p1) {
        Ok(v) => v,
        Err(e) => {
            return Err(e);
        },
    };
    let (locals, p3) = match read_u64(bytes, p2) {
        Ok(v) => v,
        Err(e) => {
            return Err(e);
        },
    };
    let (count, p4) = match read_u64(bytes, p3) {
        Ok(v) => v,
        Err(e) => {
            return Err(e);
        },
    };
    if params > u16::MAX as u64 || locals > u16::MAX as u64 {
        return Err(DecodeError);
    }
    let mut instrs: Vec<Instruction> = Vec::new();
    let mut cur = p4;
    let mut i: u64 = 0;
    while i < count
        invariant
            i <= count,
            instrs@.len() == i,
            dec_instrs(bytes@, p4 as int, count as int) == (match dec_instrs(
                bytes@,
                cur as int,
                (count - i) as int,
            ) {
                Some((rest, p)) => Some::<(Seq<Instruction>, int)>((instrs@ + rest, p)),
                None => None,
            }),
        decreases count - i,
    {
        let (ins, p) = match read_instr(bytes, cur) {
            Ok(v) => v,
            Err(e) => {
                return Err(e);
            },
        };
        proof {
            lemma_cons_assoc(instrs@, ins, dec_instrs(bytes@, p as int, (count - i - 1) as int));
        }
        instrs.push(ins);
        cur = p;
        i = i + 1;
    }
    proof {
        assert(instrs@ + Seq::<Instruction>::empty() =~= instrs@);
    }
    Ok((Function { name, params: params as u16, locals: locals as u16, instructions: instrs }, cur))
}

/// Decodes a whole module; the input must be consumed exactly.
#[verifier::loop_isolation(false)]
pub fn deserialize_module(bytes: &[u8]) -> (r: Result<BytecodeModule, DecodeError>)
    ensures
        match r {
            Ok(m) => dec_module(bytes@) == Some(m@),
            Err(_) => dec_module(bytes@) is None,
        },
{
    let (nc, p1) = match read_u64(bytes, 0) {
        Ok(v) => v,
        Err(e) => {
            return Err(e);
        },
    };
    let mut constants: Vec<Constant> = Vec::new();
    let mut cur = p1;
    let mut i: u64 = 0;
    while i < nc
        invariant
            i <= nc,
            constants@.len() == i,
            dec_consts(bytes@, p1 as int, nc as int) == (match dec_consts(
                bytes@,
                cur as int,
                (nc - i) as int,
            ) {
                Some((rest, p)) => Some::<(Seq<ConstModel>, int)>(
                    (constants@.map_values(|c: Constant| c@) + rest, p),
                ),
                None => None,
            }),
        decreases nc - i,
    {
        let (c, p) = match read_const(bytes, cur) {
            Ok(v) => v,
            Err(e) => {
                return Err(e);
            },
        };
        proof {
            lemma_cons_assoc(
                constants@.map_values(|x: Constant| x@),
                c@,
                dec_consts(bytes@, p as int, (nc - i - 1) as int),
            );
        }
        constants.push(c);
        proof {
            assert(constants@.map_values(|x: Constant| x@) =~= old_map_push_const(
                constants@,
            ));
        }
        cur = p;
        i = i + 1;
    }
    proof {
        assert(constants@.map_values(|x: Constant| x@) + Seq::<ConstModel>::empty()
            =~= constants@.map_values(|x: Constant| x@));
    }
    let (ng, p3) = match read_u64(bytes, cur) {
        Ok(v) => v,
        Err(e) => {
            return Err(e);
        },
    };
    let mut globals: Vec<Global> = Vec::new();
    let mut cur2 = p3;
    let mut i: u64 = 0;
    let ghost gstart = cur2 as int;
    while i < ng
        invariant
            i <= ng,
            globals@.len() == i,
            dec_globals(bytes@, gstart, ng as int) == (match dec_globals(
                bytes@,
                cur2 as int,
                (ng - i) as int,
            ) {
                Some((rest, p)) => Some::<(Seq<GlobalModel>, int)>(
                    (globals@.map_values(|g: Global| g@) + rest, p),
                ),
                None => None,
            }),
        decreases ng - i,
    {
        let (g, p) = match read_global(bytes, cur2) {
            Ok(v) => v,
            Err(e) => {
                return Err(e);
            },
        };
        proof {
            lemma_cons_assoc(
                globals@.map_values(|x: Global| x@),
                g@,
                dec_globals(bytes@, p as int, (ng - i - 1) as int),
            );
        }
        globals.push(g);
        proof {
            assert(globals@.map_values(|x: Global| x@) =~= old_map_push_global(globals@));
        }
        cur2 = p;
        i = i + 1;
    }
    proof {
        assert(globals@.map_values(|x: Global| x@) + Seq::<GlobalModel>::empty()
            =~= globals@.map_values(|x: Global| x@));
    }
    let (nf, p5) = match read_u64(bytes, cur2) {
        Ok(v) => v,
        Err(e) => {
            return Err(e);
        },
    };
    let mut functions: Vec<Function> = Vec::new();
    let mut cur3 = p5;
    let mut i: u64 = 0;
    let ghost fstart = cur3 as int;
    while i < nf
        invariant
            i <= nf,
            functions@.len() == i,
            dec_functions(bytes@, fstart, nf as int) == (match dec_functions(
                bytes@,
                cur3 as int,
                (nf - i) as int,
            ) {
                Some((rest, p)) => Some::<(Seq<FunctionModel>, int)>(
                    (functions@.map_values(|f: Function| f@) + rest, p),
                ),
                None => None,
            }),
        decreases nf - i,
    {
        let (f, p) = match read_function(bytes, cur3) {
            Ok(v) => v,
            Err(e) => {
                return Err(e);
            },
        };
        proof {
            lemma_cons_assoc(
                functions@.map_values(|x: Function| x@),
                f@,
                dec_functions(bytes@, p as int, (nf - i - 1) as int),
            );
        }
        functions.push(f);
        proof {
            assert(functions@.map_values(|x: Function| x@) =~= old_map_push_function(
                functions@,
            ));
        }
        cur3 = p;
        i = i + 1;
    }
    proof {
        assert(functions@.map_values(|x: Function| x@) + Seq::<FunctionModel>::empty()
            =~= functions@.map_values(|x: Function| x@));
    }
    if cur3 == bytes.len() {
        let m = BytecodeModule { constants, globals, functions };
        Ok(m)
    } else {
        Err(DecodeError)
    }
}

/// The accumulated views after a push: definitionally the pushed views.
pub open spec fn old_map_push_const(v: Seq<Constant>) -> Seq<ConstModel> {
    v.drop_last().map_values(|x: Constant| x@).push(v.last()@)
}

pub open spec fn old_map_push_global(v: Seq<Global>) -> Seq<GlobalModel> {
    v.drop_last().map_values(|x: Global| x@).push(v.last()@)
}

pub open spec fn old_map_push_function(v: Seq<Function>) -> Seq<FunctionModel> {
    v.drop_last().map_values(|x: Function| x@).push(v.last()@)
}

} // verus!
