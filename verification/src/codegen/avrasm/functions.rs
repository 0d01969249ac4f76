//! Generation of AVR assembly for one function of the intermediate
//! representation: register allocation and the translation of each instruction.
use vstd::prelude::*;
use super::utils::{
    command_text, comment_text, generate_command, generate_comment, generate_label, get_label,
    get_size_datatype, label_text, size_of_type,
};
use crate::cli::{Error, Severity};
use crate::cli::errors::fails_with;
use crate::irgen::{Instruction, Literal, OpCode, Symbol, Value};
use crate::irgen::function::{Function, FunctionV, signature_text, vec_contains};
use crate::irgen::instruction::{InstructionV, SymbolV, ValueV, values_view};
use crate::table::Table;
use crate::text::{i128_text, int_text, nat_text, usize_text};

verus! {

/// A wrapper for giving a context to code generation for an avrasm function
pub struct FunctionGenerationContext {
    free_registers: Vec<usize>,
    function: Function,
    symbol_map: Table<String, usize>,
    temp_reg: usize,
    last_temp_assignment: String,
}

/// The mathematical value of a [`FunctionGenerationContext`].
pub struct ContextV {
    pub free_registers: Seq<usize>,
    pub function: FunctionV,
    pub symbol_map: Map<Seq<char>, usize>,
    pub temp_reg: usize,
    pub last_temp: Seq<char>,
}

impl View for FunctionGenerationContext {
    type V = ContextV;

    closed spec fn view(&self) -> ContextV {
        ContextV {
            free_registers: self.free_registers@,
            function: self.function@,
            symbol_map: self.symbol_map.map(),
            temp_reg: self.temp_reg,
            last_temp: self.last_temp_assignment@,
        }
    }
}

/// Every register number in the context names one of the 256 registers.
pub open spec fn registers_bounded(c: ContextV) -> bool {
    &&& forall|i: int| 0 <= i < c.free_registers.len() ==> #[trigger] c.free_registers[i] < 256
    &&& forall|k: Seq<char>| #[trigger] c.symbol_map.contains_key(k) ==> c.symbol_map[k] < 256
}

/// A context for `f` with no register allocated: r17 to r23 and r25 are free.
pub open spec fn new_context_v(f: FunctionV) -> ContextV {
    ContextV {
        free_registers: seq![25usize, 23, 22, 21, 20, 19, 18, 17],
        function: f,
        symbol_map: Map::empty(),
        temp_reg: 16,
        last_temp: Seq::empty(),
    }
}

/// An error: its severity and message.
pub type ErrV = (Severity, Seq<char>);

/// The outcome of a generation step: `None` where it stops the program, else
/// its result or error, with the context as it is left.
pub type Gen<T> = Option<(Result<T, ErrV>, ContextV)>;

/// The error given when no register is free.
pub open spec fn no_registers() -> ErrV {
    (Severity::Error, "No more registers available"@)
}

/// Taking an 8 bit register: the last free one.
pub open spec fn u8_register_v(c: ContextV) -> (Result<usize, ErrV>, ContextV) {
    if c.free_registers.len() == 0 {
        (Err(no_registers()), c)
    } else {
        (Ok(c.free_registers.last()), ContextV { free_registers: c.free_registers.drop_last(), ..c })
    }
}

/// The free register at `i` is even and the one after it is free too.
pub open spec fn pairs_with_next(fr: Seq<usize>, i: int) -> bool {
    fr[i] % 2 == 0 && fr.contains((fr[i] + 1) as usize)
}

/// The first position from `from` on whose register starts a free pair.
pub open spec fn first_pair(fr: Seq<usize>, from: nat) -> Option<nat>
    decreases fr.len() - from,
{
    if from >= fr.len() {
        None
    } else if pairs_with_next(fr, from as int) {
        Some(from)
    } else {
        first_pair(fr, from + 1)
    }
}

/// The first position from `from` on that holds `x` (the length when there is none).
pub open spec fn first_index(s: Seq<usize>, x: usize, from: nat) -> nat
    decreases s.len() - from,
{
    if from >= s.len() {
        from
    } else if s[from as int] == x {
        from
    } else {
        first_index(s, x, from + 1)
    }
}

/// Taking a 16 bit register: the first free even register whose successor
/// is free too; both leave the free list.
pub open spec fn u16_register_v(c: ContextV) -> (Result<usize, ErrV>, ContextV) {
    let fr = c.free_registers;
    match first_pair(fr, 0) {
        None => (Err(no_registers()), c),
        Some(i) => {
            let v = fr[i as int];
            let fr1 = fr.remove(i as int);
            let j = first_index(fr1, (v + 1) as usize, 0);
            (Ok(v), ContextV { free_registers: fr1.remove(j as int), ..c })
        },
    }
}

/// The register of a symbol: the one it was given before, else a fresh one
/// of its size, recorded for it.
pub open spec fn register_v(c: ContextV, s: SymbolV) -> Gen<usize> {
    if c.symbol_map.contains_key(s.title) {
        Some((Ok(c.symbol_map[s.title]), c))
    } else {
        match size_of_type(s.datatype) {
            None => None,
            Some(n) => {
                let (r, c1) = if n == 1 {
                    u8_register_v(c)
                } else {
                    u16_register_v(c)
                };
                match r {
                    Ok(reg) => Some((Ok(reg), ContextV { symbol_map: c1.symbol_map.insert(s.title, reg), ..c1 })),
                    Err(e) => Some((Err(e), c1)),
                }
            },
        }
    }
}

/// The name of register `r`.
pub open spec fn reg_text(r: usize) -> Seq<char> {
    "r"@ + nat_text(r as nat)
}

/// The low byte of a value.
pub open spec fn low_byte(v: i128) -> i128 {
    v & 0xFF
}

/// The high byte of a 16 bit value.
pub open spec fn high_byte(v: i128) -> i128 {
    (v & 0xFF00) >> 8
}

/// Whether an address can be reached by the `in` and `out` commands.
pub open spec fn io_address(v: i128) -> bool {
    0x20 <= v < 0x60
}

/// Loading `v` into the temporary register r16, unless it already holds it.
pub open spec fn temp_load_v(c: ContextV, v: Seq<char>) -> (Seq<char>, ContextV) {
    if c.last_temp != v {
        (command_text("ldi r16, "@ + v), ContextV { last_temp: v, ..c })
    } else {
        (Seq::empty(), c)
    }
}

/// Loading an address into the X index register (r26, r27).
pub open spec fn load_x_text(address: i128) -> Seq<char> {
    command_text("ldi r26, "@ + int_text(low_byte(address) as int)) + command_text(
        "ldi r27, "@ + int_text(high_byte(address) as int),
    )
}

/// The error of storing a 16 bit value in an 8 bit register.
pub open spec fn register_too_small() -> ErrV {
    (Severity::Error, "Cannot assign 16 bit value to an 8 bit register"@)
}

/// Text `t` with the context `c`.
pub open spec fn done(t: Seq<char>, c: ContextV) -> Gen<Seq<char>> {
    Some((Ok(t), c))
}

/// Moving a literal into a target.
pub open spec fn move_literal_v(c: ContextV, target: ValueV, lit: Literal, force: bool) -> Gen<Seq<char>> {
    match target {
        ValueV::Symbol(symb) => if !symb.datatype.is_ref || force {
            match register_v(c, symb) {
                None => None,
                Some((Err(e), c1)) => Some((Err(e), c1)),
                Some((Ok(reg), c1)) => {
                    let t1 = command_text("ldi "@ + reg_text(reg) + ", "@ + int_text(low_byte(lit.value) as int));
                    match size_of_type(lit.datatype) {
                        None => None,
                        Some(n) => if n == 2 {
                            match register_v(c1, symb) {
                                None => None,
                                Some((Err(e), c2)) => Some((Err(e), c2)),
                                Some((Ok(reg2), c2)) => done(
                                    t1 + command_text(
                                        "ldi "@ + reg_text((reg2 + 1) as usize) + ", "@ + int_text(
                                            high_byte(lit.value) as int,
                                        ),
                                    ),
                                    c2,
                                ),
                            }
                        } else {
                            done(t1, c1)
                        },
                    }
                },
            }
        } else {
            match register_v(c, symb) {
                None => None,
                Some((Err(e), c1)) => Some((Err(e), c1)),
                Some((Ok(reg), c1)) => {
                    let t1 = command_text("movw r26, "@ + nat_text(reg as nat));
                    let (t2, c2) = temp_load_v(c1, int_text(low_byte(lit.value) as int));
                    let t3 = command_text("st X, r16"@);
                    match size_of_type(lit.datatype) {
                        None => None,
                        Some(n) => if n == 2 {
                            let (t4, c3) = temp_load_v(c2, int_text(high_byte(lit.value) as int));
                            done(t1 + t2 + t3 + t4 + command_text("st +X, r16"@), c3)
                        } else {
                            done(t1 + t2 + t3, c2)
                        },
                    }
                },
            }
        },
        ValueV::Literal(tl) => if !tl.datatype.is_ref || force {
            None
        } else if io_address(tl.value) {
            let (t1, c1) = temp_load_v(c, int_text(low_byte(lit.value) as int));
            let t2 = command_text("out "@ + int_text(tl.value - 0x20) + ", r16"@);
            match size_of_type(lit.datatype) {
                None => None,
                Some(n) => if n == 2 {
                    Some((Err(register_too_small()), c1))
                } else {
                    done(t1 + t2, c1)
                },
            }
        } else {
            let t1 = load_x_text(tl.value);
            let (t2, c1) = temp_load_v(c, int_text(low_byte(lit.value) as int));
            let t3 = command_text("st X, r16"@);
            match size_of_type(lit.datatype) {
                None => None,
                Some(n) => if n == 2 {
                    let (t4, c2) = temp_load_v(c1, int_text(high_byte(lit.value) as int));
                    done(t1 + t2 + t3 + t4 + command_text("st +X, r16"@), c2)
                } else {
                    done(t1 + t2 + t3, c1)
                },
            }
        },
        ValueV::Label(_) => None,
    }
}

/// Moving a symbol into a target.
pub open spec fn move_symbol_v(c: ContextV, target: ValueV, src: SymbolV, force: bool) -> Gen<Seq<char>> {
    match register_v(c, src) {
        None => None,
        Some((Err(e), c1)) => Some((Err(e), c1)),
        Some((Ok(src_reg), c1)) => match target {
            ValueV::Symbol(symb) => if !symb.datatype.is_ref || force {
                match size_of_type(src.datatype) {
                    None => None,
                    Some(n) => match register_v(c1, symb) {
                        None => None,
                        Some((Err(e), c2)) => Some((Err(e), c2)),
                        Some((Ok(reg), c2)) => done(
                            command_text(
                                (if n == 1 {
                                    "mov "@
                                } else {
                                    "movw "@
                                }) + reg_text(reg) + ", "@ + reg_text(src_reg),
                            ),
                            c2,
                        ),
                    },
                }
            } else {
                match register_v(c1, symb) {
                    None => None,
                    Some((Err(e), c2)) => Some((Err(e), c2)),
                    Some((Ok(reg), c2)) => {
                        let t = command_text("movw r26, "@ + nat_text(reg as nat)) + command_text(
                            "st X, "@ + reg_text(src_reg),
                        );
                        match size_of_type(src.datatype) {
                            None => None,
                            Some(n) => if n == 2 {
                                done(t + command_text("st +X, "@ + reg_text((src_reg + 1) as usize)), c2)
                            } else {
                                done(t, c2)
                            },
                        }
                    },
                }
            },
            ValueV::Literal(tl) => if !tl.datatype.is_ref || force {
                None
            } else if io_address(tl.value) {
                let t = command_text("out "@ + int_text(tl.value - 0x20) + ", "@ + reg_text(src_reg));
                match size_of_type(src.datatype) {
                    None => None,
                    Some(n) => if n == 2 {
                        Some((Err(register_too_small()), c1))
                    } else {
                        done(t, c1)
                    },
                }
            } else {
                let t = load_x_text(tl.value) + command_text("st X, "@ + reg_text(src_reg));
                match size_of_type(src.datatype) {
                    None => None,
                    Some(n) => if n == 2 {
                        done(t + command_text("st +X, "@ + reg_text((src_reg + 1) as usize)), c1)
                    } else {
                        done(t, c1)
                    },
                }
            },
            ValueV::Label(_) => None,
        },
    }
}

/// The error of using a label as a value.
pub open spec fn label_as_value() -> ErrV {
    (Severity::FatalError, "Cannot use label as a value"@)
}

/// Moving `value` into `target` (`force` moves into a reference itself rather
/// than the memory it refers to).
pub open spec fn move_v(c: ContextV, target: ValueV, value: ValueV, force: bool) -> Gen<Seq<char>> {
    match value {
        ValueV::Label(_) => Some((Err(label_as_value()), c)),
        ValueV::Literal(lit) => move_literal_v(c, target, lit, force),
        ValueV::Symbol(src) => move_symbol_v(c, target, src, force),
    }
}


/// Loading into `target` the memory that `value` refers to.
pub open spec fn deref_v(c: ContextV, target: ValueV, value: ValueV) -> Gen<Seq<char>> {
    match value {
        ValueV::Label(_) => Some((Err(label_as_value()), c)),
        ValueV::Literal(lit) => match target {
            ValueV::Symbol(symb) => match register_v(c, symb) {
                None => None,
                Some((Err(e), c1)) => Some((Err(e), c1)),
                Some((Ok(reg), c1)) => match size_of_type(symb.datatype) {
                    None => None,
                    Some(n) => if io_address(lit.value) {
                        if n == 1 {
                            done(command_text("in "@ + reg_text(reg) + ", "@ + int_text(lit.value - 0x20)), c1)
                        } else {
                            done(
                                command_text("in "@ + reg_text(reg) + ", "@ + int_text(lit.value - 0x20))
                                    + command_text(
                                    "in "@ + reg_text((reg + 1) as usize) + ", "@ + int_text(lit.value + 1 - 0x20),
                                ),
                                c1,
                            )
                        }
                    } else {
                        let t = load_x_text(lit.value) + command_text("ld "@ + reg_text(reg) + ", X"@);
                        if n == 2 {
                            done(t + command_text("ld "@ + reg_text((reg + 1) as usize) + ", +X"@), c1)
                        } else {
                            done(t, c1)
                        }
                    },
                },
            },
            _ => None,
        },
        ValueV::Symbol(src) => match target {
            ValueV::Symbol(symb) => match register_v(c, symb) {
                None => None,
                Some((Err(e), c1)) => Some((Err(e), c1)),
                Some((Ok(reg), c1)) => match register_v(c1, src) {
                    None => None,
                    Some((Err(e), c2)) => Some((Err(e), c2)),
                    Some((Ok(src_reg), c2)) => {
                        let t = command_text("movw r26, "@ + reg_text(src_reg)) + command_text(
                            "ld "@ + reg_text(reg) + ", X"@,
                        );
                        match size_of_type(symb.datatype) {
                            None => None,
                            Some(n) => if n == 2 {
                                done(t + command_text("ld "@ + reg_text((reg + 1) as usize) + ", +X"@), c2)
                            } else {
                                done(t, c2)
                            },
                        }
                    },
                },
            },
            _ => None,
        },
    }
}

/// An error of severity `Error` with message `m`.
pub open spec fn plain_error(m: Seq<char>) -> ErrV {
    (Severity::Error, m)
}

/// Adding `v1` to `v0` into `dest` (only `dest += v1` is supported; a literal
/// first operand is swapped with the second). Adding the literal 1 to a one
/// byte value is an `inc`; otherwise the low byte is added with `add`, which
/// sets the carry that the `adc` of a high byte takes up (`inc` sets no carry).
pub open spec fn add_v(c: ContextV, dest: ValueV, v0: ValueV, v1: ValueV) -> Gen<Seq<char>>
    decreases (if v0 is Literal {
        1nat
    } else {
        0nat
    }),
{
    match dest {
        ValueV::Symbol(d) => match register_v(c, d) {
            None => None,
            Some((Err(e), c1)) => Some((Err(e), c1)),
            Some((Ok(dest_reg), c1)) => match v0 {
                ValueV::Label(_) => Some((Err(label_as_value()), c1)),
                ValueV::Literal(_) => if v1 is Literal {
                    Some((Err(plain_error("Add command invoked with two literals"@)), c1))
                } else {
                    add_v(c1, dest, v1, v0)
                },
                ValueV::Symbol(s0) => if dest != v0 {
                    None
                } else {
                    match v1 {
                        ValueV::Symbol(s1) => match register_v(c1, s1) {
                            None => None,
                            Some((Err(e), c2)) => Some((Err(e), c2)),
                            Some((Ok(r1), c2)) => {
                                let t = command_text("add "@ + reg_text(dest_reg) + ", "@ + reg_text(r1));
                                match size_of_type(s0.datatype) {
                                    None => None,
                                    Some(n) => if n == 2 {
                                        match register_v(c2, s1) {
                                            None => None,
                                            Some((Err(e), c3)) => Some((Err(e), c3)),
                                            Some((Ok(r1b), c3)) => done(
                                                t + command_text(
                                                    "adc "@ + reg_text((dest_reg + 1) as usize) + ", "@ + reg_text(
                                                        (r1b + 1) as usize,
                                                    ),
                                                ),
                                                c3,
                                            ),
                                        }
                                    } else {
                                        done(t, c2)
                                    },
                                }
                            },
                        },
                        ValueV::Literal(l1) => {
                            let (t1, c2) = if l1.value == 1 && size_of_type(s0.datatype) == Some(1usize) {
                                (command_text("inc "@ + reg_text(dest_reg)), c1)
                            } else {
                                let (tl, cc) = temp_load_v(c1, int_text(low_byte(l1.value) as int));
                                (tl + command_text("add "@ + reg_text(dest_reg) + ", r16"@), cc)
                            };
                            match size_of_type(s0.datatype) {
                                None => None,
                                Some(n) => if n == 2 {
                                    let (t2, c3) = temp_load_v(c2, int_text(high_byte(l1.value) as int));
                                    done(
                                        t1 + t2 + command_text("adc "@ + reg_text((dest_reg + 1) as usize) + ", r16"@),
                                        c3,
                                    )
                                } else {
                                    done(t1, c2)
                                },
                            }
                        },
                        ValueV::Label(_) => Some((Err(plain_error("Unable to read value from label"@)), c1)),
                    }
                },
            },
        },
        _ => Some((Err(plain_error("Unable to assign to anything but a symbol"@)), c)),
    }
}

/// A branch with the AVR command `inst` to `l0` after comparing `v0` with
/// `v1` (only an 8 bit symbol first), and a jump to `l1` otherwise.
pub open spec fn branch_v(
    c: ContextV,
    inst: Seq<char>,
    v0: ValueV,
    v1: ValueV,
    l0: ValueV,
    l1: ValueV,
) -> Gen<Seq<char>> {
    match (l0, l1) {
        (ValueV::Label(label0), ValueV::Label(label1)) => match v0 {
            ValueV::Symbol(s0) => match register_v(c, s0) {
                None => None,
                Some((Err(e), c1)) => Some((Err(e), c1)),
                Some((Ok(r0), c1)) => if size_of_type(s0.datatype) != Some(1usize) {
                    None
                } else {
                    let tail = command_text(inst + " "@ + full_label(c.function, label0)) + command_text(
                        "jmp "@ + full_label(c.function, label1),
                    );
                    match v1 {
                        ValueV::Symbol(s1) => match register_v(c1, s1) {
                            None => None,
                            Some((Err(e), c2)) => Some((Err(e), c2)),
                            Some((Ok(r1), c2)) => done(
                                command_text("cp "@ + reg_text(r0) + ", "@ + reg_text(r1)) + tail,
                                c2,
                            ),
                        },
                        ValueV::Literal(lit1) => done(
                            command_text("cpi "@ + reg_text(r0) + ", "@ + int_text(lit1.value as int)) + tail,
                            c1,
                        ),
                        ValueV::Label(_) => None,
                    }
                },
            },
            _ => None,
        },
        _ => Some((Err(plain_error("Expected a label"@)), c)),
    }
}

/// The assembly of one instruction.
#[verifier::opaque]
pub open spec fn instruction_v(c: ContextV, inst: InstructionV) -> Gen<Seq<char>> {
    let a = inst.arguments;
    match inst.opcode {
        OpCode::Nop => done(Seq::empty(), c),
        OpCode::Jmp => if a.len() < 1 {
            None
        } else {
            match a[0] {
                ValueV::Label(l) => done(command_text("jmp "@ + full_label(c.function, l)), c),
                _ => done(Seq::empty(), c),
            }
        },
        OpCode::Mov | OpCode::Alloc | OpCode::Cast => if a.len() < 2 {
            None
        } else {
            move_v(c, a[0], a[1], false)
        },
        OpCode::Deref => if a.len() < 2 {
            None
        } else {
            deref_v(c, a[0], a[1])
        },
        OpCode::Add => if a.len() < 3 {
            None
        } else {
            add_v(c, a[0], a[1], a[2])
        },
        OpCode::Beq => if a.len() < 4 {
            None
        } else {
            branch_v(c, "breq"@, a[0], a[1], a[2], a[3])
        },
        OpCode::Bne => if a.len() < 4 {
            None
        } else {
            branch_v(c, "brne"@, a[0], a[1], a[2], a[3])
        },
        OpCode::Blt => if a.len() < 4 {
            None
        } else {
            branch_v(c, "brlo"@, a[0], a[1], a[2], a[3])
        },
        OpCode::Ble => if a.len() < 4 {
            None
        } else {
            branch_v(c, "brlo"@, a[1], a[0], a[3], a[2])
        },
        OpCode::Bgt => if a.len() < 4 {
            None
        } else {
            branch_v(c, "brlo"@, a[1], a[0], a[2], a[3])
        },
        OpCode::Bge => if a.len() < 4 {
            None
        } else {
            branch_v(c, "brlo"@, a[0], a[1], a[3], a[2])
        },
        _ => None,
    }
}

/// The name a label of function `f` has in the assembly: the function name, then the label.
pub open spec fn full_label(f: FunctionV, l: Seq<char>) -> Seq<char> {
    f.name + l
}

/// The label lines of the labels in `ls`, each prefixed with the function name.
pub open spec fn labels_text(name: Seq<char>, ls: Seq<Seq<char>>) -> Seq<char>
    decreases ls.len(),
{
    if ls.len() == 0 {
        Seq::empty()
    } else {
        labels_text(name, ls.drop_last()) + label_text(name + ls.last())
    }
}

/// The label lines of the labels placed at instruction `i`.
pub open spec fn labels_at_text(f: FunctionV, i: usize) -> Seq<char> {
    if f.labels.contains_key(i) {
        labels_text(f.name, f.labels[i])
    } else {
        Seq::empty()
    }
}

/// The assembly of the first `n` instructions, each after its labels.
pub open spec fn body_v(c: ContextV, n: nat) -> Gen<Seq<char>>
    decreases n,
{
    if n == 0 {
        done(Seq::empty(), c)
    } else {
        match body_v(c, (n - 1) as nat) {
            Some((Ok(t), c1)) => if n - 1 < c1.function.instructions.len() {
                match instruction_v(c1, c1.function.instructions[n - 1]) {
                    None => None,
                    Some((Err(e), c2)) => Some((Err(e), c2)),
                    Some((Ok(t2), c2)) => done(t + labels_at_text(c1.function, (n - 1) as usize) + t2, c2),
                }
            } else {
                None
            },
            other => other,
        }
    }
}

/// The assembly of the whole function: a comment with its signature, the
/// label of its start, then its instructions.
pub open spec fn function_v(c: ContextV) -> Gen<Seq<char>> {
    let head = comment_text("Function "@ + signature_text(c.function)) + label_text("f"@ + c.function.name);
    match body_v(c, c.function.instructions.len()) {
        Some((Ok(t), c1)) => done(head + t, c1),
        other => other,
    }
}

/// `r` and the context `c` are what the outcome `o` describes.
pub open spec fn text_matches(r: Result<String, Error>, c: ContextV, o: Gen<Seq<char>>) -> bool {
    match o {
        Some((res, c2)) => c == c2 && match res {
            Ok(t) => r is Ok && r->Ok_0@ == t,
            Err(e) => fails_with(r, e.0, e.1),
        },
        None => false,
    }
}

/// `r` and the context `c` are what the outcome `o` of a register request describes.
pub open spec fn reg_matches(r: Result<usize, Error>, c: ContextV, o: Gen<usize>) -> bool {
    match o {
        Some((res, c2)) => c == c2 && match res {
            Ok(v) => r == Ok::<usize, Error>(v),
            Err(e) => fails_with(r, e.0, e.1),
        },
        None => false,
    }
}


/// A command line holding `data`.
fn cmd(data: &String) -> (s: String)
    ensures
        s@ == command_text(data@),
{
    generate_command(data.as_str()).unwrap()
}

/// The name of register `r`, as text.
fn reg_string(r: usize) -> (s: String)
    ensures
        s@ == reg_text(r),
{
    let mut s = String::from_str("r");
    s.append(usize_text(r).as_str());
    s
}

/// `a` followed by `b`.
fn join(a: &str, b: &str) -> (s: String)
    ensures
        s@ == a@ + b@,
{
    let mut s = String::from_str(a);
    s.append(b);
    s
}

/// `a` followed by `b` and `c`.
fn join3(a: &str, b: &str, c: &str) -> (s: String)
    ensures
        s@ == a@ + b@ + c@,
{
    let mut s = String::from_str(a);
    s.append(b);
    s.append(c);
    s
}

/// `a`, `b`, `c` and `d` in turn.
fn join4(a: &str, b: &str, c: &str, d: &str) -> (s: String)
    ensures
        s@ == a@ + b@ + c@ + d@,
{
    let mut s = String::from_str(a);
    s.append(b);
    s.append(c);
    s.append(d);
    s
}

impl FunctionGenerationContext {
    #[verifier::type_invariant]
    spec fn bounded(&self) -> bool {
        &&& forall|i: int| 0 <= i < self.free_registers@.len() ==> #[trigger] self.free_registers@[i] < 256
        &&& forall|k: Seq<char>| #[trigger] self.symbol_map.map().contains_key(k) ==> self.symbol_map.map()[k]
            < 256
    }

    /// Generate a new FunctionGeneratorContext for the given IR function
    pub fn new(function: Function) -> (c: Self)
        ensures
            c@ == new_context_v(function@),
    {
        let c = Self {
            function,
            free_registers: vec![25, 23, 22, 21, 20, 19, 18, 17],
            symbol_map: Table::new(),
            temp_reg: 16,
            last_temp_assignment: String::new(),
        };
        assert(c@.free_registers =~= seq![25usize, 23, 22, 21, 20, 19, 18, 17]);
        c
    }

    /// Request a new 8 bit register
    pub fn get_u8_reg(&mut self) -> (r: Result<usize, Error>)
        ensures
            final(self)@.function == old(self)@.function,
            reg_matches(r, final(self)@, Some(u8_register_v(old(self)@))),
            r is Ok ==> r->Ok_0 < 256,
    {
        proof {
            use_type_invariant(&*self);
        }
        if self.free_registers.len() == 0 {
            Err(Error::error("No more registers available"))
        } else {
            let mut fr: Vec<usize> = Vec::new();
            std::mem::swap(&mut fr, &mut self.free_registers);
            let r = fr.pop().unwrap();
            self.free_registers = fr;
            Ok(r)
        }
    }

    /// Request a new 16 bit register
    pub fn get_u16_reg(&mut self) -> (r: Result<usize, Error>)
        ensures
            final(self)@.function == old(self)@.function,
            reg_matches(r, final(self)@, Some(u16_register_v(old(self)@))),
            r is Ok ==> r->Ok_0 < 256,
    {
        proof {
            use_type_invariant(&*self);
        }
        let ghost fr = self.free_registers@;
        let n = self.free_registers.len();
        let mut i: usize = 0;
        while i < n
            invariant
                i <= n,
                n == fr.len(),
                fr == self.free_registers@,
                self@ == old(self)@,
                registers_bounded(self@),
                first_pair(fr, 0) == first_pair(fr, i as nat),
            decreases n - i,
        {
            let v = self.free_registers[i];
            if v % 2 == 0 && vec_contains(&self.free_registers, v + 1) {
                assert(pairs_with_next(fr, i as int));
                assert(first_pair(fr, 0) == Some(i as nat));
                proof {
                    use_type_invariant(&*self);
                }
                let mut rest: Vec<usize> = Vec::new();
                std::mem::swap(&mut rest, &mut self.free_registers);
                let _ = rest.remove(i);
                let ghost fr1 = rest@;
                assert(fr1 == fr.remove(i as int));
                let ghost k = choose|k: int| 0 <= k < fr.len() && fr[k] == (v + 1) as usize;
                assert(k != i);
                assert(fr1.contains((v + 1) as usize)) by {
                    if k < i {
                        assert(fr1[k] == fr[k]);
                    } else {
                        assert(fr1[k - 1] == fr[k]);
                    }
                }
                let mut j: usize = 0;
                while j < rest.len() && rest[j] != v + 1
                    invariant
                        j <= fr1.len(),
                        fr1 == rest@,
                        fr1.contains((v + 1) as usize),
                        v < 256,
                        forall|w: int| 0 <= w < j ==> fr1[w] != (v + 1) as usize,
                        first_index(fr1, (v + 1) as usize, 0) == first_index(fr1, (v + 1) as usize, j as nat),
                    decreases fr1.len() - j,
                {
                    j = j + 1;
                }
                proof {
                    if j >= fr1.len() {
                        let w = choose|w: int| 0 <= w < fr1.len() && fr1[w] == (v + 1) as usize;
                        assert(fr1[w] == (v + 1) as usize);
                        assert(false);
                    }
                }
                let _ = rest.remove(j);
                self.free_registers = rest;
                proof {
                    assert(self@.free_registers == fr1.remove(j as int));
                }
                return Ok(v);
            }
            i = i + 1;
        }
        Err(Error::error("No more registers available"))
    }

    /// Get the register allocated to the given symbol
    pub fn get_register(&mut self, symb: &Symbol) -> (r: Result<usize, Error>)
        requires
            register_v(old(self)@, symb@) is Some,
        ensures
            final(self)@.function == old(self)@.function,
            reg_matches(r, final(self)@, register_v(old(self)@, symb@)),
            r is Ok ==> r->Ok_0 < 256,
    {
        proof {
            use_type_invariant(&*self);
        }
        match self.symbol_map.get(&symb.title) {
            Some(r) => Ok(*r),
            None => {
                let size = get_size_datatype(symb.datatype);
                let r = if size == 1 {
                    self.get_u8_reg()
                } else {
                    self.get_u16_reg()
                };
                match r {
                    Ok(reg) => {
                        proof {
                            use_type_invariant(&*self);
                        }
                        let mut map: Table<String, usize> = Table::new();
                        std::mem::swap(&mut map, &mut self.symbol_map);
                        map.insert(symb.title.clone(), reg);
                        self.symbol_map = map;
                        Ok(reg)
                    },
                    Err(e) => Err(e),
                }
            },
        }
    }

    /// Loads `v` into the temporary register r16 unless it already holds it.
    fn load_temp(&mut self, v: String) -> (t: String)
        ensures
            final(self)@.function == old(self)@.function,
            (t@, final(self)@) == temp_load_v(old(self)@, v@),
    {
        proof {
            use_type_invariant(&*self);
        }
        if self.last_temp_assignment != v {
            let data = join("ldi r16, ", v.as_str());
            self.last_temp_assignment = v;
            cmd(&data)
        } else {
            String::new()
        }
    }
}


/// Loading `address` into the X index register.
fn load_x(address: i128) -> (s: String)
    ensures
        s@ == load_x_text(address),
{
    let mut s = cmd(&join("ldi r26, ", i128_text(address & 0xFF).as_str()));
    let t = cmd(&join("ldi r27, ", i128_text((address & 0xFF00) >> 8).as_str()));
    s.append(t.as_str());
    s
}

impl FunctionGenerationContext {
    /// Moving a literal into a target.
    fn move_literal(&mut self, target: &Value, lit: &Literal, force: bool) -> (r: Result<String, Error>)
        requires
            move_literal_v(old(self)@, target@, *lit, force) is Some,
        ensures
            final(self)@.function == old(self)@.function,
            text_matches(r, final(self)@, move_literal_v(old(self)@, target@, *lit, force)),
    {
        match target {
            Value::Symbol(symb) => {
                if !symb.datatype.is_ref || force {
                    let reg = self.get_register(symb)?;
                    let mut result = cmd(
                        &join4("ldi ", reg_string(reg).as_str(), ", ", i128_text(lit.value & 0xFF).as_str()),
                    );
                    if get_size_datatype(lit.datatype) == 2 {
                        let reg2 = self.get_register(symb)?;
                        let t = cmd(
                            &join4(
                                "ldi ",
                                reg_string(reg2 + 1).as_str(),
                                ", ",
                                i128_text((lit.value & 0xFF00) >> 8).as_str(),
                            ),
                        );
                        result.append(t.as_str());
                    }
                    Ok(result)
                } else {
                    let reg = self.get_register(symb)?;
                    let mut result = cmd(&join("movw r26, ", usize_text(reg).as_str()));
                    let t2 = self.load_temp(i128_text(lit.value & 0xFF));
                    result.append(t2.as_str());
                    result.append(cmd(&String::from_str("st X, r16")).as_str());
                    if get_size_datatype(lit.datatype) == 2 {
                        let t4 = self.load_temp(i128_text((lit.value & 0xFF00) >> 8));
                        result.append(t4.as_str());
                        result.append(cmd(&String::from_str("st +X, r16")).as_str());
                    }
                    Ok(result)
                }
            },
            Value::Literal(tl) => {
                if !tl.datatype.is_ref || force {
                    // the precondition rules this move out
                    proof {
                        assert(false);
                    }
                    Err(Error::fatal_error("Cannot use label as a value"))
                } else if tl.value < 0x60 && tl.value >= 0x20 {
                    let mut result = self.load_temp(i128_text(lit.value & 0xFF));
                    result.append(cmd(&join3("out ", i128_text(tl.value - 0x20).as_str(), ", r16")).as_str());
                    if get_size_datatype(lit.datatype) == 2 {
                        return Err(Error::error("Cannot assign 16 bit value to an 8 bit register"));
                    }
                    Ok(result)
                } else {
                    let mut result = load_x(tl.value);
                    let t2 = self.load_temp(i128_text(lit.value & 0xFF));
                    result.append(t2.as_str());
                    result.append(cmd(&String::from_str("st X, r16")).as_str());
                    if get_size_datatype(lit.datatype) == 2 {
                        let t4 = self.load_temp(i128_text((lit.value & 0xFF00) >> 8));
                        result.append(t4.as_str());
                        result.append(cmd(&String::from_str("st +X, r16")).as_str());
                    }
                    Ok(result)
                }
            },
            Value::Label(_) => {
                // the precondition rules this move out
                proof {
                    assert(false);
                }
                Err(Error::fatal_error("Cannot use label as a value"))
            },
        }
    }

    /// Moving a symbol into a target.
    fn move_symbol(&mut self, target: &Value, src: &Symbol, force: bool) -> (r: Result<String, Error>)
        requires
            move_symbol_v(old(self)@, target@, src@, force) is Some,
        ensures
            final(self)@.function == old(self)@.function,
            text_matches(r, final(self)@, move_symbol_v(old(self)@, target@, src@, force)),
    {
        let src_reg = self.get_register(src)?;
        match target {
            Value::Symbol(symb) => {
                if !symb.datatype.is_ref || force {
                    let n = get_size_datatype(src.datatype);
                    let reg = self.get_register(symb)?;
                    let op = if n == 1 {
                        "mov "
                    } else {
                        "movw "
                    };
                    Ok(cmd(&join4(op, reg_string(reg).as_str(), ", ", reg_string(src_reg).as_str())))
                } else {
                    let reg = self.get_register(symb)?;
                    let mut result = cmd(&join("movw r26, ", usize_text(reg).as_str()));
                    result.append(cmd(&join("st X, ", reg_string(src_reg).as_str())).as_str());
                    if get_size_datatype(src.datatype) == 2 {
                        result.append(cmd(&join("st +X, ", reg_string(src_reg + 1).as_str())).as_str());
                    }
                    Ok(result)
                }
            },
            Value::Literal(tl) => {
                if !tl.datatype.is_ref || force {
                    // the precondition rules this move out
                    proof {
                        assert(false);
                    }
                    Err(Error::fatal_error("Cannot use label as a value"))
                } else if tl.value < 0x60 && tl.value >= 0x20 {
                    let t = cmd(
                        &join4("out ", i128_text(tl.value - 0x20).as_str(), ", ", reg_string(src_reg).as_str()),
                    );
                    if get_size_datatype(src.datatype) == 2 {
                        return Err(Error::error("Cannot assign 16 bit value to an 8 bit register"));
                    }
                    Ok(t)
                } else {
                    let mut result = load_x(tl.value);
                    result.append(cmd(&join("st X, ", reg_string(src_reg).as_str())).as_str());
                    if get_size_datatype(src.datatype) == 2 {
                        result.append(cmd(&join("st +X, ", reg_string(src_reg + 1).as_str())).as_str());
                    }
                    Ok(result)
                }
            },
            Value::Label(_) => {
                // the precondition rules this move out
                proof {
                    assert(false);
                }
                Err(Error::fatal_error("Cannot use label as a value"))
            },
        }
    }

    /// Add a move instruction between two values (the force_move flag forces a move, ignoring references)
    pub fn move_instruction(&mut self, target: &Value, value: &Value, force_move: bool) -> (r: Result<String, Error>)
        requires
            move_v(old(self)@, target@, value@, force_move) is Some,
        ensures
            final(self)@.function == old(self)@.function,
            text_matches(r, final(self)@, move_v(old(self)@, target@, value@, force_move)),
    {
        match value {
            Value::Label(_) => Err(Error::fatal_error("Cannot use label as a value")),
            Value::Literal(lit) => self.move_literal(target, lit, force_move),
            Value::Symbol(src) => self.move_symbol(target, src, force_move),
        }
    }
}


impl FunctionGenerationContext {
    /// Add a dereference instruction (effectively like a move, but out of a reference)
    pub fn dereference_instruction(&mut self, target: &Value, value: &Value) -> (r: Result<String, Error>)
        requires
            deref_v(old(self)@, target@, value@) is Some,
        ensures
            final(self)@.function == old(self)@.function,
            text_matches(r, final(self)@, deref_v(old(self)@, target@, value@)),
    {
        match (value, target) {
            (Value::Label(_), _) => Err(Error::fatal_error("Cannot use label as a value")),
            (Value::Literal(lit), Value::Symbol(symb)) => {
                let reg = self.get_register(symb)?;
                let n = get_size_datatype(symb.datatype);
                if lit.value < 0x60 && lit.value >= 0x20 {
                    if n == 1 {
                        Ok(cmd(&join4("in ", reg_string(reg).as_str(), ", ", i128_text(lit.value - 0x20).as_str())))
                    } else {
                        let mut result = cmd(&join4("in ", reg_string(reg).as_str(), ", ", i128_text(lit.value - 0x20).as_str()));
                        result.append(
                            cmd(
                                &join4(
                                    "in ",
                                    reg_string(reg + 1).as_str(),
                                    ", ",
                                    i128_text(lit.value + 1 - 0x20).as_str(),
                                ),
                            ).as_str(),
                        );
                        Ok(result)
                    }
                } else {
                    let mut result = load_x(lit.value);
                    result.append(cmd(&join3("ld ", reg_string(reg).as_str(), ", X")).as_str());
                    if n == 2 {
                        result.append(cmd(&join3("ld ", reg_string(reg + 1).as_str(), ", +X")).as_str());
                    }
                    Ok(result)
                }
            },
            (Value::Symbol(src), Value::Symbol(symb)) => {
                let reg = self.get_register(symb)?;
                let src_reg = self.get_register(src)?;
                let mut result = cmd(&join("movw r26, ", reg_string(src_reg).as_str()));
                result.append(cmd(&join3("ld ", reg_string(reg).as_str(), ", X")).as_str());
                if get_size_datatype(symb.datatype) == 2 {
                    result.append(cmd(&join3("ld ", reg_string(reg + 1).as_str(), ", +X")).as_str());
                }
                Ok(result)
            },
            _ => {
                // the precondition rules out loading into anything but a symbol
                proof {
                    assert(false);
                }
                Err(Error::fatal_error("Cannot use label as a value"))
            },
        }
    }

    /// Add an add instruction
    pub fn add_instruction(&mut self, dest: &Value, v0: &Value, v1: &Value) -> (r: Result<String, Error>)
        requires
            add_v(old(self)@, dest@, v0@, v1@) is Some,
        ensures
            final(self)@.function == old(self)@.function,
            text_matches(r, final(self)@, add_v(old(self)@, dest@, v0@, v1@)),
        decreases (if v0@ is Literal {
            1nat
        } else {
            0nat
        }),
    {
        let dest_reg = match dest {
            Value::Symbol(symb) => self.get_register(symb)?,
            _ => {
                return Err(Error::error("Unable to assign to anything but a symbol"));
            },
        };
        match v0 {
            Value::Label(_) => Err(Error::fatal_error("Cannot use label as a value")),
            Value::Literal(_) => {
                if let Value::Literal(_) = v1 {
                    Err(Error::error("Add command invoked with two literals"))
                } else {
                    self.add_instruction(dest, v1, v0)
                }
            },
            Value::Symbol(symb0) => {
                if *dest == *v0 {
                    match v1 {
                        Value::Symbol(symb1) => {
                            let r1 = self.get_register(symb1)?;
                            let mut result = cmd(
                                &join4("add ", reg_string(dest_reg).as_str(), ", ", reg_string(r1).as_str()),
                            );
                            if get_size_datatype(symb0.datatype) == 2 {
                                let r1b = self.get_register(symb1)?;
                                result.append(
                                    cmd(
                                        &join4(
                                            "adc ",
                                            reg_string(dest_reg + 1).as_str(),
                                            ", ",
                                            reg_string(r1b + 1).as_str(),
                                        ),
                                    ).as_str(),
                                );
                            }
                            Ok(result)
                        },
                        Value::Literal(lit1) => {
                            let mut result = if lit1.value == 1 && get_size_datatype(symb0.datatype) == 1 {
                                cmd(&join("inc ", reg_string(dest_reg).as_str()))
                            } else {
                                let mut t = self.load_temp(i128_text(lit1.value & 0xFF));
                                t.append(cmd(&join3("add ", reg_string(dest_reg).as_str(), ", r16")).as_str());
                                t
                            };
                            if get_size_datatype(symb0.datatype) == 2 {
                                let t2 = self.load_temp(i128_text((lit1.value & 0xFF00) >> 8));
                                result.append(t2.as_str());
                                result.append(
                                    cmd(&join3("adc ", reg_string(dest_reg + 1).as_str(), ", r16")).as_str(),
                                );
                            }
                            Ok(result)
                        },
                        Value::Label(_) => Err(Error::error("Unable to read value from label")),
                    }
                } else {
                    // the precondition rules out a sum into another symbol
                    proof {
                        assert(false);
                    }
                    Err(Error::error("Unable to read value from label"))
                }
            },
        }
    }

    // Add a branch operation
    pub fn add_branch(&mut self, inst: &str, v0: &Value, v1: &Value, l0: &Value, l1: &Value) -> (r: Result<
        String,
        Error,
    >)
        requires
            branch_v(old(self)@, inst@, v0@, v1@, l0@, l1@) is Some,
        ensures
            final(self)@.function == old(self)@.function,
            text_matches(r, final(self)@, branch_v(old(self)@, inst@, v0@, v1@, l0@, l1@)),
    {
        let label0 = match l0 {
            Value::Label(s) => s,
            _ => {
                return Err(Error::error("Expected a label"));
            },
        };
        let label1 = match l1 {
            Value::Label(s) => s,
            _ => {
                return Err(Error::error("Expected a label"));
            },
        };
        match v0 {
            Value::Symbol(symb0) => {
                let reg0 = self.get_register(symb0)?;
                let _ = get_size_datatype(symb0.datatype);
                let mut result = match v1 {
                    Value::Symbol(symb1) => {
                        let reg1 = self.get_register(symb1)?;
                        cmd(&join4("cp ", reg_string(reg0).as_str(), ", ", reg_string(reg1).as_str()))
                    },
                    Value::Literal(lit1) => cmd(
                        &join4("cpi ", reg_string(reg0).as_str(), ", ", i128_text(lit1.value).as_str()),
                    ),
                    Value::Label(_) => {
                        // the precondition rules out comparing with a label
                        proof {
                            assert(false);
                        }
                        String::new()
                    },
                };
                let ghost compare = result@;
                let target0 = get_label(&self.function, label0).unwrap();
                let target1 = get_label(&self.function, label1).unwrap();
                let branch = cmd(&join3(inst, " ", target0.as_str()));
                let jump = cmd(&join("jmp ", target1.as_str()));
                result.append(branch.as_str());
                result.append(jump.as_str());
                assert(result@ =~= compare + (branch@ + jump@));
                Ok(result)
            },
            _ => {
                // the precondition rules out a first operand other than a symbol
                proof {
                    assert(false);
                }
                Err(Error::error("Expected a label"))
            },
        }
    }
}


proof fn lemma_body_stops(c: ContextV, k: nat, n: nat)
    requires
        k <= n,
        !(body_v(c, k) matches Some((Ok(_), _))),
    ensures
        body_v(c, n) == body_v(c, k),
    decreases n - k,
{
    if k < n {
        lemma_body_stops(c, k, (n - 1) as nat);
    }
}

proof fn lemma_body_some(c: ContextV, k: nat, n: nat)
    requires
        k <= n,
        body_v(c, n) is Some,
    ensures
        body_v(c, k) is Some,
    decreases n - k,
{
    if k < n {
        lemma_body_some(c, k, (n - 1) as nat);
        if !(body_v(c, (n - 1) as nat) matches Some((Ok(_), _))) {
            lemma_body_stops(c, (n - 1) as nat, n);
        }
    }
}

impl FunctionGenerationContext {
    /// The label lines of the labels placed at instruction `i`.
    fn labels_at(&self, i: usize) -> (s: String)
        ensures
            s@ == labels_at_text(self@.function, i),
    {
        let mut s = String::new();
        match self.function.labels.get(&i) {
            Some(labels) => {
                let ghost ls = labels.deep_view();
                let mut j: usize = 0;
                while j < labels.len()
                    invariant
                        j <= labels@.len(),
                        ls == labels.deep_view(),
                        s@ == labels_text(self@.function.name, ls.take(j as int)),
                    decreases labels@.len() - j,
                {
                    let name = get_label(&self.function, &labels[j]).unwrap();
                    let line = generate_label(name.as_str()).unwrap();
                    s.append(line.as_str());
                    proof {
                        assert(ls.take(j + 1).drop_last() =~= ls.take(j as int));
                    }
                    j = j + 1;
                }
                assert(ls.take(labels@.len() as int) =~= ls);
            },
            None => {},
        }
        s
    }

    /// The assembly of one instruction.
    fn render_instruction(&mut self, inst: &Instruction) -> (r: Result<String, Error>)
        requires
            instruction_v(old(self)@, inst@) is Some,
        ensures
            text_matches(r, final(self)@, instruction_v(old(self)@, inst@)),
            final(self)@.function == old(self)@.function,
    {
        let a = &inst.arguments;
        proof {
            reveal(instruction_v);
            assert(inst@.arguments == values_view(a@));
        }
        match inst.opcode {
            OpCode::Nop => Ok(String::new()),
            OpCode::Jmp => match &a[0] {
                Value::Label(label) => {
                    let target = get_label(&self.function, label).unwrap();
                    Ok(cmd(&join("jmp ", target.as_str())))
                },
                _ => Ok(String::new()),
            },
            OpCode::Mov | OpCode::Alloc | OpCode::Cast => self.move_instruction(&a[0], &a[1], false),
            OpCode::Deref => self.dereference_instruction(&a[0], &a[1]),
            OpCode::Add => self.add_instruction(&a[0], &a[1], &a[2]),
            OpCode::Beq => self.add_branch("breq", &a[0], &a[1], &a[2], &a[3]),
            OpCode::Bne => self.add_branch("brne", &a[0], &a[1], &a[2], &a[3]),
            OpCode::Blt => self.add_branch("brlo", &a[0], &a[1], &a[2], &a[3]),
            OpCode::Ble => self.add_branch("brlo", &a[1], &a[0], &a[3], &a[2]),
            OpCode::Bgt => self.add_branch("brlo", &a[1], &a[0], &a[2], &a[3]),
            OpCode::Bge => self.add_branch("brlo", &a[0], &a[1], &a[3], &a[2]),
            _ => {
                // the precondition rules out the other opcodes
                proof {
                    assert(false);
                }
                Ok(String::new())
            },
        }
    }

    /// Render an IR function in AVR Assembly
    pub fn render_function(&mut self) -> (r: Result<String, Error>)
        requires
            function_v(old(self)@) is Some,
        ensures
            text_matches(r, final(self)@, function_v(old(self)@)),
    {
        let ghost c0 = self@;
        let signature = self.function.render_signature();
        let mut result = generate_comment(join("Function ", signature.as_str()).as_str()).unwrap();
        let start = generate_label(join("f", self.function.name.as_str()).as_str()).unwrap();
        result.append(start.as_str());
        let ghost head = result@;
        let n = self.function.instructions.len();
        let mut i: usize = 0;
        assert(head + Seq::<char>::empty() =~= head);
        while i < n
            invariant
                i <= n,
                n == c0.function.instructions.len(),
                c0 == old(self)@,
                head == comment_text("Function "@ + signature_text(c0.function)) + label_text("f"@ + c0.function.name),
                self@.function == c0.function,
                body_v(c0, n as nat) is Some,
                body_v(c0, i as nat) matches Some((Ok(t), c)) && c == self@ && result@ == head + t,
            decreases n - i,
        {
            proof {
                lemma_body_some(c0, (i + 1) as nat, n as nat);
            }
            let ghost t_before = body_v(c0, i as nat)->Some_0.0->Ok_0;
            let inst = self.function.instructions[i].clone();
            assert(inst@ == c0.function.instructions[i as int]);
            let labels = self.labels_at(i);
            let ghost before = self@;
            let ghost o = instruction_v(before, inst@);
            assert(body_v(c0, (i + 1) as nat) == match o {
                None => None,
                Some((Err(e), c2)) => Some((Err::<Seq<char>, ErrV>(e), c2)),
                Some((Ok(t2), c2)) => done(t_before + labels_at_text(before.function, i) + t2, c2),
            });
            let text = match self.render_instruction(&inst) {
                Ok(t) => t,
                Err(e) => {
                    proof {
                        assert(o matches Some((Err(_), _)));
                        lemma_body_stops(c0, (i + 1) as nat, n as nat);
                        assert(function_v(c0) == body_v(c0, (i + 1) as nat));
                    }
                    return Err(e);
                },
            };
            result.append(labels.as_str());
            result.append(text.as_str());
            proof {
                assert(result@ =~= head + (t_before + labels@ + text@));
            }
            i = i + 1;
        }
        Ok(result)
    }
}

} // verus!
