//! Instruction selection and register assignment from the IR subset to ARM64
//! assembly for macOS: every IR value gets a fresh `w` register from `w8` on.
use vstd::prelude::*;
use vstd::string::StringExecFns;

use crate::llvm_ir::{instrs_view, Function, IRInstruction, InstrV, IrFunctionV};
use crate::text::{
    all_digits, char_digit_value, digits_value, int_to_decimal, is_digit, lemma_decimal_roundtrip,
    lemma_digits_value_prefix, lemma_digits_value_push, lemma_prefixed_decimal_injective, nat_to_decimal,
    push_decimal, spec_is_digit, str_to_chars,
};

verus! {

/// Why the back end rejects a function.
#[derive(Debug, Clone, Copy, PartialEq, Eq)]
pub enum AsmError {
    /// An `add` operand that is neither a constant nor an earlier result.
    UndefinedVirtualRegister,
    /// A `ret` operand that is neither a constant nor an earlier result.
    MissingReturnRegister,
    /// The next free register number would pass `u32::MAX`.
    RegisterOverflow,
}

/// The sign and digits of an integer literal.
pub open spec fn literal_digits(s: Seq<char>) -> Seq<char> {
    if s.len() > 0 && (s[0] == '-' || s[0] == '+') {
        s.drop_first()
    } else {
        s
    }
}

/// `s.parse::<i32>()` succeeds: an optional sign, at least one ASCII digit,
/// and a value within `i32`.
pub open spec fn is_i32_literal(s: Seq<char>) -> bool {
    let digits = literal_digits(s);
    let negative = s.len() > 0 && s[0] == '-';
    &&& digits.len() > 0
    &&& all_digits(digits)
    &&& digits_value(digits) <= if negative { 2147483648nat } else { 2147483647nat }
}

/// The `w` register number `n`.
pub open spec fn w_reg(n: nat) -> Seq<char> {
    "w"@ + nat_to_decimal(n)
}

/// The back end's state: the assembly so far, the register of each IR value
/// (later entries shadow earlier ones) and the next free register number.
pub struct AsmState {
    pub text: Seq<char>,
    pub regs: Seq<(Seq<char>, Seq<char>)>,
    pub next: nat,
}

/// The register assigned to an IR value.
pub open spec fn reg_lookup(regs: Seq<(Seq<char>, Seq<char>)>, op: Seq<char>) -> Option<Seq<char>>
    decreases regs.len(),
{
    if regs.len() == 0 {
        None
    } else if regs.last().0 == op {
        Some(regs.last().1)
    } else {
        reg_lookup(regs.drop_last(), op)
    }
}

/// An operand in a register: a constant is moved into a fresh register; a
/// value already has one.
pub open spec fn spec_load_operand(st: AsmState, op: Seq<char>) -> Result<(AsmState, Seq<char>), AsmError> {
    if is_i32_literal(op) && st.next >= u32::MAX {
        Err(AsmError::RegisterOverflow)
    } else if is_i32_literal(op) {
        let reg = w_reg(st.next);
        Ok((AsmState { text: st.text + "    mov "@ + reg + ", #"@ + op + "\n"@, next: st.next + 1, ..st }, reg))
    } else {
        match reg_lookup(st.regs, op) {
            Some(r) => Ok((st, r)),
            None => Err(AsmError::UndefinedVirtualRegister),
        }
    }
}

/// One IR instruction.
pub open spec fn spec_gen_instr(st: AsmState, inst: InstrV) -> Result<AsmState, AsmError> {
    match inst {
        InstrV::Add { dest, op1, op2 } => match spec_load_operand(st, op1) {
            Ok((st1, r1)) => match spec_load_operand(st1, op2) {
                Ok((st2, r2)) => if st2.next >= u32::MAX {
                    Err(AsmError::RegisterOverflow)
                } else {
                    let d = w_reg(st2.next);
                    Ok(AsmState {
                        text: st2.text + "    add "@ + d + ", "@ + r1 + ", "@ + r2 + "\n"@,
                        regs: st2.regs.push((dest, d)),
                        next: st2.next + 1,
                    })
                },
                Err(e) => Err(e),
            },
            Err(e) => Err(e),
        },
        InstrV::Ret { op } => if is_i32_literal(op) {
            Ok(AsmState { text: st.text + "    mov w0, #"@ + op + "\n"@ + "    ret\n"@, ..st })
        } else {
            match reg_lookup(st.regs, op) {
                Some(r) => Ok(AsmState { text: st.text + "    mov w0, "@ + r + "\n"@ + "    ret\n"@, ..st }),
                None => Err(AsmError::MissingReturnRegister),
            }
        },
    }
}

/// The instructions in order.
pub open spec fn spec_gen_instrs(st: AsmState, insts: Seq<InstrV>) -> Result<AsmState, AsmError>
    decreases insts.len(),
{
    if insts.len() == 0 {
        Ok(st)
    } else {
        match spec_gen_instrs(st, insts.drop_last()) {
            Ok(st1) => spec_gen_instr(st1, insts.last()),
            Err(e) => Err(e),
        }
    }
}

/// The directives and label that open a function named `name` (macOS prefixes `_`).
pub open spec fn asm_header(name: Seq<char>) -> Seq<char> {
    let sym = "_"@ + name;
    ".text\n"@ + ".global "@ + sym + "\n"@ + ".align 2\n"@ + sym + ":\n"@
}

/// The assembly of a function.
pub open spec fn spec_generate(f: IrFunctionV) -> Result<Seq<char>, AsmError> {
    match spec_gen_instrs(AsmState { text: asm_header(f.name), regs: Seq::empty(), next: 8 }, f.instructions) {
        Ok(st) => Ok(st.text),
        Err(e) => Err(e),
    }
}

/// The views of a register map.
pub open spec fn regs_view(m: Seq<(String, String)>) -> Seq<(Seq<char>, Seq<char>)> {
    m.map_values(|p: (String, String)| (p.0@, p.1@))
}

// ---------------------------------------------------------------------------
// Executable back end
// ---------------------------------------------------------------------------

/// Is the operand an `i32` constant (`op.parse::<i32>().is_ok()`)?
pub fn is_constant(op: &str) -> (r: bool)
    ensures
        r == is_i32_literal(op@),
{
    let c = str_to_chars(op);
    let mut start: usize = 0;
    let mut negative = false;
    if c.len() > 0 && (c[0] == '-' || c[0] == '+') {
        negative = c[0] == '-';
        start = 1;
    }
    let ghost digits = literal_digits(c@);
    assert(digits =~= c@.skip(start as int));
    if start == c.len() {
        return false;
    }
    let limit: u64 = if negative { 2147483648 } else { 2147483647 };
    let mut value: u64 = 0;
    let mut i: usize = start;
    assert(digits.take(0) =~= Seq::<char>::empty());
    while i < c.len()
        invariant
            start <= i <= c@.len(),
            c@ == op@,
            digits == literal_digits(op@),
            digits == c@.skip(start as int),
            digits.len() == c@.len() - start,
            forall|k: int| 0 <= k < i - start ==> spec_is_digit(#[trigger] digits[k]),
            value == digits_value(digits.take(i - start)),
            value <= limit,
            limit == if c@.len() > 0 && c@[0] == '-' { 2147483648nat } else { 2147483647nat },
            negative == (c@.len() > 0 && c@[0] == '-'),
        decreases c@.len() - i,
    {
        if !is_digit(c[i]) {
            assert(digits[i - start] == c@[i as int]);
            assert(!spec_is_digit(digits[i - start]));
            assert(!all_digits(digits));
            return false;
        }
        let d = char_digit_value(c[i]);
        proof {
            assert(digits[i - start] == c@[i as int]);
            assert(digits.take(i - start + 1) =~= digits.take(i - start).push(c@[i as int]));
            lemma_digits_value_push(digits.take(i - start), c@[i as int]);
        }
        value = value * 10 + d;
        i = i + 1;
        if value > limit {
            proof {
                lemma_digits_value_prefix(digits, i - start);
                assert(digits_value(digits) > limit);
            }
            return false;
        }
    }
    assert(digits.take(i - start) =~= digits);
    true
}

/// Puts an operand into a register: a constant is moved into the next free
/// register, a value is looked up in the register map.
/// Returns the error that rejects the input instead of aborting.
pub fn try_load_operand_to_reg(op: &str, next_free_reg: &mut u32, text: &mut String, reg_map: &Vec<(String, String)>) -> (r: Result<String, AsmError>)
    ensures
        match spec_load_operand(AsmState { text: old(text)@, regs: regs_view(reg_map@), next: *old(next_free_reg) as nat }, op@) {
            Ok((st, reg)) => r matches Ok(x) && x@ == reg && final(text)@ == st.text && *final(next_free_reg) == st.next,
            Err(e) => r == Err::<String, AsmError>(e) && final(text)@ == old(text)@
                && *final(next_free_reg) == *old(next_free_reg),
        },
{
    if is_constant(op) {
        if *next_free_reg == u32::MAX {
            return Err(AsmError::RegisterOverflow);
        }
        let mut reg = String::new();
        reg.push_str("w");
        push_decimal(&mut reg, *next_free_reg as u128);
        *next_free_reg = *next_free_reg + 1;
        let ghost before = text@;
        text.push_str("    mov ");
        text.push_str(reg.as_str());
        text.push_str(", #");
        text.push_str(op);
        text.push_str("\n");
        assert(text@ =~= before + "    mov "@ + reg@ + ", #"@ + op@ + "\n"@);
        Ok(reg)
    } else {
        match lookup_reg(reg_map, op) {
            Some(r) => Ok(r),
            None => Err(AsmError::UndefinedVirtualRegister),
        }
    }
}

/// The register of an IR value: its latest entry in the map.
fn lookup_reg(reg_map: &Vec<(String, String)>, op: &str) -> (r: Option<String>)
    ensures
        match reg_lookup(regs_view(reg_map@), op@) {
            Some(x) => r matches Some(y) && y@ == x,
            None => r is None,
        },
{
    let ghost m = regs_view(reg_map@);
    let key = String::from_str(op);
    let mut i = reg_map.len();
    assert(m.take(i as int) =~= m);
    while i > 0
        invariant
            i <= reg_map@.len(),
            m == regs_view(reg_map@),
            m.len() == reg_map@.len(),
            reg_lookup(m, op@) == reg_lookup(m.take(i as int), op@),
            key@ == op@,
        decreases i,
    {
        assert(m.take(i as int).last() == m[i - 1]);
        assert(m.take(i as int).drop_last() =~= m.take(i - 1));
        if reg_map[i - 1].0 == key {
            return Some(reg_map[i - 1].1.clone());
        }
        i = i - 1;
    }
    None
}


/// Once a prefix of the instructions fails, all of them fail the same way.
pub proof fn lemma_gen_instrs_prefix(st: AsmState, insts: Seq<InstrV>, k: int)
    requires
        0 <= k <= insts.len(),
    ensures
        spec_gen_instrs(st, insts.take(k)) is Err ==> spec_gen_instrs(st, insts) == spec_gen_instrs(st, insts.take(k)),
    decreases insts.len(),
{
    if k < insts.len() {
        lemma_gen_instrs_prefix(st, insts.drop_last(), k);
        assert(insts.drop_last().take(k) =~= insts.take(k));
    } else {
        assert(insts.take(k) =~= insts);
    }
}

/// Translates a function into ARM64 assembly for macOS: a constant operand is
/// moved into the next free `w` register, every `add` result gets the next free
/// register, and `ret` moves its value into `w0`.
/// Returns the error that rejects the input instead of aborting.
pub fn try_generate_arm64_assembly(func: &Function) -> (r: Result<String, AsmError>)
    ensures
        match spec_generate(func@) {
            Ok(t) => r matches Ok(x) && x@ == t,
            Err(e) => r == Err::<String, AsmError>(e),
        },
{
    let mut text = String::new();
    text.push_str(".text\n");
    text.push_str(".global ");
    text.push_str("_");
    text.push_str(func.name.as_str());
    text.push_str("\n");
    text.push_str(".align 2\n");
    text.push_str("_");
    text.push_str(func.name.as_str());
    text.push_str(":\n");
    assert(text@ =~= asm_header(func.name@));
    let mut reg_map: Vec<(String, String)> = Vec::new();
    let mut next_free_reg: u32 = 8;
    let ghost iv = instrs_view(func.instructions@);
    let ghost st0 = AsmState { text: asm_header(func.name@), regs: Seq::empty(), next: 8 };
    assert(iv.take(0) =~= Seq::<InstrV>::empty());
    assert(regs_view(reg_map@) =~= Seq::<(Seq<char>, Seq<char>)>::empty());
    let mut i: usize = 0;
    while i < func.instructions.len()
        invariant
            i <= func.instructions@.len(),
            iv == instrs_view(func.instructions@),
            iv.len() == func.instructions@.len(),
            st0 == (AsmState { text: asm_header(func.name@), regs: Seq::empty(), next: 8 }),
            spec_gen_instrs(st0, iv.take(i as int)) == Ok::<AsmState, AsmError>(AsmState {
                text: text@,
                regs: regs_view(reg_map@),
                next: next_free_reg as nat,
            }),
        decreases func.instructions@.len() - i,
    {
        assert(iv.take(i + 1).drop_last() =~= iv.take(i as int));
        assert(iv.take(i + 1).last() == iv[i as int]);
        assert(iv[i as int] == func.instructions@[i as int]@);
        match &func.instructions[i] {
            IRInstruction::Add { dest, op1, op2 } => {
                let r1 = match try_load_operand_to_reg(op1.as_str(), &mut next_free_reg, &mut text, &reg_map) {
                    Ok(r) => r,
                    Err(e) => {
                        proof {
                            lemma_gen_instrs_prefix(st0, iv, i + 1);
                        }
                        return Err(e);
                    },
                };
                let r2 = match try_load_operand_to_reg(op2.as_str(), &mut next_free_reg, &mut text, &reg_map) {
                    Ok(r) => r,
                    Err(e) => {
                        proof {
                            lemma_gen_instrs_prefix(st0, iv, i + 1);
                        }
                        return Err(e);
                    },
                };
                if next_free_reg == u32::MAX {
                    proof {
                        lemma_gen_instrs_prefix(st0, iv, i + 1);
                    }
                    return Err(AsmError::RegisterOverflow);
                }
                let mut dest_reg = String::new();
                dest_reg.push_str("w");
                push_decimal(&mut dest_reg, next_free_reg as u128);
                let ghost before_map = reg_map@;
                reg_map.push((dest.clone(), dest_reg.clone()));
                assert(regs_view(reg_map@) =~= regs_view(before_map).push((dest@, dest_reg@)));
                next_free_reg = next_free_reg + 1;
                let ghost before = text@;
                text.push_str("    add ");
                text.push_str(dest_reg.as_str());
                text.push_str(", ");
                text.push_str(r1.as_str());
                text.push_str(", ");
                text.push_str(r2.as_str());
                text.push_str("\n");
                assert(text@ =~= before + "    add "@ + dest_reg@ + ", "@ + r1@ + ", "@ + r2@ + "\n"@);
            },
            IRInstruction::Ret { op } => {
                let ghost before = text@;
                if is_constant(op.as_str()) {
                    text.push_str("    mov w0, #");
                    text.push_str(op.as_str());
                    text.push_str("\n");
                    text.push_str("    ret\n");
                    assert(text@ =~= before + "    mov w0, #"@ + op@ + "\n"@ + "    ret\n"@);
                } else {
                    match lookup_reg(&reg_map, op.as_str()) {
                        Some(reg) => {
                            text.push_str("    mov w0, ");
                            text.push_str(reg.as_str());
                            text.push_str("\n");
                            text.push_str("    ret\n");
                            assert(text@ =~= before + "    mov w0, "@ + reg@ + "\n"@ + "    ret\n"@);
                        },
                        None => {
                            proof {
                                lemma_gen_instrs_prefix(st0, iv, i + 1);
                            }
                            return Err(AsmError::MissingReturnRegister);
                        },
                    }
                }
            },
        }
        i = i + 1;
    }
    assert(iv.take(i as int) =~= iv);
    Ok(text)
}
/// Puts an operand into a register, as `try_load_operand_to_reg` does, for an
/// operand that has one to go to: the back end aborts on an operand that is
/// neither a constant nor an earlier result, and on a register number past
/// `u32::MAX`.
pub fn load_operand_to_reg(op: &str, next_free_reg: &mut u32, text: &mut String, reg_map: &Vec<(String, String)>) -> (r: String)
    requires
        spec_load_operand(AsmState { text: old(text)@, regs: regs_view(reg_map@), next: *old(next_free_reg) as nat }, op@) is Ok,
    ensures
        ({
            let (st, reg) = spec_load_operand(
                AsmState { text: old(text)@, regs: regs_view(reg_map@), next: *old(next_free_reg) as nat },
                op@,
            )->Ok_0;
            r@ == reg && final(text)@ == st.text && *final(next_free_reg) == st.next
        }),
{
    try_load_operand_to_reg(op, next_free_reg, text, reg_map).unwrap()
}

/// Translates a function into ARM64 assembly for macOS, as
/// `try_generate_arm64_assembly` does, for a function whose every operand has
/// a register and whose register numbers stay within `u32`: the back end
/// aborts otherwise.
pub fn generate_arm64_assembly(func: &Function) -> (r: String)
    requires
        spec_generate(func@) is Ok,
    ensures
        r@ == spec_generate(func@)->Ok_0,
{
    try_generate_arm64_assembly(func).unwrap()
}

/// `b` is a suffix of `a`.
pub open spec fn text_ends_with(a: Seq<char>, b: Seq<char>) -> bool {
    b.len() <= a.len() && a.skip(a.len() - b.len()) == b
}

/// Law: `add dest, op1, op2` ends with the instruction `add d, r1, r2`: `r1`
/// is the register of `op1` (the next free one for a constant, else the one
/// the map gives it), `r2` the register of `op2` (the next free one after
/// `op1` for a constant, else the one the map gives it), and `d` is a new
/// register after those, now mapped to `dest`.
pub proof fn lemma_gen_add(st: AsmState, dest: Seq<char>, op1: Seq<char>, op2: Seq<char>)
    ensures
        spec_gen_instr(st, InstrV::Add { dest, op1, op2 }) matches Ok(st2) ==> {
            let n1: nat = if is_i32_literal(op1) { st.next + 1 } else { st.next };
            let n2: nat = if is_i32_literal(op2) { n1 + 1 } else { n1 };
            let r1 = if is_i32_literal(op1) { w_reg(st.next) } else { reg_lookup(st.regs, op1)->Some_0 };
            let r2 = if is_i32_literal(op2) { w_reg(n1) } else { reg_lookup(st.regs, op2)->Some_0 };
            let d = w_reg(n2);
            &&& (is_i32_literal(op1) || reg_lookup(st.regs, op1) is Some)
            &&& (is_i32_literal(op2) || reg_lookup(st.regs, op2) is Some)
            &&& text_ends_with(st2.text, "    add "@ + d + ", "@ + r1 + ", "@ + r2 + "\n"@)
            &&& st2.regs == st.regs.push((dest, d))
            &&& st2.next == n2 + 1
        },
{
    if let Ok(st2) = spec_gen_instr(st, InstrV::Add { dest, op1, op2 }) {
        let (st1, r1) = spec_load_operand(st, op1)->Ok_0;
        let (st3, r2) = spec_load_operand(st1, op2)->Ok_0;
        let d = w_reg(st3.next);
        let line = "    add "@ + d + ", "@ + r1 + ", "@ + r2 + "\n"@;
        assert(st2.text =~= st3.text + line);
        assert((st3.text + line).skip((st3.text + line).len() - line.len()) =~= line);
    }
}

/// Law: the decimal text of every `i32` value, as the front end prints
/// integer constants, is a constant to the back end.
pub proof fn lemma_decimal_is_constant(n: int)
    requires
        i32::MIN <= n <= i32::MAX,
    ensures
        is_i32_literal(int_to_decimal(n)),
{
    if n < 0 {
        let m = (-n) as nat;
        lemma_decimal_roundtrip(m);
        let s = int_to_decimal(n);
        assert(s.drop_first() =~= nat_to_decimal(m));
    } else {
        lemma_decimal_roundtrip(n as nat);
        assert(spec_is_digit(nat_to_decimal(n as nat)[0]));
    }
}

/// Every register in the map is `w_reg(k)` for some `lo <= k < hi`.
pub open spec fn regs_in_range(regs: Seq<(Seq<char>, Seq<char>)>, lo: nat, hi: nat) -> bool {
    forall|i: int| #![trigger regs[i]] 0 <= i < regs.len() ==> exists|k: nat| lo <= k < hi && regs[i].1 == #[trigger] w_reg(k)
}

/// No two IR values share a register.
pub open spec fn regs_distinct(regs: Seq<(Seq<char>, Seq<char>)>) -> bool {
    forall|i: int, j: int| 0 <= i < j < regs.len() ==> regs[i].1 != regs[j].1
}

/// Loading an operand keeps the map and never lowers the next free register.
proof fn lemma_load_operand_keeps(st: AsmState, op: Seq<char>)
    ensures
        spec_load_operand(st, op) matches Ok((st2, _)) ==> st2.regs == st.regs && st2.next >= st.next,
{
}

/// One instruction keeps the registers of the map in range and distinct.
proof fn lemma_gen_instr_fresh(st: AsmState, inst: InstrV, lo: nat)
    requires
        lo <= st.next,
        regs_in_range(st.regs, lo, st.next),
        regs_distinct(st.regs),
    ensures
        spec_gen_instr(st, inst) matches Ok(st2) ==> {
            &&& st2.next >= st.next
            &&& regs_in_range(st2.regs, lo, st2.next)
            &&& regs_distinct(st2.regs)
        },
{
    if let InstrV::Add { dest, op1, op2 } = inst {
        lemma_load_operand_keeps(st, op1);
        if let Ok((st1, r1)) = spec_load_operand(st, op1) {
            lemma_load_operand_keeps(st1, op2);
            if let Ok((st2, r2)) = spec_load_operand(st1, op2) {
                let n = st2.next;
                let d = w_reg(n);
                let regs = st2.regs.push((dest, d));
                assert forall|i: int| #![trigger regs[i]] 0 <= i < regs.len() implies exists|k: nat| lo <= k < n + 1 && regs[i].1 == #[trigger] w_reg(k) by {
                    if i < st.regs.len() {
                        let k = choose|k: nat| lo <= k < st.next && st.regs[i].1 == #[trigger] w_reg(k);
                        assert(regs[i] == st.regs[i]);
                        assert(lo <= k < n + 1 && regs[i].1 == w_reg(k));
                    } else {
                        assert(regs[i].1 == w_reg(n));
                    }
                }
                assert forall|i: int, j: int| 0 <= i < j < regs.len() implies regs[i].1 != regs[j].1 by {
                    if j == st.regs.len() {
                        let k = choose|k: nat| lo <= k < st.next && st.regs[i].1 == #[trigger] w_reg(k);
                        lemma_prefixed_decimal_injective("w"@, k, n);
                        assert(regs[i] == st.regs[i]);
                    } else {
                        assert(regs[i] == st.regs[i]);
                        assert(regs[j] == st.regs[j]);
                    }
                }
            }
        }
    }
}

/// Law: instruction selection gives each IR value its own register, all of
/// them numbered from the first free register it started with, and never
/// hands out a register twice.
pub proof fn lemma_gen_instrs_fresh(st: AsmState, insts: Seq<InstrV>)
    requires
        regs_in_range(st.regs, st.next, st.next),
    ensures
        spec_gen_instrs(st, insts) matches Ok(st2) ==> {
            &&& st2.next >= st.next
            &&& regs_in_range(st2.regs, st.next, st2.next)
            &&& regs_distinct(st2.regs)
        },
    decreases insts.len(),
{
    if insts.len() == 0 {
        if st.regs.len() > 0 {
            let k = choose|k: nat| st.next <= k < st.next && st.regs[0].1 == #[trigger] w_reg(k);
        }
    } else {
        lemma_gen_instrs_fresh(st, insts.drop_last());
        if let Ok(st1) = spec_gen_instrs(st, insts.drop_last()) {
            lemma_gen_instr_fresh(st1, insts.last(), st.next);
        }
    }
}

/// Law: in the assembly of a function, no two IR values share a register,
/// and every one of them is `w8` or above.
pub proof fn lemma_generate_registers_distinct(f: IrFunctionV)
    ensures
        spec_gen_instrs(AsmState { text: asm_header(f.name), regs: Seq::empty(), next: 8 }, f.instructions)
            matches Ok(st) ==> regs_distinct(st.regs) && regs_in_range(st.regs, 8, st.next),
{
    lemma_gen_instrs_fresh(AsmState { text: asm_header(f.name), regs: Seq::empty(), next: 8 }, f.instructions);
}
} // verus!
