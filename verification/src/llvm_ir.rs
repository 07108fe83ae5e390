//! A minimal reader of LLVM IR text: a function's name, its `add` instructions
//! and its `ret` instructions.
use vstd::prelude::*;

use crate::text::{is_whitespace, spec_is_whitespace, str_to_chars};

verus! {

// ---------------------------------------------------------------------------
// Text functions on character sequences
// ---------------------------------------------------------------------------

/// The number of white-space characters at the start.
pub open spec fn leading_ws(s: Seq<char>) -> nat
    decreases s.len(),
{
    if s.len() > 0 && spec_is_whitespace(s[0]) {
        1 + leading_ws(s.drop_first())
    } else {
        0
    }
}

/// The number of white-space characters at the end.
pub open spec fn trailing_ws(s: Seq<char>) -> nat
    decreases s.len(),
{
    if s.len() > 0 && spec_is_whitespace(s.last()) {
        1 + trailing_ws(s.drop_last())
    } else {
        0
    }
}

/// The number of characters other than white space at the end.
pub open spec fn trailing_word(s: Seq<char>) -> nat
    decreases s.len(),
{
    if s.len() > 0 && !spec_is_whitespace(s.last()) {
        1 + trailing_word(s.drop_last())
    } else {
        0
    }
}

/// Without leading white space (`str::trim_start`).
pub open spec fn trim_start(s: Seq<char>) -> Seq<char> {
    s.skip(leading_ws(s) as int)
}

/// Without trailing white space (`str::trim_end`).
pub open spec fn trim_end(s: Seq<char>) -> Seq<char> {
    s.take(s.len() - trailing_ws(s))
}

/// Without leading and trailing white space (`str::trim`).
pub open spec fn trim(s: Seq<char>) -> Seq<char> {
    trim_end(trim_start(s))
}

/// The last white-space-separated word, if any (`split_whitespace().last()`).
pub open spec fn last_word(s: Seq<char>) -> Option<Seq<char>> {
    let t = trim_end(s);
    if t.len() == 0 {
        None
    } else {
        Some(t.skip(t.len() - trailing_word(t)))
    }
}

/// The index of the first occurrence of `c` (`str::find` for a character).
pub open spec fn find_char(s: Seq<char>, c: char) -> Option<int>
    decreases s.len(),
{
    if s.len() == 0 {
        None
    } else if s[0] == c {
        Some(0)
    } else {
        match find_char(s.drop_first(), c) {
            Some(i) => Some(i + 1),
            None => None,
        }
    }
}

/// Where `find_char` finds a character, and that it finds the first one.
pub proof fn lemma_find_char(s: Seq<char>, c: char)
    ensures
        match find_char(s, c) {
            Some(i) => 0 <= i < s.len() && s[i] == c && forall|j: int| 0 <= j < i ==> s[j] != c,
            None => forall|j: int| 0 <= j < s.len() ==> s[j] != c,
        },
    decreases s.len(),
{
    if s.len() > 0 && s[0] != c {
        lemma_find_char(s.drop_first(), c);
        assert forall|j: int| 1 <= j < s.len() implies s[j] == s.drop_first()[j - 1] by {}
    }
}

/// The text before the first `c`, or all of it (the first item of `split(c)`).
pub open spec fn before_char(s: Seq<char>, c: char) -> Seq<char> {
    match find_char(s, c) {
        Some(i) => s.take(i),
        None => s,
    }
}

/// The text after the first `c`.
pub open spec fn after_char(s: Seq<char>, c: char) -> Seq<char> {
    match find_char(s, c) {
        Some(i) => s.skip(i + 1),
        None => Seq::empty(),
    }
}

/// Does `s` start with `p`?
pub open spec fn starts_with(s: Seq<char>, p: Seq<char>) -> bool {
    p.len() <= s.len() && s.take(p.len() as int) == p
}

/// Does `p` occur in `s`?
pub open spec fn contains_seq(s: Seq<char>, p: Seq<char>) -> bool {
    exists|i: int| 0 <= i && i + p.len() <= s.len() && #[trigger] s.subrange(i, i + p.len()) == p
}

/// The pieces of `s` between line breaks `\n`.
pub open spec fn split_lines(s: Seq<char>) -> Seq<Seq<char>>
    decreases s.len(),
{
    proof {
        lemma_find_char(s, '\n');
    }
    match find_char(s, '\n') {
        Some(i) => seq![s.take(i)] + split_lines(s.skip(i + 1)),
        None => seq![s],
    }
}

// ---------------------------------------------------------------------------
// The instruction set
// ---------------------------------------------------------------------------

/// An instruction of the supported subset of LLVM IR.
#[derive(Debug)]
pub enum IRInstruction {
    Add { dest: String, op1: String, op2: String },
    Ret { op: String },
}

/// A function: its name and instructions.
#[derive(Debug)]
pub struct Function {
    pub name: String,
    pub instructions: Vec<IRInstruction>,
}

/// The mathematical value of an instruction.
pub enum InstrV {
    Add { dest: Seq<char>, op1: Seq<char>, op2: Seq<char> },
    Ret { op: Seq<char> },
}

/// The mathematical value of a function.
pub struct IrFunctionV {
    pub name: Seq<char>,
    pub instructions: Seq<InstrV>,
}

impl View for IRInstruction {
    type V = InstrV;

    open spec fn view(&self) -> InstrV {
        match self {
            IRInstruction::Add { dest, op1, op2 } => InstrV::Add { dest: dest@, op1: op1@, op2: op2@ },
            IRInstruction::Ret { op } => InstrV::Ret { op: op@ },
        }
    }
}

/// The views of instructions.
pub open spec fn instrs_view(s: Seq<IRInstruction>) -> Seq<InstrV> {
    s.map_values(|i: IRInstruction| i@)
}

impl View for Function {
    type V = IrFunctionV;

    open spec fn view(&self) -> IrFunctionV {
        IrFunctionV { name: self.name@, instructions: instrs_view(self.instructions@) }
    }
}

/// Why the reader rejects a line.
#[derive(Debug, Clone, Copy, PartialEq, Eq)]
pub enum IrError {
    /// A `define` line without `@`.
    MissingAt,
    /// A `define` line without `(`.
    MissingParen,
    /// A `define` line whose `(` comes before its `@`.
    NameRangeInverted,
    /// An `add` line with no operand word before its first comma.
    MissingOperand,
    /// An `add` line with no comma between its operands.
    MissingComma,
}

// ---------------------------------------------------------------------------
// Specification of the reader
// ---------------------------------------------------------------------------

/// Reads one line into the function read so far.
pub open spec fn spec_read_line(f: IrFunctionV, line: Seq<char>) -> Result<IrFunctionV, IrError> {
    let t = trim(line);
    if t.len() == 0 || t[0] == ';' {
        Ok(f)
    } else if starts_with(t, "define"@) {
        match find_char(t, '@') {
            None => Err(IrError::MissingAt),
            Some(a) => match find_char(t, '(') {
                None => Err(IrError::MissingParen),
                Some(p) => if a + 1 > p {
                    Err(IrError::NameRangeInverted)
                } else {
                    Ok(IrFunctionV { name: t.subrange(a + 1, p), ..f })
                },
            },
        }
    } else if contains_seq(t, "= add"@) {
        let lhs = before_char(t, '=');
        let rhs = before_char(after_char(t, '='), '=');
        match last_word(before_char(rhs, ',')) {
            None => Err(IrError::MissingOperand),
            Some(op1) => match find_char(rhs, ',') {
                None => Err(IrError::MissingComma),
                Some(_) => {
                    let op2 = trim(before_char(after_char(rhs, ','), ','));
                    Ok(IrFunctionV {
                        instructions: f.instructions.push(InstrV::Add { dest: trim(lhs), op1, op2 }),
                        ..f
                    })
                },
            },
        }
    } else if starts_with(t, "ret"@) {
        match last_word(t) {
            Some(op) => Ok(IrFunctionV { instructions: f.instructions.push(InstrV::Ret { op }), ..f }),
            None => Ok(f),
        }
    } else {
        Ok(f)
    }
}

/// Reads the lines in order.
pub open spec fn spec_read_lines(f: IrFunctionV, lines: Seq<Seq<char>>) -> Result<IrFunctionV, IrError>
    decreases lines.len(),
{
    if lines.len() == 0 {
        Ok(f)
    } else {
        match spec_read_lines(f, lines.drop_last()) {
            Ok(f1) => spec_read_line(f1, lines.last()),
            Err(e) => Err(e),
        }
    }
}

/// Reads a whole IR text.
pub open spec fn spec_parse_llvm_ir(code: Seq<char>) -> Result<IrFunctionV, IrError> {
    spec_read_lines(IrFunctionV { name: Seq::empty(), instructions: Seq::empty() }, split_lines(code))
}


// ---------------------------------------------------------------------------
// Facts about the text functions
// ---------------------------------------------------------------------------

/// `leading_ws` counts the white space before the first other character.
pub proof fn lemma_leading_ws(s: Seq<char>, i: int)
    requires
        0 <= i <= s.len(),
        forall|k: int| 0 <= k < i ==> spec_is_whitespace(#[trigger] s[k]),
        i == s.len() || !spec_is_whitespace(s[i]),
    ensures
        leading_ws(s) == i,
    decreases i,
{
    if i > 0 {
        assert forall|k: int| 0 <= k < i - 1 implies spec_is_whitespace(#[trigger] s.drop_first()[k]) by {
            assert(s.drop_first()[k] == s[k + 1]);
        }
        if i - 1 < s.drop_first().len() {
            assert(s.drop_first()[i - 1] == s[i]);
        }
        lemma_leading_ws(s.drop_first(), i - 1);
    }
}

/// `trailing_ws` counts the white space after the last other character.
pub proof fn lemma_trailing_ws(s: Seq<char>, j: int)
    requires
        0 <= j <= s.len(),
        forall|k: int| j <= k < s.len() ==> spec_is_whitespace(#[trigger] s[k]),
        j == 0 || !spec_is_whitespace(s[j - 1]),
    ensures
        trailing_ws(s) == s.len() - j,
    decreases s.len() - j,
{
    if j < s.len() {
        assert forall|k: int| j <= k < s.drop_last().len() implies spec_is_whitespace(#[trigger] s.drop_last()[k]) by {
            assert(s.drop_last()[k] == s[k]);
        }
        if j > 0 {
            assert(s.drop_last()[j - 1] == s[j - 1]);
        }
        lemma_trailing_ws(s.drop_last(), j);
    }
}

/// `trailing_word` counts the characters after the last white space.
pub proof fn lemma_trailing_word(s: Seq<char>, j: int)
    requires
        0 <= j <= s.len(),
        forall|k: int| j <= k < s.len() ==> !spec_is_whitespace(#[trigger] s[k]),
        j == 0 || spec_is_whitespace(s[j - 1]),
    ensures
        trailing_word(s) == s.len() - j,
    decreases s.len() - j,
{
    if j < s.len() {
        assert forall|k: int| j <= k < s.drop_last().len() implies !spec_is_whitespace(#[trigger] s.drop_last()[k]) by {
            assert(s.drop_last()[k] == s[k]);
        }
        if j > 0 {
            assert(s.drop_last()[j - 1] == s[j - 1]);
        }
        lemma_trailing_word(s.drop_last(), j);
    }
}

/// The lines of the rest of a text after a line break.
pub proof fn lemma_split_lines_step(c: Seq<char>, start: int)
    requires
        0 <= start <= c.len(),
    ensures
        match find_char(c.skip(start), '\n') {
            Some(i) => split_lines(c.skip(start)) == seq![c.subrange(start, start + i)] + split_lines(c.skip(start + i + 1)),
            None => split_lines(c.skip(start)) == seq![c.skip(start)],
        },
{
    lemma_find_char(c.skip(start), '\n');
    match find_char(c.skip(start), '\n') {
        Some(i) => {
            assert(c.skip(start).take(i) =~= c.subrange(start, start + i));
            assert(c.skip(start).skip(i + 1) =~= c.skip(start + i + 1));
        },
        None => {},
    }
}

/// A failure while reading some lines is the failure of reading more lines.
pub proof fn lemma_read_lines_err(f: IrFunctionV, a: Seq<Seq<char>>, b: Seq<Seq<char>>)
    requires
        spec_read_lines(f, a) is Err,
    ensures
        spec_read_lines(f, a + b) == spec_read_lines(f, a),
    decreases b.len(),
{
    if b.len() == 0 {
        assert(a + b =~= a);
    } else {
        lemma_read_lines_err(f, a, b.drop_last());
        assert((a + b).drop_last() =~= a + b.drop_last());
    }
}

// ---------------------------------------------------------------------------
// Executable text helpers
// ---------------------------------------------------------------------------

/// `s[lo..hi]` as a vector.
fn slice_of(s: &Vec<char>, lo: usize, hi: usize) -> (r: Vec<char>)
    requires
        lo <= hi <= s@.len(),
    ensures
        r@ == s@.subrange(lo as int, hi as int),
{
    let mut r: Vec<char> = Vec::new();
    let mut i = lo;
    while i < hi
        invariant
            lo <= i <= hi <= s@.len(),
            r@ == s@.subrange(lo as int, i as int),
        decreases hi - i,
    {
        r.push(s[i]);
        i = i + 1;
        assert(r@ =~= s@.subrange(lo as int, i as int));
    }
    r
}

/// The characters as a `String`.
fn to_string(s: &Vec<char>) -> (r: String)
    ensures
        r@ == s@,
{
    let mut r = String::new();
    let mut i: usize = 0;
    while i < s.len()
        invariant
            i <= s@.len(),
            r@ == s@.take(i as int),
        decreases s@.len() - i,
    {
        r.push(s[i]);
        i = i + 1;
        assert(r@ =~= s@.take(i as int));
    }
    assert(s@.take(s@.len() as int) =~= s@);
    r
}

/// `str::trim`
fn trim_chars(s: &Vec<char>) -> (r: Vec<char>)
    ensures
        r@ == trim(s@),
{
    let mut i: usize = 0;
    while i < s.len() && is_whitespace(s[i])
        invariant
            i <= s@.len(),
            forall|k: int| 0 <= k < i ==> spec_is_whitespace(#[trigger] s@[k]),
        decreases s@.len() - i,
    {
        i = i + 1;
    }
    proof {
        lemma_leading_ws(s@, i as int);
    }
    let ghost t = s@.skip(i as int);
    let mut j: usize = s.len();
    while j > i && is_whitespace(s[j - 1])
        invariant
            i <= j <= s@.len(),
            t == s@.skip(i as int),
            forall|k: int| j <= k < s@.len() ==> spec_is_whitespace(#[trigger] s@[k]),
        decreases j,
    {
        j = j - 1;
    }
    proof {
        assert forall|k: int| j - i <= k < t.len() implies spec_is_whitespace(#[trigger] t[k]) by {
            assert(t[k] == s@[k + i]);
        }
        if j > i {
            assert(t[j - i - 1] == s@[j - 1]);
        }
        lemma_trailing_ws(t, j - i);
        assert(t.take(j - i) =~= s@.subrange(i as int, j as int));
    }
    slice_of(s, i, j)
}

/// The first index of `c`.
fn find(s: &Vec<char>, c: char) -> (r: Option<usize>)
    ensures
        match r {
            Some(i) => find_char(s@, c) == Some(i as int) && i < s@.len(),
            None => find_char(s@, c) is None,
        },
{
    proof {
        lemma_find_char(s@, c);
    }
    let mut i: usize = 0;
    while i < s.len()
        invariant
            i <= s@.len(),
            forall|k: int| 0 <= k < i ==> s@[k] != c,
            match find_char(s@, c) {
                Some(x) => 0 <= x < s@.len() && s@[x] == c && forall|j: int| 0 <= j < x ==> s@[j] != c,
                None => forall|j: int| 0 <= j < s@.len() ==> s@[j] != c,
            },
        decreases s@.len() - i,
    {
        if s[i] == c {
            return Some(i);
        }
        i = i + 1;
    }
    None
}

/// The text before the first `c`.
fn before(s: &Vec<char>, c: char) -> (r: Vec<char>)
    ensures
        r@ == before_char(s@, c),
{
    match find(s, c) {
        Some(i) => {
            proof {
                lemma_find_char(s@, c);
            }
            slice_of(s, 0, i)
        },
        None => {
            let r = slice_of(s, 0, s.len());
            assert(r@ =~= s@);
            r
        },
    }
}

/// The text after the first `c`.
fn after(s: &Vec<char>, c: char) -> (r: Vec<char>)
    ensures
        r@ == after_char(s@, c),
{
    match find(s, c) {
        Some(i) => {
            proof {
                lemma_find_char(s@, c);
            }
            let n = s.len();
            slice_of(s, i + 1, n)
        },
        None => Vec::new(),
    }
}

/// Does `s` start with `p`?
fn has_prefix(s: &Vec<char>, p: &[char]) -> (r: bool)
    ensures
        r == starts_with(s@, p@),
{
    if p.len() > s.len() {
        return false;
    }
    let mut i: usize = 0;
    while i < p.len()
        invariant
            p@.len() <= s@.len(),
            i <= p@.len(),
            forall|k: int| 0 <= k < i ==> s@[k] == p@[k],
        decreases p@.len() - i,
    {
        if s[i] != p[i] {
            assert(s@.take(p@.len() as int)[i as int] != p@[i as int]);
            return false;
        }
        i = i + 1;
    }
    assert(s@.take(p@.len() as int) =~= p@);
    true
}

/// Does `p` occur in `s` at `i`?
fn occurs_at(s: &Vec<char>, p: &[char], i: usize) -> (r: bool)
    requires
        i + p@.len() <= s@.len(),
    ensures
        r == (s@.subrange(i as int, i + p@.len()) == p@),
{
    let n = s.len();
    let mut k: usize = 0;
    while k < p.len()
        invariant
            i + p@.len() <= s@.len(),
            n == s@.len(),
            p.len() == p@.len(),
            k <= p@.len(),
            forall|m: int| 0 <= m < k ==> s@[i + m] == p@[m],
        decreases p@.len() - k,
    {
        if s[i + k] != p[k] {
            assert(s@.subrange(i as int, i + p@.len())[k as int] != p@[k as int]);
            return false;
        }
        k = k + 1;
    }
    assert(s@.subrange(i as int, i + p@.len()) =~= p@);
    true
}

/// Does `p` occur in `s`?
fn contains(s: &Vec<char>, p: &[char]) -> (r: bool)
    ensures
        r == contains_seq(s@, p@),
{
    if p.len() > s.len() {
        return false;
    }
    let mut i: usize = 0;
    let last = s.len() - p.len();
    loop
        invariant
            p@.len() <= s@.len(),
            last == s@.len() - p@.len(),
            i <= last,
            forall|k: int| 0 <= k < i ==> #[trigger] s@.subrange(k, k + p@.len()) != p@,
        decreases last - i,
    {
        if occurs_at(s, p, i) {
            return true;
        }
        if i == last {
            return false;
        }
        i = i + 1;
    }
}

/// The last white-space-separated word.
fn last_word_of(s: &Vec<char>) -> (r: Option<Vec<char>>)
    ensures
        match last_word(s@) {
            Some(w) => r matches Some(x) && x@ == w,
            None => r is None,
        },
{
    let mut j: usize = s.len();
    while j > 0 && is_whitespace(s[j - 1])
        invariant
            j <= s@.len(),
            forall|k: int| j <= k < s@.len() ==> spec_is_whitespace(#[trigger] s@[k]),
        decreases j,
    {
        j = j - 1;
    }
    proof {
        lemma_trailing_ws(s@, j as int);
    }
    let ghost t = s@.take(j as int);
    if j == 0 {
        return None;
    }
    let mut i: usize = j;
    while i > 0 && !is_whitespace(s[i - 1])
        invariant
            i <= j <= s@.len(),
            t == s@.take(j as int),
            forall|k: int| i <= k < j ==> !spec_is_whitespace(#[trigger] s@[k]),
        decreases i,
    {
        i = i - 1;
    }
    proof {
        assert forall|k: int| i <= k < t.len() implies !spec_is_whitespace(#[trigger] t[k]) by {
            assert(t[k] == s@[k]);
        }
        if i > 0 {
            assert(t[i - 1] == s@[i - 1]);
        }
        lemma_trailing_word(t, i as int);
        assert(t.skip(i as int) =~= s@.subrange(i as int, j as int));
    }
    Some(slice_of(s, i, j))
}

// ---------------------------------------------------------------------------
// The reader
// ---------------------------------------------------------------------------

/// Reads one line into `name` and `instructions`.
fn read_line(name: &mut String, instructions: &mut Vec<IRInstruction>, line: &Vec<char>) -> (r: Result<(), IrError>)
    ensures
        match spec_read_line(IrFunctionV { name: old(name)@, instructions: instrs_view(old(instructions)@) }, line@) {
            Ok(f) => r is Ok && final(name)@ == f.name && instrs_view(final(instructions)@) == f.instructions,
            Err(e) => r == Err::<(), IrError>(e),
        },
{
    let t = trim_chars(line);
    if t.len() == 0 || t[0] == ';' {
        return Ok(());
    }
    if has_prefix(&t, &['d', 'e', 'f', 'i', 'n', 'e']) {
        proof {
            assert(seq!['d', 'e', 'f', 'i', 'n', 'e'] =~= "define"@) by {
                reveal_strlit("define");
            }
            lemma_find_char(t@, '@');
            lemma_find_char(t@, '(');
        }
        let a = match find(&t, '@') {
            Some(a) => a,
            None => return Err(IrError::MissingAt),
        };
        let p = match find(&t, '(') {
            Some(p) => p,
            None => return Err(IrError::MissingParen),
        };
        if a + 1 > p {
            return Err(IrError::NameRangeInverted);
        }
        let n = slice_of(&t, a + 1, p);
        *name = to_string(&n);
        return Ok(());
    }
    proof {
        assert(seq!['d', 'e', 'f', 'i', 'n', 'e'] =~= "define"@) by {
            reveal_strlit("define");
        }
        assert(seq!['=', ' ', 'a', 'd', 'd'] =~= "= add"@) by {
            reveal_strlit("= add");
        }
        assert(seq!['r', 'e', 't'] =~= "ret"@) by {
            reveal_strlit("ret");
        }
    }
    if contains(&t, &['=', ' ', 'a', 'd', 'd']) {
        let lhs = before(&t, '=');
        let rest = after(&t, '=');
        let rhs = before(&rest, '=');
        let first = before(&rhs, ',');
        let op1 = match last_word_of(&first) {
            Some(w) => w,
            None => return Err(IrError::MissingOperand),
        };
        if find(&rhs, ',').is_none() {
            return Err(IrError::MissingComma);
        }
        let rest2 = after(&rhs, ',');
        let second = before(&rest2, ',');
        let op2 = trim_chars(&second);
        let dest = trim_chars(&lhs);
        let ghost prev = instructions@;
        instructions.push(IRInstruction::Add { dest: to_string(&dest), op1: to_string(&op1), op2: to_string(&op2) });
        assert(instrs_view(instructions@) =~= instrs_view(prev).push(InstrV::Add { dest: dest@, op1: op1@, op2: op2@ }));
        return Ok(());
    }
    if has_prefix(&t, &['r', 'e', 't']) {
        match last_word_of(&t) {
            Some(w) => {
                let ghost prev = instructions@;
                instructions.push(IRInstruction::Ret { op: to_string(&w) });
                assert(instrs_view(instructions@) =~= instrs_view(prev).push(InstrV::Ret { op: w@ }));
            },
            None => {},
        }
    }
    Ok(())
}

/// Reads an LLVM IR text: the name of the (last) `define`d function, and its
/// `add` and `ret` instructions in order.  Other lines are skipped.
/// Returns the error that rejects the input instead of aborting.
pub fn try_parse_llvm_ir(code: &str) -> (r: Result<Function, IrError>)
    ensures
        match spec_parse_llvm_ir(code@) {
            Ok(f) => r matches Ok(x) && x@ == f,
            Err(e) => r matches Err(x) && x == e,
        },
{
    let c = str_to_chars(code);
    let ghost lines = split_lines(c@);
    let ghost f0 = IrFunctionV { name: Seq::empty(), instructions: Seq::empty() };
    let mut name = String::new();
    let mut instructions: Vec<IRInstruction> = Vec::new();
    let ghost mut done: Seq<Seq<char>> = Seq::empty();
    let mut start: usize = 0;
    assert(c@.skip(0) =~= c@);
    assert(lines =~= done + split_lines(c@.skip(0)));
    assert(instrs_view(instructions@) =~= Seq::<InstrV>::empty());
    loop
        invariant
            start <= c@.len(),
            lines == split_lines(c@),
            lines == done + split_lines(c@.skip(start as int)),
            spec_read_lines(f0, done) == Ok::<IrFunctionV, IrError>(IrFunctionV { name: name@, instructions: instrs_view(instructions@) }),
            code@ == c@,
            f0 == (IrFunctionV { name: Seq::empty(), instructions: Seq::empty() }),
        decreases c@.len() - start,
    {
        proof {
            lemma_split_lines_step(c@, start as int);
            lemma_find_char(c@.skip(start as int), '\n');
        }
        let mut end = start;
        while end < c.len() && c[end] != '\n'
            invariant
                start <= end <= c@.len(),
                forall|k: int| start <= k < end ==> c@[k] != '\n',
            decreases c@.len() - end,
        {
            end = end + 1;
        }
        let line = slice_of(&c, start, end);
        let ghost cur = IrFunctionV { name: name@, instructions: instrs_view(instructions@) };
        let ghost next_done = done.push(line@);
        proof {
            assert(next_done.drop_last() =~= done);
        }
        if end == c.len() {
            proof {
                assert(c@.skip(start as int) =~= line@);
                assert(find_char(c@.skip(start as int), '\n') is None) by {
                    if let Some(i) = find_char(c@.skip(start as int), '\n') {
                        assert(c@.skip(start as int)[i] == c@[start + i]);
                    }
                }
                assert(lines =~= next_done);
            }
            return match read_line(&mut name, &mut instructions, &line) {
                Ok(()) => Ok(Function { name, instructions }),
                Err(e) => Err(e),
            };
        }
        proof {
            let i = end - start;
            assert(c@.skip(start as int)[i] == c@[end as int]);
            assert forall|k: int| 0 <= k < i implies c@.skip(start as int)[k] != '\n' by {
                assert(c@.skip(start as int)[k] == c@[start + k]);
            }
            assert(find_char(c@.skip(start as int), '\n') == Some(i)) by {
                match find_char(c@.skip(start as int), '\n') {
                    Some(x) => {
                        if x < i {
                            assert(c@.skip(start as int)[x] != '\n');
                        }
                        if x > i {
                            assert(c@.skip(start as int)[i] == '\n');
                        }
                    },
                    None => {
                        assert(c@.skip(start as int)[i] == '\n');
                    },
                }
            }
            assert(lines =~= next_done + split_lines(c@.skip(end + 1)));
        }
        match read_line(&mut name, &mut instructions, &line) {
            Ok(()) => {},
            Err(e) => {
                proof {
                    lemma_read_lines_err(f0, next_done, split_lines(c@.skip(end + 1)));
                }
                return Err(e);
            },
        }
        proof {
            done = next_done;
        }
        start = end + 1;
    }
}
/// Reads the function of an IR text whose every line is well formed: the
/// reader aborts on a `define` line without a name between `@` and `(`, and
/// on an `add` line without two operands; `try_parse_llvm_ir` reports which.
pub fn parse_llvm_ir(code: &str) -> (r: Function)
    requires
        spec_parse_llvm_ir(code@) is Ok,
    ensures
        r@ == spec_parse_llvm_ir(code@)->Ok_0,
{
    try_parse_llvm_ir(code).unwrap()
}
} // verus!
