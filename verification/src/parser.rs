//! Instruction Parser: turns one normalized line of assembly into an
//! `Instruction` (address instruction, compute instruction, or label
//! definition), or reports a syntax error.
//!
//! The grammar of a line is:
//! - `(<name>)` exactly: a label definition;
//! - `@<text>`: an address instruction; numeric text becomes a literal
//!   address, anything else a symbolic label;
//! - otherwise a compute instruction `dest=comp;jump`, where the `dest=`
//!   part (zero or more of `A`, `D`, `M`, each at most once) and the
//!   `;jump` part (a case-insensitive mnemonic) are optional.
//!
//! The parser accepts the syntactic shapes of computations; which
//! source/operation triples are actually encodable is the encoder's
//! business.
use crate::normalize::{normalize_line, spec_normalize};
use crate::text::{chars_range_to_string, chars_to_string, str_to_chars};
use crate::types::{
    instruction_views, line_views, AsmError, AsmErrorView, Computation, Instruction,
    InstructionView, Jump, Location, LocationView, Macro, MacroView, Operation, Register, Source,
};
use vstd::prelude::*;
use vstd::string::*;

verus! {

/// The length of the longest prefix of `s` whose characters all satisfy `p`.
pub open spec fn span(s: Seq<char>, p: spec_fn(char) -> bool) -> int
    decreases s.len(),
{
    if s.len() == 0 {
        0
    } else if !p(s[0]) {
        0
    } else {
        1 + span(s.skip(1), p)
    }
}

/// `span` points at the first character that fails `p`, if any.
pub proof fn lemma_span(s: Seq<char>, p: spec_fn(char) -> bool)
    ensures
        0 <= span(s, p) <= s.len(),
        forall|j: int| 0 <= j < span(s, p) ==> p(s[j]),
        span(s, p) < s.len() ==> !p(s[span(s, p)]),
    decreases s.len(),
{
    if s.len() == 0 {
    } else if !p(s[0]) {
    } else {
        lemma_span(s.skip(1), p);
        assert forall|j: int| 0 <= j < span(s, p) implies p(s[j]) by {
            if j > 0 {
                assert(p(s.skip(1)[j - 1]));
            }
        }
        if span(s, p) < s.len() {
            assert(!p(s.skip(1)[span(s, p) - 1]));
        }
    }
}

/// A decimal digit.
pub open spec fn is_digit(c: char) -> bool {
    48 <= c as u32 <= 57
}

/// The value of a digit character (zero for non-digits).
pub open spec fn digit_val(c: char) -> nat {
    if is_digit(c) {
        (c as u32 - 48) as nat
    } else {
        0
    }
}

/// The value of a digit string read in decimal.
pub open spec fn digits_value(s: Seq<char>) -> nat
    decreases s.len(),
{
    if s.len() == 0 {
        0
    } else {
        digits_value(s.drop_last()) * 10 + digit_val(s.last())
    }
}

/// Extending a digit string never decreases its value.
pub proof fn lemma_digits_value_take(s: Seq<char>, i: int)
    requires
        0 <= i <= s.len(),
    ensures
        digits_value(s.take(i)) <= digits_value(s),
    decreases s.len(),
{
    if i < s.len() {
        assert(s.take(i) == s.drop_last().take(i));
        lemma_digits_value_take(s.drop_last(), i);
    } else {
        assert(s.take(i) == s);
    }
}

/// Text that denotes a literal address: non-empty, all digits, value in
/// the range of a sixteen-bit word.
pub open spec fn is_numeral_u16(s: Seq<char>) -> bool {
    &&& s.len() > 0
    &&& (forall|j: int| 0 <= j < s.len() ==> is_digit(s[j]))
    &&& digits_value(s) <= 65535
}

/// What the text after `@` denotes: numeric text is a literal address,
/// anything else a symbolic label, kept verbatim and case-sensitive.
pub open spec fn spec_location_of(s: Seq<char>) -> LocationView {
    if is_numeral_u16(s) {
        LocationView::Address(digits_value(s) as u16)
    } else {
        LocationView::Label(s)
    }
}

/// Reads `chars[from..to]` as a decimal numeral fitting in sixteen bits.
pub fn parse_u16_numeral(chars: &Vec<char>, from: usize, to: usize) -> (r: Option<u16>)
    requires
        from <= to <= chars@.len(),
    ensures
        ({
            let s = chars@.subrange(from as int, to as int);
            match r {
                Option::Some(v) => is_numeral_u16(s) && v == digits_value(s),
                Option::None => !is_numeral_u16(s),
            }
        }),
{
    let ghost s = chars@.subrange(from as int, to as int);
    if from == to {
        return Option::None;
    }
    let mut acc: u32 = 0;
    let mut i: usize = from;
    while i < to
        invariant
            from <= i <= to <= chars@.len(),
            s == chars@.subrange(from as int, to as int),
            acc == digits_value(s.take(i - from)),
            acc <= 65535,
            forall|j: int| 0 <= j < i - from ==> is_digit(s[j]),
        decreases to - i,
    {
        let c = chars[i];
        let cu = c as u32;
        proof {
            assert(s[i - from] == chars@[i as int]);
            assert(s.take(i - from + 1).drop_last() == s.take(i - from));
            assert(s.take(i - from + 1).last() == s[i - from]);
        }
        if cu < 48 || cu > 57 {
            return Option::None;
        }
        let acc2 = acc * 10 + (cu - 48);
        if acc2 > 65535 {
            proof {
                assert(digits_value(s.take(i - from + 1)) == acc2);
                lemma_digits_value_take(s, i - from + 1);
            }
            return Option::None;
        }
        acc = acc2;
        i = i + 1;
    }
    proof {
        assert(s.take(to - from) == s);
    }
    Option::Some(acc as u16)
}

/// ASCII lowercasing of a single character.
pub open spec fn spec_lower_c(c: char) -> char {
    if 65 <= c as u32 <= 90 {
        ((c as u32 + 32) as u8) as char
    } else {
        c
    }
}

/// Lowercases one ASCII letter; leaves every other character unchanged.
pub fn lower_c(c: char) -> (r: char)
    ensures
        r == spec_lower_c(c),
{
    let cu = c as u32;
    if 65 <= cu && cu <= 90 {
        let b = (cu + 32) as u8;
        proof {
            assert(spec_lower_c(c) == ((c as u32 + 32) as u8) as char);
        }
        b as char
    } else {
        c
    }
}

/// The jump named by a three-character mnemonic, compared without regard
/// to letter case.
pub open spec fn spec_jump_of(s: Seq<char>) -> Option<Jump> {
    if s.len() != 3 {
        Option::None
    } else {
        let a = spec_lower_c(s[0]);
        let b = spec_lower_c(s[1]);
        let c = spec_lower_c(s[2]);
        if a == 'j' && b == 'g' && c == 't' {
            Option::Some(Jump::JGT)
        } else if a == 'j' && b == 'e' && c == 'q' {
            Option::Some(Jump::JEQ)
        } else if a == 'j' && b == 'g' && c == 'e' {
            Option::Some(Jump::JGE)
        } else if a == 'j' && b == 'l' && c == 't' {
            Option::Some(Jump::JLT)
        } else if a == 'j' && b == 'n' && c == 'e' {
            Option::Some(Jump::JNE)
        } else if a == 'j' && b == 'l' && c == 'e' {
            Option::Some(Jump::JLE)
        } else if a == 'j' && b == 'm' && c == 'p' {
            Option::Some(Jump::JMP)
        } else {
            Option::None
        }
    }
}

/// Reads `chars[from..to]` as a jump mnemonic.
pub fn parse_jump_mnemonic(chars: &Vec<char>, from: usize, to: usize) -> (r: Option<Jump>)
    requires
        from <= to <= chars@.len(),
    ensures
        r == spec_jump_of(chars@.subrange(from as int, to as int)),
{
    let ghost s = chars@.subrange(from as int, to as int);
    if to - from != 3 {
        return Option::None;
    }
    let a = lower_c(chars[from]);
    let b = lower_c(chars[from + 1]);
    let c = lower_c(chars[from + 2]);
    proof {
        assert(s[0] == chars@[from as int]);
        assert(s[1] == chars@[from + 1 as int]);
        assert(s[2] == chars@[from + 2 as int]);
    }
    if a == 'j' && b == 'g' && c == 't' {
        Option::Some(Jump::JGT)
    } else if a == 'j' && b == 'e' && c == 'q' {
        Option::Some(Jump::JEQ)
    } else if a == 'j' && b == 'g' && c == 'e' {
        Option::Some(Jump::JGE)
    } else if a == 'j' && b == 'l' && c == 't' {
        Option::Some(Jump::JLT)
    } else if a == 'j' && b == 'n' && c == 'e' {
        Option::Some(Jump::JNE)
    } else if a == 'j' && b == 'l' && c == 'e' {
        Option::Some(Jump::JLE)
    } else if a == 'j' && b == 'm' && c == 'p' {
        Option::Some(Jump::JMP)
    } else {
        Option::None
    }
}

/// A destination list is well-formed when every character names a register
/// and no register is written twice.
pub open spec fn dests_ok(s: Seq<char>) -> bool {
    &&& (forall|i: int| 0 <= i < s.len() ==> Register::spec_of_char(s[i]) is Some)
    &&& (forall|i: int, j: int| 0 <= i < j < s.len() ==> s[i] != s[j])
}

/// The registers named by a destination list, in written order.
pub open spec fn dests_of(s: Seq<char>) -> Seq<Register> {
    Seq::new(s.len(), |i: int| Register::spec_of_char(s[i]).unwrap())
}

/// The computation denoted by the text between `=` and `;`: a bare source,
/// a unary-prefixed source, or a binary source-operator-source form.
pub open spec fn spec_comp_of(s: Seq<char>) -> Option<Computation> {
    if s.len() == 1 {
        match Source::spec_of_char(s[0]) {
            Option::Some(src) => Option::Some(
                Computation::Computation(src, Source::Absent, Operation::Identity),
            ),
            Option::None => Option::None,
        }
    } else if s.len() == 2 {
        match (Operation::spec_unary_of_char(s[0]), Source::spec_of_char(s[1])) {
            (Option::Some(op), Option::Some(src)) => Option::Some(
                Computation::Computation(src, Source::Absent, op),
            ),
            _ => Option::None,
        }
    } else if s.len() == 3 {
        match (
            Source::spec_of_char(s[0]),
            Operation::spec_binary_of_char(s[1]),
            Source::spec_of_char(s[2]),
        ) {
            (Option::Some(lhs), Option::Some(op), Option::Some(rhs)) => Option::Some(
                Computation::Computation(lhs, rhs, op),
            ),
            _ => Option::None,
        }
    } else {
        Option::None
    }
}

/// Reads `chars[from..to]` as a computation.
pub fn parse_comp_text(chars: &Vec<char>, from: usize, to: usize) -> (r: Option<Computation>)
    requires
        from <= to <= chars@.len(),
    ensures
        r == spec_comp_of(chars@.subrange(from as int, to as int)),
{
    let ghost s = chars@.subrange(from as int, to as int);
    let len = to - from;
    if len == 1 {
        proof {
            assert(s[0] == chars@[from as int]);
        }
        match Source::of_char(chars[from]) {
            Option::Some(src) => Option::Some(
                Computation::Computation(src, Source::Absent, Operation::Identity),
            ),
            Option::None => Option::None,
        }
    } else if len == 2 {
        proof {
            assert(s[0] == chars@[from as int]);
            assert(s[1] == chars@[from + 1 as int]);
        }
        match (Operation::unary_of_char(chars[from]), Source::of_char(chars[from + 1])) {
            (Option::Some(op), Option::Some(src)) => Option::Some(
                Computation::Computation(src, Source::Absent, op),
            ),
            _ => Option::None,
        }
    } else if len == 3 {
        proof {
            assert(s[0] == chars@[from as int]);
            assert(s[1] == chars@[from + 1 as int]);
            assert(s[2] == chars@[from + 2 as int]);
        }
        match (
            Source::of_char(chars[from]),
            Operation::binary_of_char(chars[from + 1]),
            Source::of_char(chars[from + 2]),
        ) {
            (Option::Some(lhs), Option::Some(op), Option::Some(rhs)) => Option::Some(
                Computation::Computation(lhs, rhs, op),
            ),
            _ => Option::None,
        }
    } else {
        Option::None
    }
}

/// The compute-instruction grammar of a whole normalized line: an optional
/// destination part before `=`, a computation, and an optional jump after
/// `;`.
pub open spec fn spec_parse_c_line(s: Seq<char>) -> Option<InstructionView> {
    let semi = span(s, |c: char| c != ';');
    let head = s.take(semi);
    let eq = span(head, |c: char| c != '=');
    let dest_part = if eq < head.len() {
        head.take(eq)
    } else {
        Seq::empty()
    };
    let comp_part = if eq < head.len() {
        head.skip(eq + 1)
    } else {
        head
    };
    let jump = if semi == s.len() {
        Option::Some(Jump::Never)
    } else {
        spec_jump_of(s.skip(semi + 1))
    };
    if dests_ok(dest_part) && spec_comp_of(comp_part) is Some && jump is Some {
        Option::Some(
            InstructionView::C(
                dests_of(dest_part),
                spec_comp_of(comp_part).unwrap(),
                jump.unwrap(),
            ),
        )
    } else {
        Option::None
    }
}

/// The instruction denoted by one normalized line, if any: a label
/// definition `(<name>)`, an address instruction `@<text>`, or a compute
/// instruction.
pub open spec fn spec_parse_line(s: Seq<char>) -> Option<InstructionView> {
    if s.len() >= 2 && s[0] == '(' && s[s.len() - 1] == ')' {
        Option::Some(InstructionView::LabelDefinition(s.subrange(1, s.len() - 1)))
    } else if s.len() >= 1 && s[0] == '@' {
        Option::Some(InstructionView::A(spec_location_of(s.skip(1))))
    } else {
        spec_parse_c_line(s)
    }
}

/// Reads the destination part `chars[from..to]` (the text before `=`).
fn parse_dest_text(chars: &Vec<char>, from: usize, to: usize) -> (r: Option<Vec<Register>>)
    requires
        from <= to <= chars@.len(),
    ensures
        ({
            let s = chars@.subrange(from as int, to as int);
            match r {
                Option::Some(v) => dests_ok(s) && v@ == dests_of(s),
                Option::None => !dests_ok(s),
            }
        }),
{
    let ghost s = chars@.subrange(from as int, to as int);
    let mut regs: Vec<Register> = Vec::new();
    let mut has_a = false;
    let mut has_d = false;
    let mut has_m = false;
    let mut i: usize = from;
    while i < to
        invariant
            from <= i <= to <= chars@.len(),
            s == chars@.subrange(from as int, to as int),
            regs@ == dests_of(s.take(i - from)),
            forall|j: int| 0 <= j < i - from ==> Register::spec_of_char(s[j]) is Some,
            forall|j: int, k: int| 0 <= j < k < i - from ==> s[j] != s[k],
            has_a <==> (exists|j: int| 0 <= j < i - from && s[j] == 'A'),
            has_d <==> (exists|j: int| 0 <= j < i - from && s[j] == 'D'),
            has_m <==> (exists|j: int| 0 <= j < i - from && s[j] == 'M'),
        decreases to - i,
    {
        let c = chars[i];
        proof {
            assert(s[i - from] == chars@[i as int]);
        }
        let reg = match Register::of_char(c) {
            Option::Some(reg) => reg,
            Option::None => {
                return Option::None;
            },
        };
        let dup = match reg {
            Register::A => has_a,
            Register::D => has_d,
            Register::M => has_m,
        };
        if dup {
            proof {
                let j = choose|j: int| 0 <= j < i - from && #[trigger] s[j] == s[i - from];
                assert(s[j] == s[i - from]);
            }
            return Option::None;
        }
        match reg {
            Register::A => has_a = true,
            Register::D => has_d = true,
            Register::M => has_m = true,
        }
        regs.push(reg);
        proof {
            assert(dests_of(s.take(i - from + 1)) =~= dests_of(s.take(i - from)).push(reg));
        }
        i = i + 1;
    }
    proof {
        assert(s.take(to - from) == s);
    }
    Option::Some(regs)
}

/// Parses one normalized, macro-expanded line into an instruction.
/// Succeeds exactly on the lines of the grammar above; every other line is
/// a syntax error carrying the offending text.
pub fn parse_line(line: &str) -> (r: Result<Instruction, AsmError>)
    ensures
        match r {
            Result::Ok(instr) => spec_parse_line(line@) == Option::Some(instr@),
            Result::Err(e) => spec_parse_line(line@) is None && e@ == AsmErrorView::SyntaxError(
                line@,
            ),
        },
{
    let chars = str_to_chars(line);
    let n = chars.len();
    if n >= 2 && chars[0] == '(' && chars[n - 1] == ')' {
        let name = chars_range_to_string(&chars, 1, n - 1);
        return Result::Ok(Instruction::LabelDefinition(name));
    }
    if n >= 1 && chars[0] == '@' {
        proof {
            assert(chars@.subrange(1, n as int) == line@.skip(1));
        }
        let loc = match parse_u16_numeral(&chars, 1, n) {
            Option::Some(v) => Location::Address(v),
            Option::None => Location::Label(chars_range_to_string(&chars, 1, n)),
        };
        return Result::Ok(Instruction::A(loc));
    }
    // Compute instruction: find the `;` and `=` separators.
    let ghost semi_p = |c: char| c != ';';
    let ghost s = line@;
    proof {
        lemma_span(s, semi_p);
    }
    let mut semi: usize = n;
    let mut i: usize = 0;
    while i < n && semi == n
        invariant
            i <= n,
            n == s.len(),
            chars@ == s,
            semi == n || semi == span(s, semi_p),
            semi == n ==> forall|j: int| 0 <= j < i ==> s[j] != ';',
            0 <= span(s, semi_p) <= n,
            forall|j: int| 0 <= j < span(s, semi_p) ==> s[j] != ';',
            span(s, semi_p) < n ==> s[span(s, semi_p)] == ';',
        decreases n - i,
    {
        if chars[i] == ';' {
            proof {
                let sp = span(s, semi_p);
                if sp < i {
                    assert(s[sp] == ';');
                    assert(s[sp] != ';');
                }
            }
            semi = i;
        }
        i = i + 1;
    }
    proof {
        if semi == n {
            assert(span(s, semi_p) == n) by {
                if span(s, semi_p) < n {
                    assert(s[span(s, semi_p)] == ';');
                }
            }
        }
        assert(semi == span(s, semi_p));
    }
    let ghost head = s.take(semi as int);
    let ghost eq_p = |c: char| c != '=';
    proof {
        lemma_span(head, eq_p);
    }
    let mut eq: usize = semi;
    let mut k: usize = 0;
    while k < semi && eq == semi
        invariant
            k <= semi <= n,
            n == s.len(),
            chars@ == s,
            head == s.take(semi as int),
            eq == semi || eq == span(head, eq_p),
            eq == semi ==> forall|j: int| 0 <= j < k ==> head[j] != '=',
            0 <= span(head, eq_p) <= semi,
            forall|j: int| 0 <= j < span(head, eq_p) ==> head[j] != '=',
            span(head, eq_p) < semi ==> head[span(head, eq_p)] == '=',
        decreases semi - k,
    {
        if chars[k] == '=' {
            proof {
                let sp = span(head, eq_p);
                assert(head[k as int] == s[k as int]);
                if sp < k {
                    assert(head[sp] == '=');
                    assert(head[sp] != '=');
                }
            }
            eq = k;
        }
        proof {
            assert(head[k as int] == s[k as int]);
        }
        k = k + 1;
    }
    proof {
        if eq == semi {
            assert(span(head, eq_p) == semi) by {
                if span(head, eq_p) < semi {
                    assert(head[span(head, eq_p)] == '=');
                }
            }
        }
        assert(eq == span(head, eq_p));
    }
    // Destination part.
    let (dest_from, dest_to, comp_from): (usize, usize, usize) = if eq < semi {
        (0, eq, eq + 1)
    } else {
        (0, 0, 0)
    };
    proof {
        if eq < semi {
            assert(chars@.subrange(0, eq as int) == head.take(eq as int));
            assert(chars@.subrange(eq + 1 as int, semi as int) == head.skip(eq + 1));
        } else {
            assert(chars@.subrange(0, 0) =~= Seq::<char>::empty());
            assert(chars@.subrange(0, semi as int) == head);
        }
    }
    let dests = match parse_dest_text(&chars, dest_from, dest_to) {
        Option::Some(v) => v,
        Option::None => {
            return Result::Err(AsmError::SyntaxError(line.to_owned()));
        },
    };
    let comp = match parse_comp_text(&chars, comp_from, semi) {
        Option::Some(c) => c,
        Option::None => {
            return Result::Err(AsmError::SyntaxError(line.to_owned()));
        },
    };
    let jump = if semi == n {
        Jump::Never
    } else {
        proof {
            assert(chars@.subrange(semi + 1 as int, n as int) == s.skip(semi + 1));
        }
        match parse_jump_mnemonic(&chars, semi + 1, n) {
            Option::Some(j) => j,
            Option::None => {
                return Result::Err(AsmError::SyntaxError(line.to_owned()));
            },
        }
    };
    Result::Ok(Instruction::C(dests, comp, jump))
}

/// The position of the first newline in `s`, or the length of `s`.
pub open spec fn first_nl(s: Seq<char>) -> int
    decreases s.len(),
{
    if s.len() == 0 {
        0
    } else if s[0] == '\n' {
        0
    } else {
        1 + first_nl(s.skip(1))
    }
}

/// `first_nl` is the first position holding a newline, if any.
pub proof fn lemma_first_nl(s: Seq<char>)
    ensures
        0 <= first_nl(s) <= s.len(),
        first_nl(s) < s.len() ==> s[first_nl(s)] == '\n',
        forall|j: int| 0 <= j < first_nl(s) ==> s[j] != '\n',
    decreases s.len(),
{
    if s.len() == 0 {
    } else if s[0] == '\n' {
    } else {
        lemma_first_nl(s.skip(1));
        assert forall|j: int| 0 <= j < first_nl(s) implies s[j] != '\n' by {
            if j > 0 {
                assert(s.skip(1)[j - 1] != '\n');
            }
        }
        if first_nl(s) < s.len() {
            assert(s.skip(1)[first_nl(s) - 1] == '\n');
        }
    }
}

/// `first_nl` is pinned down by its endpoints.
pub proof fn lemma_first_nl_is(s: Seq<char>, k: int)
    requires
        0 <= k <= s.len(),
        forall|j: int| 0 <= j < k ==> s[j] != '\n',
        k < s.len() ==> s[k] == '\n',
    ensures
        first_nl(s) == k,
{
    lemma_first_nl(s);
    if first_nl(s) < k {
        assert(s[first_nl(s)] != '\n');
    }
    if first_nl(s) > k {
        assert(s[k] != '\n');
    }
}

/// The lines of a source text, split on newline characters. A trailing
/// newline yields a final empty line, as splitting does in ordinary Rust.
pub open spec fn spec_split_lines(s: Seq<char>) -> Seq<Seq<char>>
    decreases s.len(),
    via spec_split_lines_dec
{
    let k = first_nl(s);
    if k == s.len() {
        seq![s]
    } else {
        seq![s.take(k)] + spec_split_lines(s.skip(k + 1))
    }
}

#[via_fn]
proof fn spec_split_lines_dec(s: Seq<char>) {
    lemma_first_nl(s);
}

/// Splits a source text into its lines.
pub fn split_lines(s: &str) -> (r: Vec<String>)
    ensures
        line_views(r@) == spec_split_lines(s@),
{
    let chars = crate::text::str_to_chars(s);
    let n = chars.len();
    let mut lines: Vec<String> = Vec::new();
    let mut cur: Vec<char> = Vec::new();
    let mut start: usize = 0;
    let mut i: usize = 0;
    proof {
        assert(s@.skip(0) == s@);
        assert(line_views(lines@) =~= Seq::<Seq<char>>::empty());
        assert(line_views(lines@) + spec_split_lines(s@) =~= spec_split_lines(s@));
        assert(cur@ =~= s@.subrange(0, 0));
    }
    while i < n
        invariant
            start <= i <= n,
            n == s@.len(),
            chars@ == s@,
            cur@ == s@.subrange(start as int, i as int),
            forall|j: int| start <= j < i ==> s@[j] != '\n',
            spec_split_lines(s@) == line_views(lines@) + spec_split_lines(s@.skip(start as int)),
        decreases n - i,
    {
        let c = chars[i];
        if c == '\n' {
            let line = chars_to_string(&cur);
            proof {
                let tail = s@.skip(start as int);
                assert forall|j: int| 0 <= j < i - start implies tail[j] != '\n' by {
                    assert(tail[j] == s@[start + j]);
                }
                assert(tail[i - start] == s@[i as int]);
                lemma_first_nl_is(tail, i - start);
                assert(tail.take(i - start) == s@.subrange(start as int, i as int));
                assert(tail.skip(i - start + 1) == s@.skip(i + 1 as int));
                assert(spec_split_lines(tail) == seq![line@] + spec_split_lines(
                    s@.skip(i + 1 as int),
                ));
                assert(line_views(lines@.push(line)) =~= line_views(lines@) + seq![line@]);
                assert((line_views(lines@) + seq![line@]) + spec_split_lines(s@.skip(i + 1 as int))
                    =~= line_views(lines@) + (seq![line@] + spec_split_lines(
                    s@.skip(i + 1 as int),
                )));
            }
            lines.push(line);
            cur = Vec::new();
            start = i + 1;
            proof {
                assert(cur@ =~= s@.subrange(start as int, start as int));
            }
        } else {
            cur.push(c);
            proof {
                assert(s@.subrange(start as int, i + 1 as int) == s@.subrange(
                    start as int,
                    i as int,
                ).push(s@[i as int]));
            }
        }
        i = i + 1;
    }
    let line = chars_to_string(&cur);
    proof {
        let tail = s@.skip(start as int);
        assert forall|j: int| 0 <= j < n - start implies tail[j] != '\n' by {
            assert(tail[j] == s@[start + j]);
        }
        lemma_first_nl_is(tail, n - start);
        assert(tail == s@.subrange(start as int, n as int));
        assert(spec_split_lines(tail) == seq![tail]);
        assert(tail =~= line@);
        assert(line_views(lines@.push(line)) =~= line_views(lines@) + seq![line@]);
    }
    lines.push(line);
    lines
}

/// The parse of a whole program given as raw lines: each line is
/// normalized, blank results are dropped, and every remaining line must
/// parse. The first offending line (already normalized) is the error.
pub open spec fn spec_parse_lines(ls: Seq<Seq<char>>) -> Result<Seq<InstructionView>, Seq<char>>
    decreases ls.len(),
{
    if ls.len() == 0 {
        Result::Ok(Seq::empty())
    } else {
        let nl = spec_normalize(ls[0]);
        if nl.len() == 0 {
            spec_parse_lines(ls.skip(1))
        } else {
            match spec_parse_line(nl) {
                Option::Some(iv) => match spec_parse_lines(ls.skip(1)) {
                    Result::Ok(tail) => Result::Ok(seq![iv] + tail),
                    Result::Err(e) => Result::Err(e),
                },
                Option::None => Result::Err(nl),
            }
        }
    }
}

/// Normalizes and parses a sequence of raw source lines into the ordered
/// instruction sequence, label definitions included.
pub fn parse_program_lines(lines: &Vec<String>) -> (r: Result<Vec<Instruction>, AsmError>)
    ensures
        match r {
            Result::Ok(v) => spec_parse_lines(line_views(lines@)) == Result::<
                Seq<InstructionView>,
                Seq<char>,
            >::Ok(instruction_views(v@)),
            Result::Err(e) => {
                &&& spec_parse_lines(line_views(lines@)) matches Result::Err(t)
                &&& e@ == AsmErrorView::SyntaxError(t)
            },
        },
{
    let ghost lsv = line_views(lines@);
    let mut out: Vec<Instruction> = Vec::new();
    let mut i: usize = 0;
    proof {
        assert(lsv.skip(0) == lsv);
        assert(instruction_views(out@) =~= Seq::<InstructionView>::empty());
        if spec_parse_lines(lsv) is Ok {
            let t = spec_parse_lines(lsv)->Ok_0;
            assert(instruction_views(out@) + t =~= t);
        }
    }
    while i < lines.len()
        invariant
            i <= lines@.len(),
            lsv == line_views(lines@),
            spec_parse_lines(lsv.skip(i as int)) matches Result::Ok(t) ==> spec_parse_lines(lsv)
                == Result::<Seq<InstructionView>, Seq<char>>::Ok(instruction_views(out@) + t),
            spec_parse_lines(lsv.skip(i as int)) matches Result::Err(e) ==> spec_parse_lines(lsv)
                == Result::<Seq<InstructionView>, Seq<char>>::Err(e),
        decreases lines@.len() - i,
    {
        proof {
            assert(lsv.skip(i as int)[0] == lsv[i as int]);
            assert(lsv[i as int] == lines@[i as int]@);
            assert(lsv.skip(i as int).skip(1) =~= lsv.skip(i + 1));
        }
        let nl = normalize_line(lines[i].as_str());
        if nl.as_str().unicode_len() != 0 {
            match parse_line(nl.as_str()) {
                Result::Ok(instr) => {
                    proof {
                        assert(instruction_views(out@.push(instr)) =~= instruction_views(
                            out@,
                        ).push(instr@));
                        if spec_parse_lines(lsv.skip(i + 1)) is Ok {
                            let t = spec_parse_lines(lsv.skip(i + 1))->Ok_0;
                            assert(instruction_views(out@) + (seq![instr@] + t)
                                =~= instruction_views(out@).push(instr@) + t);
                        }
                    }
                    out.push(instr);
                },
                Result::Err(e) => {
                    return Result::Err(e);
                },
            }
        }
        i = i + 1;
    }
    proof {
        assert(lsv.skip(lines@.len() as int) =~= Seq::<Seq<char>>::empty());
        assert(instruction_views(out@) + Seq::<InstructionView>::empty() =~= instruction_views(
            out@,
        ));
    }
    Result::Ok(out)
}

// ---------------------------------------------------------------------
// Cursor-style parsers. These consume a prefix of their input and hand
// back the rest, so partial inputs and trailing text can be examined; the
// line parser above is built on whole normalized lines instead.
// ---------------------------------------------------------------------

/// A class of characters at which a scan stops.
pub ghost enum ScanStop {
    /// Anything that does not name a destination register.
    NonRegister,
    /// The end of a computation: `;` or a newline.
    CompBreak,
    /// The end of a directive argument: blank or newline.
    ArgEnd,
    /// Anything but a space or tab.
    NonSpaceTab,
    /// Anything but a space, tab or newline.
    NonBlank,
}

/// Whether a scan of the given class stops at character `c`.
pub open spec fn scan_stops(c: char, k: ScanStop) -> bool {
    match k {
        ScanStop::NonRegister => !(c == 'A' || c == 'D' || c == 'M'),
        ScanStop::CompBreak => c == ';' || c == '\n',
        ScanStop::ArgEnd => c == '\n' || c == ' ' || c == '\t',
        ScanStop::NonSpaceTab => !(c == ' ' || c == '\t'),
        ScanStop::NonBlank => !(c == ' ' || c == '\t' || c == '\n'),
    }
}

/// The first position of `s` where a scan of class `k` stops, or the
/// length of `s`.
pub open spec fn first_stop(s: Seq<char>, k: ScanStop) -> int
    decreases s.len(),
{
    if s.len() == 0 {
        0
    } else if scan_stops(s[0], k) {
        0
    } else {
        1 + first_stop(s.skip(1), k)
    }
}

/// `first_stop` is the first stopping position, if any.
pub proof fn lemma_first_stop(s: Seq<char>, k: ScanStop)
    ensures
        0 <= first_stop(s, k) <= s.len(),
        first_stop(s, k) < s.len() ==> scan_stops(s[first_stop(s, k)], k),
        forall|j: int| 0 <= j < first_stop(s, k) ==> !scan_stops(s[j], k),
    decreases s.len(),
{
    if s.len() == 0 {
    } else if scan_stops(s[0], k) {
    } else {
        lemma_first_stop(s.skip(1), k);
        assert forall|j: int| 0 <= j < first_stop(s, k) implies !scan_stops(s[j], k) by {
            if j > 0 {
                assert(!scan_stops(s.skip(1)[j - 1], k));
            }
        }
        if first_stop(s, k) < s.len() {
            assert(scan_stops(s.skip(1)[first_stop(s, k) - 1], k));
        }
    }
}

/// `first_stop` is pinned down by its endpoints.
pub proof fn lemma_first_stop_is(s: Seq<char>, k: ScanStop, i: int)
    requires
        0 <= i <= s.len(),
        forall|j: int| 0 <= j < i ==> !scan_stops(s[j], k),
        i < s.len() ==> scan_stops(s[i], k),
    ensures
        first_stop(s, k) == i,
{
    lemma_first_stop(s, k);
    if first_stop(s, k) < i {
        assert(!scan_stops(s[first_stop(s, k)], k));
    }
    if first_stop(s, k) > i {
        assert(!scan_stops(s[i], k));
    }
}

/// Scans `chars` from `from`, returning the first position at or after
/// `from` where a scan of class `k` stops (or the end of `chars`).
fn scan_from(chars: &Vec<char>, from: usize, k: Ghost<ScanStop>, stop_a: bool, c1: char, c2: char, c3: char) -> (r: usize)
    requires
        from <= chars@.len(),
        forall|c: char| scan_stops(c, k@) == (if stop_a {
            c == c1 || c == c2 || c == c3
        } else {
            !(c == c1 || c == c2 || c == c3)
        }),
    ensures
        r == from + first_stop(chars@.skip(from as int), k@),
        from <= r <= chars@.len(),
{
    let n = chars.len();
    let ghost tail = chars@.skip(from as int);
    let mut i: usize = from;
    while i < n
        invariant
            from <= i <= n,
            n == chars@.len(),
            tail == chars@.skip(from as int),
            forall|c: char| scan_stops(c, k@) == (if stop_a {
                c == c1 || c == c2 || c == c3
            } else {
                !(c == c1 || c == c2 || c == c3)
            }),
            forall|j: int| 0 <= j < i - from ==> !scan_stops(tail[j], k@),
        decreases n - i,
    {
        let c = chars[i];
        let matched = c == c1 || c == c2 || c == c3;
        let stops = if stop_a {
            matched
        } else {
            !matched
        };
        proof {
            assert(tail[i - from] == chars@[i as int]);
        }
        if stops {
            proof {
                lemma_first_stop_is(tail, k@, i - from);
            }
            return i;
        }
        i = i + 1;
    }
    proof {
        lemma_first_stop_is(tail, k@, n - from);
    }
    n
}

/// The cursor-style parse of an address instruction: `@`, then the target
/// text up to the end of the line, then at most one newline. The result
/// pairs the instruction with the number of characters consumed.
pub open spec fn spec_parse_a(s: Seq<char>) -> Option<(InstructionView, int)> {
    if s.len() >= 1 && s[0] == '@' {
        let e = 1 + first_nl(s.skip(1));
        let content = s.subrange(1, e);
        let consumed: int = if e < s.len() {
            e + 1
        } else {
            e
        };
        Option::Some((InstructionView::A(spec_location_of(content)), consumed))
    } else {
        Option::None
    }
}

/// Parses an address instruction from the front of `text`, returning the
/// unconsumed remainder beside it.
pub fn parse_a<'a>(text: &'a str) -> (r: Result<(&'a str, Instruction), AsmError>)
    ensures
        match r {
            Result::Ok((rest, instr)) => {
                &&& spec_parse_a(text@) matches Option::Some((iv, c))
                &&& instr@ == iv
                &&& rest@ == text@.skip(c)
                &&& 0 <= c <= text@.len()
            },
            Result::Err(e) => spec_parse_a(text@) is None && e@ == AsmErrorView::SyntaxError(
                text@,
            ),
        },
{
    let chars = str_to_chars(text);
    let n = chars.len();
    if n == 0 || chars[0] != '@' {
        return Result::Err(AsmError::SyntaxError(text.to_owned()));
    }
    let ghost tail = text@.skip(1);
    let mut e: usize = 1;
    while e < n && chars[e] != '\n'
        invariant
            1 <= e <= n,
            n == text@.len(),
            chars@ == text@,
            tail == text@.skip(1),
            forall|j: int| 0 <= j < e - 1 ==> tail[j] != '\n',
        decreases n - e,
    {
        proof {
            assert(tail[e - 1] == text@[e as int]);
        }
        e = e + 1;
    }
    proof {
        if e < n {
            assert(tail[e - 1] == text@[e as int]);
        }
        lemma_first_nl_is(tail, e - 1);
        assert(chars@.subrange(1, e as int) == text@.subrange(1, e as int));
    }
    let loc = match parse_u16_numeral(&chars, 1, e) {
        Option::Some(v) => Location::Address(v),
        Option::None => Location::Label(chars_range_to_string(&chars, 1, e)),
    };
    let consumed = if e < n {
        e + 1
    } else {
        e
    };
    let rest = text.substring_char(consumed, n);
    proof {
        assert(rest@ =~= text@.skip(consumed as int));
    }
    Result::Ok((rest, Instruction::A(loc)))
}

/// The cursor-style parse of a destination list: one or more register
/// names (each at most once), then at most one `=`.
pub open spec fn spec_parse_dest(s: Seq<char>) -> Option<(Seq<Register>, int)> {
    let k = first_stop(s, ScanStop::NonRegister);
    if k == 0 {
        Option::None
    } else if !dests_ok(s.take(k)) {
        Option::None
    } else {
        let consumed: int = if k < s.len() && s[k] == '=' {
            k + 1
        } else {
            k
        };
        Option::Some((dests_of(s.take(k)), consumed))
    }
}

/// Parses a destination list from the front of `text`.
pub fn parse_dest<'a>(text: &'a str) -> (r: Result<(&'a str, Vec<Register>), AsmError>)
    ensures
        match r {
            Result::Ok((rest, regs)) => {
                &&& spec_parse_dest(text@) matches Option::Some((ds, c))
                &&& regs@ == ds
                &&& rest@ == text@.skip(c)
                &&& 0 <= c <= text@.len()
            },
            Result::Err(e) => spec_parse_dest(text@) is None && e@ == AsmErrorView::SyntaxError(
                text@,
            ),
        },
{
    let chars = str_to_chars(text);
    let n = chars.len();
    let k = scan_from(&chars, 0, Ghost(ScanStop::NonRegister), false, 'A', 'D', 'M');
    proof {
        assert(text@.skip(0) == text@);
    }
    if k == 0 {
        return Result::Err(AsmError::SyntaxError(text.to_owned()));
    }
    proof {
        assert(chars@.subrange(0, k as int) == text@.take(k as int));
    }
    let regs = match parse_dest_text(&chars, 0, k) {
        Option::Some(v) => v,
        Option::None => {
            return Result::Err(AsmError::SyntaxError(text.to_owned()));
        },
    };
    let consumed = if k < n && chars[k] == '=' {
        k + 1
    } else {
        k
    };
    let rest = text.substring_char(consumed, n);
    proof {
        assert(rest@ =~= text@.skip(consumed as int));
    }
    Result::Ok((rest, regs))
}

/// The cursor-style parse of a computation: a unary-prefixed source, a
/// bare source (followed by at most one `;` or newline), or a binary
/// source-operator-source form (likewise).
pub open spec fn spec_parse_computation(s: Seq<char>) -> Option<(Computation, int)> {
    if s.len() >= 1 && Operation::spec_unary_of_char(s[0]) is Some {
        if s.len() >= 2 && Source::spec_of_char(s[1]) is Some {
            Option::Some(
                (
                    Computation::Computation(
                        Source::spec_of_char(s[1]).unwrap(),
                        Source::Absent,
                        Operation::spec_unary_of_char(s[0]).unwrap(),
                    ),
                    2,
                ),
            )
        } else {
            Option::None
        }
    } else if s.len() >= 1 && Source::spec_of_char(s[0]) is Some {
        let brk = first_stop(s.skip(1), ScanStop::CompBreak);
        if brk == 0 {
            let consumed: int = if s.len() > 1 && (s[1] == ';' || s[1] == '\n') {
                2
            } else {
                1
            };
            Option::Some(
                (
                    Computation::Computation(
                        Source::spec_of_char(s[0]).unwrap(),
                        Source::Absent,
                        Operation::Identity,
                    ),
                    consumed,
                ),
            )
        } else if s.len() >= 3 && Operation::spec_binary_of_char(s[1]) is Some
            && Source::spec_of_char(s[2]) is Some {
            let consumed: int = if s.len() > 3 && (s[3] == ';' || s[3] == '\n') {
                4
            } else {
                3
            };
            Option::Some(
                (
                    Computation::Computation(
                        Source::spec_of_char(s[0]).unwrap(),
                        Source::spec_of_char(s[2]).unwrap(),
                        Operation::spec_binary_of_char(s[1]).unwrap(),
                    ),
                    consumed,
                ),
            )
        } else {
            Option::None
        }
    } else {
        Option::None
    }
}

/// Parses a computation from the front of `text`.
pub fn parse_computation<'a>(text: &'a str) -> (r: Result<(&'a str, Computation), AsmError>)
    ensures
        match r {
            Result::Ok((rest, comp)) => {
                &&& spec_parse_computation(text@) matches Option::Some((cv, c))
                &&& comp == cv
                &&& rest@ == text@.skip(c)
                &&& 0 <= c <= text@.len()
            },
            Result::Err(e) => spec_parse_computation(text@) is None && e@
                == AsmErrorView::SyntaxError(text@),
        },
{
    let chars = str_to_chars(text);
    let n = chars.len();
    if n == 0 {
        return Result::Err(AsmError::SyntaxError(text.to_owned()));
    }
    let c0 = chars[0];
    if let Option::Some(op) = Operation::unary_of_char(c0) {
        if n >= 2 {
            if let Option::Some(src) = Source::of_char(chars[1]) {
                let rest = text.substring_char(2, n);
                proof {
                    assert(rest@ =~= text@.skip(2));
                }
                return Result::Ok((rest, Computation::Computation(src, Source::Absent, op)));
            }
        }
        return Result::Err(AsmError::SyntaxError(text.to_owned()));
    }
    let lhs = match Source::of_char(c0) {
        Option::Some(src) => src,
        Option::None => {
            return Result::Err(AsmError::SyntaxError(text.to_owned()));
        },
    };
    let brk = scan_from(&chars, 1, Ghost(ScanStop::CompBreak), true, ';', '\n', '\n');
    proof {
        assert(chars@.skip(1) == text@.skip(1));
    }
    if brk == 1 {
        let consumed = if n > 1 && (chars[1] == ';' || chars[1] == '\n') {
            2
        } else {
            1
        };
        let rest = text.substring_char(consumed, n);
        proof {
            assert(rest@ =~= text@.skip(consumed as int));
        }
        return Result::Ok(
            (rest, Computation::Computation(lhs, Source::Absent, Operation::Identity)),
        );
    }
    if n >= 3 {
        if let Option::Some(op) = Operation::binary_of_char(chars[1]) {
            if let Option::Some(rhs) = Source::of_char(chars[2]) {
                let consumed = if n > 3 && (chars[3] == ';' || chars[3] == '\n') {
                    4
                } else {
                    3
                };
                let rest = text.substring_char(consumed, n);
                proof {
                    assert(rest@ =~= text@.skip(consumed as int));
                }
                return Result::Ok((rest, Computation::Computation(lhs, rhs, op)));
            }
        }
    }
    Result::Err(AsmError::SyntaxError(text.to_owned()))
}

/// The cursor-style parse of a jump suffix: a three-letter mnemonic that
/// must end the line, then at most one newline.
pub open spec fn spec_parse_jmp(s: Seq<char>) -> Option<(Jump, int)> {
    if s.len() >= 3 && spec_jump_of(s.take(3)) is Some {
        if s.len() == 3 {
            Option::Some((spec_jump_of(s.take(3)).unwrap(), 3))
        } else if s[3] == '\n' {
            Option::Some((spec_jump_of(s.take(3)).unwrap(), 4))
        } else {
            Option::None
        }
    } else {
        Option::None
    }
}

/// Parses a jump mnemonic from the front of `text`.
pub fn parse_jmp<'a>(text: &'a str) -> (r: Result<(&'a str, Jump), AsmError>)
    ensures
        match r {
            Result::Ok((rest, jump)) => {
                &&& spec_parse_jmp(text@) matches Option::Some((jv, c))
                &&& jump == jv
                &&& rest@ == text@.skip(c)
                &&& 0 <= c <= text@.len()
            },
            Result::Err(e) => spec_parse_jmp(text@) is None && e@ == AsmErrorView::SyntaxError(
                text@,
            ),
        },
{
    let chars = str_to_chars(text);
    let n = chars.len();
    if n < 3 {
        return Result::Err(AsmError::SyntaxError(text.to_owned()));
    }
    proof {
        assert(chars@.subrange(0, 3) == text@.take(3));
    }
    let jump = match parse_jump_mnemonic(&chars, 0, 3) {
        Option::Some(j) => j,
        Option::None => {
            return Result::Err(AsmError::SyntaxError(text.to_owned()));
        },
    };
    if n == 3 {
        let rest = text.substring_char(3, n);
        proof {
            assert(rest@ =~= text@.skip(3));
        }
        return Result::Ok((rest, jump));
    }
    if chars[3] == '\n' {
        let rest = text.substring_char(4, n);
        proof {
            assert(rest@ =~= text@.skip(4));
        }
        return Result::Ok((rest, jump));
    }
    Result::Err(AsmError::SyntaxError(text.to_owned()))
}

/// The cursor-style parse of a compute instruction: a destination list,
/// then a computation, then a jump suffix.
pub open spec fn spec_parse_c(s: Seq<char>) -> Option<(InstructionView, int)> {
    match spec_parse_dest(s) {
        Option::None => Option::None,
        Option::Some((ds, c1)) => match spec_parse_computation(s.skip(c1)) {
            Option::None => Option::None,
            Option::Some((comp, c2)) => match spec_parse_jmp(s.skip(c1 + c2)) {
                Option::None => Option::None,
                Option::Some((j, c3)) => Option::Some(
                    (InstructionView::C(ds, comp, j), c1 + c2 + c3),
                ),
            },
        },
    }
}

/// Parses a compute instruction from the front of `text`.
pub fn parse_c<'a>(text: &'a str) -> (r: Result<(&'a str, Instruction), AsmError>)
    ensures
        match r {
            Result::Ok((rest, instr)) => {
                &&& spec_parse_c(text@) matches Option::Some((iv, c))
                &&& instr@ == iv
                &&& rest@ == text@.skip(c)
            },
            Result::Err(e) => {
                &&& spec_parse_c(text@) is None
                &&& match spec_parse_dest(text@) {
                    Option::None => e@ == AsmErrorView::SyntaxError(text@),
                    Option::Some((ds, c1)) => match spec_parse_computation(text@.skip(c1)) {
                        Option::None => e@ == AsmErrorView::SyntaxError(text@.skip(c1)),
                        Option::Some((cv, c2)) => e@ == AsmErrorView::SyntaxError(
                            text@.skip(c1 + c2),
                        ),
                    },
                }
            },
        },
{
    let (rest1, dests) = match parse_dest(text) {
        Result::Ok(p) => p,
        Result::Err(e) => {
            return Result::Err(e);
        },
    };
    let (rest2, comp) = match parse_computation(rest1) {
        Result::Ok(p) => p,
        Result::Err(e) => {
            return Result::Err(e);
        },
    };
    proof {
        let c1 = spec_parse_dest(text@)->Some_0.1;
        let c2 = spec_parse_computation(text@.skip(c1))->Some_0.1;
        assert(rest2@ =~= text@.skip(c1 + c2));
    }
    let (rest3, jump) = match parse_jmp(rest2) {
        Result::Ok(p) => p,
        Result::Err(e) => {
            return Result::Err(e);
        },
    };
    proof {
        let c1 = spec_parse_dest(text@)->Some_0.1;
        let c2 = spec_parse_computation(text@.skip(c1))->Some_0.1;
        let c3 = spec_parse_jmp(text@.skip(c1 + c2))->Some_0.1;
        assert(rest3@ =~= text@.skip(c1 + c2 + c3));
    }
    Result::Ok((rest3, Instruction::C(dests, comp, jump)))
}

/// The cursor-style parse of an instruction: an address instruction if the
/// text starts with `@`, otherwise a compute instruction.
pub open spec fn spec_parse_instruction(s: Seq<char>) -> Option<(InstructionView, int)> {
    if spec_parse_a(s) is Some {
        spec_parse_a(s)
    } else {
        spec_parse_c(s)
    }
}

/// Parses one instruction from the front of `text`, trying the address
/// form first and the compute form second.
pub fn parse_instruction<'a>(text: &'a str) -> (r: Result<(&'a str, Instruction), AsmError>)
    ensures
        match r {
            Result::Ok((rest, instr)) => {
                &&& spec_parse_instruction(text@) matches Option::Some((iv, c))
                &&& instr@ == iv
                &&& rest@ == text@.skip(c)
            },
            Result::Err(e) => {
                &&& spec_parse_instruction(text@) is None
                &&& match spec_parse_dest(text@) {
                    Option::None => e@ == AsmErrorView::SyntaxError(text@),
                    Option::Some((ds, c1)) => match spec_parse_computation(text@.skip(c1)) {
                        Option::None => e@ == AsmErrorView::SyntaxError(text@.skip(c1)),
                        Option::Some((cv, c2)) => e@ == AsmErrorView::SyntaxError(
                            text@.skip(c1 + c2),
                        ),
                    },
                }
            },
        },
{
    match parse_a(text) {
        Result::Ok(p) => Result::Ok(p),
        Result::Err(_) => parse_c(text),
    }
}

/// The cursor-style parse of a macro directive: `#`, a directive name
/// compared without regard to letter case, blanks, an argument running to
/// the next blank or newline, and any trailing blanks and newlines.
pub open spec fn spec_parse_macro(s: Seq<char>) -> Option<(MacroView, int)> {
    if s.len() >= 1 && s[0] == '#' {
        let body = s.skip(1);
        if is_ci_word_at(body, seq!['c', 'a', 'l', 'l']) {
            let (arg, consumed) = spec_macro_arg(s, 5);
            Option::Some((MacroView::Call(arg), consumed))
        } else if is_ci_word_at(body, seq!['r', 'e', 't']) {
            let (arg, consumed) = spec_macro_arg(s, 4);
            Option::Some((MacroView::Return, consumed))
        } else if is_ci_word_at(body, seq!['i', 'n', 'c', 'l', 'u', 'd', 'e']) {
            let (arg, consumed) = spec_macro_arg(s, 8);
            Option::Some((MacroView::Include(arg), consumed))
        } else {
            Option::None
        }
    } else {
        Option::None
    }
}

/// `w` occurs at the front of `s`, compared without regard to letter case.
pub open spec fn is_ci_word_at(s: Seq<char>, w: Seq<char>) -> bool {
    w.len() <= s.len() && (forall|k: int| 0 <= k < w.len() ==> spec_lower_c(s[k]) == w[k])
}

/// The directive argument of `s` starting after position `p`: skip blanks,
/// take the argument up to the next blank or newline, then skip trailing
/// blanks and newlines. Returns the argument and the total consumed.
pub open spec fn spec_macro_arg(s: Seq<char>, p: int) -> (Seq<char>, int) {
    let b = first_stop(s.skip(p), ScanStop::NonSpaceTab);
    let a = first_stop(s.skip(p + b), ScanStop::ArgEnd);
    let t = first_stop(s.skip(p + b + a), ScanStop::NonBlank);
    (s.subrange(p + b, p + b + a), p + b + a + t)
}

/// Compares `chars[at..at+w]` with a directive name, without regard to
/// letter case. `w` names which directive by its length.
fn ci_word_at(chars: &Vec<char>, at: usize, w: &Vec<char>) -> (r: bool)
    requires
        at <= chars@.len(),
    ensures
        r == is_ci_word_at(chars@.skip(at as int), w@),
{
    let ghost body = chars@.skip(at as int);
    let n = chars.len();
    if n - at < w.len() {
        return false;
    }
    let mut k: usize = 0;
    while k < w.len()
        invariant
            k <= w@.len(),
            n == chars@.len(),
            at + w@.len() <= n,
            body == chars@.skip(at as int),
            forall|j: int| 0 <= j < k ==> spec_lower_c(body[j]) == w@[j],
        decreases w@.len() - k,
    {
        proof {
            assert(body[k as int] == chars@[at + k]);
        }
        if lower_c(chars[at + k]) != w[k] {
            return false;
        }
        k = k + 1;
    }
    true
}

/// Parses a macro directive from the front of `text`.
pub fn parse_macro<'a>(text: &'a str) -> (r: Result<(&'a str, Macro), AsmError>)
    ensures
        match r {
            Result::Ok((rest, m)) => {
                &&& spec_parse_macro(text@) matches Option::Some((mv, c))
                &&& m@ == mv
                &&& rest@ == text@.skip(c)
                &&& 0 <= c <= text@.len()
            },
            Result::Err(e) => spec_parse_macro(text@) is None && e@ == AsmErrorView::SyntaxError(
                text@,
            ),
        },
{
    let chars = str_to_chars(text);
    let n = chars.len();
    if n == 0 || chars[0] != '#' {
        return Result::Err(AsmError::SyntaxError(text.to_owned()));
    }
    let call_w: Vec<char> = vec!['c', 'a', 'l', 'l'];
    let ret_w: Vec<char> = vec!['r', 'e', 't'];
    let include_w: Vec<char> = vec!['i', 'n', 'c', 'l', 'u', 'd', 'e'];
    proof {
        assert(call_w@ =~= seq!['c', 'a', 'l', 'l']);
        assert(ret_w@ =~= seq!['r', 'e', 't']);
        assert(include_w@ =~= seq!['i', 'n', 'c', 'l', 'u', 'd', 'e']);
    }
    let (kind, p): (u8, usize) = if ci_word_at(&chars, 1, &call_w) {
        (0, 5)
    } else if ci_word_at(&chars, 1, &ret_w) {
        (1, 4)
    } else if ci_word_at(&chars, 1, &include_w) {
        (2, 8)
    } else {
        return Result::Err(AsmError::SyntaxError(text.to_owned()));
    };
    let b = scan_from(&chars, p, Ghost(ScanStop::NonSpaceTab), false, ' ', '\t', '\t');
    let a = scan_from(&chars, b, Ghost(ScanStop::ArgEnd), true, '\n', ' ', '\t');
    let t = scan_from(&chars, a, Ghost(ScanStop::NonBlank), false, ' ', '\t', '\n');
    let arg = chars_range_to_string(&chars, b, a);
    proof {
        assert(chars@.subrange(b as int, a as int) == text@.subrange(b as int, a as int));
    }
    let rest = text.substring_char(t, n);
    proof {
        assert(rest@ =~= text@.skip(t as int));
    }
    let m = if kind == 0 {
        Macro::Call(arg)
    } else if kind == 1 {
        Macro::Return
    } else {
        Macro::Include(arg)
    };
    Result::Ok((rest, m))
}

/// The parse of a whole program given as one text.
pub open spec fn spec_parse_program(s: Seq<char>) -> Result<Seq<InstructionView>, Seq<char>> {
    spec_parse_lines(spec_split_lines(s))
}

/// Parses a whole assembly text: splits it into lines, normalizes each,
/// drops blank lines, and parses every remaining line in order.
pub fn parse(source: String) -> (r: Result<Vec<Instruction>, AsmError>)
    ensures
        match r {
            Result::Ok(v) => spec_parse_program(source@) == Result::<
                Seq<InstructionView>,
                Seq<char>,
            >::Ok(instruction_views(v@)),
            Result::Err(e) => {
                &&& spec_parse_program(source@) matches Result::Err(t)
                &&& e@ == AsmErrorView::SyntaxError(t)
            },
        },
{
    let lines = split_lines(source.as_str());
    parse_program_lines(&lines)
}

} // verus!
