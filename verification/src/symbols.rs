//! Symbol Table / Resolver: the two-pass address assignment. Pass one
//! binds every label definition to the address of the following real
//! instruction and strips the definitions; pass two rewrites every
//! symbolic reference, allocating fresh variable addresses from sixteen
//! upward in first-occurrence order.
use crate::types::{
    instruction_views, AsmError, AsmErrorView, Instruction, InstructionView, Location,
    LocationView, Register,
};
use vstd::prelude::*;
use vstd::string::*;

verus! {

/// The value bound to `name`, reading the entry list front to back.
pub open spec fn spec_lookup(entries: Seq<(Seq<char>, u16)>, name: Seq<char>) -> Option<u16>
    decreases entries.len(),
{
    if entries.len() == 0 {
        Option::None
    } else if entries[0].0 == name {
        Option::Some(entries[0].1)
    } else {
        spec_lookup(entries.skip(1), name)
    }
}

/// Looking a name up after appending an entry: an existing binding wins;
/// otherwise the new entry answers for its own name only.
pub proof fn lemma_lookup_push(entries: Seq<(Seq<char>, u16)>, p: (Seq<char>, u16), q: Seq<char>)
    ensures
        spec_lookup(entries.push(p), q) == (if spec_lookup(entries, q) is Some {
            spec_lookup(entries, q)
        } else if q == p.0 {
            Option::Some(p.1)
        } else {
            Option::<u16>::None
        }),
    decreases entries.len(),
{
    if entries.len() == 0 {
        assert(entries.push(p)[0] == p);
        assert(entries.push(p).skip(1) =~= Seq::<(Seq<char>, u16)>::empty());
    } else {
        assert(entries.push(p).skip(1) =~= entries.skip(1).push(p));
        lemma_lookup_push(entries.skip(1), p, q);
    }
}

/// The predefined symbols, present before assembly starts: the virtual
/// machine pointers, the screen and keyboard bases, and the sixteen
/// register aliases.
pub open spec fn predefined_entries() -> Seq<(Seq<char>, u16)> {
    seq![
        ("SP"@, 0u16),
        ("LCL"@, 1u16),
        ("ARG"@, 2u16),
        ("THIS"@, 3u16),
        ("THAT"@, 4u16),
        ("SCREEN"@, 16384u16),
        ("KBD"@, 24576u16),
        ("R0"@, 0u16),
        ("R1"@, 1u16),
        ("R2"@, 2u16),
        ("R3"@, 3u16),
        ("R4"@, 4u16),
        ("R5"@, 5u16),
        ("R6"@, 6u16),
        ("R7"@, 7u16),
        ("R8"@, 8u16),
        ("R9"@, 9u16),
        ("R10"@, 10u16),
        ("R11"@, 11u16),
        ("R12"@, 12u16),
        ("R13"@, 13u16),
        ("R14"@, 14u16),
        ("R15"@, 15u16),
    ]
}

/// The mapping from symbol names to resolved addresses, built fresh for
/// each assembly run with the predefined entries and extended by the two
/// resolution passes. Keys are never rebound.
pub struct SymbolTable {
    entries: Vec<(String, u16)>,
}

impl View for SymbolTable {
    type V = Seq<(Seq<char>, u16)>;

    closed spec fn view(&self) -> Seq<(Seq<char>, u16)> {
        self.entries@.map_values(|p: (String, u16)| (p.0@, p.1))
    }
}

impl SymbolTable {
    /// A fresh table holding exactly the predefined symbols.
    pub fn new() -> (r: SymbolTable)
        ensures
            r@ == predefined_entries(),
    {
        let mut entries: Vec<(String, u16)> = Vec::new();
        entries.push((String::from_str("SP"), 0));
        entries.push((String::from_str("LCL"), 1));
        entries.push((String::from_str("ARG"), 2));
        entries.push((String::from_str("THIS"), 3));
        entries.push((String::from_str("THAT"), 4));
        entries.push((String::from_str("SCREEN"), 16384));
        entries.push((String::from_str("KBD"), 24576));
        entries.push((String::from_str("R0"), 0));
        entries.push((String::from_str("R1"), 1));
        entries.push((String::from_str("R2"), 2));
        entries.push((String::from_str("R3"), 3));
        entries.push((String::from_str("R4"), 4));
        entries.push((String::from_str("R5"), 5));
        entries.push((String::from_str("R6"), 6));
        entries.push((String::from_str("R7"), 7));
        entries.push((String::from_str("R8"), 8));
        entries.push((String::from_str("R9"), 9));
        entries.push((String::from_str("R10"), 10));
        entries.push((String::from_str("R11"), 11));
        entries.push((String::from_str("R12"), 12));
        entries.push((String::from_str("R13"), 13));
        entries.push((String::from_str("R14"), 14));
        entries.push((String::from_str("R15"), 15));
        let t = SymbolTable { entries };
        proof {
            assert(t@ =~= predefined_entries());
        }
        t
    }

    /// The address bound to `name`, if any.
    pub fn get(&self, name: &String) -> (r: Option<u16>)
        ensures
            r == spec_lookup(self@, name@),
    {
        let n = self.entries.len();
        let mut i: usize = 0;
        proof {
            assert(self@.skip(0) == self@);
        }
        while i < n
            invariant
                i <= n,
                n == self.entries@.len(),
                self@.len() == n,
                spec_lookup(self@, name@) == spec_lookup(self@.skip(i as int), name@),
            decreases n - i,
        {
            proof {
                assert(self@.skip(i as int)[0] == self@[i as int]);
                assert(self@.skip(i as int).skip(1) =~= self@.skip(i + 1));
                assert(self@[i as int] == (self.entries@[i as int].0@, self.entries@[i as int].1));
            }
            let p = &self.entries[i];
            if p.0 == *name {
                return Option::Some(p.1);
            }
            i = i + 1;
        }
        proof {
            assert(self@.skip(n as int) =~= Seq::<(Seq<char>, u16)>::empty());
        }
        Option::None
    }

    /// Appends a binding. Resolution only ever calls this for names it has
    /// just found unbound, so earlier bindings always win lookups.
    pub fn insert(&mut self, name: String, addr: u16)
        ensures
            final(self)@ == old(self)@.push((name@, addr)),
    {
        let ghost oldv = self@;
        let ghost namev = name@;
        self.entries.push((name, addr));
        proof {
            assert(self@ =~= oldv.push((namev, addr)));
        }
    }
}

/// A copy of a register list.
pub fn clone_registers(v: &Vec<Register>) -> (r: Vec<Register>)
    ensures
        r@ == v@,
{
    let mut out: Vec<Register> = Vec::new();
    let mut i: usize = 0;
    while i < v.len()
        invariant
            i <= v@.len(),
            out@ == v@.take(i as int),
        decreases v@.len() - i,
    {
        out.push(v[i]);
        proof {
            assert(v@.take(i + 1 as int) == v@.take(i as int).push(v@[i as int]));
        }
        i = i + 1;
    }
    proof {
        assert(v@.take(v@.len() as int) == v@);
    }
    out
}

/// A copy of an instruction with the same spec-level shape.
pub fn clone_instruction(instr: &Instruction) -> (r: Instruction)
    ensures
        r@ == instr@,
{
    match instr {
        Instruction::A(Location::Address(a)) => Instruction::A(Location::Address(*a)),
        Instruction::A(Location::Label(s)) => Instruction::A(Location::Label(s.clone())),
        Instruction::C(dests, comp, jump) => Instruction::C(clone_registers(dests), *comp, *jump),
        Instruction::LabelDefinition(s) => Instruction::LabelDefinition(s.clone()),
    }
}

/// Pass one over the instruction sequence: a label definition binds its
/// name to the running address and is dropped; every other instruction is
/// kept and advances the address by one. Rebinding a bound name (a
/// predefined symbol included) is a duplicate-label error; a label at an
/// address beyond the 15-bit range is an overflow error.
pub open spec fn spec_pass1(
    ivs: Seq<InstructionView>,
    entries: Seq<(Seq<char>, u16)>,
    counter: int,
) -> Result<(Seq<InstructionView>, Seq<(Seq<char>, u16)>), AsmErrorView>
    decreases ivs.len(),
{
    if ivs.len() == 0 {
        Result::Ok((Seq::empty(), entries))
    } else {
        match ivs[0] {
            InstructionView::LabelDefinition(name) => {
                if spec_lookup(entries, name) is Some {
                    Result::Err(AsmErrorView::DuplicateLabel(name))
                } else if counter > 32767 {
                    Result::Err(AsmErrorView::AddressOverflow(counter as u64))
                } else {
                    spec_pass1(ivs.skip(1), entries.push((name, counter as u16)), counter)
                }
            },
            _ => match spec_pass1(ivs.skip(1), entries, counter + 1) {
                Result::Ok((out, e)) => Result::Ok((seq![ivs[0]] + out, e)),
                Result::Err(e) => Result::Err(e),
            },
        }
    }
}

/// Runs pass one, extending `table` with the label bindings and returning
/// the instruction sequence with the label definitions stripped.
pub fn pass_one(instrs: &Vec<Instruction>, table: &mut SymbolTable) -> (r: Result<
    Vec<Instruction>,
    AsmError,
>)
    ensures
        match r {
            Result::Ok(out) => spec_pass1(instruction_views(instrs@), old(table)@, 0)
                == Result::<_, AsmErrorView>::Ok((instruction_views(out@), final(table)@)),
            Result::Err(e) => {
                &&& spec_pass1(instruction_views(instrs@), old(table)@, 0) matches Result::Err(ev)
                &&& e@ == ev
            },
        },
{
    let ghost ivs = instruction_views(instrs@);
    let ghost entries0 = table@;
    let mut out: Vec<Instruction> = Vec::new();
    let mut counter: usize = 0;
    let mut i: usize = 0;
    proof {
        assert(ivs.skip(0) == ivs);
        assert(instruction_views(out@) =~= Seq::<InstructionView>::empty());
        if spec_pass1(ivs, entries0, 0) is Ok {
            let t = spec_pass1(ivs, entries0, 0)->Ok_0.0;
            assert(instruction_views(out@) + t =~= t);
        }
    }
    while i < instrs.len()
        invariant
            i <= instrs@.len(),
            counter <= i,
            ivs == instruction_views(instrs@),
            entries0 == old(table)@,
            spec_pass1(ivs.skip(i as int), table@, counter as int) matches Result::Ok((t, e2))
                ==> spec_pass1(ivs, entries0, 0) == Result::<_, AsmErrorView>::Ok(
                (instruction_views(out@) + t, e2),
            ),
            spec_pass1(ivs.skip(i as int), table@, counter as int) matches Result::Err(e)
                ==> spec_pass1(ivs, entries0, 0) == Result::<
                (Seq<InstructionView>, Seq<(Seq<char>, u16)>),
                AsmErrorView,
            >::Err(e),
        decreases instrs@.len() - i,
    {
        proof {
            assert(ivs.skip(i as int)[0] == ivs[i as int]);
            assert(ivs[i as int] == instrs@[i as int]@);
            assert(ivs.skip(i as int).skip(1) =~= ivs.skip(i + 1));
        }
        let instr = &instrs[i];
        match instr {
            Instruction::LabelDefinition(name) => {
                match table.get(name) {
                    Option::Some(_) => {
                        return Result::Err(AsmError::DuplicateLabel(name.clone()));
                    },
                    Option::None => {
                        if counter > 32767 {
                            return Result::Err(AsmError::AddressOverflow(counter as u64));
                        }
                        table.insert(name.clone(), counter as u16);
                    },
                }
            },
            _ => {
                let copy = clone_instruction(instr);
                proof {
                    if spec_pass1(ivs.skip(i + 1), table@, counter + 1) is Ok {
                        let t = spec_pass1(ivs.skip(i + 1), table@, counter + 1)->Ok_0.0;
                        assert(instruction_views(out@.push(copy)) =~= instruction_views(
                            out@,
                        ).push(copy@));
                        assert(instruction_views(out@) + (seq![ivs[i as int]] + t)
                            =~= instruction_views(out@).push(copy@) + t);
                    }
                }
                out.push(copy);
                counter = counter + 1;
            },
        }
        i = i + 1;
    }
    proof {
        assert(ivs.skip(instrs@.len() as int) =~= Seq::<InstructionView>::empty());
        if spec_pass1(ivs, entries0, 0) is Ok {
            assert(instruction_views(out@) + Seq::<InstructionView>::empty() =~= instruction_views(
                out@,
            ));
        }
    }
    Result::Ok(out)
}

/// Pass two over the label-free instruction sequence: a reference to a
/// bound name is rewritten to its address; an unbound name is bound to the
/// next variable address (starting at sixteen) and rewritten to it; every
/// other instruction passes through. A variable address beyond the 15-bit
/// range is an overflow error.
pub open spec fn spec_pass2(
    ivs: Seq<InstructionView>,
    entries: Seq<(Seq<char>, u16)>,
    counter: int,
) -> Result<(Seq<InstructionView>, Seq<(Seq<char>, u16)>, int), AsmErrorView>
    decreases ivs.len(),
{
    if ivs.len() == 0 {
        Result::Ok((Seq::empty(), entries, counter))
    } else {
        match ivs[0] {
            InstructionView::A(LocationView::Label(name)) => match spec_lookup(entries, name) {
                Option::Some(a) => match spec_pass2(ivs.skip(1), entries, counter) {
                    Result::Ok((out, e, c)) => Result::Ok(
                        (seq![InstructionView::A(LocationView::Address(a))] + out, e, c),
                    ),
                    Result::Err(e) => Result::Err(e),
                },
                Option::None => {
                    if counter > 32767 {
                        Result::Err(AsmErrorView::AddressOverflow(counter as u64))
                    } else {
                        match spec_pass2(
                            ivs.skip(1),
                            entries.push((name, counter as u16)),
                            counter + 1,
                        ) {
                            Result::Ok((out, e, c)) => Result::Ok(
                                (
                                    seq![
                                        InstructionView::A(
                                            LocationView::Address(counter as u16),
                                        ),
                                    ] + out,
                                    e,
                                    c,
                                ),
                            ),
                            Result::Err(e) => Result::Err(e),
                        }
                    }
                },
            },
            _ => match spec_pass2(ivs.skip(1), entries, counter) {
                Result::Ok((out, e, c)) => Result::Ok((seq![ivs[0]] + out, e, c)),
                Result::Err(e) => Result::Err(e),
            },
        }
    }
}

/// The first variable address.
pub open spec fn variable_base() -> int {
    16
}

/// Runs pass two, rewriting every symbolic reference to a literal address
/// and allocating variable addresses from sixteen upward.
pub fn pass_two(instrs: &Vec<Instruction>, table: &mut SymbolTable) -> (r: Result<
    Vec<Instruction>,
    AsmError,
>)
    ensures
        match r {
            Result::Ok(out) => spec_pass2(instruction_views(instrs@), old(table)@, variable_base())
                matches Result::Ok((t, e2, c2)) && instruction_views(out@) == t && final(table)@
                == e2,
            Result::Err(e) => {
                &&& spec_pass2(instruction_views(instrs@), old(table)@, variable_base())
                    matches Result::Err(ev)
                &&& e@ == ev
            },
        },
{
    let ghost ivs = instruction_views(instrs@);
    let ghost entries0 = table@;
    let mut out: Vec<Instruction> = Vec::new();
    let mut counter: usize = 16;
    let mut i: usize = 0;
    proof {
        assert(ivs.skip(0) == ivs);
        assert(instruction_views(out@) =~= Seq::<InstructionView>::empty());
        if spec_pass2(ivs, entries0, variable_base()) is Ok {
            let t = spec_pass2(ivs, entries0, variable_base())->Ok_0.0;
            assert(instruction_views(out@) + t =~= t);
        }
    }
    while i < instrs.len()
        invariant
            i <= instrs@.len(),
            16 <= counter <= 16 + i,
            ivs == instruction_views(instrs@),
            entries0 == old(table)@,
            spec_pass2(ivs.skip(i as int), table@, counter as int) matches Result::Ok((t, e2, c2))
                ==> spec_pass2(ivs, entries0, variable_base()) == Result::<_, AsmErrorView>::Ok(
                (instruction_views(out@) + t, e2, c2),
            ),
            spec_pass2(ivs.skip(i as int), table@, counter as int) matches Result::Err(e)
                ==> spec_pass2(ivs, entries0, variable_base()) == Result::<
                (Seq<InstructionView>, Seq<(Seq<char>, u16)>, int),
                AsmErrorView,
            >::Err(e),
        decreases instrs@.len() - i,
    {
        proof {
            assert(ivs.skip(i as int)[0] == ivs[i as int]);
            assert(ivs[i as int] == instrs@[i as int]@);
            assert(ivs.skip(i as int).skip(1) =~= ivs.skip(i + 1));
        }
        let instr = &instrs[i];
        let rewritten: Instruction = match instr {
            Instruction::A(Location::Label(name)) => {
                match table.get(name) {
                    Option::Some(a) => Instruction::A(Location::Address(a)),
                    Option::None => {
                        if counter > 32767 {
                            return Result::Err(AsmError::AddressOverflow(counter as u64));
                        }
                        table.insert(name.clone(), counter as u16);
                        let rewritten = Instruction::A(Location::Address(counter as u16));
                        counter = counter + 1;
                        rewritten
                    },
                }
            },
            _ => clone_instruction(instr),
        };
        proof {
            if spec_pass2(ivs.skip(i + 1), table@, counter as int) is Ok {
                let t = spec_pass2(ivs.skip(i + 1), table@, counter as int)->Ok_0.0;
                assert(instruction_views(out@.push(rewritten)) =~= instruction_views(out@).push(
                    rewritten@,
                ));
                assert(instruction_views(out@) + (seq![rewritten@] + t) =~= instruction_views(
                    out@,
                ).push(rewritten@) + t);
            }
        }
        out.push(rewritten);
        i = i + 1;
    }
    proof {
        assert(ivs.skip(instrs@.len() as int) =~= Seq::<InstructionView>::empty());
        if spec_pass2(ivs, entries0, variable_base()) is Ok {
            assert(instruction_views(out@) + Seq::<InstructionView>::empty() =~= instruction_views(
                out@,
            ));
        }
    }
    Result::Ok(out)
}

/// Pass one never unbinds a name: an entry present before it stays bound
/// to the same address afterward.
pub proof fn lemma_pass1_preserves_bindings(
    ivs: Seq<InstructionView>,
    entries: Seq<(Seq<char>, u16)>,
    c: int,
    name: Seq<char>,
    a: u16,
)
    requires
        spec_lookup(entries, name) == Option::Some(a),
        spec_pass1(ivs, entries, c) is Ok,
    ensures
        spec_lookup(spec_pass1(ivs, entries, c)->Ok_0.1, name) == Option::Some(a),
    decreases ivs.len(),
{
    if ivs.len() == 0 {
    } else {
        match ivs[0] {
            InstructionView::LabelDefinition(n) => {
                lemma_lookup_push(entries, (n, c as u16), name);
                lemma_pass1_preserves_bindings(ivs.skip(1), entries.push((n, c as u16)), c, name, a);
            },
            _ => {
                lemma_pass1_preserves_bindings(ivs.skip(1), entries, c + 1, name, a);
            },
        }
    }
}

/// Pass two never unbinds a name, and rewrites every reference to a bound
/// name to its address, wherever in the sequence the reference stands.
pub proof fn lemma_pass2_preserves_bindings(
    ivs: Seq<InstructionView>,
    entries: Seq<(Seq<char>, u16)>,
    c: int,
    name: Seq<char>,
    a: u16,
)
    requires
        spec_lookup(entries, name) == Option::Some(a),
        spec_pass2(ivs, entries, c) is Ok,
    ensures
        ({
            let (out, e2, c2) = spec_pass2(ivs, entries, c)->Ok_0;
            &&& spec_lookup(e2, name) == Option::Some(a)
            &&& out.len() == ivs.len()
            &&& forall|i: int|
                0 <= i < ivs.len() && ivs[i] == InstructionView::A(LocationView::Label(name))
                    ==> out[i] == InstructionView::A(LocationView::Address(a))
        }),
    decreases ivs.len(),
{
    if ivs.len() == 0 {
    } else {
        let (out, e2, c2) = spec_pass2(ivs, entries, c)->Ok_0;
        match ivs[0] {
            InstructionView::A(LocationView::Label(n)) => {
                match spec_lookup(entries, n) {
                    Option::Some(b) => {
                        lemma_pass2_preserves_bindings(ivs.skip(1), entries, c, name, a);
                        let (out1, _, _) = spec_pass2(ivs.skip(1), entries, c)->Ok_0;
                        assert forall|i: int|
                            0 <= i < ivs.len() && ivs[i] == InstructionView::A(
                                LocationView::Label(name),
                            ) implies out[i] == InstructionView::A(
                            LocationView::Address(a),
                        ) by {
                            if i > 0 {
                                assert(ivs.skip(1)[i - 1] == ivs[i]);
                                assert(out[i] == out1[i - 1]);
                            }
                        }
                    },
                    Option::None => {
                        lemma_lookup_push(entries, (n, c as u16), name);
                        lemma_pass2_preserves_bindings(
                            ivs.skip(1),
                            entries.push((n, c as u16)),
                            c + 1,
                            name,
                            a,
                        );
                        let (out1, _, _) = spec_pass2(
                            ivs.skip(1),
                            entries.push((n, c as u16)),
                            c + 1,
                        )->Ok_0;
                        assert forall|i: int|
                            0 <= i < ivs.len() && ivs[i] == InstructionView::A(
                                LocationView::Label(name),
                            ) implies out[i] == InstructionView::A(
                            LocationView::Address(a),
                        ) by {
                            if i > 0 {
                                assert(ivs.skip(1)[i - 1] == ivs[i]);
                                assert(out[i] == out1[i - 1]);
                            }
                        }
                    },
                }
            },
            _ => {
                lemma_pass2_preserves_bindings(ivs.skip(1), entries, c, name, a);
                let (out1, _, _) = spec_pass2(ivs.skip(1), entries, c)->Ok_0;
                assert forall|i: int|
                    0 <= i < ivs.len() && ivs[i] == InstructionView::A(
                        LocationView::Label(name),
                    ) implies out[i] == InstructionView::A(LocationView::Address(a)) by {
                    if i > 0 {
                        assert(ivs.skip(1)[i - 1] == ivs[i]);
                        assert(out[i] == out1[i - 1]);
                    }
                }
            },
        }
    }
}

/// The number of real (non-label) instructions in a sequence: the
/// addresses that pass one hands out.
pub open spec fn spec_real_count(ivs: Seq<InstructionView>) -> int
    decreases ivs.len(),
{
    if ivs.len() == 0 {
        0
    } else {
        (if ivs[0] is LabelDefinition {
            0int
        } else {
            1int
        }) + spec_real_count(ivs.skip(1))
    }
}

/// The count of real instructions never drops and grows by at most one per
/// entry.
pub proof fn lemma_real_count_bounds(ivs: Seq<InstructionView>)
    ensures
        0 <= spec_real_count(ivs) <= ivs.len(),
    decreases ivs.len(),
{
    if ivs.len() > 0 {
        lemma_real_count_bounds(ivs.skip(1));
    }
}

/// Law: pass one binds every label definition to the number of real
/// instructions before it — the flattened address of the next real
/// instruction — and keeps the real instructions in order at exactly
/// those addresses, forward references included.
pub proof fn lemma_pass1_label_addresses(
    ivs: Seq<InstructionView>,
    entries: Seq<(Seq<char>, u16)>,
    c: int,
)
    requires
        spec_pass1(ivs, entries, c) is Ok,
        0 <= c,
    ensures
        ({
            let (out, e1) = spec_pass1(ivs, entries, c)->Ok_0;
            &&& out.len() == spec_real_count(ivs)
            &&& forall|i: int|
                0 <= i < ivs.len() && #[trigger] ivs[i] is LabelDefinition ==> spec_lookup(
                    e1,
                    ivs[i]->LabelDefinition_0,
                ) == Option::Some((c + spec_real_count(ivs.take(i))) as u16)
            &&& forall|i: int|
                0 <= i < ivs.len() && !(#[trigger] ivs[i] is LabelDefinition) ==> {
                    &&& 0 <= spec_real_count(ivs.take(i)) < out.len()
                    &&& out[spec_real_count(ivs.take(i))] == ivs[i]
                }
        }),
    decreases ivs.len(),
{
    if ivs.len() == 0 {
    } else {
        let (out, e1) = spec_pass1(ivs, entries, c)->Ok_0;
        assert(ivs.take(0) =~= Seq::<InstructionView>::empty());
        assert forall|i: int| 1 <= i < ivs.len() implies spec_real_count(ivs.take(i)) == (if ivs[0]
            is LabelDefinition {
            0int
        } else {
            1int
        }) + spec_real_count(ivs.skip(1).take(i - 1)) by {
            assert(ivs.skip(1).take(i - 1) =~= ivs.take(i).skip(1));
            assert(ivs.take(i)[0] == ivs[0]);
            assert(spec_real_count(ivs.take(i)) == (if ivs.take(i)[0] is LabelDefinition {
                0int
            } else {
                1int
            }) + spec_real_count(ivs.take(i).skip(1)));
        }
        match ivs[0] {
            InstructionView::LabelDefinition(n) => {
                let entries2 = entries.push((n, c as u16));
                lemma_lookup_push(entries, (n, c as u16), n);
                lemma_pass1_label_addresses(ivs.skip(1), entries2, c);
                lemma_pass1_preserves_bindings(ivs.skip(1), entries2, c, n, c as u16);
                assert forall|i: int|
                    0 <= i < ivs.len() && #[trigger] ivs[i] is LabelDefinition implies spec_lookup(
                    e1,
                    ivs[i]->LabelDefinition_0,
                ) == Option::Some((c + spec_real_count(ivs.take(i))) as u16) by {
                    if i > 0 {
                        assert(ivs.skip(1)[i - 1] == ivs[i]);
                    } else {
                        assert(spec_real_count(ivs.take(0)) == 0);
                    }
                }
                assert forall|i: int|
                    0 <= i < ivs.len() && !(#[trigger] ivs[i] is LabelDefinition) implies {
                    &&& 0 <= spec_real_count(ivs.take(i)) < out.len()
                    &&& out[spec_real_count(ivs.take(i))] == ivs[i]
                } by {
                    assert(ivs.skip(1)[i - 1] == ivs[i]);
                }
            },
            _ => {
                lemma_pass1_label_addresses(ivs.skip(1), entries, c + 1);
                let (out1, _) = spec_pass1(ivs.skip(1), entries, c + 1)->Ok_0;
                assert(out == seq![ivs[0]] + out1);
                assert forall|i: int|
                    0 <= i < ivs.len() && #[trigger] ivs[i] is LabelDefinition implies spec_lookup(
                    e1,
                    ivs[i]->LabelDefinition_0,
                ) == Option::Some((c + spec_real_count(ivs.take(i))) as u16) by {
                    assert(ivs.skip(1)[i - 1] == ivs[i]);
                }
                assert forall|i: int|
                    0 <= i < ivs.len() && !(#[trigger] ivs[i] is LabelDefinition) implies {
                    &&& 0 <= spec_real_count(ivs.take(i)) < out.len()
                    &&& out[spec_real_count(ivs.take(i))] == ivs[i]
                } by {
                    lemma_real_count_bounds(ivs.take(i));
                    if i > 0 {
                        assert(ivs.skip(1)[i - 1] == ivs[i]);
                        lemma_real_count_bounds(ivs.skip(1).take(i - 1));
                        assert(out[spec_real_count(ivs.take(i))] == out1[spec_real_count(
                            ivs.skip(1).take(i - 1),
                        )]);
                    } else {
                        assert(out[0] == ivs[0]);
                    }
                }
            },
        }
    }
}

/// Law: the predefined symbol names carry their fixed addresses in a
/// fresh table.
pub proof fn lemma_predefined_addresses()
    ensures
        spec_lookup(predefined_entries(), "SP"@) == Option::Some(0u16),
        spec_lookup(predefined_entries(), "LCL"@) == Option::Some(1u16),
        spec_lookup(predefined_entries(), "ARG"@) == Option::Some(2u16),
        spec_lookup(predefined_entries(), "THIS"@) == Option::Some(3u16),
        spec_lookup(predefined_entries(), "THAT"@) == Option::Some(4u16),
        spec_lookup(predefined_entries(), "SCREEN"@) == Option::Some(16384u16),
        spec_lookup(predefined_entries(), "KBD"@) == Option::Some(24576u16),
{
    let e = predefined_entries();
    reveal_strlit("SP");
    reveal_strlit("LCL");
    reveal_strlit("ARG");
    reveal_strlit("THIS");
    reveal_strlit("THAT");
    reveal_strlit("SCREEN");
    reveal_strlit("KBD");
    assert("SP"@.len() == 2);
    assert("LCL"@.len() == 3);
    assert("ARG"@.len() == 3);
    assert("THIS"@.len() == 4);
    assert("THAT"@.len() == 4);
    assert("SCREEN"@.len() == 6);
    assert("KBD"@.len() == 3);
    assert("LCL"@[0] == 'L');
    assert("ARG"@[0] == 'A');
    assert("KBD"@[0] == 'K');
    assert("THIS"@[2] == 'I');
    assert("THAT"@[2] == 'A');
    let s0 = e;
    let s1 = s0.skip(1);
    let s2 = s1.skip(1);
    let s3 = s2.skip(1);
    let s4 = s3.skip(1);
    let s5 = s4.skip(1);
    let s6 = s5.skip(1);
    assert(s0[0] == ("SP"@, 0u16));
    assert(s1[0] == ("LCL"@, 1u16));
    assert(s2[0] == ("ARG"@, 2u16));
    assert(s3[0] == ("THIS"@, 3u16));
    assert(s4[0] == ("THAT"@, 4u16));
    assert(s5[0] == ("SCREEN"@, 16384u16));
    assert(s6[0] == ("KBD"@, 24576u16));
    assert(s0[0] == ("SP"@, 0u16));
    assert(spec_lookup(s0, "SP"@) == Option::Some(0u16));
    assert(s0[0].0 != "LCL"@);
    assert(spec_lookup(s0, "LCL"@) == spec_lookup(s1, "LCL"@));
    assert(s1[0] == ("LCL"@, 1u16));
    assert(spec_lookup(s1, "LCL"@) == Option::Some(1u16));
    assert(s0[0].0 != "ARG"@);
    assert(spec_lookup(s0, "ARG"@) == spec_lookup(s1, "ARG"@));
    assert(s1[0].0 != "ARG"@);
    assert(spec_lookup(s1, "ARG"@) == spec_lookup(s2, "ARG"@));
    assert(s2[0] == ("ARG"@, 2u16));
    assert(spec_lookup(s2, "ARG"@) == Option::Some(2u16));
    assert(s0[0].0 != "THIS"@);
    assert(spec_lookup(s0, "THIS"@) == spec_lookup(s1, "THIS"@));
    assert(s1[0].0 != "THIS"@);
    assert(spec_lookup(s1, "THIS"@) == spec_lookup(s2, "THIS"@));
    assert(s2[0].0 != "THIS"@);
    assert(spec_lookup(s2, "THIS"@) == spec_lookup(s3, "THIS"@));
    assert(s3[0] == ("THIS"@, 3u16));
    assert(spec_lookup(s3, "THIS"@) == Option::Some(3u16));
    assert(s0[0].0 != "THAT"@);
    assert(spec_lookup(s0, "THAT"@) == spec_lookup(s1, "THAT"@));
    assert(s1[0].0 != "THAT"@);
    assert(spec_lookup(s1, "THAT"@) == spec_lookup(s2, "THAT"@));
    assert(s2[0].0 != "THAT"@);
    assert(spec_lookup(s2, "THAT"@) == spec_lookup(s3, "THAT"@));
    assert(s3[0].0 != "THAT"@);
    assert(spec_lookup(s3, "THAT"@) == spec_lookup(s4, "THAT"@));
    assert(s4[0] == ("THAT"@, 4u16));
    assert(spec_lookup(s4, "THAT"@) == Option::Some(4u16));
    assert(s0[0].0 != "SCREEN"@);
    assert(spec_lookup(s0, "SCREEN"@) == spec_lookup(s1, "SCREEN"@));
    assert(s1[0].0 != "SCREEN"@);
    assert(spec_lookup(s1, "SCREEN"@) == spec_lookup(s2, "SCREEN"@));
    assert(s2[0].0 != "SCREEN"@);
    assert(spec_lookup(s2, "SCREEN"@) == spec_lookup(s3, "SCREEN"@));
    assert(s3[0].0 != "SCREEN"@);
    assert(spec_lookup(s3, "SCREEN"@) == spec_lookup(s4, "SCREEN"@));
    assert(s4[0].0 != "SCREEN"@);
    assert(spec_lookup(s4, "SCREEN"@) == spec_lookup(s5, "SCREEN"@));
    assert(s5[0] == ("SCREEN"@, 16384u16));
    assert(spec_lookup(s5, "SCREEN"@) == Option::Some(16384u16));
    assert(s0[0].0 != "KBD"@);
    assert(spec_lookup(s0, "KBD"@) == spec_lookup(s1, "KBD"@));
    assert(s1[0].0 != "KBD"@);
    assert(spec_lookup(s1, "KBD"@) == spec_lookup(s2, "KBD"@));
    assert(s2[0].0 != "KBD"@);
    assert(spec_lookup(s2, "KBD"@) == spec_lookup(s3, "KBD"@));
    assert(s3[0].0 != "KBD"@);
    assert(spec_lookup(s3, "KBD"@) == spec_lookup(s4, "KBD"@));
    assert(s4[0].0 != "KBD"@);
    assert(spec_lookup(s4, "KBD"@) == spec_lookup(s5, "KBD"@));
    assert(s5[0].0 != "KBD"@);
    assert(spec_lookup(s5, "KBD"@) == spec_lookup(s6, "KBD"@));
    assert(s6[0] == ("KBD"@, 24576u16));
    assert(spec_lookup(s6, "KBD"@) == Option::Some(24576u16));
}

/// Law: a reference to a predefined symbol resolves to its fixed address,
/// regardless of where in the program it stands. The positions are those
/// of the label-stripped sequence that pass one hands to pass two.
pub proof fn lemma_predefined_resolution(ivs: Seq<InstructionView>, name: Seq<char>, a: u16)
    requires
        spec_lookup(predefined_entries(), name) == Option::Some(a),
        spec_resolve(ivs) is Ok,
    ensures
        ({
            let stripped = spec_pass1(ivs, predefined_entries(), 0)->Ok_0.0;
            let (out, e2) = spec_resolve(ivs)->Ok_0;
            &&& spec_lookup(e2, name) == Option::Some(a)
            &&& out.len() == stripped.len()
            &&& forall|i: int|
                0 <= i < stripped.len() && stripped[i] == InstructionView::A(
                    LocationView::Label(name),
                ) ==> out[i] == InstructionView::A(LocationView::Address(a))
        }),
{
    let (stripped, e1) = spec_pass1(ivs, predefined_entries(), 0)->Ok_0;
    lemma_pass1_preserves_bindings(ivs, predefined_entries(), 0, name, a);
    lemma_pass2_preserves_bindings(stripped, e1, variable_base(), name, a);
}

/// Two entry lists bind exactly the same set of names.
pub open spec fn same_domain(e1: Seq<(Seq<char>, u16)>, e2: Seq<(Seq<char>, u16)>) -> bool {
    forall|name: Seq<char>|
        (#[trigger] spec_lookup(e1, name)) is Some <==> spec_lookup(e2, name) is Some
}

/// The names that pass two will allocate variable addresses for, in
/// first-occurrence order: the label references not bound in `entries`,
/// each counted once. The address a name is bound to does not matter
/// here, so a placeholder is used.
pub open spec fn spec_fresh_names(
    ivs: Seq<InstructionView>,
    entries: Seq<(Seq<char>, u16)>,
) -> Seq<Seq<char>>
    decreases ivs.len(),
{
    if ivs.len() == 0 {
        Seq::empty()
    } else {
        match ivs[0] {
            InstructionView::A(LocationView::Label(n)) => {
                if spec_lookup(entries, n) is None {
                    seq![n] + spec_fresh_names(ivs.skip(1), entries.push((n, 0u16)))
                } else {
                    spec_fresh_names(ivs.skip(1), entries)
                }
            },
            _ => spec_fresh_names(ivs.skip(1), entries),
        }
    }
}

/// Every fresh name is unbound in the starting entries.
pub proof fn lemma_fresh_unbound(ivs: Seq<InstructionView>, entries: Seq<(Seq<char>, u16)>)
    ensures
        forall|k: int|
            0 <= k < spec_fresh_names(ivs, entries).len() ==> spec_lookup(
                entries,
                #[trigger] spec_fresh_names(ivs, entries)[k],
            ) is None,
    decreases ivs.len(),
{
    if ivs.len() == 0 {
    } else {
        let f = spec_fresh_names(ivs, entries);
        match ivs[0] {
            InstructionView::A(LocationView::Label(n)) => {
                if spec_lookup(entries, n) is None {
                    let pushed = entries.push((n, 0u16));
                    lemma_fresh_unbound(ivs.skip(1), pushed);
                    let f2 = spec_fresh_names(ivs.skip(1), pushed);
                    assert forall|k: int| 0 <= k < f.len() implies spec_lookup(
                        entries,
                        #[trigger] f[k],
                    ) is None by {
                        if k > 0 {
                            assert(f[k] == f2[k - 1]);
                            assert(spec_lookup(pushed, f2[k - 1]) is None);
                            lemma_lookup_push(entries, (n, 0u16), f[k]);
                        }
                    }
                } else {
                    lemma_fresh_unbound(ivs.skip(1), entries);
                    let f2 = spec_fresh_names(ivs.skip(1), entries);
                    assert forall|k: int| 0 <= k < f.len() implies spec_lookup(
                        entries,
                        #[trigger] f[k],
                    ) is None by {
                        assert(f[k] == f2[k]);
                    }
                }
            },
            _ => {
                lemma_fresh_unbound(ivs.skip(1), entries);
                let f2 = spec_fresh_names(ivs.skip(1), entries);
                assert forall|k: int| 0 <= k < f.len() implies spec_lookup(
                    entries,
                    #[trigger] f[k],
                ) is None by {
                    assert(f[k] == f2[k]);
                }
            },
        }
    }
}

/// The fresh-name sequence depends only on which names are bound, not on
/// their addresses.
pub proof fn lemma_fresh_same_domain(
    ivs: Seq<InstructionView>,
    e1: Seq<(Seq<char>, u16)>,
    e2: Seq<(Seq<char>, u16)>,
)
    requires
        same_domain(e1, e2),
    ensures
        spec_fresh_names(ivs, e1) == spec_fresh_names(ivs, e2),
    decreases ivs.len(),
{
    if ivs.len() == 0 {
    } else {
        match ivs[0] {
            InstructionView::A(LocationView::Label(n)) => {
                assert(spec_lookup(e1, n) is Some <==> spec_lookup(e2, n) is Some);
                if spec_lookup(e1, n) is None {
                    assert forall|q: Seq<char>|
                        (#[trigger] spec_lookup(e1.push((n, 0u16)), q)) is Some <==> spec_lookup(
                            e2.push((n, 0u16)),
                            q,
                        ) is Some by {
                        lemma_lookup_push(e1, (n, 0u16), q);
                        lemma_lookup_push(e2, (n, 0u16), q);
                        assert(spec_lookup(e1, q) is Some <==> spec_lookup(e2, q) is Some);
                    }
                    lemma_fresh_same_domain(ivs.skip(1), e1.push((n, 0u16)), e2.push((n, 0u16)));
                } else {
                    lemma_fresh_same_domain(ivs.skip(1), e1, e2);
                }
            },
            _ => {
                lemma_fresh_same_domain(ivs.skip(1), e1, e2);
            },
        }
    }
}

/// Law: pass two allocates variable addresses in strict first-occurrence
/// order, with no gaps and no reuse: the k-th fresh name is bound to
/// `c + k`, the final counter is `c` plus the number of fresh names, the
/// fresh names are pairwise distinct, and every reference to the k-th
/// fresh name — wherever it stands — is rewritten to address `c + k`.
pub proof fn lemma_pass2_variable_allocation(
    ivs: Seq<InstructionView>,
    entries: Seq<(Seq<char>, u16)>,
    c: int,
)
    requires
        spec_pass2(ivs, entries, c) is Ok,
        0 <= c,
    ensures
        ({
            let (out, e2, c2) = spec_pass2(ivs, entries, c)->Ok_0;
            let f = spec_fresh_names(ivs, entries);
            &&& c2 == c + f.len()
            &&& out.len() == ivs.len()
            &&& forall|k: int, l: int| 0 <= k < l < f.len() ==> f[k] != f[l]
            &&& forall|k: int|
                0 <= k < f.len() ==> spec_lookup(e2, #[trigger] f[k]) == Option::Some(
                    (c + k) as u16,
                )
            &&& forall|i: int, k: int|
                0 <= i < ivs.len() && 0 <= k < f.len() && #[trigger] ivs[i]
                    == InstructionView::A(LocationView::Label(#[trigger] f[k]))
                    ==> out[i] == InstructionView::A(LocationView::Address((c + k) as u16))
        }),
    decreases ivs.len(),
{
    if ivs.len() == 0 {
    } else {
        let (out, e2, c2) = spec_pass2(ivs, entries, c)->Ok_0;
        let f = spec_fresh_names(ivs, entries);
        match ivs[0] {
            InstructionView::A(LocationView::Label(n)) => {
                match spec_lookup(entries, n) {
                    Option::Some(b) => {
                        lemma_pass2_variable_allocation(ivs.skip(1), entries, c);
                        lemma_fresh_unbound(ivs.skip(1), entries);
                        let (out1, _, _) = spec_pass2(ivs.skip(1), entries, c)->Ok_0;
                        let f2 = spec_fresh_names(ivs.skip(1), entries);
                        assert(f == f2);
                        assert forall|i: int, k: int|
                            0 <= i < ivs.len() && 0 <= k < f.len() && #[trigger] ivs[i]
                                == InstructionView::A(LocationView::Label(#[trigger] f[k]))
                                implies out[i] == InstructionView::A(
                            LocationView::Address((c + k) as u16),
                        ) by {
                            if i == 0 {
                                assert(spec_lookup(entries, f2[k]) is None);
                            } else {
                                assert(ivs.skip(1)[i - 1] == ivs[i]);
                                assert(out[i] == out1[i - 1]);
                            }
                        }
                    },
                    Option::None => {
                        let pushed = entries.push((n, c as u16));
                        let placeholder = entries.push((n, 0u16));
                        assert forall|q: Seq<char>|
                            (#[trigger] spec_lookup(placeholder, q)) is Some <==> spec_lookup(
                                pushed,
                                q,
                            ) is Some by {
                            lemma_lookup_push(entries, (n, 0u16), q);
                            lemma_lookup_push(entries, (n, c as u16), q);
                        }
                        lemma_fresh_same_domain(ivs.skip(1), placeholder, pushed);
                        let f2 = spec_fresh_names(ivs.skip(1), pushed);
                        assert(f == seq![n] + f2);
                        assert(f[0] == n);
                        assert forall|k: int| 1 <= k < f.len() implies f[k] == f2[k - 1] by {}
                        lemma_pass2_variable_allocation(ivs.skip(1), pushed, c + 1);
                        lemma_fresh_unbound(ivs.skip(1), pushed);
                        lemma_lookup_push(entries, (n, c as u16), n);
                        lemma_pass2_preserves_bindings(ivs.skip(1), pushed, c + 1, n, c as u16);
                        let (out1, _, _) = spec_pass2(ivs.skip(1), pushed, c + 1)->Ok_0;
                        assert(out == seq![InstructionView::A(LocationView::Address(c as u16))]
                            + out1);
                        assert forall|k: int, l: int| 0 <= k < l < f.len() implies f[k]
                            != f[l] by {
                            if k == 0 {
                                assert(spec_lookup(pushed, f2[l - 1]) is None);
                            }
                        }
                        assert forall|k: int| 0 <= k < f.len() implies spec_lookup(
                            e2,
                            #[trigger] f[k],
                        ) == Option::Some((c + k) as u16) by {
                            if k == 0 {
                            } else {
                                assert(f[k] == f2[k - 1]);
                                assert(spec_lookup(e2, f2[k - 1]) == Option::Some(
                                    (c + 1 + (k - 1)) as u16,
                                ));
                            }
                        }
                        assert forall|i: int, k: int|
                            0 <= i < ivs.len() && 0 <= k < f.len() && #[trigger] ivs[i]
                                == InstructionView::A(LocationView::Label(#[trigger] f[k]))
                                implies out[i] == InstructionView::A(
                            LocationView::Address((c + k) as u16),
                        ) by {
                            if k == 0 {
                                if i > 0 {
                                    assert(ivs.skip(1)[i - 1] == ivs[i]);
                                    assert(out[i] == out1[i - 1]);
                                }
                            } else {
                                assert(f[k] == f2[k - 1]);
                                assert(spec_lookup(pushed, f2[k - 1]) is None);
                                if i == 0 {
                                    assert(spec_lookup(pushed, n) is Some);
                                } else {
                                    assert(ivs.skip(1)[i - 1] == ivs[i]);
                                    assert(out[i] == out1[i - 1]);
                                }
                            }
                        }
                    },
                }
            },
            _ => {
                lemma_pass2_variable_allocation(ivs.skip(1), entries, c);
                let (out1, _, _) = spec_pass2(ivs.skip(1), entries, c)->Ok_0;
                let f2 = spec_fresh_names(ivs.skip(1), entries);
                assert(f == f2);
                assert forall|i: int, k: int|
                    0 <= i < ivs.len() && 0 <= k < f.len() && #[trigger] ivs[i]
                        == InstructionView::A(LocationView::Label(#[trigger] f[k])) implies out[i]
                    == InstructionView::A(LocationView::Address((c + k) as u16)) by {
                    if i > 0 {
                        assert(ivs.skip(1)[i - 1] == ivs[i]);
                        assert(out[i] == out1[i - 1]);
                    }
                }
            },
        }
    }
}

/// The whole resolution: pass one over the parsed sequence with a fresh
/// predefined table, then pass two over the stripped sequence with the
/// variable counter at its base.
pub open spec fn spec_resolve(ivs: Seq<InstructionView>) -> Result<
    (Seq<InstructionView>, Seq<(Seq<char>, u16)>),
    AsmErrorView,
> {
    match spec_pass1(ivs, predefined_entries(), 0) {
        Result::Err(e) => Result::Err(e),
        Result::Ok((stripped, e1)) => match spec_pass2(stripped, e1, variable_base()) {
            Result::Err(e) => Result::Err(e),
            Result::Ok((out, e2, c2)) => Result::Ok((out, e2)),
        },
    }
}

/// Resolves a parsed instruction sequence: builds the predefined table,
/// binds the labels, strips their definitions, and rewrites every
/// symbolic reference to a literal address.
pub fn resolve(instrs: &Vec<Instruction>) -> (r: Result<(Vec<Instruction>, SymbolTable), AsmError>)
    ensures
        match r {
            Result::Ok((out, table)) => spec_resolve(instruction_views(instrs@)) matches Result::Ok(
                (t, e2),
            ) && instruction_views(out@) == t && table@ == e2,
            Result::Err(e) => {
                &&& spec_resolve(instruction_views(instrs@)) matches Result::Err(ev)
                &&& e@ == ev
            },
        },
{
    let mut table = SymbolTable::new();
    let stripped = match pass_one(instrs, &mut table) {
        Result::Ok(v) => v,
        Result::Err(e) => {
            return Result::Err(e);
        },
    };
    let out = match pass_two(&stripped, &mut table) {
        Result::Ok(v) => v,
        Result::Err(e) => {
            return Result::Err(e);
        },
    };
    Result::Ok((out, table))
}

} // verus!
