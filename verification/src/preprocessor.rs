//! Macro Preprocessor: expands `#call`, `#ret` and `#include` directives
//! into primitive assembly, line by line, using a fixed call-stack
//! convention. The cell at address 16383 is the call-stack pointer; the
//! stack grows downward from it. A one-time setup sequence initializing
//! the pointer is emitted exactly once, before all other output.
//!
//! `#call <label>` stores a genuine return address on the call stack by
//! binding a fresh label (`__RETURN_<n>`, one per call site — the prefix
//! is reserved) right after its jump; `#ret` retreats the stack pointer
//! and jumps indirectly through the saved address. `#include <path>`
//! defers the named file: the host reads it and hands its lines back, and
//! they are expanded by the same process after the primary input.
use crate::parser::{parse_macro, spec_parse_macro};
use crate::text::{spec_decimal, u64_to_decimal};
use crate::types::{line_views, AsmError, AsmErrorView, Macro, MacroView};
use vstd::prelude::*;
use vstd::string::*;

verus! {

/// The fresh label bound to the return address of call site `k`.
pub open spec fn spec_ret_label(k: nat) -> Seq<char> {
    "__RETURN_"@ + spec_decimal(k)
}

/// What `#call <arg>` expands to, at call site `k`: a comment marking the
/// jump target, the store sequence saving the return address onto the call
/// stack, the jump to the target, and the return-address label.
pub open spec fn spec_call_expansion(arg: Seq<char>, k: nat) -> Seq<Seq<char>> {
    seq![
        "// CALL "@ + arg,
        "@"@ + spec_ret_label(k),
        "D=A"@,
        "@16383"@,
        "A=M"@,
        "M=D"@,
        "@16383"@,
        "M=M-1"@,
        "@"@ + arg,
        "0;JMP"@,
        "("@ + spec_ret_label(k) + ")"@,
    ]
}

/// What `#ret` expands to: a comment, the pointer retreat, and the
/// indirect jump through the saved return address.
pub open spec fn spec_ret_expansion() -> Seq<Seq<char>> {
    seq!["// RETURN"@, "@16383"@, "M=M+1"@, "A=M"@, "A=M"@, "0;JMP"@]
}

/// The one-time setup: point the call-stack pointer cell at the cell
/// below it, then clear the address register.
pub open spec fn spec_setup() -> Seq<Seq<char>> {
    seq!["@16383"@, "D=A-1"@, "M=D"@, "@0"@]
}

/// The comment written where an included file's lines begin.
pub open spec fn spec_include_comment(path: Seq<char>) -> Seq<char> {
    "// INCLUDE "@ + path
}

/// What one raw line contributes: its expansion, the next call-site
/// number, and the path it defers (for `#include`). A line is a directive
/// exactly when it starts with `#` and parses as one to its end; a `#call`
/// or `#include` without an argument, a directive with trailing text, and
/// a call when no fresh call-site number is left are malformed. Any other
/// line passes through unchanged.
pub open spec fn spec_expand_line(l: Seq<char>, k: nat) -> Result<
    (Seq<Seq<char>>, nat, Seq<Seq<char>>),
    AsmErrorView,
> {
    if l.len() >= 1 && l[0] == '#' {
        match spec_parse_macro(l) {
            Option::Some((MacroView::Call(arg), c)) => {
                if c == l.len() && arg.len() > 0 && k < u64::MAX as nat {
                    Result::Ok((spec_call_expansion(arg, k), k + 1, Seq::empty()))
                } else {
                    Result::Err(AsmErrorView::MalformedDirective(l))
                }
            },
            Option::Some((MacroView::Return, c)) => {
                if c == l.len() {
                    Result::Ok((spec_ret_expansion(), k, Seq::empty()))
                } else {
                    Result::Err(AsmErrorView::MalformedDirective(l))
                }
            },
            Option::Some((MacroView::Include(arg), c)) => {
                if c == l.len() && arg.len() > 0 {
                    Result::Ok((Seq::empty(), k, seq![arg]))
                } else {
                    Result::Err(AsmErrorView::MalformedDirective(l))
                }
            },
            Option::None => Result::Ok((seq![l], k, Seq::empty())),
        }
    } else {
        Result::Ok((seq![l], k, Seq::empty()))
    }
}

/// The expansion of a sequence of raw lines, threading the call-site
/// number and collecting deferred include paths in order.
pub open spec fn spec_expand_lines(ls: Seq<Seq<char>>, k: nat) -> Result<
    (Seq<Seq<char>>, nat, Seq<Seq<char>>),
    AsmErrorView,
>
    decreases ls.len(),
{
    if ls.len() == 0 {
        Result::Ok((Seq::empty(), k, Seq::empty()))
    } else {
        match spec_expand_line(ls[0], k) {
            Result::Err(e) => Result::Err(e),
            Result::Ok((out0, k0, inc0)) => match spec_expand_lines(ls.skip(1), k0) {
                Result::Err(e) => Result::Err(e),
                Result::Ok((out1, k1, inc1)) => Result::Ok((out0 + out1, k1, inc0 + inc1)),
            },
        }
    }
}

/// Builds the expansion of `#call <arg>` at call site `k`.
fn build_call_expansion(arg: &String, k: u64) -> (r: Vec<String>)
    ensures
        line_views(r@) == spec_call_expansion(arg@, k as nat),
{
    let mut ret_label = String::from_str("__RETURN_");
    let digits = u64_to_decimal(k);
    ret_label.append(digits.as_str());
    let mut out: Vec<String> = Vec::new();
    let mut comment = String::from_str("// CALL ");
    comment.append(arg.as_str());
    out.push(comment);
    let mut at_ret = String::from_str("@");
    at_ret.append(ret_label.as_str());
    out.push(at_ret);
    out.push(String::from_str("D=A"));
    out.push(String::from_str("@16383"));
    out.push(String::from_str("A=M"));
    out.push(String::from_str("M=D"));
    out.push(String::from_str("@16383"));
    out.push(String::from_str("M=M-1"));
    let mut at_arg = String::from_str("@");
    at_arg.append(arg.as_str());
    out.push(at_arg);
    out.push(String::from_str("0;JMP"));
    let mut def = String::from_str("(");
    def.append(ret_label.as_str());
    def.append(")");
    out.push(def);
    proof {
        assert(line_views(out@) =~= spec_call_expansion(arg@, k as nat));
    }
    out
}

/// Builds the expansion of `#ret`.
fn build_ret_expansion() -> (r: Vec<String>)
    ensures
        line_views(r@) == spec_ret_expansion(),
{
    let mut out: Vec<String> = Vec::new();
    out.push(String::from_str("// RETURN"));
    out.push(String::from_str("@16383"));
    out.push(String::from_str("M=M+1"));
    out.push(String::from_str("A=M"));
    out.push(String::from_str("A=M"));
    out.push(String::from_str("0;JMP"));
    proof {
        assert(line_views(out@) =~= spec_ret_expansion());
    }
    out
}

/// Builds the one-time setup sequence.
pub fn build_setup() -> (r: Vec<String>)
    ensures
        line_views(r@) == spec_setup(),
{
    let mut out: Vec<String> = Vec::new();
    out.push(String::from_str("@16383"));
    out.push(String::from_str("D=A-1"));
    out.push(String::from_str("M=D"));
    out.push(String::from_str("@0"));
    proof {
        assert(line_views(out@) =~= spec_setup());
    }
    out
}

/// Expands a batch of raw lines, starting at call site `k0`. Returns the
/// expanded lines, the next call-site number, and the include paths the
/// batch deferred, in order.
pub fn expand_lines(lines: &Vec<String>, k0: u64) -> (r: Result<
    (Vec<String>, u64, Vec<String>),
    AsmError,
>)
    ensures
        match r {
            Result::Ok((out, k, inc)) => spec_expand_lines(line_views(lines@), k0 as nat)
                == Result::<_, AsmErrorView>::Ok(
                (line_views(out@), k as nat, line_views(inc@)),
            ),
            Result::Err(e) => {
                &&& spec_expand_lines(line_views(lines@), k0 as nat) matches Result::Err(ev)
                &&& e@ == ev
            },
        },
{
    let ghost lsv = line_views(lines@);
    let mut out: Vec<String> = Vec::new();
    let mut inc: Vec<String> = Vec::new();
    let mut k: u64 = k0;
    let mut i: usize = 0;
    proof {
        assert(lsv.skip(0) == lsv);
        if spec_expand_lines(lsv, k0 as nat) is Ok {
            let t = spec_expand_lines(lsv, k0 as nat)->Ok_0;
            assert(line_views(out@) + t.0 =~= t.0);
            assert(line_views(inc@) + t.2 =~= t.2);
        }
    }
    while i < lines.len()
        invariant
            i <= lines@.len(),
            lsv == line_views(lines@),
            spec_expand_lines(lsv.skip(i as int), k as nat) matches Result::Ok((o2, k2, inc2))
                ==> spec_expand_lines(lsv, k0 as nat) == Result::<_, AsmErrorView>::Ok(
                (line_views(out@) + o2, k2, line_views(inc@) + inc2),
            ),
            spec_expand_lines(lsv.skip(i as int), k as nat) matches Result::Err(e)
                ==> spec_expand_lines(lsv, k0 as nat) == Result::<
                (Seq<Seq<char>>, nat, Seq<Seq<char>>),
                AsmErrorView,
            >::Err(e),
        decreases lines@.len() - i,
    {
        proof {
            assert(lsv.skip(i as int)[0] == lsv[i as int]);
            assert(lsv[i as int] == lines@[i as int]@);
            assert(lsv.skip(i as int).skip(1) =~= lsv.skip(i + 1));
        }
        let line = &lines[i];
        let ghost lv = line@;
        let first_is_hash = {
            let s = line.as_str();
            s.unicode_len() >= 1 && s.get_char(0) == '#'
        };
        if first_is_hash {
            match parse_macro(line.as_str()) {
                Result::Ok((rest, m)) => {
                    let fully = rest.unicode_len() == 0;
                    proof {
                        let c = spec_parse_macro(lv)->Some_0.1;
                        assert(rest@ == lv.skip(c));
                        assert(fully == (c == lv.len()));
                    }
                    match m {
                        Macro::Call(arg) => {
                            let arg_len = arg.as_str().unicode_len();
                            if !(fully && arg_len > 0 && k < u64::MAX) {
                                return Result::Err(AsmError::MalformedDirective(line.clone()));
                            }
                            let mut exp = build_call_expansion(&arg, k);
                            proof {
                                let o2 = spec_call_expansion(arg@, k as nat);
                                assert(line_views(out@ + exp@) =~= line_views(out@) + line_views(
                                    exp@,
                                ));
                                if spec_expand_lines(lsv.skip(i + 1), k as nat + 1) is Ok {
                                    let t = spec_expand_lines(lsv.skip(i + 1), k as nat + 1)->Ok_0;
                                    assert((line_views(out@) + o2) + t.0 =~= line_views(out@) + (o2
                                        + t.0));
                                    assert(line_views(inc@) + (Seq::<Seq<char>>::empty() + t.2)
                                        =~= line_views(inc@) + t.2);
                                }
                            }
                            out.append(&mut exp);
                            k = k + 1;
                        },
                        Macro::Return => {
                            if !fully {
                                return Result::Err(AsmError::MalformedDirective(line.clone()));
                            }
                            let mut exp = build_ret_expansion();
                            proof {
                                let o2 = spec_ret_expansion();
                                assert(line_views(out@ + exp@) =~= line_views(out@) + line_views(
                                    exp@,
                                ));
                                if spec_expand_lines(lsv.skip(i + 1), k as nat) is Ok {
                                    let t = spec_expand_lines(lsv.skip(i + 1), k as nat)->Ok_0;
                                    assert((line_views(out@) + o2) + t.0 =~= line_views(out@) + (o2
                                        + t.0));
                                    assert(line_views(inc@) + (Seq::<Seq<char>>::empty() + t.2)
                                        =~= line_views(inc@) + t.2);
                                }
                            }
                            out.append(&mut exp);
                        },
                        Macro::Include(arg) => {
                            let arg_len = arg.as_str().unicode_len();
                            if !(fully && arg_len > 0) {
                                return Result::Err(AsmError::MalformedDirective(line.clone()));
                            }
                            proof {
                                let ghost argv = arg@;
                                assert(line_views(inc@.push(arg)) =~= line_views(inc@).push(argv));
                                if spec_expand_lines(lsv.skip(i + 1), k as nat) is Ok {
                                    let t = spec_expand_lines(lsv.skip(i + 1), k as nat)->Ok_0;
                                    assert(line_views(out@) + (Seq::<Seq<char>>::empty() + t.0)
                                        =~= line_views(out@) + t.0);
                                    assert((line_views(inc@) + seq![argv]) + t.2 =~= line_views(
                                        inc@,
                                    ) + (seq![argv] + t.2));
                                    assert(line_views(inc@).push(argv) =~= line_views(inc@) + seq![
                                        argv,
                                    ]);
                                }
                            }
                            inc.push(arg);
                        },
                    }
                },
                Result::Err(_) => {
                    let copy = line.clone();
                    proof {
                        assert(line_views(out@.push(copy)) =~= line_views(out@).push(lv));
                        if spec_expand_lines(lsv.skip(i + 1), k as nat) is Ok {
                            let t = spec_expand_lines(lsv.skip(i + 1), k as nat)->Ok_0;
                            assert((line_views(out@) + seq![lv]) + t.0 =~= line_views(out@) + (
                            seq![lv] + t.0));
                            assert(line_views(out@).push(lv) =~= line_views(out@) + seq![lv]);
                            assert(line_views(inc@) + (Seq::<Seq<char>>::empty() + t.2)
                                =~= line_views(inc@) + t.2);
                        }
                    }
                    out.push(copy);
                },
            }
        } else {
            let copy = line.clone();
            proof {
                assert(line_views(out@.push(copy)) =~= line_views(out@).push(lv));
                if spec_expand_lines(lsv.skip(i + 1), k as nat) is Ok {
                    let t = spec_expand_lines(lsv.skip(i + 1), k as nat)->Ok_0;
                    assert((line_views(out@) + seq![lv]) + t.0 =~= line_views(out@) + (seq![lv]
                        + t.0));
                    assert(line_views(out@).push(lv) =~= line_views(out@) + seq![lv]);
                    assert(line_views(inc@) + (Seq::<Seq<char>>::empty() + t.2) =~= line_views(
                        inc@,
                    ) + t.2);
                }
            }
            out.push(copy);
        }
        i = i + 1;
    }
    proof {
        assert(lsv.skip(lines@.len() as int) =~= Seq::<Seq<char>>::empty());
        assert(line_views(out@) + Seq::<Seq<char>>::empty() =~= line_views(out@));
        assert(line_views(inc@) + Seq::<Seq<char>>::empty() =~= line_views(inc@));
    }
    Result::Ok((out, k, inc))
}

/// Law: a batch with no `#`-lines expands to itself — the preprocessor is
/// the identity on directive-free text, up to the setup prefix its driver
/// emits once.
pub proof fn lemma_expand_no_directives(ls: Seq<Seq<char>>, k: nat)
    requires
        forall|i: int| 0 <= i < ls.len() ==> (#[trigger] ls[i].len() == 0 || ls[i][0] != '#'),
    ensures
        spec_expand_lines(ls, k) == Result::<_, AsmErrorView>::Ok((ls, k, Seq::<Seq<char>>::empty())),
    decreases ls.len(),
{
    if ls.len() == 0 {
        assert(ls =~= Seq::<Seq<char>>::empty());
    } else {
        assert(ls[0].len() == 0 || ls[0][0] != '#');
        lemma_expand_no_directives(ls.skip(1), k);
        assert(seq![ls[0]] + ls.skip(1) =~= ls);
        assert(Seq::<Seq<char>>::empty() + Seq::<Seq<char>>::empty() =~= Seq::<
            Seq<char>,
        >::empty());
    }
}

/// The running state of preprocessing: the lines expanded so far, the
/// include paths still to be supplied (in order), and the next call-site
/// number.
pub struct Preprocessor {
    lines: Vec<String>,
    pending: Vec<String>,
    next_ret: u64,
}

/// Spec-level shape of a `Preprocessor`.
pub ghost struct PreprocessorView {
    pub lines: Seq<Seq<char>>,
    pub pending: Seq<Seq<char>>,
    pub next_ret: nat,
}

impl View for Preprocessor {
    type V = PreprocessorView;

    closed spec fn view(&self) -> PreprocessorView {
        PreprocessorView {
            lines: line_views(self.lines@),
            pending: line_views(self.pending@),
            next_ret: self.next_ret as nat,
        }
    }
}

/// Sources whose lines the Macro Preprocessor can expand.
pub trait Preprocessable: Sized {
    /// The raw lines of this source.
    spec fn source_lines(&self) -> Seq<Seq<char>>;

    /// Expands this source: the setup sequence first, then the expansion
    /// of every line in order. Reading deferred includes is the host's
    /// business: it feeds them to the returned state one at a time.
    fn preprocess(self) -> (r: Result<Preprocessor, AsmError>)
        ensures
            match r {
                Result::Ok(p) => {
                    &&& spec_expand_lines(self.source_lines(), 0) matches Result::Ok(
                        (out, kk, inc),
                    )
                    &&& p@.lines == spec_setup() + out
                    &&& p@.pending == inc
                    &&& p@.next_ret == kk
                },
                Result::Err(e) => {
                    &&& spec_expand_lines(self.source_lines(), 0) matches Result::Err(ev)
                    &&& e@ == ev
                },
            },
    ;
}

impl Preprocessable for Vec<String> {
    open spec fn source_lines(&self) -> Seq<Seq<char>> {
        line_views(self@)
    }

    fn preprocess(self) -> (r: Result<Preprocessor, AsmError>) {
        let mut lines = build_setup();
        let (mut out, k, pending) = match expand_lines(&self, 0) {
            Result::Ok(t) => t,
            Result::Err(e) => {
                return Result::Err(e);
            },
        };
        proof {
            assert(line_views(lines@ + out@) =~= line_views(lines@) + line_views(out@));
        }
        lines.append(&mut out);
        Result::Ok(Preprocessor { lines, pending, next_ret: k })
    }
}

impl Preprocessor {
    /// The next include path waiting to be read, if any.
    pub fn pending_include(&self) -> (r: Option<String>)
        ensures
            match r {
                Option::Some(p) => self@.pending.len() > 0 && p@ == self@.pending[0],
                Option::None => self@.pending.len() == 0,
            },
    {
        if self.pending.len() == 0 {
            Option::None
        } else {
            Option::Some(self.pending[0].clone())
        }
    }

    /// Whether every deferred include has been supplied.
    pub fn is_complete(&self) -> (r: bool)
        ensures
            r == (self@.pending.len() == 0),
    {
        self.pending.len() == 0
    }

    /// Feeds back the lines of the first pending include: marks where they
    /// begin with a comment, expands them with the same process, and
    /// queues any includes they defer themselves after the ones already
    /// waiting.
    pub fn supply_include(&mut self, contents: &Vec<String>) -> (r: Result<(), AsmError>)
        requires
            old(self)@.pending.len() > 0,
        ensures
            match r {
                Result::Ok(()) => {
                    &&& spec_expand_lines(line_views(contents@), old(self)@.next_ret)
                        matches Result::Ok((out, kk, inc))
                    &&& final(self)@.lines == old(self)@.lines + seq![
                        spec_include_comment(old(self)@.pending[0]),
                    ] + out
                    &&& final(self)@.pending == old(self)@.pending.skip(1) + inc
                    &&& final(self)@.next_ret == kk
                },
                Result::Err(e) => {
                    &&& spec_expand_lines(line_views(contents@), old(self)@.next_ret)
                        matches Result::Err(ev)
                    &&& e@ == ev
                },
            },
    {
        let ghost oldv = self@;
        let path = self.pending.remove(0);
        proof {
            assert(line_views(self.pending@) =~= oldv.pending.skip(1));
        }
        let (mut out, k, mut inc) = match expand_lines(contents, self.next_ret) {
            Result::Ok(t) => t,
            Result::Err(e) => {
                return Result::Err(e);
            },
        };
        let mut comment = String::from_str("// INCLUDE ");
        comment.append(path.as_str());
        proof {
            assert(line_views(self.lines@.push(comment)) =~= line_views(self.lines@).push(
                spec_include_comment(oldv.pending[0]),
            ));
        }
        self.lines.push(comment);
        proof {
            assert(line_views(self.lines@ + out@) =~= line_views(self.lines@) + line_views(out@));
            assert(oldv.lines + seq![spec_include_comment(oldv.pending[0])] =~= oldv.lines.push(
                spec_include_comment(oldv.pending[0]),
            ));
        }
        self.lines.append(&mut out);
        proof {
            assert(line_views(self.pending@ + inc@) =~= line_views(self.pending@) + line_views(
                inc@,
            ));
        }
        self.pending.append(&mut inc);
        self.next_ret = k;
        Result::Ok(())
    }

    /// Hands the fully expanded lines over, once no include is pending.
    pub fn take_lines(self) -> (r: Vec<String>)
        requires
            self@.pending.len() == 0,
        ensures
            line_views(r@) == self@.lines,
    {
        self.lines
    }
}

} // verus!
