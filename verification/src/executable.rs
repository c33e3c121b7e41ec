//! The executable harness model: ownership of the code and evaluation-stack
//! regions, the per-call variables area, and the integrity digest.
//!
//! The combined mapping is taken writable-and-executable, the simpler
//! discipline the design explicitly permits for a region that holds both the
//! evaluation stack and the code; the tradeoff is accepted and recorded here.

use vstd::prelude::*;

use crate::mmap::Prot;
use crate::mmap::Region;
use crate::rpn_converter::RPNExpr;
use crate::rpn_converter::rpn_delta;
use crate::rpn_converter::valid_rpn;
use crate::rpn_converter::verify_balance;
use crate::tokenizer::TokenView;
use crate::vars::VarCatalog;
use crate::vars::VarEnv;

verus! {

/// The size of the evaluation stack in bytes.
pub const EVAL_STACK_SIZE: usize = 16 * 1024;

/// A harness failure: missing or non-executable code, a missing stack
/// region, or an unbound variable at run time.
#[derive(Debug)]
pub enum ExecutableError {
    CodeNotGenerated,
    CodeMemoryNotExecutable,
    EvalStackNotMmaped,
    UnknownVariable(String),
    UninitializedVariable(String),
}

/// The lowercase hexadecimal digit of a nibble.
pub open spec fn hex_digit_char(n: int) -> char {
    if n == 0 {
        '0'
    } else if n == 1 {
        '1'
    } else if n == 2 {
        '2'
    } else if n == 3 {
        '3'
    } else if n == 4 {
        '4'
    } else if n == 5 {
        '5'
    } else if n == 6 {
        '6'
    } else if n == 7 {
        '7'
    } else if n == 8 {
        '8'
    } else if n == 9 {
        '9'
    } else if n == 10 {
        'a'
    } else if n == 11 {
        'b'
    } else if n == 12 {
        'c'
    } else if n == 13 {
        'd'
    } else if n == 14 {
        'e'
    } else {
        'f'
    }
}

/// The lowercase hexadecimal image of a byte sequence: two digits per byte,
/// high nibble first.
pub open spec fn hex_of(data: Seq<u8>) -> Seq<char>
    decreases data.len(),
{
    if data.len() == 0 {
        Seq::<char>::empty()
    } else {
        hex_of(data.drop_last()) + seq![
            hex_digit_char(data.last() as int / 16),
            hex_digit_char(data.last() as int % 16),
        ]
    }
}

/// Relies on hex::encode: each input byte becomes two lowercase hexadecimal
/// digits, high nibble first.
#[verifier::external_body]
fn hex_encode(data: &Vec<u8>) -> (r: String)
    ensures
        r@ == hex_of(data@),
{
    hex::encode(data.as_slice())
}

/// Every slot's name is bound in the environment.
pub open spec fn all_vars_bound(cat: Seq<Seq<char>>, env: Map<Seq<char>, i64>) -> bool {
    forall|k: int| 0 <= k < cat.len() ==> env.contains_key(#[trigger] cat[k])
}

/// The dense variables area carries each slot's bound value.
pub open spec fn area_matches(
    cat: Seq<Seq<char>>,
    env: Map<Seq<char>, i64>,
    area: Seq<i64>,
) -> bool {
    area.len() == cat.len() && forall|k: int| 0 <= k < cat.len() ==> area[k] == env[#[trigger] cat[k]]
}

/// The largest operand-stack depth reached while running a postfix stream
/// from depth `d`, the starting depth included.
pub open spec fn peak_depth(toks: Seq<TokenView>, d: int) -> int
    decreases toks.len(),
{
    if toks.len() == 0 {
        d
    } else {
        let d2 = d + rpn_delta(toks[0]);
        let rest = peak_depth(toks.skip(1), d2);
        if d >= rest {
            d
        } else {
            rest
        }
    }
}

/// An executable generated by the JIT compiler: it owns the code region, the
/// evaluation-stack region, the variable catalog and the integrity digest.
pub struct Executable {
    /// The region holding the machine code, once attached.
    pub code: Option<Region>,
    /// The region the generated code uses as its operand stack.
    pub eval_stack: Option<Region>,
    /// Mapping of variable names to their offsets in the variables area.
    pub variables_map: VarCatalog,
    /// SHA-256 digest of the logic-bearing code bytes.
    pub integrity: Vec<u8>,
}

impl Executable {
    /// Whether the attached code region's protection admits execution.
    pub open spec fn spec_is_executable(&self) -> bool {
        self.code matches Some(c) && (c.spec_prot() == Prot::ReadExec || c.spec_prot()
            == Prot::ReadWriteExec)
    }

    /// How many memory regions this executable still owns.
    pub open spec fn live_regions(&self) -> int {
        (if self.code is Some {
            1int
        } else {
            0int
        }) + (if self.eval_stack is Some {
            1int
        } else {
            0int
        })
    }

    /// Take ownership of a fresh read-write mapping large enough for the
    /// evaluation stack and the code, make it executable, and carve the code
    /// region off its tail. After construction the code region reports
    /// executable, and the two regions are disjoint.
    pub fn new(
        code_len: usize,
        integrity: Vec<u8>,
        variables_map: VarCatalog,
        mapping: Region,
    ) -> (r: Executable)
        requires
            mapping.wf(),
            mapping.spec_prot() == Prot::ReadWrite,
            mapping.spec_size() >= EVAL_STACK_SIZE + code_len,
        ensures
            r.code matches Some(c) && {
                &&& c.spec_size() == code_len
                &&& c.spec_prot() == Prot::ReadWriteExec
                &&& c.spec_addr() == mapping.spec_addr() + (mapping.spec_size() - code_len)
            },
            r.eval_stack matches Some(s) && {
                &&& s.spec_size() == mapping.spec_size() - code_len
                &&& s.spec_size() >= EVAL_STACK_SIZE
                &&& s.spec_addr() == mapping.spec_addr()
                &&& s.spec_prot() == Prot::ReadWriteExec
            },
            ({
                let c = r.code->Some_0;
                let s = r.eval_stack->Some_0;
                c.disjoint(&s)
            }),
            r.spec_is_executable(),
            r.integrity@ == integrity@,
            r.variables_map@ == variables_map@,
            r.live_regions() == 2,
    {
        let mut stack_and_code = mapping;
        let protect_result = stack_and_code.protect_rwx();
        proof {
            assert(protect_result is Ok);
        }
        let code = match stack_and_code.split_end(code_len) {
            Ok(c) => c,
            Err(_) => {
                proof {
                    assert(false);
                }
                Region::new(0, 0)
            },
        };
        Executable { code: Some(code), eval_stack: Some(stack_and_code), variables_map, integrity }
    }

    /// Whether the attached code region admits execution.
    pub fn is_executable(&self) -> (r: bool)
        ensures
            r == self.spec_is_executable(),
    {
        match &self.code {
            Some(c) => c.is_executable(),
            None => false,
        }
    }

    /// The integrity digest as a lowercase hexadecimal string.
    pub fn integrity_hex(&self) -> (r: String)
        ensures
            r@ == hex_of(self.integrity@),
    {
        hex_encode(&self.integrity)
    }

    /// Build the dense variables area for one invocation: slot `k` receives
    /// the value bound to the catalog's `k`-th name. Fails with
    /// `UninitializedVariable` on the first slot whose name has no binding.
    #[verifier::loop_isolation(false)]
    pub fn prepare_variables(&self, variables: &VarEnv) -> (r: Result<Vec<i64>, ExecutableError>)
        ensures
            all_vars_bound(self.variables_map@, variables@) ==> (r matches Ok(area)
                && area_matches(self.variables_map@, variables@, area@)),
            !all_vars_bound(self.variables_map@, variables@) ==> (r matches Err(
                ExecutableError::UninitializedVariable(name),
            ) && exists|k: int|
                {
                    &&& 0 <= k < self.variables_map@.len()
                    &&& name@ == self.variables_map@[k]
                    &&& !variables@.contains_key(self.variables_map@[k])
                    &&& forall|m: int|
                        0 <= m < k ==> variables@.contains_key(#[trigger] self.variables_map@[m])
                }),
    {
        let n = self.variables_map.len();
        let mut area: Vec<i64> = Vec::new();
        let mut k: usize = 0;
        while k < n
            invariant
                k <= n,
                n == self.variables_map@.len(),
                area@.len() == k,
                forall|m: int|
                    0 <= m < k ==> variables@.contains_key(#[trigger] self.variables_map@[m]),
                forall|m: int| 0 <= m < k ==> area@[m] == variables@[self.variables_map@[m]],
            decreases n - k,
        {
            let name = self.variables_map.name_at(k);
            match variables.get(name) {
                Some(value) => {
                    area.push(value);
                },
                None => {
                    return Err(ExecutableError::UninitializedVariable(name.clone()));
                },
            }
            k = k + 1;
        }
        Ok(area)
    }

    /// Check that the executable can run and build the variables area: the
    /// code region must be attached and executable, the evaluation-stack
    /// region present, and every catalog name bound. What remains is the
    /// native call itself, which the embedding performs with the returned
    /// area.
    pub fn prepare_run(&self, variables: &VarEnv) -> (r: Result<Vec<i64>, ExecutableError>)
        ensures
            self.code is None ==> r matches Err(ExecutableError::CodeNotGenerated),
            (self.code matches Some(c) && !(c.spec_prot() == Prot::ReadExec || c.spec_prot()
                == Prot::ReadWriteExec)) ==> r matches Err(
                ExecutableError::CodeMemoryNotExecutable,
            ),
            (self.spec_is_executable() && self.eval_stack is None) ==> r matches Err(
                ExecutableError::EvalStackNotMmaped,
            ),
            (self.spec_is_executable() && self.eval_stack is Some) ==> ({
                &&& all_vars_bound(self.variables_map@, variables@) ==> (r matches Ok(area)
                    && area_matches(self.variables_map@, variables@, area@))
                &&& !all_vars_bound(self.variables_map@, variables@) ==> r matches Err(
                    ExecutableError::UninitializedVariable(_),
                )
            }),
    {
        match &self.code {
            Some(code) => {
                if !code.is_executable() {
                    return Err(ExecutableError::CodeMemoryNotExecutable);
                }
            },
            None => {
                return Err(ExecutableError::CodeNotGenerated);
            },
        }
        match &self.eval_stack {
            Some(_) => {},
            None => {
                return Err(ExecutableError::EvalStackNotMmaped);
            },
        }
        self.prepare_variables(variables)
    }

    /// Release the executable's memory regions. Afterwards no region is
    /// owned; the embedding unmaps the pages it holds for them.
    pub fn destroy(&mut self)
        ensures
            final(self).code is None,
            final(self).eval_stack is None,
            final(self).live_regions() == 0,
            final(self).variables_map == old(self).variables_map,
            final(self).integrity == old(self).integrity,
    {
        self.code = None;
        self.eval_stack = None;
    }
}

/// The operand-stack depth a validated postfix expression needs, in slots.
#[verifier::loop_isolation(false)]
pub fn eval_stack_depth(rpn: &RPNExpr) -> (r: usize)
    requires
        valid_rpn(rpn@),
        rpn@.len() <= 0x1000_0000,
    ensures
        r as int == peak_depth(rpn@, 0),
{
    let ghost whole = rpn@;
    let mut depth: usize = 0;
    let mut peak: usize = 0;
    let mut i: usize = 0;
    proof {
        assert(whole.skip(0) =~= whole);
    }
    while i < rpn.0.len()
        invariant
            i <= whole.len(),
            whole == rpn@,
            depth <= i,
            peak <= i,
            depth <= peak,
            verify_balance(whole.skip(i as int), depth as int) == Ok::<
                int,
                crate::rpn_converter::RPNConverterError,
            >(1),
            peak_depth(whole, 0) == (if peak as int >= peak_depth(whole.skip(i as int), depth as int) {
                peak as int
            } else {
                peak_depth(whole.skip(i as int), depth as int)
            }),
        decreases whole.len() - i,
    {
        let ghost rest = whole.skip(i as int);
        proof {
            assert(rest[0] == whole[i as int]);
            assert(rest.skip(1) =~= whole.skip(i + 1));
            assert(rest[0] == rpn.0@[i as int]@);
        }
        match &rpn.0[i] {
            crate::tokenizer::Token::Number(_) => {
                depth = depth + 1;
            },
            crate::tokenizer::Token::Variable(_) => {
                depth = depth + 1;
            },
            crate::tokenizer::Token::BinaryOp(_) => {
                depth = depth - 1;
            },
            crate::tokenizer::Token::UnaryOp(_) => {},
            _ => {
                proof {
                    assert(crate::rpn_converter::is_rpn_token(rest[0]));
                    assert(false);
                }
            },
        }
        if depth > peak {
            peak = depth;
        }
        i = i + 1;
    }
    proof {
        assert(whole.skip(whole.len() as int) =~= Seq::<TokenView>::empty());
    }
    peak
}

/// Whether a validated postfix expression stays within the evaluation-stack
/// region: its peak operand depth fits the region's slot count. Deeper
/// expressions are out of scope for the generated code and must be refused,
/// not run.
pub fn fits_eval_stack(rpn: &RPNExpr) -> (r: bool)
    requires
        valid_rpn(rpn@),
        rpn@.len() <= 0x1000_0000,
    ensures
        r == (peak_depth(rpn@, 0) <= EVAL_STACK_SIZE as int / 8),
{
    let depth = eval_stack_depth(rpn);
    depth <= EVAL_STACK_SIZE / 8
}

} // verus!
