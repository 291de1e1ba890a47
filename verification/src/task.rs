//! The computational halves of the two task capabilities: the input line a
//! generator draws for a configuration, the reply line the reference solver
//! derives from raw input, and the handle describing an external solver.
use crate::arith::solve;
use crate::arith::spec_solve;
use crate::config::Config;
use crate::config::ValueView;
use crate::text::dec_str;
use crate::text::lemma_dec_str_digits;
use crate::text::lemma_dec_val_of_dec_str;
use crate::text::lemma_digit_not_ws;
use crate::text::lemma_skip_digits_exact;
use crate::text::lemma_skip_ws_exact;
use crate::text::parse_two_u64;
use crate::text::spec_parse_two;
use crate::text::u64_to_string;
use rand::Rng;
use vstd::prelude::*;
use vstd::string::StringExecFns;

verus! {

/// The prime modulus the reference solver works in.
pub const MOD: u64 = 998244353;

/// Largest test-case size the solver accepts; keeps every intermediate
/// product of `solve` inside a `u64`.
pub const MAX_SIZE: u64 = 0x7FFF_FFFF;

/// The input line for sizes `n` and `m`: the two numbers separated by one
/// space, with a trailing newline.
pub open spec fn spec_input_line(n: nat, m: nat) -> Seq<char> {
    dec_str(n) + seq![' '] + dec_str(m) + seq!['\n']
}

/// Sizes the solver accepts: `m` at least 1 and both within `MAX_SIZE`.
pub open spec fn valid_sizes(n: nat, m: nat) -> bool {
    n <= MAX_SIZE && 1 <= m <= MAX_SIZE
}

/// Relies on rand::Rng::gen_range over an inclusive i64 range: the result
/// lies within the bounds. The call panics on an empty range, which the
/// precondition rules out; nothing else is assumed of the drawn value.
#[verifier::external_body]
fn random_in_range(lo: i64, hi: i64) -> (r: i64)
    requires
        lo <= hi,
    ensures
        lo <= r <= hi,
{
    rand::thread_rng().gen_range(lo..=hi)
}

/// The input line for the given sizes.
pub fn input_line(n: u64, m: u64) -> (r: String)
    ensures
        r@ == spec_input_line(n as nat, m as nat),
{
    proof {
        reveal_strlit(" ");
        reveal_strlit("\n");
    }
    let mut s = u64_to_string(n);
    s.append(" ");
    let m_str = u64_to_string(m);
    s.append(m_str.as_str());
    s.append("\n");
    proof {
        assert(s@ =~= spec_input_line(n as nat, m as nat));
    }
    s
}

/// The generator's input line for one configuration: draws `n` from
/// `[4*(max_n/5), max_n]` and `m` from `[4*(max_m/5), max_m]` and renders
/// them. Which pair is drawn is up to the random source; the contract
/// promises only that the line renders some pair from those ranges.
pub fn generator_line(config: &Config) -> (r: String)
    requires
        config@.params.dom().contains("max_n"@),
        config@.params.dom().contains("max_m"@),
        config@.params["max_n"@] matches ValueView::Integer(x) && x >= 0,
        config@.params["max_m"@] matches ValueView::Integer(x) && x >= 0,
    ensures
        exists|n: i64, m: i64|
            {
                &&& (config@.params["max_n"@] matches ValueView::Integer(x) && x / 5 * 4 <= n <= x)
                &&& (config@.params["max_m"@] matches ValueView::Integer(x) && x / 5 * 4 <= m <= x)
                &&& r@ == #[trigger] spec_input_line(n as nat, m as nat)
            },
{
    proof {
        reveal_strlit("max_n");
        reveal_strlit("max_m");
    }
    let max_n = config.get("max_n").unwrap_integer();
    let max_m = config.get("max_m").unwrap_integer();
    let n = random_in_range(max_n / 5 * 4, max_n);
    let m = random_in_range(max_m / 5 * 4, max_m);
    let line = input_line(n as u64, m as u64);
    proof {
        assert(line@ == spec_input_line(n as nat, m as nat));
    }
    line
}

/// The reference solver's reply for raw input `s`: when the first two
/// whitespace-delimited tokens are decimal numbers within `valid_sizes`,
/// the decimal rendering of `spec_solve(n, m, MOD)` with a trailing
/// newline; `None` otherwise.
pub fn solver_line(input: &str) -> (r: Option<String>)
    ensures
        match spec_parse_two(input@) {
            Some(nm) => {
                if valid_sizes(nm.0, nm.1) {
                    match r {
                        Some(s) => s@ == dec_str(
                            spec_solve(nm.0 as int, nm.1 as int, MOD as int) as nat,
                        ) + seq!['\n'],
                        None => false,
                    }
                } else {
                    r is None
                }
            },
            None => r is None,
        },
{
    proof {
        reveal_strlit("\n");
    }
    match parse_two_u64(input) {
        Some((n, m)) => {
            if n <= MAX_SIZE && 1 <= m && m <= MAX_SIZE {
                let v = solve(n, m, MOD);
                let mut s = u64_to_string(v);
                s.append("\n");
                proof {
                    assert(s@ =~= dec_str(
                        spec_solve(n as int, m as int, MOD as int) as nat,
                    ) + seq!['\n']);
                }
                Some(s)
            } else {
                None
            }
        },
        None => None,
    }
}

/// Law: a generated input line parses back to exactly the sizes that
/// produced it, so a solver that reads what the generator wrote sees the
/// drawn pair and nothing else.
pub proof fn lemma_input_line_parses(n: u64, m: u64)
    ensures
        spec_parse_two(spec_input_line(n as nat, m as nat)) == Some(((n as nat), (m as nat))),
{
    let s = spec_input_line(n as nat, m as nat);
    let dn = dec_str(n as nat);
    let dm = dec_str(m as nat);
    lemma_dec_str_digits(n as nat);
    lemma_dec_str_digits(m as nat);
    let l1 = dn.len() as int;
    let l2 = dm.len() as int;
    assert(s.len() == l1 + 1 + l2 + 1);
    assert forall|k: int| 0 <= k < l1 implies crate::text::is_digit(#[trigger] s[k]) by {
        assert(s[k] == dn[k]);
    };
    assert(s[l1] == ' ');
    assert forall|k: int| l1 + 1 <= k < l1 + 1 + l2 implies crate::text::is_digit(
        #[trigger] s[k],
    ) by {
        assert(s[k] == dm[k - (l1 + 1)]);
    };
    assert(s[l1 + 1 + l2] == '\n');
    lemma_digit_not_ws(s[0]);
    lemma_skip_ws_exact(s, 0, 0);
    lemma_skip_digits_exact(s, 0, l1);
    assert(s.subrange(0, l1) =~= dn);
    lemma_dec_val_of_dec_str(n as nat);
    lemma_digit_not_ws(s[l1 + 1]);
    lemma_skip_ws_exact(s, l1, l1 + 1);
    assert forall|k: int| l1 + 1 <= k < l1 + 1 + l2 implies !crate::text::is_ws(
        #[trigger] s[k],
    ) by {
        lemma_digit_not_ws(s[k]);
    };
    lemma_skip_digits_exact(s, l1 + 1, l1 + 1 + l2);
    assert(s.subrange(l1 + 1, l1 + 1 + l2) =~= dm);
    lemma_dec_val_of_dec_str(m as nat);
}

/// A solver that delegates to an external executable, identified by its
/// path; spawning and waiting happen outside the library.
pub struct ExtrernalSolver {
    executable: String,
}

impl View for ExtrernalSolver {
    type V = Seq<char>;

    closed spec fn view(&self) -> Seq<char> {
        self.executable@
    }
}

impl ExtrernalSolver {
    /// A handle on the executable at `path`.
    pub fn new(path: &str) -> (r: Self)
        ensures
            r@ == path@,
    {
        Self { executable: path.to_owned() }
    }

    /// The executable's path.
    pub fn executable(&self) -> (r: &str)
        ensures
            r@ == self@,
    {
        self.executable.as_str()
    }
}

} // verus!
