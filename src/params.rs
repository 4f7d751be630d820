//! Kernel command-line parameters: whitespace-separated tokens.
use vstd::prelude::*;

verus! {

/// Settings that the command line can change.
#[derive(Debug, Clone, Copy, PartialEq, Eq, Structural)]
pub struct Parameters {
    pub use_multiprocessing: bool,
    pub keep_symbol_info: bool,
    pub low_memory_mode: bool,
}

pub open spec fn is_space(b: u8) -> bool {
    b == 0x20 || b == 0x09 || b == 0x0A || b == 0x0D || b == 0x0C || b == 0x0B
}

/// `t` stands as a whole token of `s` at `i`.
pub open spec fn token_at(s: Seq<u8>, i: int, t: Seq<u8>) -> bool {
    &&& 0 <= i
    &&& i + t.len() <= s.len()
    &&& s.subrange(i, i + t.len()) == t
    &&& (i == 0 || is_space(s[i - 1]))
    &&& (i + t.len() == s.len() || is_space(s[i + t.len()]))
}

pub open spec fn has_token(s: Seq<u8>, t: Seq<u8>) -> bool {
    exists|i: int| token_at(s, i, t)
}

pub open spec fn nomp() -> Seq<u8> {
    seq![0x2Du8, 0x2D, 0x6E, 0x6F, 0x6D, 0x70]
}

pub open spec fn lomem() -> Seq<u8> {
    seq![0x2Du8, 0x2D, 0x6C, 0x6F, 0x6D, 0x65, 0x6D]
}

fn is_space_byte(b: u8) -> (r: bool)
    ensures
        r == is_space(b),
{
    b == 0x20 || b == 0x09 || b == 0x0A || b == 0x0D || b == 0x0C || b == 0x0B
}

fn token_at_exec(s: &Vec<u8>, i: usize, t: &Vec<u8>) -> (r: bool)
    ensures
        r == token_at(s@, i as int, t@),
{
    if t.len() > s.len() || i > s.len() - t.len() {
        return false;
    }
    let n = s.len();
    let mut j: usize = 0;
    while j < t.len()
        invariant
            n == s@.len(),
            i + t@.len() <= s@.len(),
            j <= t@.len(),
            forall|k: int| 0 <= k < j ==> s@[i + k] == t@[k],
        decreases t@.len() - j,
    {
        if s[i + j] != t[j] {
            proof {
                assert(s@.subrange(i as int, i + t@.len())[j as int] != t@[j as int]);
            }
            return false;
        }
        j = j + 1;
    }
    assert(s@.subrange(i as int, i + t@.len()) =~= t@);
    let before = i == 0 || is_space_byte(s[i - 1]);
    let after = i + t.len() == s.len() || is_space_byte(s[i + t.len()]);
    before && after
}

/// Whether `t` stands as a whole token of `s`.
fn has_token_exec(s: &Vec<u8>, t: &Vec<u8>) -> (r: bool)
    ensures
        r == has_token(s@, t@),
{
    let mut i: usize = 0;
    while i <= s.len()
        invariant
            i <= s@.len(),
            forall|k: int| 0 <= k < i ==> !token_at(s@, k, t@),
        ensures
            forall|k: int| 0 <= k <= s@.len() ==> !token_at(s@, k, t@),
        decreases s@.len() + 1 - i,
    {
        if token_at_exec(s, i, t) {
            return true;
        }
        if i == s.len() {
            break;
        }
        i = i + 1;
    }
    proof {
        assert forall|k: int| !token_at(s@, k, t@) by {
            if k > s@.len() {
            }
        }
    }
    false
}

impl Parameters {
    /// Multiprocessing on, symbols kept, normal memory mode.
    pub fn default_params() -> (r: Parameters)
        ensures
            r == (Parameters { use_multiprocessing: true, keep_symbol_info: true, low_memory_mode: false }),
    {
        Parameters { use_multiprocessing: true, keep_symbol_info: true, low_memory_mode: false }
    }
}

/// Reads the command line: `--nomp` turns multiprocessing off, `--lomem`
/// turns low-memory mode on, `--keep-symbols` keeps symbols (the default);
/// any other token is ignored.
pub fn parse(cmdline: &Vec<u8>) -> (r: Parameters)
    ensures
        r.use_multiprocessing == !has_token(cmdline@, nomp()),
        r.keep_symbol_info,
        r.low_memory_mode == has_token(cmdline@, lomem()),
{
    let nomp_token: Vec<u8> = vec![0x2Du8, 0x2D, 0x6E, 0x6F, 0x6D, 0x70];
    let lomem_token: Vec<u8> = vec![0x2Du8, 0x2D, 0x6C, 0x6F, 0x6D, 0x65, 0x6D];
    assert(nomp_token@ =~= nomp());
    assert(lomem_token@ =~= lomem());
    let mut params = Parameters::default_params();
    if has_token_exec(cmdline, &nomp_token) {
        params.use_multiprocessing = false;
    }
    if has_token_exec(cmdline, &lomem_token) {
        params.low_memory_mode = true;
    }
    params
}

pub fn use_multiprocessing(params: &Parameters) -> (r: bool)
    ensures
        r == params.use_multiprocessing,
{
    params.use_multiprocessing
}

pub fn keep_symbol_info(params: &Parameters) -> (r: bool)
    ensures
        r == params.keep_symbol_info,
{
    params.keep_symbol_info
}

pub fn use_low_memory(params: &Parameters) -> (r: bool)
    ensures
        r == params.low_memory_mode,
{
    params.low_memory_mode
}

} // verus!
