//! The lines that the tasks write to the shared resource: one greeting
//! per task, carrying the task's index in decimal.

use vstd::arithmetic::div_mod::lemma_fundamental_div_mod;
use vstd::prelude::*;

verus! {

/// The decimal digits of `n`, most significant first, as ASCII bytes.
pub open spec fn spec_decimal(n: nat) -> Seq<u8>
    decreases n,
{
    if n < 10 {
        seq![(48 + n) as u8]
    } else {
        spec_decimal((n / 10) as nat).push((48 + n % 10) as u8)
    }
}

/// The bytes of `"Hello from thread "`.
pub open spec fn spec_greeting_prefix() -> Seq<u8> {
    seq![72u8, 101u8, 108u8, 108u8, 111u8, 32u8, 102u8, 114u8, 111u8, 109u8, 32u8, 116u8, 104u8, 114u8, 101u8, 97u8, 100u8, 32u8]
}

/// The full line written for task `i`: `"Hello from thread <i>\n"`.
pub open spec fn spec_hello_line(i: nat) -> Seq<u8> {
    spec_greeting_prefix() + spec_decimal(i) + seq![10u8]
}

/// Appends the decimal digits of `n` to `out`.
pub fn push_decimal(out: &mut Vec<u8>, n: u64)
    ensures
        final(out)@ == old(out)@ + spec_decimal(n as nat),
    decreases n,
{
    if n >= 10 {
        push_decimal(out, n / 10);
    }
    out.push(48 + (n % 10) as u8);
    proof {
        assert(out@ =~= old(out)@ + spec_decimal(n as nat));
    }
}

/// Builds the line that task `i` writes: `"Hello from thread <i>\n"`.
pub fn hello_line(i: u64) -> (line: Vec<u8>)
    ensures
        line@ == spec_hello_line(i as nat),
{
    let mut line: Vec<u8> = Vec::new();
    line.push(72);
    line.push(101);
    line.push(108);
    line.push(108);
    line.push(111);
    line.push(32);
    line.push(102);
    line.push(114);
    line.push(111);
    line.push(109);
    line.push(32);
    line.push(116);
    line.push(104);
    line.push(114);
    line.push(101);
    line.push(97);
    line.push(100);
    line.push(32);
    proof {
        assert(line@ =~= spec_greeting_prefix());
    }
    push_decimal(&mut line, i);
    line.push(10);
    proof {
        assert(line@ =~= spec_hello_line(i as nat));
    }
    line
}

/// A decimal rendering is never empty, and has at least two digits for
/// `n >= 10`.
pub proof fn lemma_decimal_len(n: nat)
    ensures
        spec_decimal(n).len() >= 1,
        n >= 10 ==> spec_decimal(n).len() >= 2,
    decreases n,
{
    if n >= 10 {
        lemma_decimal_len((n / 10) as nat);
    }
}

/// Distinct numbers render to distinct decimal digit strings.
pub proof fn lemma_decimal_injective(a: nat, b: nat)
    requires
        spec_decimal(a) == spec_decimal(b),
    ensures
        a == b,
    decreases a,
{
    lemma_decimal_len(a);
    lemma_decimal_len(b);
    if a < 10 && b < 10 {
        assert(spec_decimal(a)[0] == spec_decimal(b)[0]);
        assert(seq![(48 + a) as u8][0] == (48 + a) as u8);
        assert(seq![(48 + b) as u8][0] == (48 + b) as u8);
        assert(((48 + a) as u8) as nat == 48 + a);
        assert(((48 + b) as u8) as nat == 48 + b);
    } else if a >= 10 && b >= 10 {
        assert(spec_decimal(a).last() == spec_decimal(b).last());
        assert(spec_decimal((a / 10) as nat).push((48 + a % 10) as u8).last() == (48 + a % 10) as u8);
        assert(spec_decimal((b / 10) as nat).push((48 + b % 10) as u8).last() == (48 + b % 10) as u8);
        assert(((48 + a % 10) as u8) as nat == 48 + a % 10);
        assert(((48 + b % 10) as u8) as nat == 48 + b % 10);
        assert(a % 10 == b % 10);
        assert(spec_decimal(a).drop_last() =~= spec_decimal((a / 10) as nat));
        assert(spec_decimal(b).drop_last() =~= spec_decimal((b / 10) as nat));
        lemma_decimal_injective((a / 10) as nat, (b / 10) as nat);
        lemma_fundamental_div_mod(a as int, 10);
        lemma_fundamental_div_mod(b as int, 10);
    } else if a < 10 {
        assert(spec_decimal(a).len() == 1);
        assert(false);
    } else {
        assert(spec_decimal(b).len() == 1);
        assert(false);
    }
}

/// Distinct tasks write distinct lines: the greeting line determines the
/// task index it carries.
pub proof fn lemma_hello_line_injective(i: nat, j: nat)
    requires
        spec_hello_line(i) == spec_hello_line(j),
    ensures
        i == j,
{
    let p = spec_greeting_prefix().len() as int;
    let di = spec_decimal(i);
    let dj = spec_decimal(j);
    assert(spec_hello_line(i).len() == p + di.len() + 1);
    assert(spec_hello_line(j).len() == p + dj.len() + 1);
    assert(di.len() == dj.len());
    assert(di =~= dj) by {
        assert(forall|k: int|
            0 <= k < di.len() ==> #[trigger] di[k] == spec_hello_line(i)[p + k]);
        assert(forall|k: int|
            0 <= k < dj.len() ==> #[trigger] dj[k] == spec_hello_line(j)[p + k]);
    }
    lemma_decimal_injective(i, j);
}

} // verus!
