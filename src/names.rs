use vstd::prelude::*;

verus! {

/// What stands for a prime in an emitted name.
pub open spec fn prime_text() -> Seq<char> {
    seq!['$', '$', 'P', 'R', 'I', 'M', 'E', '$', '$']
}

/// The characters of `s`, each prime replaced by its stand-in.
pub open spec fn primes_replaced(s: Seq<char>) -> Seq<char>
    decreases s.len(),
{
    if s.len() == 0 {
        seq![]
    } else if s.last() == '\'' {
        primes_replaced(s.drop_last()) + prime_text()
    } else {
        primes_replaced(s.drop_last()).push(s.last())
    }
}

/// A source name made safe for the emitted code: every prime replaced by
/// `$$PRIME$$`, and a `$` appended so that it cannot clash with a name of the
/// target language.
pub fn sanitise_symbol(value: &str) -> (r: String)
    ensures
        r@ == primes_replaced(value@).push('$'),
{
    let mut s = String::new();
    let n = value.unicode_len();
    let mut k: usize = 0;
    proof {
        reveal_strlit("$$PRIME$$");
        reveal_strlit("$");
        assert(value@.take(0) =~= seq![]);
    }
    while k < n
        invariant
            n == value@.len(),
            k <= n,
            s@ == primes_replaced(value@.take(k as int)),
        decreases n - k,
    {
        assert(value@.take(k + 1).drop_last() =~= value@.take(k as int));
        let c = value.get_char(k);
        if c == '\'' {
            proof {
                reveal_strlit("$$PRIME$$");
                assert("$$PRIME$$"@ =~= prime_text());
            }
            s.append("$$PRIME$$");
        } else {
            let one = value.substring_char(k, k + 1);
            assert(one@ =~= seq![c]);
            s.append(one);
        }
        k = k + 1;
    }
    proof {
        assert(value@.take(k as int) =~= value@);
        reveal_strlit("$");
        assert("$"@ =~= seq!['$']);
    }
    s.append("$");
    assert(s@ =~= primes_replaced(value@).push('$'));
    s
}

} // verus!
