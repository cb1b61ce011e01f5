//! Rendering an error and its cause chain as one readable report: the main
//! message, then one line per cause with its type name, repeating a message
//! only by type.

use vstd::prelude::*;

verus! {

use vstd::string::StringExecFns;

/// The decimal digit character of `d`.
pub open spec fn digit_char(d: int) -> char {
    if d == 0 {
        '0'
    } else if d == 1 {
        '1'
    } else if d == 2 {
        '2'
    } else if d == 3 {
        '3'
    } else if d == 4 {
        '4'
    } else if d == 5 {
        '5'
    } else if d == 6 {
        '6'
    } else if d == 7 {
        '7'
    } else if d == 8 {
        '8'
    } else {
        '9'
    }
}

/// The decimal representation of `n`, most significant digit first.
pub open spec fn dec_repr(n: nat) -> Seq<char>
    decreases n,
{
    if n < 10 {
        seq![digit_char(n as int)]
    } else {
        dec_repr(n / 10) + seq![digit_char((n % 10) as int)]
    }
}

/// The single-character string of decimal digit `d`.
fn digit_str(d: u64) -> (r: &'static str)
    requires
        d < 10,
    ensures
        r@ == seq![digit_char(d as int)],
{
    proof {
        reveal_strlit("0");
        reveal_strlit("1");
        reveal_strlit("2");
        reveal_strlit("3");
        reveal_strlit("4");
        reveal_strlit("5");
        reveal_strlit("6");
        reveal_strlit("7");
        reveal_strlit("8");
        reveal_strlit("9");
    }
    if d == 0 {
        "0"
    } else if d == 1 {
        "1"
    } else if d == 2 {
        "2"
    } else if d == 3 {
        "3"
    } else if d == 4 {
        "4"
    } else if d == 5 {
        "5"
    } else if d == 6 {
        "6"
    } else if d == 7 {
        "7"
    } else if d == 8 {
        "8"
    } else {
        "9"
    }
}

/// Renders `n` in decimal.
pub fn u64_to_string(n: u64) -> (r: String)
    ensures
        r@ == dec_repr(n as nat),
    decreases n,
{
    if n < 10 {
        String::from_str(digit_str(n))
    } else {
        let mut s = u64_to_string(n / 10);
        s.append(digit_str(n % 10));
        s
    }
}

/// One rendered chain line: `  [i] Type - message\n`, or without the message
/// when it repeats one already shown.
pub open spec fn spec_chain_line(
    i: nat,
    cause_kind: Seq<char>,
    msg: Seq<char>,
    duplicate: bool,
) -> Seq<char> {
    if duplicate {
        "  ["@ + dec_repr(i) + "] "@ + cause_kind + "\n"@
    } else {
        "  ["@ + dec_repr(i) + "] "@ + cause_kind + " - "@ + msg + "\n"@
    }
}

/// The rendered chain from entry `k` on, numbering entries from `k + 1` and
/// carrying the set of messages already shown.
pub open spec fn spec_chain_from(
    chain: Seq<(Seq<char>, Seq<char>)>,
    k: int,
    seen: Seq<Seq<char>>,
) -> Seq<char>
    decreases chain.len() - k
        when 0 <= k
{
    if k >= chain.len() {
        Seq::empty()
    } else {
        let ty = chain[k].0;
        let msg = chain[k].1;
        if seen.contains(msg) {
            spec_chain_line((k + 1) as nat, ty, msg, true) + spec_chain_from(chain, k + 1, seen)
        } else {
            spec_chain_line((k + 1) as nat, ty, msg, false) + spec_chain_from(
                chain,
                k + 1,
                seen.push(msg),
            )
        }
    }
}

/// The full report: the main message, an `Error chain:` header, then one line
/// per cause.
pub open spec fn spec_error_details(
    main: Seq<char>,
    chain: Seq<(Seq<char>, Seq<char>)>,
) -> Seq<char> {
    main + "\n"@ + "Error chain:\n"@ + spec_chain_from(chain, 0, seq![main])
}

/// Tests whether `msg` equals one of the strings of `seen`.
fn seen_contains(seen: &Vec<String>, msg: &String) -> (r: bool)
    ensures
        r == Seq::new(seen@.len(), |i: int| seen@[i]@).contains(msg@),
{
    let ghost views = Seq::new(seen@.len(), |i: int| seen@[i]@);
    let n = seen.len();
    let mut i: usize = 0;
    while i < n
        invariant
            n == seen@.len(),
            views == Seq::new(seen@.len(), |k: int| seen@[k]@),
            i <= n,
            forall|k: int| 0 <= k < i ==> views[k] != msg@,
        decreases n - i,
    {
        let hit = seen[i] == *msg;
        proof {
            assert(views[i as int] == seen@[i as int]@);
        }
        if hit {
            proof {
                assert(views[i as int] == msg@);
            }
            return true;
        }
        i = i + 1;
    }
    proof {
        assert(forall|k: int| 0 <= k < views.len() ==> views[k] != msg@);
    }
    false
}

/// Renders an error's report: the main message first, then its cause chain,
/// one numbered line per cause with the cause's type name, showing each
/// distinct message once and after that only the type.
pub fn format_error_details(main: &String, chain: &Vec<(String, String)>) -> (r: String)
    ensures
        r@ == spec_error_details(
            main@,
            Seq::new(chain@.len(), |k: int| (chain@[k].0@, chain@[k].1@)),
        ),
{
    let ghost chain_v = Seq::new(chain@.len(), |k: int| (chain@[k].0@, chain@[k].1@));
    let mut result = main.clone();
    result.append("\n");
    result.append("Error chain:\n");
    let mut seen: Vec<String> = Vec::new();
    seen.push(main.clone());
    proof {
        assert(Seq::new(seen@.len(), |i: int| seen@[i]@) =~= seq![main@]);
        assert(result@ =~= main@ + "\n"@ + "Error chain:\n"@);
    }
    let n = chain.len();
    let mut k: usize = 0;
    while k < n
        invariant
            n == chain@.len(),
            chain_v == Seq::new(chain@.len(), |x: int| (chain@[x].0@, chain@[x].1@)),
            k <= n,
            result@ + spec_chain_from(chain_v, k as int, Seq::new(seen@.len(), |i: int| seen@[i]@))
                == spec_error_details(main@, chain_v),
        decreases n - k,
    {
        let ghost seen_v = Seq::new(seen@.len(), |i: int| seen@[i]@);
        let ghost result_before = result@;
        let ty = &chain[k].0;
        let msg = &chain[k].1;
        proof {
            assert(chain_v[k as int] == (chain@[k as int].0@, chain@[k as int].1@));
        }
        result.append("  [");
        let num = u64_to_string(k as u64 + 1);
        result.append(num.as_str());
        result.append("] ");
        result.append(ty.as_str());
        if seen_contains(&seen, msg) {
            result.append("\n");
            proof {
                assert(result@ =~= result_before + spec_chain_line(
                    (k + 1) as nat,
                    chain_v[k as int].0,
                    chain_v[k as int].1,
                    true,
                ));
            }
        } else {
            result.append(" - ");
            result.append(msg.as_str());
            result.append("\n");
            seen.push(msg.clone());
            proof {
                assert(result@ =~= result_before + spec_chain_line(
                    (k + 1) as nat,
                    chain_v[k as int].0,
                    chain_v[k as int].1,
                    false,
                ));
                assert(Seq::new(seen@.len(), |i: int| seen@[i]@) =~= seen_v.push(
                    chain_v[k as int].1,
                ));
            }
        }
        k = k + 1;
    }
    proof {
        assert(spec_chain_from(chain_v, n as int, Seq::new(seen@.len(), |i: int| seen@[i]@))
            =~= Seq::<char>::empty());
        assert(result@ + Seq::<char>::empty() =~= result@);
    }
    result
}

} // verus!
