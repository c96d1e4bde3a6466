//! Parsing of rule-set input: a line of text holding a whitespace-separated
//! list of non-negative integers (a birth or survival set). Unparsable input
//! is reported so the caller can fall back to the documented defaults.

use vstd::prelude::*;

verus! {

/// ASCII whitespace, as a rule-set line may separate numbers with it.
pub open spec fn is_ws(b: u8) -> bool {
    b == 32 || (9 <= b && b <= 13)
}

/// An ASCII decimal digit.
pub open spec fn is_digit(b: u8) -> bool {
    48 <= b && b <= 57
}

/// The maximal runs of non-whitespace bytes of `s`, in order.
pub open spec fn tokens(s: Seq<u8>) -> Seq<Seq<u8>>
    decreases s.len(),
{
    if s.len() == 0 {
        Seq::empty()
    } else {
        let rest = tokens(s.drop_last());
        let b = s.last();
        if is_ws(b) {
            rest
        } else if s.len() >= 2 && !is_ws(s[s.len() - 2]) && rest.len() > 0 {
            rest.update(rest.len() - 1, rest.last().push(b))
        } else {
            rest.push(seq![b])
        }
    }
}

/// Every byte of the token is a decimal digit.
pub open spec fn all_digits(t: Seq<u8>) -> bool {
    forall|m: int| 0 <= m < t.len() ==> is_digit(#[trigger] t[m])
}

/// The decimal value of a token read most significant digit first.
pub open spec fn dec_val(t: Seq<u8>) -> int
    decreases t.len(),
{
    if t.len() == 0 {
        0
    } else {
        dec_val(t.drop_last()) * 10 + t.last() - 48
    }
}

/// A token parses as a count: all digits, and its value fits the count type.
pub open spec fn token_valid(t: Seq<u8>) -> bool {
    all_digits(t) && dec_val(t) <= u32::MAX
}

/// What a rule-set line means: the values of its tokens in order, or nothing
/// when some token is not a number that fits.
pub open spec fn counts_of(s: Seq<u8>) -> Option<Seq<u32>> {
    let ts = tokens(s);
    if forall|k: int| 0 <= k < ts.len() ==> token_valid(#[trigger] ts[k]) {
        Some(ts.map(|k: int, t: Seq<u8>| dec_val(t) as u32))
    } else {
        None
    }
}

/// An all-digit token has a non-negative value.
proof fn lemma_dec_val_nonneg(t: Seq<u8>)
    requires
        all_digits(t),
    ensures
        dec_val(t) >= 0,
    decreases t.len(),
{
    if t.len() > 0 {
        assert(all_digits(t.drop_last()));
        lemma_dec_val_nonneg(t.drop_last());
    }
}

fn is_ws_byte(b: u8) -> (r: bool)
    ensures
        r == is_ws(b),
{
    b == 32 || (9 <= b && b <= 13)
}

fn is_digit_byte(b: u8) -> (r: bool)
    ensures
        r == is_digit(b),
{
    48 <= b && b <= 57
}

/// Parses a rule-set line: the counts it lists, in order, or `None` exactly
/// when some token is not a decimal number that fits a count.
#[verifier::loop_isolation(false)]
pub fn parse_counts(line: &Vec<u8>) -> (r: Option<Vec<u32>>)
    ensures
        (match r {
            Some(v) => counts_of(line@) == Some(v@),
            None => counts_of(line@) is None,
        }),
{
    let n: usize = line.len();
    let mut out: Vec<u32> = Vec::new();
    let mut all_ok: bool = true;
    let mut in_tok: bool = false;
    let mut cur_ok: bool = false;
    let mut cur_val: u32 = 0;
    let ghost mut done: Seq<Seq<u8>> = Seq::empty();
    let ghost mut cur: Seq<u8> = Seq::empty();
    let mut i: usize = 0;
    while i < n
        invariant
            i <= n,
            in_tok == (i > 0 && !is_ws(line@[i as int - 1])),
            tokens(line@.take(i as int)) == if in_tok {
                done.push(cur)
            } else {
                done
            },
            in_tok ==> cur.len() > 0,
            in_tok ==> (cur_ok == token_valid(cur)),
            (in_tok && cur_ok) ==> cur_val == dec_val(cur),
            all_ok ==> out@.len() == done.len(),
            all_ok ==> forall|k: int|
                0 <= k < done.len() ==> token_valid(#[trigger] done[k]) && out@[k] == dec_val(done[k]) as u32,
            !all_ok ==> exists|k: int| 0 <= k < done.len() && !token_valid(#[trigger] done[k]),
        decreases n - i,
    {
        let b = line[i];
        proof {
            let prefix = line@.take(i as int);
            let ext = line@.take(i as int + 1);
            assert(ext.drop_last() =~= prefix);
            assert(ext.last() == b);
        }
        if is_ws_byte(b) {
            if in_tok {
                if cur_ok {
                    proof {
                        lemma_dec_val_nonneg(cur);
                    }
                    out.push(cur_val);
                } else {
                    all_ok = false;
                }
                proof {
                    let done_old = done;
                    let had_witness = exists|k: int|
                        0 <= k < done_old.len() && !token_valid(#[trigger] done_old[k]);
                    done = done.push(cur);
                    assert(done[done.len() - 1] == cur);
                    if !cur_ok {
                        assert(!token_valid(done[done.len() - 1]));
                    } else if had_witness {
                        let k0 = choose|k: int|
                            0 <= k < done_old.len() && !token_valid(#[trigger] done_old[k]);
                        assert(done[k0] == done_old[k0]);
                        assert(!token_valid(done[k0]));
                    }
                    cur = Seq::empty();
                }
                in_tok = false;
                cur_ok = false;
                cur_val = 0;
            }
        } else {
            if in_tok {
                let dig = is_digit_byte(b);
                let ghost cur_old = cur;
                proof {
                    cur = cur.push(b);
                    assert(cur.drop_last() =~= cur_old);
                    if all_digits(cur_old) && is_digit(b) {
                        assert forall|m: int| 0 <= m < cur.len() implies is_digit(
                            #[trigger] cur[m],
                        ) by {
                            if m < cur_old.len() {
                                assert(cur[m] == cur_old[m]);
                            } else {
                                assert(cur[m] == b);
                            }
                        }
                        assert(all_digits(cur));
                    } else if !is_digit(b) {
                        assert(cur[cur.len() - 1] == b);
                        assert(!all_digits(cur));
                    } else {
                        assert(exists|m: int|
                            0 <= m < cur_old.len() && !is_digit(#[trigger] cur_old[m]));
                        let m0 = choose|m: int|
                            0 <= m < cur_old.len() && !is_digit(#[trigger] cur_old[m]);
                        assert(cur[m0] == cur_old[m0]);
                        assert(!all_digits(cur));
                    }
                    assert(all_digits(cur) == (all_digits(cur_old) && is_digit(b)));
                }
                proof {
                    assert(cur.last() == b);
                    assert(dec_val(cur) == dec_val(cur_old) * 10 + b - 48);
                }
                if cur_ok && dig {
                    let t: u64 = cur_val as u64 * 10 + (b - 48) as u64;
                    if t <= u32::MAX as u64 {
                        cur_val = t as u32;
                        assert(token_valid(cur));
                    } else {
                        cur_ok = false;
                        assert(dec_val(cur) > u32::MAX);
                    }
                } else {
                    if cur_ok {
                        // the new byte is not a digit
                        assert(!all_digits(cur));
                    } else {
                        // the token was already invalid; pushing a byte keeps it so
                        proof {
                            if all_digits(cur) {
                                lemma_dec_val_nonneg(cur_old);
                                assert(dec_val(cur) == dec_val(cur_old) * 10 + b - 48);
                                assert(dec_val(cur_old) > u32::MAX);
                                assert(dec_val(cur) > u32::MAX);
                            }
                        }
                    }
                    cur_ok = false;
                }
            } else {
                in_tok = true;
                proof {
                    cur = seq![b];
                    assert(cur.drop_last() =~= Seq::<u8>::empty());
                    assert(cur.last() == b && cur.len() == 1);
                    assert(dec_val(Seq::<u8>::empty()) == 0);
                    assert(dec_val(cur) == b - 48);
                    if is_digit(b) {
                        assert forall|m: int| 0 <= m < cur.len() implies is_digit(
                            #[trigger] cur[m],
                        ) by {
                            assert(m == 0 && cur[0] == b);
                        }
                    } else {
                        assert(!all_digits(cur));
                    }
                }
                cur_ok = is_digit_byte(b);
                cur_val = if b >= 48 { (b - 48) as u32 } else { 0 };
            }
        }
        i = i + 1;
    }
    proof {
        assert(line@.take(n as int) =~= line@);
    }
    if in_tok {
        if cur_ok {
            proof {
                lemma_dec_val_nonneg(cur);
            }
            out.push(cur_val);
        } else {
            all_ok = false;
        }
        proof {
            let done_old = done;
            let had_witness = exists|k: int|
                0 <= k < done_old.len() && !token_valid(#[trigger] done_old[k]);
            done = done.push(cur);
            assert(done[done.len() - 1] == cur);
            if !cur_ok {
                assert(!token_valid(done[done.len() - 1]));
            } else if had_witness {
                let k0 = choose|k: int|
                    0 <= k < done_old.len() && !token_valid(#[trigger] done_old[k]);
                assert(done[k0] == done_old[k0]);
                assert(!token_valid(done[k0]));
            }
        }
    }
    if all_ok {
        proof {
            let ts = tokens(line@);
            assert(ts == done);
            assert(out@ =~= ts.map(|k: int, t: Seq<u8>| dec_val(t) as u32));
        }
        Some(out)
    } else {
        None
    }
}

/// The documented default birth set: {5}.
pub fn default_birth() -> (r: Vec<u32>)
    ensures
        r@ == seq![5u32],
{
    let mut v: Vec<u32> = Vec::new();
    v.push(5);
    assert(v@ =~= seq![5u32]);
    v
}

/// The documented default survival set: {4, 5}.
pub fn default_stay() -> (r: Vec<u32>)
    ensures
        r@ == seq![4u32, 5u32],
{
    let mut v: Vec<u32> = Vec::new();
    v.push(4);
    v.push(5);
    assert(v@ =~= seq![4u32, 5u32]);
    v
}

} // verus!
