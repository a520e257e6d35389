//! Analysis of typing-error records: tallying which expected characters
//! fail most often. The rate arithmetic around these values lives with the
//! caller; the store only keeps what it is given.

use vstd::prelude::*;

use crate::order::lemma_insert_to_multiset;

verus! {

broadcast use Seq::<_>::lemma_filter_push, Seq::<_>::lemma_filter_len, vstd::seq_lib::group_to_multiset_ensures;

/// One mistyped character: what was expected, what was typed, and where.
#[derive(Clone, Copy, Debug)]
pub struct ErrorInfo {
    pub index: usize,
    pub expected: char,
    pub typed: char,
    pub timestamp: i64,
}

/// Stateless computations over error records.
pub struct MetricsCalculator;

/// How many errors expected this character.
pub open spec fn count_errors(errors: Seq<ErrorInfo>, c: char) -> int {
    errors.filter(|e: ErrorInfo| e.expected == c).len() as int
}

/// Whether a tally already lists this character.
pub open spec fn char_tallied(acc: Seq<(char, usize)>, c: char) -> bool {
    exists|k: int| 0 <= k < acc.len() && (#[trigger] acc[k]).0 == c
}

/// The position of a character in a tally, if present.
fn find_tally(acc: &Vec<(char, usize)>, c: char) -> (r: Option<usize>)
    ensures
        match r {
            Some(j) => j < acc@.len() && acc@[j as int].0 == c,
            None => forall|k: int| 0 <= k < acc@.len() ==> (#[trigger] acc@[k]).0 != c,
        },
{
    let mut j: usize = 0;
    while j < acc.len()
        invariant
            j <= acc@.len(),
            forall|k: int| 0 <= k < j ==> (#[trigger] acc@[k]).0 != c,
        decreases acc@.len() - j,
    {
        if acc[j].0 == c {
            return Some(j);
        }
        j = j + 1;
    }
    None
}

impl MetricsCalculator {
    /// Tally the expected characters of the given errors: one pair per
    /// erring character with its exact error count, every erring character
    /// listed, ordered by descending count (ties in no fixed order).
    pub fn analyze_problem_keys(errors: &[ErrorInfo]) -> (r: Vec<(char, usize)>)
        ensures
            forall|k: int|
                0 <= k < r@.len() ==> (#[trigger] r@[k]).1 == count_errors(errors@, r@[k].0)
                    && r@[k].1 > 0,
            forall|k1: int, k2: int| 0 <= k1 < k2 < r@.len() ==> r@[k1].0 != r@[k2].0,
            forall|i: int| 0 <= i < errors@.len() ==> char_tallied(
                r@,
                (#[trigger] errors@[i]).expected,
            ),
            forall|k1: int, k2: int| 0 <= k1 < k2 < r@.len() ==> r@[k1].1 >= r@[k2].1,
    {
        // First pass: tally counts per expected character, in first-seen order.
        let mut acc: Vec<(char, usize)> = Vec::new();
        let mut i: usize = 0;
        while i < errors.len()
            invariant
                i <= errors@.len(),
                forall|k: int|
                    0 <= k < acc@.len() ==> (#[trigger] acc@[k]).1 == count_errors(
                        errors@.take(i as int),
                        acc@[k].0,
                    ) && acc@[k].1 > 0,
                forall|k1: int, k2: int| 0 <= k1 < k2 < acc@.len() ==> acc@[k1].0 != acc@[k2].0,
                forall|j: int| 0 <= j < i ==> char_tallied(acc@, (#[trigger] errors@[j]).expected),
            decreases errors@.len() - i,
        {
            let c = errors[i].expected;
            let ghost pre = acc@;
            proof {
                assert(errors@.take(i + 1) =~= errors@.take(i as int).push(errors@[i as int]));
            }
            match find_tally(&acc, c) {
                Some(j) => {
                    let n = acc[j].1;
                    proof {
                        let p = |e: ErrorInfo| e.expected == c;
                        assert(errors@.take(i as int).filter(p).len() <= errors@.take(
                            i as int,
                        ).len());
                    }
                    acc.set(j, (c, n + 1));
                    proof {
                        assert forall|k: int| 0 <= k < acc@.len() implies (#[trigger] acc@[k]).1
                            == count_errors(errors@.take(i + 1), acc@[k].0) && acc@[k].1 > 0 by {
                            let c0 = acc@[k].0;
                            let p = |e: ErrorInfo| e.expected == c0;
                            assert(errors@.take(i + 1).filter(p) == errors@.take(i as int).push(
                                errors@[i as int],
                            ).filter(p));
                            if k == j {
                                assert(p(errors@[i as int]));
                            } else {
                                assert(acc@[k] == pre[k]);
                                assert(pre[k].0 != pre[j as int].0);
                                assert(!p(errors@[i as int]));
                            }
                        }
                        assert forall|j2: int| 0 <= j2 <= i implies char_tallied(
                            acc@,
                            (#[trigger] errors@[j2]).expected,
                        ) by {
                            if j2 == i {
                                assert(acc@[j as int].0 == c);
                            } else {
                                let k = choose|k: int|
                                    0 <= k < pre.len() && (#[trigger] pre[k]).0
                                        == errors@[j2].expected;
                                assert(acc@[k].0 == errors@[j2].expected);
                            }
                        }
                    }
                },
                None => {
                    proof {
                        // An unseen character has a zero count so far.
                        let p = |e: ErrorInfo| e.expected == c;
                        let cnt = errors@.take(i as int).filter(p);
                        if cnt.len() > 0 {
                            assert(cnt.contains(cnt[0]));
                            errors@.take(i as int).lemma_filter_contains_rev(p, cnt[0]);
                            let w = choose|w: int|
                                0 <= w < errors@.take(i as int).len() && errors@.take(i as int)[w]
                                    == cnt[0];
                            assert(errors@[w].expected == c);
                            assert(char_tallied(acc@, errors@[w].expected));
                        }
                    }
                    acc.push((c, 1));
                    proof {
                        assert forall|k: int| 0 <= k < acc@.len() implies (#[trigger] acc@[k]).1
                            == count_errors(errors@.take(i + 1), acc@[k].0) && acc@[k].1 > 0 by {
                            let c0 = acc@[k].0;
                            let p = |e: ErrorInfo| e.expected == c0;
                            assert(errors@.take(i + 1).filter(p) == errors@.take(i as int).push(
                                errors@[i as int],
                            ).filter(p));
                            if k == acc@.len() - 1 {
                                assert(p(errors@[i as int]));
                            } else {
                                assert(acc@[k] == pre[k]);
                                assert(pre[k].0 != c);
                                assert(!p(errors@[i as int]));
                            }
                        }
                        assert forall|j2: int| 0 <= j2 <= i implies char_tallied(
                            acc@,
                            (#[trigger] errors@[j2]).expected,
                        ) by {
                            if j2 == i {
                                assert(acc@[acc@.len() - 1].0 == c);
                            } else {
                                let k = choose|k: int|
                                    0 <= k < pre.len() && (#[trigger] pre[k]).0
                                        == errors@[j2].expected;
                                assert(acc@[k].0 == errors@[j2].expected);
                            }
                        }
                    }
                },
            }
            i = i + 1;
        }
        proof {
            assert(errors@.take(errors@.len() as int) =~= errors@);
            assert(i == errors@.len());
        }

        // Second pass: insertion sort by descending count.
        let mut out: Vec<(char, usize)> = Vec::new();
        let mut a: usize = 0;
        while a < acc.len()
            invariant
                a <= acc@.len(),
                out@.to_multiset() == acc@.take(a as int).to_multiset(),
                out@.len() == a,
                forall|k: int|
                    0 <= k < out@.len() ==> (#[trigger] out@[k]).1 == count_errors(
                        errors@,
                        out@[k].0,
                    ) && out@[k].1 > 0,
                forall|k1: int, k2: int| 0 <= k1 < k2 < out@.len() ==> out@[k1].1 >= out@[k2].1,
                forall|k1: int, k2: int| 0 <= k1 < k2 < out@.len() ==> out@[k1].0 != out@[k2].0,
                forall|k: int|
                    0 <= k < acc@.len() ==> (#[trigger] acc@[k]).1 == count_errors(
                        errors@,
                        acc@[k].0,
                    ) && acc@[k].1 > 0,
                forall|k1: int, k2: int| 0 <= k1 < k2 < acc@.len() ==> acc@[k1].0 != acc@[k2].0,
                forall|j: int| 0 <= j < errors@.len() ==> char_tallied(
                    acc@,
                    (#[trigger] errors@[j]).expected,
                ),
            decreases acc@.len() - a,
        {
            let x = (acc[a].0, acc[a].1);
            let ghost pre_out = out@;
            proof {
                // Characters already placed differ from the incoming one.
                assert forall|k: int| 0 <= k < pre_out.len() implies (#[trigger] pre_out[k]).0
                    != x.0 by {
                    assert(pre_out.contains(pre_out[k]));
                    assert(acc@.take(a as int).to_multiset().count(pre_out[k]) > 0);
                    assert(acc@.take(a as int).contains(pre_out[k]));
                    let w = choose|w: int|
                        0 <= w < a && acc@.take(a as int)[w] == pre_out[k];
                    assert(acc@[w] == pre_out[k]);
                    assert(acc@[w].0 != acc@[a as int].0);
                }
            }
            let mut pos: usize = 0;
            while pos < out.len() && out[pos].1 >= x.1
                invariant
                    out@ == pre_out,
                    pos <= out@.len(),
                    forall|k: int| 0 <= k < pos ==> (#[trigger] out@[k]).1 >= x.1,
                decreases out@.len() - pos,
            {
                pos = pos + 1;
            }
            out.insert(pos, x);
            proof {
                lemma_insert_to_multiset(pre_out, pos as int, x);
                assert(acc@.take(a + 1) =~= acc@.take(a as int).push(acc@[a as int]));
                assert(acc@.take(a + 1).to_multiset() == acc@.take(a as int).to_multiset().insert(
                    acc@[a as int],
                ));
                assert forall|k1: int, k2: int| 0 <= k1 < k2 < out@.len() implies out@[k1].1
                    >= out@[k2].1 && out@[k1].0 != out@[k2].0 by {
                    let pi = pos as int;
                    if k2 < pi {
                        assert(out@[k1] == pre_out[k1] && out@[k2] == pre_out[k2]);
                    } else if k1 > pi {
                        assert(out@[k1] == pre_out[k1 - 1] && out@[k2] == pre_out[k2 - 1]);
                    } else if k1 < pi && k2 == pi {
                        assert(out@[k1] == pre_out[k1]);
                        assert(pre_out[k1].1 >= x.1);
                    } else if k1 == pi {
                        assert(out@[k2] == pre_out[k2 - 1]);
                        assert(pi < pre_out.len());
                        assert(pre_out[pi].1 < x.1);
                        if k2 - 1 > pi {
                            assert(pre_out[pi].1 >= pre_out[k2 - 1].1);
                        }
                    } else {
                        assert(out@[k1] == pre_out[k1] && out@[k2] == pre_out[k2 - 1]);
                        assert(pre_out[k1].1 >= pre_out[k2 - 1].1 || k1 == k2 - 1);
                    }
                }
            }
            a = a + 1;
        }
        proof {
            assert(acc@.take(acc@.len() as int) =~= acc@);
            assert(out@.to_multiset() == acc@.to_multiset());
            // Every erring character made it into the sorted tally.
            assert forall|i2: int| 0 <= i2 < errors@.len() implies char_tallied(
                out@,
                (#[trigger] errors@[i2]).expected,
            ) by {
                assert(char_tallied(acc@, errors@[i2].expected));
                let j = choose|j: int|
                    0 <= j < acc@.len() && (#[trigger] acc@[j]).0 == errors@[i2].expected;
                assert(acc@.contains(acc@[j]));
                assert(acc@.to_multiset().count(acc@[j]) > 0);
                assert(out@.to_multiset().count(acc@[j]) > 0);
                assert(out@.contains(acc@[j]));
                let k = choose|k: int| 0 <= k < out@.len() && out@[k] == acc@[j];
                assert(out@[k].0 == errors@[i2].expected);
            }
        }
        out
    }
}

} // verus!
