use crate::date::Date;
use crate::types::{Proof, Week};
use vstd::prelude::*;

verus! {

broadcast use {vstd::seq_lib::group_to_multiset_ensures, vstd::multiset::group_multiset_axioms};

/// `a` is strictly earlier than `b` in calendar order.
pub open spec fn date_lt(a: Date, b: Date) -> bool {
    ||| a.year < b.year
    ||| (a.year == b.year && a.month < b.month)
    ||| (a.year == b.year && a.month == b.month && a.day < b.day)
}

/// Display order for proofs, newest first: `a` may stand before `b` when
/// `a`'s date is later, or the dates are equal and `a`'s id is not smaller.
pub open spec fn proof_order_ok(a: Proof, b: Proof) -> bool {
    ||| date_lt(b.date, a.date)
    ||| (b.date == a.date && b.pid <= a.pid)
}

/// Display order for weeks: ascending week number.
pub open spec fn week_order_ok(a: Week, b: Week) -> bool {
    a.number <= b.number
}

fn date_lt_exec(a: &Date, b: &Date) -> (r: bool)
    ensures
        r == date_lt(*a, *b),
{
    a.year < b.year || (a.year == b.year && (a.month < b.month || (a.month == b.month && a.day
        < b.day)))
}

fn proof_before(a: &Proof, b: &Proof) -> (r: bool)
    ensures
        r == proof_order_ok(*a, *b),
{
    if date_lt_exec(&b.date, &a.date) {
        true
    } else if b.date == a.date {
        b.pid <= a.pid
    } else {
        false
    }
}

proof fn lemma_proof_order_total(a: Proof, b: Proof)
    ensures
        proof_order_ok(a, b) || proof_order_ok(b, a),
{
}

proof fn lemma_proof_order_trans(a: Proof, b: Proof, c: Proof)
    requires
        proof_order_ok(a, b),
        proof_order_ok(b, c),
    ensures
        proof_order_ok(a, c),
{
}

/// Sorts the proofs into display order: newest date first, and the larger
/// id first among equal dates. The result holds the same proofs.
pub fn sort_proofs(v: &mut Vec<Proof>)
    ensures
        final(v)@.len() == old(v)@.len(),
        forall|i: int, j: int|
            0 <= i < j < final(v)@.len() ==> proof_order_ok(
                #[trigger] final(v)@[i],
                #[trigger] final(v)@[j],
            ),
        final(v)@.to_multiset() == old(v)@.to_multiset(),
{
    let mut sorted: Vec<Proof> = Vec::new();
    assert(sorted@.to_multiset().add(v@.to_multiset()) =~= old(v)@.to_multiset());
    while v.len() > 0
        invariant
            sorted@.to_multiset().add(v@.to_multiset()) == old(v)@.to_multiset(),
            sorted@.len() + v@.len() == old(v)@.len(),
            forall|i: int, j: int|
                0 <= i < j < sorted@.len() ==> proof_order_ok(
                    #[trigger] sorted@[i],
                    #[trigger] sorted@[j],
                ),
        decreases v@.len(),
    {
        let ghost v_old = v@;
        let x = match v.pop() {
            Some(x) => x,
            None => {
                proof {
                    assert(false);
                }
                return ;
            },
        };
        proof {
            assert(v@ =~= v_old.remove(v_old.len() - 1));
            assert(v@.to_multiset() == v_old.to_multiset().remove(v_old[v_old.len() - 1]));
            assert(v_old.contains(x));
            assert(v_old.to_multiset().count(x) > 0);
        }
        let mut pos: usize = 0;
        loop
            invariant_except_break
                0 <= pos <= sorted@.len(),
                forall|k: int| 0 <= k < pos ==> proof_order_ok(#[trigger] sorted@[k], x),
            ensures
                0 <= pos <= sorted@.len(),
                forall|k: int| 0 <= k < pos ==> proof_order_ok(#[trigger] sorted@[k], x),
                pos < sorted@.len() ==> proof_order_ok(x, sorted@[pos as int]),
            decreases sorted@.len() - pos,
        {
            if pos == sorted.len() {
                break ;
            }
            if proof_before(&sorted[pos], &x) {
                pos += 1;
            } else {
                proof {
                    lemma_proof_order_total(sorted@[pos as int], x);
                }
                break ;
            }
        }
        let ghost s_old = sorted@;
        sorted.insert(pos, x);
        proof {
            assert(sorted@.to_multiset() == s_old.to_multiset().insert(x));
            assert(sorted@.to_multiset().add(v@.to_multiset()) =~= s_old.to_multiset().add(
                v_old.to_multiset(),
            ));
            let now = sorted@;
            assert forall|i: int, j: int| 0 <= i < j < now.len() implies proof_order_ok(
                #[trigger] now[i],
                #[trigger] now[j],
            ) by {
                if j < pos {
                    assert(now[i] == s_old[i] && now[j] == s_old[j]);
                } else if j == pos {
                    assert(now[j] == x && now[i] == s_old[i]);
                } else {
                    assert(now[j] == s_old[j - 1]);
                    if i < pos {
                        assert(now[i] == s_old[i]);
                        if j - 1 == pos {
                            lemma_proof_order_trans(s_old[i], x, s_old[pos as int]);
                        } else {
                            assert(proof_order_ok(s_old[i], s_old[j - 1]));
                        }
                    } else if i == pos {
                        assert(now[i] == x);
                        if j - 1 > pos {
                            lemma_proof_order_trans(x, s_old[pos as int], s_old[j - 1]);
                        }
                    } else {
                        assert(now[i] == s_old[i - 1]);
                        assert(proof_order_ok(s_old[i - 1], s_old[j - 1]));
                    }
                }
            }
        }
    }
    assert(v@.to_multiset().len() == 0);
    assert(sorted@.to_multiset().add(v@.to_multiset()) =~= sorted@.to_multiset());
    let sorted_final = sorted;
    *v = sorted_final;
}

fn week_before(a: &Week, b: &Week) -> (r: bool)
    ensures
        r == week_order_ok(*a, *b),
{
    a.number <= b.number
}

/// Sorts the weeks by ascending number. The result holds the same weeks.
pub fn sort_weeks(v: &mut Vec<Week>)
    ensures
        final(v)@.len() == old(v)@.len(),
        forall|i: int, j: int|
            0 <= i < j < final(v)@.len() ==> week_order_ok(
                #[trigger] final(v)@[i],
                #[trigger] final(v)@[j],
            ),
        final(v)@.to_multiset() == old(v)@.to_multiset(),
{
    let mut sorted: Vec<Week> = Vec::new();
    assert(sorted@.to_multiset().add(v@.to_multiset()) =~= old(v)@.to_multiset());
    while v.len() > 0
        invariant
            sorted@.to_multiset().add(v@.to_multiset()) == old(v)@.to_multiset(),
            sorted@.len() + v@.len() == old(v)@.len(),
            forall|i: int, j: int|
                0 <= i < j < sorted@.len() ==> week_order_ok(
                    #[trigger] sorted@[i],
                    #[trigger] sorted@[j],
                ),
        decreases v@.len(),
    {
        let ghost v_old = v@;
        let x = match v.pop() {
            Some(x) => x,
            None => {
                proof {
                    assert(false);
                }
                return ;
            },
        };
        proof {
            assert(v@ =~= v_old.remove(v_old.len() - 1));
            assert(v@.to_multiset() == v_old.to_multiset().remove(v_old[v_old.len() - 1]));
            assert(v_old.contains(x));
            assert(v_old.to_multiset().count(x) > 0);
        }
        let mut pos: usize = 0;
        loop
            invariant_except_break
                0 <= pos <= sorted@.len(),
                forall|k: int| 0 <= k < pos ==> week_order_ok(#[trigger] sorted@[k], x),
            ensures
                0 <= pos <= sorted@.len(),
                forall|k: int| 0 <= k < pos ==> week_order_ok(#[trigger] sorted@[k], x),
                pos < sorted@.len() ==> week_order_ok(x, sorted@[pos as int]),
            decreases sorted@.len() - pos,
        {
            if pos == sorted.len() {
                break ;
            }
            if week_before(&sorted[pos], &x) {
                pos += 1;
            } else {
                break ;
            }
        }
        let ghost s_old = sorted@;
        sorted.insert(pos, x);
        proof {
            assert(sorted@.to_multiset() == s_old.to_multiset().insert(x));
            assert(sorted@.to_multiset().add(v@.to_multiset()) =~= s_old.to_multiset().add(
                v_old.to_multiset(),
            ));
            let now = sorted@;
            assert forall|i: int, j: int| 0 <= i < j < now.len() implies week_order_ok(
                #[trigger] now[i],
                #[trigger] now[j],
            ) by {
                if j < pos {
                    assert(now[i] == s_old[i] && now[j] == s_old[j]);
                } else if j == pos {
                    assert(now[j] == x && now[i] == s_old[i]);
                } else {
                    assert(now[j] == s_old[j - 1]);
                    if i < pos {
                        assert(now[i] == s_old[i]);
                        if j - 1 > pos {
                            assert(week_order_ok(s_old[i], s_old[j - 1]));
                        }
                    } else if i > pos {
                        assert(now[i] == s_old[i - 1]);
                        assert(week_order_ok(s_old[i - 1], s_old[j - 1]));
                    }
                }
            }
        }
    }
    assert(v@.to_multiset().len() == 0);
    assert(sorted@.to_multiset().add(v@.to_multiset()) =~= sorted@.to_multiset());
    let sorted_final = sorted;
    *v = sorted_final;
}

} // verus!
