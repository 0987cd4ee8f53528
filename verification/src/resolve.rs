use crate::text::to_chars;
use crate::types::Proof;
use std::collections::HashMap;
use vstd::prelude::*;

verus! {

broadcast use vstd::std_specs::hash::group_hash_axioms;

// ---------------------------------------------------------------------------
// Lexicographic order on character sequences
// ---------------------------------------------------------------------------

/// Strict lexicographic order by code point: a proper prefix comes first,
/// otherwise the first differing character decides.
pub open spec fn spec_str_lt(a: Seq<char>, b: Seq<char>) -> bool
    decreases a.len(),
{
    if b.len() == 0 {
        false
    } else if a.len() == 0 {
        true
    } else if a[0] != b[0] {
        (a[0] as int) < (b[0] as int)
    } else {
        spec_str_lt(a.drop_first(), b.drop_first())
    }
}

pub proof fn lemma_str_lt_trans(a: Seq<char>, b: Seq<char>, c: Seq<char>)
    requires
        spec_str_lt(a, b),
        spec_str_lt(b, c),
    ensures
        spec_str_lt(a, c),
    decreases a.len(),
{
    if c.len() == 0 || a.len() == 0 {
    } else {
        if a[0] == b[0] && b[0] == c[0] {
            lemma_str_lt_trans(a.drop_first(), b.drop_first(), c.drop_first());
        }
    }
}

/// A three-way comparison result.
pub enum StrCmp {
    Lt,
    Eq,
    Gt,
}

fn str_cmp_from(a: &Vec<char>, b: &Vec<char>, i: usize) -> (r: StrCmp)
    requires
        i <= a.len(),
        i <= b.len(),
    ensures
        (r is Lt) == spec_str_lt(a@.skip(i as int), b@.skip(i as int)),
        (r is Eq) == (a@.skip(i as int) == b@.skip(i as int)),
        (r is Gt) == spec_str_lt(b@.skip(i as int), a@.skip(i as int)),
    decreases a.len() - i,
{
    let ghost sa = a@.skip(i as int);
    let ghost sb = b@.skip(i as int);
    if i == b.len() {
        if i == a.len() {
            assert(sa =~= sb);
            StrCmp::Eq
        } else {
            assert(sa.len() > 0 && sb.len() == 0);
            StrCmp::Gt
        }
    } else if i == a.len() {
        assert(sa.len() == 0 && sb.len() > 0);
        StrCmp::Lt
    } else {
        let ca = a[i];
        let cb = b[i];
        assert(sa[0] == a@[i as int] && sb[0] == b@[i as int]);
        if ca < cb {
            StrCmp::Lt
        } else if cb < ca {
            StrCmp::Gt
        } else {
            assert(ca == cb);
            let r = str_cmp_from(a, b, i + 1);
            proof {
                assert(sa.drop_first() =~= a@.skip(i + 1));
                assert(sb.drop_first() =~= b@.skip(i + 1));
                if a@.skip(i + 1) == b@.skip(i + 1) {
                    assert(sa.len() == sb.len());
                    assert forall|k: int| 0 <= k < sa.len() implies sa[k] == sb[k] by {
                        if k > 0 {
                            assert(sa[k] == sa.drop_first()[k - 1]);
                            assert(sb[k] == sb.drop_first()[k - 1]);
                        }
                    }
                    assert(sa =~= sb);
                }
                if sa == sb {
                    assert(sa.drop_first() == sb.drop_first());
                }
            }
            r
        }
    }
}

/// Three-way lexicographic comparison of two strings by code point.
pub fn str_cmp(a: &str, b: &str) -> (r: StrCmp)
    ensures
        (r is Lt) == spec_str_lt(a@, b@),
        (r is Eq) == (a@ == b@),
        (r is Gt) == spec_str_lt(b@, a@),
{
    let va = to_chars(a);
    let vb = to_chars(b);
    let r = str_cmp_from(&va, &vb, 0);
    proof {
        assert(va@.skip(0) =~= a@);
        assert(vb@.skip(0) =~= b@);
    }
    r
}

// ---------------------------------------------------------------------------
// Sorted author sets
// ---------------------------------------------------------------------------

/// Strictly sorted: each string lexicographically before the next, so no
/// two are equal.
pub open spec fn sorted_strings(s: Seq<String>) -> bool {
    forall|i: int, j: int| 0 <= i < j < s.len() ==> spec_str_lt(#[trigger] s[i]@, #[trigger] s[j]@)
}

/// Some element of `s` holds exactly the characters `x`.
pub open spec fn has_view(s: Seq<String>, x: Seq<char>) -> bool {
    exists|i: int| 0 <= i < s.len() && (#[trigger] s[i])@ == x
}

/// Inserts `a` into a strictly sorted vector, keeping it strictly sorted;
/// a string with the same characters is not added twice.
fn insert_unique(out: &mut Vec<String>, a: String)
    requires
        sorted_strings(old(out)@),
    ensures
        sorted_strings(final(out)@),
        forall|x: Seq<char>|
            #[trigger] has_view(final(out)@, x) <==> (has_view(old(out)@, x) || x == a@),
{
    let mut pos: usize = 0;
    loop
        invariant_except_break
            0 <= pos <= out@.len(),
            out@ == old(out)@,
            sorted_strings(out@),
            forall|k: int| 0 <= k < pos ==> spec_str_lt((#[trigger] out@[k])@, a@),
        ensures
            0 <= pos <= out@.len(),
            out@ == old(out)@,
            forall|k: int| 0 <= k < pos ==> spec_str_lt((#[trigger] out@[k])@, a@),
            pos < out@.len() ==> spec_str_lt(a@, out@[pos as int]@),
        decreases out@.len() - pos,
    {
        if pos == out.len() {
            break;
        }
        match str_cmp(out[pos].as_str(), a.as_str()) {
            StrCmp::Lt => {
                pos += 1;
            },
            StrCmp::Eq => {
                assert(out@[pos as int]@ == a@);
                assert forall|x: Seq<char>|
                    #[trigger] has_view(out@, x) <==> (has_view(old(out)@, x) || x == a@) by {
                    if x == a@ {
                        assert(out@[pos as int]@ == x);
                    }
                }
                return ;
            },
            StrCmp::Gt => {
                break;
            },
        }
    }
    let ghost before = out@;
    out.insert(pos, a);
    proof {
        let now = out@;
        assert(now == before.insert(pos as int, a));
        assert(now.len() == before.len() + 1);
        assert forall|i: int, j: int| 0 <= i < j < now.len() implies spec_str_lt(
            (#[trigger] now[i])@,
            (#[trigger] now[j])@,
        ) by {
            if j < pos {
                assert(now[i] == before[i] && now[j] == before[j]);
            } else if j == pos {
                assert(now[j]@ == a@ && now[i] == before[i]);
            } else {
                // j > pos
                assert(now[j] == before[j - 1]);
                if i < pos {
                    assert(now[i] == before[i]);
                    if pos < before.len() {
                        if j - 1 == pos {
                            lemma_str_lt_trans(before[i]@, a@, before[pos as int]@);
                        } else {
                            assert(spec_str_lt(before[i]@, before[j - 1]@));
                        }
                    } else {
                        assert(j - 1 < before.len());
                    }
                } else if i == pos {
                    assert(now[i]@ == a@);
                    if j - 1 == pos {
                        assert(spec_str_lt(a@, before[pos as int]@));
                    } else {
                        lemma_str_lt_trans(a@, before[pos as int]@, before[j - 1]@);
                    }
                } else {
                    assert(now[i] == before[i - 1]);
                    assert(spec_str_lt(before[i - 1]@, before[j - 1]@));
                }
            }
        }
        assert forall|x: Seq<char>|
            #[trigger] has_view(now, x) <==> (has_view(before, x) || x == a@) by {
            if has_view(now, x) {
                let i = choose|i: int| 0 <= i < now.len() && (#[trigger] now[i])@ == x;
                if i < pos {
                    assert(before[i]@ == x);
                } else if i == pos {
                    assert(x == a@);
                } else {
                    assert(before[i - 1]@ == x);
                }
            }
            if has_view(before, x) {
                let i = choose|i: int| 0 <= i < before.len() && (#[trigger] before[i])@ == x;
                if i < pos {
                    assert(now[i]@ == x);
                } else {
                    assert(now[i + 1]@ == x);
                }
            }
            if x == a@ {
                assert(now[pos as int]@ == x);
            }
        }
    }
}

/// The author at position `j` of the resolved proof at position `i`.
pub open spec fn author_at(rs: Seq<Option<Proof>>, i: int, j: int) -> Seq<char> {
    rs[i]->Some_0@.authors[j]
}

/// Some resolved proof among the first `n` names the author `x`.
pub open spec fn week_has_author_upto(rs: Seq<Option<Proof>>, n: int, x: Seq<char>) -> bool {
    exists|i: int, j: int|
        0 <= i < n && rs[i] is Some && 0 <= j < rs[i]->Some_0@.authors.len() && #[trigger] author_at(
            rs,
            i,
            j,
        ) == x
}

/// Some resolved proof names the author `x`.
pub open spec fn week_has_author(rs: Seq<Option<Proof>>, x: Seq<char>) -> bool {
    week_has_author_upto(rs, rs.len() as int, x)
}

/// The distinct authors across all resolved proofs, sorted lexicographically
/// for stable display.
pub fn week_authors(resolved: &Vec<Option<Proof>>) -> (r: Vec<String>)
    ensures
        sorted_strings(r@),
        forall|x: Seq<char>| #[trigger] has_view(r@, x) <==> week_has_author(resolved@, x),
{
    let mut out: Vec<String> = Vec::new();
    let mut i: usize = 0;
    while i < resolved.len()
        invariant
            0 <= i <= resolved@.len(),
            sorted_strings(out@),
            forall|x: Seq<char>|
                #[trigger] has_view(out@, x) <==> week_has_author_upto(resolved@, i as int, x),
        decreases resolved@.len() - i,
    {
        match &resolved[i] {
            Some(p) => {
                let mut j: usize = 0;
                while j < p.authors.len()
                    invariant
                        0 <= j <= p.authors@.len(),
                        0 <= i < resolved@.len(),
                        resolved@[i as int] matches Some(q) && q == p,
                        sorted_strings(out@),
                        forall|x: Seq<char>|
                            #[trigger] has_view(out@, x) <==> (week_has_author_upto(
                                resolved@,
                                i as int,
                                x,
                            ) || exists|jj: int|
                                0 <= jj < j && #[trigger] author_at(resolved@, i as int, jj) == x),
                    decreases p.authors@.len() - j,
                {
                    let a = p.authors[j].clone();
                    assert(a@ == author_at(resolved@, i as int, j as int));
                    insert_unique(&mut out, a);
                    proof {
                        assert forall|x: Seq<char>|
                            #[trigger] has_view(out@, x) <==> (week_has_author_upto(
                                resolved@,
                                i as int,
                                x,
                            ) || exists|jj: int|
                                0 <= jj < j + 1 && #[trigger] author_at(resolved@, i as int, jj)
                                    == x) by {
                            if has_view(out@, x) && !week_has_author_upto(resolved@, i as int, x) {
                                if x == author_at(resolved@, i as int, j as int) {
                                    assert(0 <= j < j + 1 && author_at(resolved@, i as int, j as int)
                                        == x);
                                }
                            }
                        }
                    }
                    j += 1;
                }
                proof {
                    assert forall|x: Seq<char>|
                        #[trigger] has_view(out@, x) <==> week_has_author_upto(
                            resolved@,
                            i + 1,
                            x,
                        ) by {
                        if week_has_author_upto(resolved@, i + 1, x) && !week_has_author_upto(
                            resolved@,
                            i as int,
                            x,
                        ) {
                            let rs = resolved@;
                            let (ii, jj) = choose|ii: int, jj: int|
                                0 <= ii < i + 1 && rs[ii] is Some && 0 <= jj
                                    < rs[ii]->Some_0@.authors.len() && #[trigger] author_at(
                                    rs,
                                    ii,
                                    jj,
                                ) == x;
                            assert(ii == i);
                            assert(0 <= jj < p.authors@.len() && author_at(resolved@, i as int, jj)
                                == x);
                        }
                    }
                }
            },
            None => {
                proof {
                    assert forall|x: Seq<char>|
                        #[trigger] has_view(out@, x) <==> week_has_author_upto(
                            resolved@,
                            i + 1,
                            x,
                        ) by {
                        if week_has_author_upto(resolved@, i + 1, x) {
                            let rs = resolved@;
                            let (ii, jj) = choose|ii: int, jj: int|
                                0 <= ii < i + 1 && rs[ii] is Some && 0 <= jj
                                    < rs[ii]->Some_0@.authors.len() && #[trigger] author_at(
                                    rs,
                                    ii,
                                    jj,
                                ) == x;
                            assert(ii != i);
                            assert(week_has_author_upto(resolved@, i as int, x));
                        }
                    }
                }
            },
        }
        i += 1;
    }
    out
}

// ---------------------------------------------------------------------------
// Reference resolution
// ---------------------------------------------------------------------------

/// Resolves one week's proof references against the full proof mapping:
/// one slot per referenced id, in order; a dangling id yields `None`, not
/// an error.
pub fn resolve_week_proofs(proof_ids: &Vec<u64>, proofs: &HashMap<u64, Proof>) -> (r: Vec<
    Option<Proof>,
>)
    ensures
        r@.len() == proof_ids@.len(),
        forall|i: int|
            0 <= i < r@.len() ==> (match #[trigger] r@[i] {
                Some(p) => proofs@.contains_key(proof_ids@[i]) && p@ == proofs@[proof_ids@[i]]@,
                None => !proofs@.contains_key(proof_ids@[i]),
            }),
{
    let mut r: Vec<Option<Proof>> = Vec::new();
    let mut i: usize = 0;
    while i < proof_ids.len()
        invariant
            0 <= i <= proof_ids@.len(),
            r@.len() == i,
            forall|k: int|
                0 <= k < i ==> (match #[trigger] r@[k] {
                    Some(p) => proofs@.contains_key(proof_ids@[k]) && p@ == proofs@[proof_ids@[k]]@,
                    None => !proofs@.contains_key(proof_ids@[k]),
                }),
        decreases proof_ids@.len() - i,
    {
        match proofs.get(&proof_ids[i]) {
            Some(p) => {
                r.push(Some(p.clone()));
            },
            None => {
                r.push(None);
            },
        }
        i += 1;
    }
    r
}

} // verus!
