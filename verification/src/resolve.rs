//! Priority resolution of token matches into a span table.
//!
//! Classes are processed in priority order (string, number, boolean-like,
//! key label, bracket).  A candidate match is accepted only when it does not
//! intersect any previously accepted span; an accepted span is never evicted
//! and a conflicting candidate is discarded whole, never clipped.  The table
//! is kept sorted by start offset.

use vstd::prelude::*;

use crate::tokens::TokenClass;
use crate::tokens::Span;
use crate::tokens::SpanModel;
use crate::tokens::models;
use crate::tokens::match_end_at;
use crate::tokens::class_matches;
use crate::tokens::find_class_matches;
use crate::tokens::lemma_class_matches_from_wf;

verus! {

/// The half-open ranges of `a` and `b` intersect.
pub open spec fn overlaps(a: SpanModel, b: SpanModel) -> bool {
    a.start < b.end && b.start < a.end
}

/// `m` intersects some span of `tbl`.
pub open spec fn overlaps_any(tbl: Seq<SpanModel>, m: SpanModel) -> bool {
    exists|j: int| 0 <= j < tbl.len() && overlaps(#[trigger] tbl[j], m)
}

/// `sp` is an in-bounds token of its own class in `s`.
pub open spec fn valid_span(s: Seq<char>, sp: SpanModel) -> bool {
    &&& 0 <= sp.start < sp.end <= s.len()
    &&& match_end_at(s, sp.class, sp.start) == Some(sp.end)
}

/// A well-formed span table over `s`: every entry is a valid token and the
/// entries sit in ascending, pairwise disjoint start order.
pub open spec fn table_wf(s: Seq<char>, tbl: Seq<SpanModel>) -> bool {
    &&& forall|k: int| 0 <= k < tbl.len() ==> valid_span(s, #[trigger] tbl[k])
    &&& forall|a: int, b: int|
        0 <= a < b < tbl.len() ==> (#[trigger] tbl[a]).end <= (#[trigger] tbl[b]).start
}

/// `m` placed at its sorted position in `tbl` (sorted by start offset).
pub open spec fn insert_sorted(tbl: Seq<SpanModel>, m: SpanModel) -> Seq<SpanModel>
    decreases tbl.len(),
{
    if tbl.len() == 0 {
        seq![m]
    } else if m.start < tbl[0].start {
        seq![m] + tbl
    } else {
        seq![tbl[0]] + insert_sorted(tbl.drop_first(), m)
    }
}

/// Fold the candidate matches `ms` into `tbl`: each candidate is accepted
/// (inserted in start order) exactly when it does not intersect any span
/// already in the table.
pub open spec fn add_matches(tbl: Seq<SpanModel>, ms: Seq<SpanModel>) -> Seq<SpanModel>
    decreases ms.len(),
{
    if ms.len() == 0 {
        tbl
    } else {
        let t2 = if overlaps_any(tbl, ms[0]) {
            tbl
        } else {
            insert_sorted(tbl, ms[0])
        };
        add_matches(t2, ms.drop_first())
    }
}

/// The accepted span table of `s`: candidates of all five classes, folded
/// in ascending priority order.
pub open spec fn resolve_spec(s: Seq<char>) -> Seq<SpanModel> {
    let t1 = add_matches(Seq::empty(), class_matches(s, TokenClass::StrLit));
    let t2 = add_matches(t1, class_matches(s, TokenClass::Number));
    let t3 = add_matches(t2, class_matches(s, TokenClass::BoolWord));
    let t4 = add_matches(t3, class_matches(s, TokenClass::KeyLabel));
    add_matches(t4, class_matches(s, TokenClass::Bracket))
}

pub proof fn lemma_insert_sorted_props(tbl: Seq<SpanModel>, m: SpanModel)
    ensures
        insert_sorted(tbl, m).len() == tbl.len() + 1,
        forall|sp: SpanModel|
            insert_sorted(tbl, m).contains(sp) <==> (tbl.contains(sp) || sp == m),
        insert_sorted(tbl, m).contains(m),
        insert_sorted(tbl, m)[0] == m || (tbl.len() > 0 && insert_sorted(tbl, m)[0] == tbl[0]),
    decreases tbl.len(),
{
    let r = insert_sorted(tbl, m);
    if tbl.len() == 0 {
        assert forall|sp: SpanModel| r.contains(sp) implies (tbl.contains(sp) || sp == m) by {
            let j = choose|j: int| 0 <= j < r.len() && r[j] == sp;
            assert(j == 0);
        }
        assert(r.contains(m)) by {
            assert(r[0] == m);
        }
    } else if m.start < tbl[0].start {
        assert forall|sp: SpanModel| r.contains(sp) implies (tbl.contains(sp) || sp == m) by {
            let j = choose|j: int| 0 <= j < r.len() && r[j] == sp;
            if j > 0 {
                assert(tbl[j - 1] == sp);
            }
        }
        assert forall|sp: SpanModel| tbl.contains(sp) || sp == m implies r.contains(sp) by {
            if sp == m {
                assert(r[0] == m);
            } else {
                let j = choose|j: int| 0 <= j < tbl.len() && tbl[j] == sp;
                assert(r[j + 1] == sp);
            }
        }
    } else {
        lemma_insert_sorted_props(tbl.drop_first(), m);
        let rest = insert_sorted(tbl.drop_first(), m);
        assert forall|sp: SpanModel| r.contains(sp) implies (tbl.contains(sp) || sp == m) by {
            let j = choose|j: int| 0 <= j < r.len() && r[j] == sp;
            if j == 0 {
                assert(tbl[0] == sp);
            } else {
                assert(rest[j - 1] == sp);
                assert(rest.contains(sp));
                if tbl.drop_first().contains(sp) {
                    let k = choose|k: int|
                        0 <= k < tbl.drop_first().len() && tbl.drop_first()[k] == sp;
                    assert(tbl[k + 1] == sp);
                }
            }
        }
        assert forall|sp: SpanModel| tbl.contains(sp) || sp == m implies r.contains(sp) by {
            if sp == m {
                assert(rest.contains(m));
                let k = choose|k: int| 0 <= k < rest.len() && rest[k] == m;
                assert(r[k + 1] == m);
            } else {
                let j = choose|j: int| 0 <= j < tbl.len() && tbl[j] == sp;
                if j == 0 {
                    assert(r[0] == sp);
                } else {
                    assert(tbl.drop_first()[j - 1] == sp);
                    assert(tbl.drop_first().contains(sp));
                    assert(rest.contains(sp));
                    let k = choose|k: int| 0 <= k < rest.len() && rest[k] == sp;
                    assert(r[k + 1] == sp);
                }
            }
        }
    }
}

pub proof fn lemma_insert_sorted_wf(s: Seq<char>, tbl: Seq<SpanModel>, m: SpanModel)
    requires
        table_wf(s, tbl),
        valid_span(s, m),
        !overlaps_any(tbl, m),
    ensures
        table_wf(s, insert_sorted(tbl, m)),
    decreases tbl.len(),
{
    let r = insert_sorted(tbl, m);
    lemma_insert_sorted_props(tbl, m);
    if tbl.len() == 0 {
    } else if m.start < tbl[0].start {
        assert(!overlaps(tbl[0], m)) by {
            if overlaps(tbl[0], m) {
                assert(overlaps_any(tbl, m));
            }
        }
        assert(valid_span(s, tbl[0]));
        assert(m.end <= tbl[0].start);
        assert forall|k: int| 0 <= k < r.len() implies valid_span(s, #[trigger] r[k]) by {
            if k > 0 {
                assert(r[k] == tbl[k - 1]);
            }
        }
        assert forall|a: int, b: int| 0 <= a < b < r.len() implies (#[trigger] r[a]).end <= (
        #[trigger] r[b]).start by {
            assert(r[b] == tbl[b - 1]);
            if a == 0 {
                if b > 1 {
                    assert(tbl[0].end <= tbl[b - 1].start);
                    assert(valid_span(s, tbl[0]));
                }
            } else {
                assert(r[a] == tbl[a - 1]);
            }
        }
    } else {
        let dt = tbl.drop_first();
        assert(table_wf(s, dt)) by {
            assert forall|k: int| 0 <= k < dt.len() implies valid_span(s, #[trigger] dt[k]) by {
                assert(dt[k] == tbl[k + 1]);
            }
            assert forall|a: int, b: int| 0 <= a < b < dt.len() implies (#[trigger] dt[a]).end <= (
            #[trigger] dt[b]).start by {
                assert(dt[a] == tbl[a + 1]);
                assert(dt[b] == tbl[b + 1]);
            }
        }
        assert(!overlaps_any(dt, m)) by {
            if overlaps_any(dt, m) {
                let j = choose|j: int| 0 <= j < dt.len() && overlaps(#[trigger] dt[j], m);
                assert(tbl[j + 1] == dt[j]);
                assert(overlaps_any(tbl, m));
            }
        }
        lemma_insert_sorted_wf(s, dt, m);
        let rest = insert_sorted(dt, m);
        lemma_insert_sorted_props(dt, m);
        // the head of the table keeps its place; everything in the new tail
        // starts at or after its end
        assert(!overlaps(tbl[0], m)) by {
            if overlaps(tbl[0], m) {
                assert(overlaps_any(tbl, m));
            }
        }
        assert(valid_span(s, tbl[0]));
        assert(tbl[0].end <= m.start);
        assert forall|k: int| 0 <= k < r.len() implies valid_span(s, #[trigger] r[k]) by {
            if k > 0 {
                assert(r[k] == rest[k - 1]);
                assert(rest.contains(rest[k - 1]));
                if dt.contains(rest[k - 1]) {
                    let j = choose|j: int| 0 <= j < dt.len() && dt[j] == rest[k - 1];
                    assert(tbl[j + 1] == dt[j]);
                    assert(valid_span(s, tbl[j + 1]));
                }
            }
        }
        assert forall|a: int, b: int| 0 <= a < b < r.len() implies (#[trigger] r[a]).end <= (
        #[trigger] r[b]).start by {
            if a == 0 {
                assert(r[b] == rest[b - 1]);
                assert(rest.contains(rest[b - 1]));
                if dt.contains(rest[b - 1]) {
                    let j = choose|j: int| 0 <= j < dt.len() && dt[j] == rest[b - 1];
                    assert(tbl[j + 1] == dt[j]);
                    assert(tbl[0].end <= tbl[j + 1].start);
                } else {
                    assert(rest[b - 1] == m);
                }
            } else {
                assert(r[a] == rest[a - 1]);
                assert(r[b] == rest[b - 1]);
            }
        }
    }
}

/// Everything already accepted stays accepted.
pub proof fn lemma_add_matches_mono(tbl: Seq<SpanModel>, ms: Seq<SpanModel>, sp: SpanModel)
    requires
        tbl.contains(sp),
    ensures
        add_matches(tbl, ms).contains(sp),
    decreases ms.len(),
{
    if ms.len() > 0 {
        let t2 = if overlaps_any(tbl, ms[0]) {
            tbl
        } else {
            insert_sorted(tbl, ms[0])
        };
        if !overlaps_any(tbl, ms[0]) {
            lemma_insert_sorted_props(tbl, ms[0]);
        }
        lemma_add_matches_mono(t2, ms.drop_first(), sp);
    }
}

/// Everything accepted comes from the old table or the candidate list.
pub proof fn lemma_add_matches_from(tbl: Seq<SpanModel>, ms: Seq<SpanModel>, sp: SpanModel)
    requires
        add_matches(tbl, ms).contains(sp),
    ensures
        tbl.contains(sp) || ms.contains(sp),
    decreases ms.len(),
{
    if ms.len() > 0 {
        let t2 = if overlaps_any(tbl, ms[0]) {
            tbl
        } else {
            insert_sorted(tbl, ms[0])
        };
        lemma_add_matches_from(t2, ms.drop_first(), sp);
        if t2.contains(sp) {
            if !overlaps_any(tbl, ms[0]) {
                lemma_insert_sorted_props(tbl, ms[0]);
            }
            if !tbl.contains(sp) {
                assert(sp == ms[0]);
            }
        } else {
            assert(ms.drop_first().contains(sp));
            let j = choose|j: int| 0 <= j < ms.drop_first().len() && ms.drop_first()[j] == sp;
            assert(ms[j + 1] == sp);
        }
    }
}

/// A candidate that intersects an already-accepted span is never accepted.
pub proof fn lemma_add_matches_reject(tbl: Seq<SpanModel>, ms: Seq<SpanModel>, m: SpanModel)
    requires
        !tbl.contains(m),
        overlaps_any(tbl, m),
    ensures
        !add_matches(tbl, ms).contains(m),
    decreases ms.len(),
{
    if ms.len() > 0 {
        let t2 = if overlaps_any(tbl, ms[0]) {
            tbl
        } else {
            insert_sorted(tbl, ms[0])
        };
        if !overlaps_any(tbl, ms[0]) {
            lemma_insert_sorted_props(tbl, ms[0]);
            assert(ms[0] != m);
            assert(!t2.contains(m));
            let j = choose|j: int| 0 <= j < tbl.len() && overlaps(#[trigger] tbl[j], m);
            assert(tbl.contains(tbl[j]));
            assert(t2.contains(tbl[j]));
            let k = choose|k: int| 0 <= k < t2.len() && t2[k] == tbl[j];
            assert(overlaps(t2[k], m));
        }
        lemma_add_matches_reject(t2, ms.drop_first(), m);
    }
}

pub proof fn lemma_add_matches_wf(s: Seq<char>, tbl: Seq<SpanModel>, ms: Seq<SpanModel>)
    requires
        table_wf(s, tbl),
        forall|k: int| 0 <= k < ms.len() ==> valid_span(s, #[trigger] ms[k]),
    ensures
        table_wf(s, add_matches(tbl, ms)),
    decreases ms.len(),
{
    if ms.len() > 0 {
        let t2 = if overlaps_any(tbl, ms[0]) {
            tbl
        } else {
            insert_sorted(tbl, ms[0])
        };
        if !overlaps_any(tbl, ms[0]) {
            lemma_insert_sorted_wf(s, tbl, ms[0]);
        }
        assert(forall|k: int|
            0 <= k < ms.drop_first().len() ==> valid_span(s, #[trigger] ms.drop_first()[k]));
        lemma_add_matches_wf(s, t2, ms.drop_first());
    }
}

/// A candidate that conflicts neither with the table nor with any earlier
/// candidate of its own class is accepted.
pub proof fn lemma_add_matches_accepts(tbl: Seq<SpanModel>, ms: Seq<SpanModel>, j: int)
    requires
        0 <= j < ms.len(),
        !overlaps_any(tbl, ms[j]),
        forall|k: int| 0 <= k < j ==> !overlaps(#[trigger] ms[k], ms[j]),
    ensures
        add_matches(tbl, ms).contains(ms[j]),
    decreases ms.len(),
{
    let t2 = if overlaps_any(tbl, ms[0]) {
        tbl
    } else {
        insert_sorted(tbl, ms[0])
    };
    if !overlaps_any(tbl, ms[0]) {
        lemma_insert_sorted_props(tbl, ms[0]);
    }
    if j == 0 {
        assert(t2.contains(ms[0]));
        lemma_add_matches_mono(t2, ms.drop_first(), ms[0]);
    } else {
        assert(!overlaps_any(t2, ms[j])) by {
            if overlaps_any(t2, ms[j]) {
                let x = choose|x: int| 0 <= x < t2.len() && overlaps(#[trigger] t2[x], ms[j]);
                assert(t2.contains(t2[x]));
                if tbl.contains(t2[x]) {
                    let y = choose|y: int| 0 <= y < tbl.len() && tbl[y] == t2[x];
                    assert(overlaps(tbl[y], ms[j]));
                } else {
                    assert(t2[x] == ms[0]);
                }
            }
        }
        let dm = ms.drop_first();
        assert(dm[j - 1] == ms[j]);
        assert forall|k: int| 0 <= k < j - 1 implies !overlaps(#[trigger] dm[k], dm[j - 1]) by {
            assert(dm[k] == ms[k + 1]);
        }
        lemma_add_matches_accepts(t2, dm, j - 1);
    }
}

proof fn lemma_insert_sorted_index(tbl: Seq<SpanModel>, m: SpanModel, idx: int)
    requires
        0 <= idx <= tbl.len(),
        forall|k: int| 0 <= k < idx ==> (#[trigger] tbl[k]).start <= m.start,
        idx < tbl.len() ==> m.start < tbl[idx].start,
    ensures
        insert_sorted(tbl, m) == tbl.insert(idx, m),
    decreases idx,
{
    if idx == 0 {
        if tbl.len() == 0 {
            assert(insert_sorted(tbl, m) =~= tbl.insert(0, m));
        } else {
            assert(seq![m] + tbl =~= tbl.insert(0, m));
        }
    } else {
        let dt = tbl.drop_first();
        assert(tbl[0].start <= m.start);
        lemma_insert_sorted_index(dt, m, idx - 1);
        assert(seq![tbl[0]] + dt.insert(idx - 1, m) =~= tbl.insert(idx, m));
    }
}

fn overlaps_table(tbl: &Vec<Span>, sp: &Span) -> (r: bool)
    ensures
        r == overlaps_any(models(tbl@), sp@),
{
    let n = tbl.len();
    let mut k: usize = 0;
    while k < n
        invariant
            k <= n,
            n == tbl@.len(),
            forall|j: int| 0 <= j < k ==> !overlaps(#[trigger] models(tbl@)[j], sp@),
        decreases n - k,
    {
        let a = tbl[k];
        if a.start < sp.end && sp.start < a.end {
            assert(overlaps(models(tbl@)[k as int], sp@));
            return true;
        }
        assert(!overlaps(models(tbl@)[k as int], sp@));
        k = k + 1;
    }
    false
}

fn insert_span(tbl: &mut Vec<Span>, sp: Span)
    ensures
        models(final(tbl)@) == insert_sorted(models(old(tbl)@), sp@),
{
    let n = tbl.len();
    let mut idx: usize = 0;
    while idx < n && tbl[idx].start <= sp.start
        invariant
            idx <= n,
            n == tbl@.len(),
            tbl@ == old(tbl)@,
            forall|k: int| 0 <= k < idx ==> (#[trigger] models(tbl@)[k]).start <= sp@.start,
        decreases n - idx,
    {
        idx = idx + 1;
    }
    let ghost before = models(tbl@);
    tbl.insert(idx, sp);
    proof {
        lemma_insert_sorted_index(before, sp@, idx as int);
        assert(models(tbl@) =~= before.insert(idx as int, sp@));
    }
}

/// Fold one class's candidate matches into the table, accepting exactly
/// those that do not intersect an already-accepted span.
fn add_class(tbl: &mut Vec<Span>, ms: &Vec<Span>)
    ensures
        models(final(tbl)@) == add_matches(models(old(tbl)@), models(ms@)),
{
    let ghost t0 = models(old(tbl)@);
    let ghost mm = models(ms@);
    assert(mm.skip(0) =~= mm);
    let n = ms.len();
    let mut k: usize = 0;
    while k < n
        invariant
            k <= n,
            n == ms@.len(),
            mm == models(ms@),
            add_matches(models(tbl@), mm.skip(k as int)) == add_matches(t0, mm),
        decreases n - k,
    {
        let ghost cur = models(tbl@);
        let ghost rem = mm.skip(k as int);
        assert(rem[0] == mm[k as int]);
        assert(mm[k as int] == ms@[k as int]@);
        let sp = ms[k];
        if !overlaps_table(tbl, &sp) {
            insert_span(tbl, sp);
        }
        proof {
            assert(models(tbl@) == if overlaps_any(cur, rem[0]) {
                cur
            } else {
                insert_sorted(cur, rem[0])
            });
            assert(add_matches(cur, rem) == add_matches(models(tbl@), rem.drop_first()));
            assert(rem.drop_first() =~= mm.skip(k + 1));
        }
        k = k + 1;
    }
    assert(mm.skip(n as int) =~= Seq::<SpanModel>::empty());
}

/// The accepted span table of `cs`, resolved by priority and sorted by
/// start offset.
pub fn resolve_spans(cs: &Vec<char>) -> (r: Vec<Span>)
    ensures
        models(r@) == resolve_spec(cs@),
{
    let mut tbl: Vec<Span> = Vec::new();
    assert(models(tbl@) =~= Seq::<SpanModel>::empty());
    let ms1 = find_class_matches(cs, TokenClass::StrLit);
    add_class(&mut tbl, &ms1);
    let ms2 = find_class_matches(cs, TokenClass::Number);
    add_class(&mut tbl, &ms2);
    let ms3 = find_class_matches(cs, TokenClass::BoolWord);
    add_class(&mut tbl, &ms3);
    let ms4 = find_class_matches(cs, TokenClass::KeyLabel);
    add_class(&mut tbl, &ms4);
    let ms5 = find_class_matches(cs, TokenClass::Bracket);
    add_class(&mut tbl, &ms5);
    tbl
}

/// The resolved table of any text is well formed.
pub proof fn lemma_resolve_wf(s: Seq<char>)
    ensures
        table_wf(s, resolve_spec(s)),
{
    lemma_class_matches_from_wf(s, TokenClass::StrLit, 0);
    lemma_class_matches_from_wf(s, TokenClass::Number, 0);
    lemma_class_matches_from_wf(s, TokenClass::BoolWord, 0);
    lemma_class_matches_from_wf(s, TokenClass::KeyLabel, 0);
    lemma_class_matches_from_wf(s, TokenClass::Bracket, 0);
    let t0 = Seq::<SpanModel>::empty();
    let t1 = add_matches(t0, class_matches(s, TokenClass::StrLit));
    let t2 = add_matches(t1, class_matches(s, TokenClass::Number));
    let t3 = add_matches(t2, class_matches(s, TokenClass::BoolWord));
    let t4 = add_matches(t3, class_matches(s, TokenClass::KeyLabel));
    lemma_add_matches_wf(s, t0, class_matches(s, TokenClass::StrLit));
    lemma_add_matches_wf(s, t1, class_matches(s, TokenClass::Number));
    lemma_add_matches_wf(s, t2, class_matches(s, TokenClass::BoolWord));
    lemma_add_matches_wf(s, t3, class_matches(s, TokenClass::KeyLabel));
    lemma_add_matches_wf(s, t4, class_matches(s, TokenClass::Bracket));
}

} // verus!
