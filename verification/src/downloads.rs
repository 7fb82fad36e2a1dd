//! Which download a matched game publishes.
use vstd::prelude::*;
use crate::models::{DownloadCandidate, DownloadCandidateV, SourceLabel, placeholder_candidate};
use crate::text::{chars_of, is_ascii_digit, is_digit, trim, trim_str};

verus! {

broadcast use vstd::string::group_string_axioms;

pub open spec fn present(v: Option<Seq<char>>) -> bool {
    v matches Some(s) && trim(s).len() > 0
}

/// Maximal runs of ASCII digits, in order.
pub open spec fn digit_runs(s: Seq<char>) -> Seq<Seq<char>>
    decreases s.len(),
{
    if s.len() == 0 {
        Seq::empty()
    } else {
        let p = digit_runs(s.drop_last());
        let c = s.last();
        if !is_digit(c) {
            p
        } else if s.len() >= 2 && is_digit(s[s.len() - 2]) {
            p.update(p.len() - 1, p.last().push(c))
        } else {
            p.push(seq![c])
        }
    }
}

pub open spec fn digit_value(c: char) -> nat {
    ((c as u32) - ('0' as u32)) as nat
}

/// Decimal value of a digit run.
pub open spec fn dec_value(r: Seq<char>) -> nat
    decreases r.len(),
{
    if r.len() == 0 {
        0
    } else {
        dec_value(r.drop_last()) * 10 + digit_value(r.last())
    }
}

/// Values of the runs that fit in a `u64` (the others fail to parse).
pub open spec fn run_values(rs: Seq<Seq<char>>) -> Seq<u64>
    decreases rs.len(),
{
    if rs.len() == 0 {
        Seq::empty()
    } else {
        let p = run_values(rs.drop_last());
        if dec_value(rs.last()) <= u64::MAX {
            p.push(dec_value(rs.last()) as u64)
        } else {
            p
        }
    }
}

/// The numbers of a version string ("v1.10 build 7" -> [1, 10, 7]).
pub open spec fn version_numbers(s: Seq<char>) -> Seq<u64> {
    run_values(digit_runs(s))
}

/// Lexicographic `>` on number sequences (`Vec<u64>` ordering).
pub open spec fn lex_gt(a: Seq<u64>, b: Seq<u64>) -> bool
    decreases a.len(),
{
    if a.len() == 0 {
        false
    } else if b.len() == 0 {
        true
    } else if a[0] != b[0] {
        a[0] > b[0]
    } else {
        lex_gt(a.drop_first(), b.drop_first())
    }
}

pub open spec fn version_newer_spec(a: Seq<char>, b: Seq<char>) -> bool {
    lex_gt(version_numbers(a), version_numbers(b))
}

/// `a` beats `b`: a present version beats none; a newer version wins; then
/// Steamrip beats Steamunlocked; otherwise no.
pub open spec fn better(a: DownloadCandidateV, b: DownloadCandidateV) -> bool {
    let ah = present(a.version);
    let bh = present(b.version);
    if ah && !bh {
        true
    } else if bh && !ah {
        false
    } else if ah && bh && version_newer_spec(a.version.unwrap(), b.version.unwrap()) {
        true
    } else if ah && bh && version_newer_spec(b.version.unwrap(), a.version.unwrap()) {
        false
    } else {
        a.source_label == SourceLabel::Steamrip && b.source_label != SourceLabel::Steamrip
    }
}

/// Left fold: a later candidate replaces the current pick only when better.
pub open spec fn choose_spec(c: Seq<DownloadCandidateV>) -> DownloadCandidateV
    decreases c.len(),
{
    if c.len() == 0 {
        placeholder_candidate()
    } else if c.len() == 1 {
        c[0]
    } else {
        let p = choose_spec(c.drop_last());
        if better(c.last(), p) {
            c.last()
        } else {
            p
        }
    }
}

pub open spec fn cands_view(c: Seq<DownloadCandidate>) -> Seq<DownloadCandidateV> {
    c.map_values(|d: DownloadCandidate| d@)
}

fn version_present(v: &Option<String>) -> (r: bool)
    ensures
        r == present(v.deep_view()),
{
    match v {
        Some(s) => {
            let t = trim_str(s.as_str());
            !t.as_str().is_empty()
        },
        None => false,
    }
}

fn parse_version(raw: &str) -> (r: Vec<u64>)
    ensures
        r@ == version_numbers(raw@),
{
    let v = chars_of(raw);
    let mut out: Vec<u64> = Vec::new();
    let mut in_run = false;
    let mut cur: u64 = 0;
    let mut overflow = false;
    let mut i: usize = 0;
    while i < v.len()
        invariant
            i <= v.len(),
            in_run == (i > 0 && is_digit(v@[i - 1])),
            !in_run ==> out@ == run_values(digit_runs(v@.take(i as int))),
            in_run ==> {
                let rs = digit_runs(v@.take(i as int));
                &&& rs.len() > 0
                &&& out@ == run_values(rs.drop_last())
                &&& (!overflow ==> cur == dec_value(rs.last()))
                &&& (overflow ==> dec_value(rs.last()) > u64::MAX)
            },
        decreases v.len() - i,
    {
        let c = v[i];
        let ghost rs = digit_runs(v@.take(i as int));
        assert(v@.take(i + 1).drop_last() =~= v@.take(i as int));
        assert(v@.take(i + 1).last() == c);
        if is_ascii_digit(c) {
            let d: u64 = (c as u32 - '0' as u32) as u64;
            assert(d == digit_value(c));
            if in_run {
                let ghost run = rs.last();
                assert(v@.take(i + 1)[i - 1] == v@[i - 1]);
                assert(digit_runs(v@.take(i + 1)) == rs.update(rs.len() - 1, run.push(c)));
                assert(digit_runs(v@.take(i + 1)).last() == run.push(c));
                assert(rs.update(rs.len() - 1, run.push(c)).drop_last() =~= rs.drop_last());
                assert(run.push(c).drop_last() =~= run);
                assert(dec_value(run.push(c)) == dec_value(run) * 10 + d);
                if !overflow {
                    match cur.checked_mul(10) {
                        Some(x) => match x.checked_add(d) {
                            Some(y) => {
                                cur = y;
                            },
                            None => {
                                overflow = true;
                            },
                        },
                        None => {
                            overflow = true;
                        },
                    }
                } else {
                    let ghost dv = dec_value(run);
                    assert(dv * 10 >= dv) by (nonlinear_arith)
                        requires
                            dv >= 0,
                    ;
                }
            } else {
                assert(i > 0 ==> v@.take(i + 1)[i - 1] == v@[i - 1]);
                assert(digit_runs(v@.take(i + 1)) == rs.push(seq![c]));
                assert(rs.push(seq![c]).drop_last() =~= rs);
                assert(seq![c].drop_last() =~= Seq::<char>::empty());
                assert(dec_value(seq![c]) == dec_value(Seq::<char>::empty()) * 10 + digit_value(c));
                assert(dec_value(seq![c]) == digit_value(c));
                cur = d;
                overflow = false;
                in_run = true;
            }
        } else {
            if in_run {
                assert(rs =~= rs.drop_last().push(rs.last()));
                if !overflow {
                    out.push(cur);
                }
            }
            in_run = false;
        }
        i += 1;
    }
    if in_run {
        let ghost rs = digit_runs(v@.take(i as int));
        assert(rs =~= rs.drop_last().push(rs.last()));
        if !overflow {
            out.push(cur);
        }
    }
    assert(v@.take(v.len() as int) =~= v@);
    out
}

fn lex_greater(a: &Vec<u64>, b: &Vec<u64>) -> (r: bool)
    ensures
        r == lex_gt(a@, b@),
{
    let mut i: usize = 0;
    assert(a@.skip(0) =~= a@);
    assert(b@.skip(0) =~= b@);
    loop
        invariant
            i <= a.len(),
            i <= b.len(),
            lex_gt(a@, b@) == lex_gt(a@.skip(i as int), b@.skip(i as int)),
        decreases a.len() - i,
    {
        if i == a.len() {
            return false;
        }
        if i == b.len() {
            return true;
        }
        if a[i] != b[i] {
            return a[i] > b[i];
        }
        assert(a@.skip(i as int).drop_first() =~= a@.skip(i + 1));
        assert(b@.skip(i as int).drop_first() =~= b@.skip(i + 1));
        i += 1;
    }
}

fn version_newer(av: &str, bv: &str) -> (r: bool)
    ensures
        r == version_newer_spec(av@, bv@),
{
    let a = parse_version(av);
    let b = parse_version(bv);
    lex_greater(&a, &b)
}

fn candidate_is_better(a: &DownloadCandidate, b: &DownloadCandidate) -> (r: bool)
    ensures
        r == better(a@, b@),
{
    let a_has = version_present(&a.version);
    let b_has = version_present(&b.version);
    if a_has && !b_has {
        return true;
    }
    if b_has && !a_has {
        return false;
    }
    if a_has && b_has {
        match (&a.version, &b.version) {
            (Some(av), Some(bv)) => {
                if version_newer(av.as_str(), bv.as_str()) {
                    return true;
                }
                if version_newer(bv.as_str(), av.as_str()) {
                    return false;
                }
            },
            _ => {},
        }
    }
    if a.source_label == SourceLabel::Steamrip && b.source_label != SourceLabel::Steamrip {
        return true;
    }
    false
}

/// Decide which download candidate should be published for a matched game.
pub fn choose_download(candidates: &[DownloadCandidate]) -> (r: DownloadCandidate)
    ensures
        r@ == choose_spec(cands_view(candidates@)),
{
    let ghost cv = cands_view(candidates@);
    if candidates.len() == 0 {
        return DownloadCandidate::placeholder();
    }
    let mut bi: usize = 0;
    let mut i: usize = 1;
    assert(cv.take(1).len() == 1);
    while i < candidates.len()
        invariant
            1 <= i <= candidates.len(),
            cv == cands_view(candidates@),
            bi < candidates.len(),
            choose_spec(cv.take(i as int)) == cv[bi as int],
        decreases candidates.len() - i,
    {
        assert(cv.take(i + 1).drop_last() =~= cv.take(i as int));
        if candidate_is_better(&candidates[i], &candidates[bi]) {
            bi = i;
        }
        i += 1;
    }
    assert(cv.take(candidates.len() as int) =~= cv);
    candidates[bi].duplicate()
}

proof fn lemma_lex_gt_trans(a: Seq<u64>, b: Seq<u64>, c: Seq<u64>)
    requires
        lex_gt(a, b),
        lex_gt(b, c),
    ensures
        lex_gt(a, c),
    decreases a.len(),
{
    if a.len() > 0 && b.len() > 0 && c.len() > 0 && a[0] == b[0] && b[0] == c[0] {
        lemma_lex_gt_trans(a.drop_first(), b.drop_first(), c.drop_first());
    }
}

proof fn lemma_lex_gt_irreflexive(a: Seq<u64>)
    ensures
        !lex_gt(a, a),
    decreases a.len(),
{
    if a.len() > 0 {
        lemma_lex_gt_irreflexive(a.drop_first());
    }
}

/// Two sequences neither of which is greater are equal.
proof fn lemma_lex_gt_total(a: Seq<u64>, b: Seq<u64>)
    ensures
        !lex_gt(a, b) && !lex_gt(b, a) ==> a == b,
    decreases a.len(),
{
    if a.len() > 0 && b.len() > 0 && a[0] == b[0] {
        lemma_lex_gt_total(a.drop_first(), b.drop_first());
        if a.drop_first() == b.drop_first() {
            assert(a =~= seq![a[0]] + a.drop_first());
            assert(b =~= seq![b[0]] + b.drop_first());
        }
    } else if a.len() == 0 && b.len() == 0 {
        assert(a =~= b);
    }
}

proof fn lemma_versions(a: Seq<u64>, b: Seq<u64>, c: Seq<u64>)
    ensures
        lex_gt(a, b) && lex_gt(b, c) ==> lex_gt(a, c),
        lex_gt(a, b) ==> !lex_gt(b, a),
        !lex_gt(a, b) && !lex_gt(b, a) ==> a == b,
        !lex_gt(b, c) && !lex_gt(c, b) ==> b == c,
        !lex_gt(a, c) && !lex_gt(c, a) ==> a == c,
        !lex_gt(a, a),
{
    if lex_gt(a, b) && lex_gt(b, c) {
        lemma_lex_gt_trans(a, b, c);
    }
    if lex_gt(a, b) && lex_gt(b, a) {
        lemma_lex_gt_trans(a, b, a);
        lemma_lex_gt_irreflexive(a);
    }
    lemma_lex_gt_irreflexive(a);
    lemma_lex_gt_total(a, b);
    lemma_lex_gt_total(b, c);
    lemma_lex_gt_total(a, c);
}

proof fn lemma_better_order(a: DownloadCandidateV, b: DownloadCandidateV, c: DownloadCandidateV)
    ensures
        !better(a, a),
        better(a, b) && better(b, c) ==> better(a, c),
        better(a, c) ==> better(a, b) || better(b, c),
{
    let va = version_numbers(a.version.unwrap());
    let vb = version_numbers(b.version.unwrap());
    let vc = version_numbers(c.version.unwrap());
    lemma_versions(va, vb, vc);
    lemma_versions(vb, vc, va);
    lemma_versions(vc, va, vb);
    lemma_versions(vb, va, vc);
    lemma_versions(va, vc, vb);
    lemma_versions(vc, vb, va);
}

/// The published download is a best one: no candidate beats it.
pub proof fn lemma_choice_is_best(c: Seq<DownloadCandidateV>)
    ensures
        forall|i: int| 0 <= i < c.len() ==> !better(#[trigger] c[i], choose_spec(c)),
    decreases c.len(),
{
    if c.len() == 1 {
        lemma_better_order(c[0], c[0], c[0]);
    } else if c.len() > 1 {
        let p = c.drop_last();
        lemma_choice_is_best(p);
        let q = choose_spec(p);
        let last = c.last();
        assert forall|i: int| 0 <= i < c.len() implies !better(#[trigger] c[i], choose_spec(c)) by {
            lemma_better_order(c[i], last, q);
            lemma_better_order(last, last, last);
            if i < c.len() - 1 {
                assert(p[i] == c[i]);
            }
        }
    }
}

/// The position of the pick in the candidates.
pub open spec fn choose_index(c: Seq<DownloadCandidateV>) -> int
    decreases c.len(),
{
    if c.len() <= 1 {
        0
    } else {
        let p = choose_index(c.drop_last());
        if better(c.last(), c.drop_last()[p]) {
            c.len() - 1
        } else {
            p
        }
    }
}

/// The published download is the first candidate that no candidate beats:
/// nothing beats it, and it beats every candidate before it.
pub proof fn lemma_choice_is_first_best(c: Seq<DownloadCandidateV>)
    requires
        c.len() > 0,
    ensures
        0 <= choose_index(c) < c.len(),
        choose_spec(c) == c[choose_index(c)],
        forall|j: int| 0 <= j < c.len() ==> !better(#[trigger] c[j], choose_spec(c)),
        forall|k: int| 0 <= k < choose_index(c) ==> better(choose_spec(c), #[trigger] c[k]),
    decreases c.len(),
{
    lemma_choice_is_best(c);
    if c.len() > 1 {
        let p = c.drop_last();
        lemma_choice_is_first_best(p);
        let w = choose_index(p);
        let q = choose_spec(p);
        let last = c.last();
        assert(p[w] == c[w]);
        if better(last, q) {
            assert forall|k: int| 0 <= k < c.len() - 1 implies better(last, #[trigger] c[k]) by {
                assert(p[k] == c[k]);
                lemma_better_order(last, c[k], q);
                if k < w {
                    lemma_better_order(last, q, c[k]);
                }
            }
        } else {
            assert forall|k: int| 0 <= k < w implies better(q, #[trigger] c[k]) by {
                assert(p[k] == c[k]);
            }
        }
    }
}

/// The pick is one of the candidates (the placeholder only when there are
/// none), and a versioned candidate always beats every unversioned one.
pub proof fn lemma_choose_download(c: Seq<DownloadCandidateV>)
    ensures
        c.len() == 0 ==> choose_spec(c) == placeholder_candidate(),
        c.len() > 0 ==> exists|i: int| 0 <= i < c.len() && c[i] == choose_spec(c),
        (exists|i: int| 0 <= i < c.len() && present(c[i].version)) ==> present(
            choose_spec(c).version,
        ),
    decreases c.len(),
{
    if c.len() == 1 {
        assert(c[0] == choose_spec(c));
    } else if c.len() > 1 {
        let p = c.drop_last();
        lemma_choose_download(p);
        let w = choose|i: int| 0 <= i < p.len() && p[i] == choose_spec(p);
        assert(c[w] == choose_spec(p));
        if better(c.last(), choose_spec(p)) {
            assert(c[c.len() - 1] == choose_spec(c));
        }
        if exists|i: int| 0 <= i < c.len() && present(c[i].version) {
            let j = choose|i: int| 0 <= i < c.len() && present(c[i].version);
            if j < c.len() - 1 {
                assert(p[j] == c[j]);
            }
        }
    }
}


/// No candidate beats the one at `k`.
pub open spec fn unbeaten(c: Seq<DownloadCandidateV>, k: int) -> bool {
    forall|i: int| 0 <= i < c.len() ==> !better(#[trigger] c[i], c[k])
}

/// The published download is the candidate at the least position that no
/// candidate beats.
pub proof fn lemma_pick_is_least_unbeaten(c: Seq<DownloadCandidateV>)
    requires
        c.len() > 0,
    ensures
        exists|k: int|
            0 <= k < c.len() && choose_spec(c) == c[k] && unbeaten(c, k) && forall|j: int|
                0 <= j < k ==> !unbeaten(c, j),
{
    lemma_choice_is_first_best(c);
    let k = choose_index(c);
    assert forall|j: int| 0 <= j < k implies !unbeaten(c, j) by {
        assert(better(c[k], c[j]));
    }
}


proof fn lemma_runs_nonempty(s: Seq<char>)
    requires
        s.len() > 0,
        is_digit(s.last()),
    ensures
        digit_runs(s).len() > 0,
    decreases s.len(),
{
    if s.len() >= 2 && is_digit(s[s.len() - 2]) {
        assert(s.drop_last().last() == s[s.len() - 2]);
        lemma_runs_nonempty(s.drop_last());
    }
}

proof fn lemma_runs_concat(p: Seq<char>, s: Seq<char>)
    requires
        p.len() > 0,
        !is_digit(p.last()),
    ensures
        digit_runs(p + s) == digit_runs(p) + digit_runs(s),
    decreases s.len(),
{
    if s.len() == 0 {
        assert(p + s =~= p);
        assert(digit_runs(p) + digit_runs(s) =~= digit_runs(p));
    } else {
        let q = s.drop_last();
        let c = s.last();
        lemma_runs_concat(p, q);
        let ps = p + s;
        assert(ps.drop_last() =~= p + q);
        assert(ps.last() == c);
        let a = digit_runs(p);
        let b = digit_runs(q);
        if !is_digit(c) {
        } else if ps.len() >= 2 && is_digit(ps[ps.len() - 2]) {
            if q.len() == 0 {
                assert(ps[ps.len() - 2] == p.last());
            } else {
                assert(ps[ps.len() - 2] == q.last());
                assert(s[s.len() - 2] == q.last());
                assert(q.last() == q[q.len() - 1]);
                lemma_runs_nonempty(q);
                assert((a + b).last() == b.last());
                assert((a + b).update((a + b).len() - 1, (a + b).last().push(c)) =~= a + b.update(
                    b.len() - 1,
                    b.last().push(c),
                ));
            }
        } else {
            if q.len() > 0 {
                assert(ps[ps.len() - 2] == q.last());
                assert(s[s.len() - 2] == q.last());
            }
            assert((a + b).push(seq![c]) =~= a + b.push(seq![c]));
        }
    }
}

proof fn lemma_run_values_concat(a: Seq<Seq<char>>, b: Seq<Seq<char>>)
    ensures
        run_values(a + b) == run_values(a) + run_values(b),
    decreases b.len(),
{
    if b.len() == 0 {
        assert(a + b =~= a);
        assert(run_values(a) + run_values(b) =~= run_values(a));
    } else {
        lemma_run_values_concat(a, b.drop_last());
        assert((a + b).drop_last() =~= a + b.drop_last());
        assert((a + b).last() == b.last());
        let ra = run_values(a);
        let rb = run_values(b.drop_last());
        assert((ra + rb).push(dec_value(b.last()) as u64) =~= ra + rb.push(dec_value(b.last()) as u64));
    }
}

/// The numbers of a version are the numbers of its parts: two pieces of a
/// version joined by a non-digit (such as '.') give the numbers of the first
/// piece followed by those of the second, every number kept ("1.2" and "4"
/// give [1, 2] then [4]: "1.2.4" gives [1, 2, 4]).
pub proof fn lemma_version_numbers_split(s1: Seq<char>, sep: char, s2: Seq<char>)
    requires
        !is_digit(sep),
    ensures
        version_numbers(s1 + seq![sep] + s2) == version_numbers(s1) + version_numbers(s2),
{
    let p = s1.push(sep);
    assert(s1 + seq![sep] + s2 =~= p + s2);
    assert(p.drop_last() =~= s1);
    assert(p.last() == sep);
    assert(digit_runs(p) == digit_runs(s1));
    lemma_runs_concat(p, s2);
    lemma_run_values_concat(digit_runs(s1), digit_runs(s2));
}

/// Of two versioned candidates, the one with the newer version is
/// published, whichever comes first and whatever their sources.
pub proof fn lemma_newer_version_wins(a: DownloadCandidateV, b: DownloadCandidateV)
    requires
        present(a.version),
        present(b.version),
        lex_gt(version_numbers(a.version.unwrap()), version_numbers(b.version.unwrap())),
    ensures
        choose_spec(seq![a, b]) == a,
        choose_spec(seq![b, a]) == a,
{
    let va = version_numbers(a.version.unwrap());
    let vb = version_numbers(b.version.unwrap());
    if lex_gt(vb, va) {
        lemma_lex_gt_trans(va, vb, va);
        lemma_lex_gt_irreflexive(va);
    }
    assert(better(a, b));
    assert(!better(b, a));
    assert(seq![a, b].drop_last() =~= seq![a]);
    assert(seq![b, a].drop_last() =~= seq![b]);
    assert(choose_spec(seq![a]) == a);
    assert(choose_spec(seq![b]) == b);
    assert(seq![a, b].last() == b);
    assert(seq![b, a].last() == a);
}

/// Versions compare at their first differing number: numbers that agree up
/// to a point and then differ rank by that number, whatever follows.
pub proof fn lemma_lex_gt_first_difference(a: Seq<u64>, x: u64, y: u64, c: Seq<u64>, d: Seq<u64>)
    requires
        x > y,
    ensures
        lex_gt(a.push(x) + c, a.push(y) + d),
        !lex_gt(a.push(y) + d, a.push(x) + c),
    decreases a.len(),
{
    let l = a.push(x) + c;
    let r = a.push(y) + d;
    if a.len() == 0 {
        assert(l[0] == x && r[0] == y);
    } else {
        assert(l[0] == a[0] && r[0] == a[0]);
        assert(l.drop_first() =~= a.drop_first().push(x) + c);
        assert(r.drop_first() =~= a.drop_first().push(y) + d);
        lemma_lex_gt_first_difference(a.drop_first(), x, y, c, d);
    }
}

} // verus!
