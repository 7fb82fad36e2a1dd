//! Matching the two sources' entries into one game per title.
use vstd::prelude::*;
use crate::models::{
    candidate_of, games_view, matched_view, placeholder_candidate, to_candidate, DownloadCandidate, DownloadCandidateV,
    MatchedGame, MatchedGameV, SourceGame, SourceGameV, SourceLabel,
};
use crate::slug::words_view;
use crate::text::{
    chars_of, collapse_ws, collapse_ws_str, ends_with, ends_with_chars, is_ascii_alnum,
    is_ascii_alphanumeric, lemma_rfind_upto,
    lemma_trail_ws, lower_of, rfind, rfind_chars, starts_with, starts_with_chars, to_lowercase,
    trail_ws, trim, trim_bounds, trim_end, trim_end_len, trim_str,
};

verus! {

broadcast use vstd::string::group_string_axioms;

/// Lower-cased title with whitespace runs collapsed to single spaces.
pub open spec fn normalize_spec(t: Seq<char>) -> Seq<char> {
    collapse_ws(lower_of(t))
}

pub fn normalize_title(title: &str) -> (r: String)
    ensures
        r@ == normalize_spec(title@),
{
    let lower = to_lowercase(title);
    collapse_ws_str(lower.as_str())
}

/// The marketing suffixes removed before comparing titles.
pub open spec fn noise_patterns() -> Seq<Seq<char>> {
    seq![
        " free download"@,
        " full version"@,
        " download"@,
        " pc game"@,
        " game"@,
        " pc"@,
        " windows"@,
        " full"@,
        " cracked"@,
        " repack"@,
        " torrent"@,
    ]
}

/// Repeatedly cut `pat` off the end of `best` (trimming the end), as long
/// as something is left: only trailing noise goes.
pub open spec fn strip_pattern(best: Seq<char>, pat: Seq<char>) -> Seq<char>
    decreases best.len(),
{
    if pat.len() == 0 || !ends_with(best, pat) {
        best
    } else {
        let cand = trim_end(best.take(best.len() - pat.len()));
        if cand.len() == 0 {
            best
        } else {
            proof {
                lemma_trail_ws(best.take(best.len() - pat.len()));
            }
            strip_pattern(cand, pat)
        }
    }
}

/// The first `k` patterns applied in order.
pub open spec fn strip_all(s: Seq<char>, pats: Seq<Seq<char>>, k: int) -> Seq<char>
    decreases k,
{
    if k <= 0 {
        s
    } else {
        strip_pattern(strip_all(s, pats, k - 1), pats[k - 1])
    }
}

pub open spec fn stripped_suffixes_spec(s: Seq<char>) -> Seq<char> {
    strip_all(s, noise_patterns(), 11)
}

/// Title reduced for matching: normalized, a trailing `[...]` group cut
/// (when something precedes it), then the noise suffixes stripped.
pub open spec fn strip_noise_spec(t: Seq<char>) -> Seq<char> {
    let tr = trim(normalize_spec(t));
    if ends_with(tr, seq![']']) && rfind(tr, seq!['[']) is Some && trim_end(
        tr.take(rfind(tr, seq!['[']).unwrap()),
    ).len() > 0 {
        stripped_suffixes_spec(trim_end(tr.take(rfind(tr, seq!['[']).unwrap())))
    } else {
        stripped_suffixes_spec(tr)
    }
}

fn strip_pattern_chars(best: Vec<char>, pat: &Vec<char>) -> (r: Vec<char>)
    ensures
        r@ == strip_pattern(best@, pat@),
{
    if pat.len() == 0 {
        return best;
    }
    let mut b = best;
    loop
        invariant
            pat.len() > 0,
            strip_pattern(b@, pat@) == strip_pattern(best@, pat@),
        decreases b.len(),
    {
        if !ends_with_chars(&b, pat) {
            return b;
        }
        let end = b.len() - pat.len();
        let n = trim_end_len(&b, end);
        if n == 0 {
            return b;
        }
        let ghost ob = b@;
        b.truncate(n);
        assert(b@ =~= ob.take(n as int));
    }
}

fn noise_pattern_chars() -> (ps: Vec<Vec<char>>)
    ensures
        words_view(ps@) == noise_patterns(),
{
    let mut ps: Vec<Vec<char>> = Vec::new();
    ps.push(chars_of(" free download"));
    ps.push(chars_of(" full version"));
    ps.push(chars_of(" download"));
    ps.push(chars_of(" pc game"));
    ps.push(chars_of(" game"));
    ps.push(chars_of(" pc"));
    ps.push(chars_of(" windows"));
    ps.push(chars_of(" full"));
    ps.push(chars_of(" cracked"));
    ps.push(chars_of(" repack"));
    ps.push(chars_of(" torrent"));
    assert(words_view(ps@) =~= noise_patterns());
    ps
}

fn stripped_suffixes(s: Vec<char>) -> (r: Vec<char>)
    ensures
        r@ == stripped_suffixes_spec(s@),
{
    let ps = noise_pattern_chars();
    assert(noise_patterns().len() == 11);
    assert(words_view(ps@).len() == ps@.len());
    let mut best = s;
    let mut k: usize = 0;
    while k < ps.len()
        invariant
            k <= ps.len(),
            ps.len() == 11,
            words_view(ps@) == noise_patterns(),
            best@ == strip_all(s@, noise_patterns(), k as int),
        decreases ps.len() - k,
    {
        assert(ps@[k as int]@ == words_view(ps@)[k as int]);
        best = strip_pattern_chars(best, &ps[k]);
        k += 1;
    }
    best
}

/// Strip trailing version-like noise and marketing suffixes for matching only.
pub fn strip_version_noise(title: &str) -> (r: String)
    ensures
        r@ == strip_noise_spec(title@),
{
    let n = normalize_title(title);
    let v = chars_of(n.as_str());
    let (a, b) = trim_bounds(&v, 0, v.len());
    assert(v@.subrange(0, v@.len() as int) =~= v@);
    let mut tr: Vec<char> = Vec::new();
    let mut i = a;
    while i < b
        invariant
            a <= i <= b <= v.len(),
            tr@ == v@.subrange(a as int, i as int),
        decreases b - i,
    {
        tr.push(v[i]);
        assert(v@.subrange(a as int, i + 1) =~= v@.subrange(a as int, i as int).push(v@[i as int]));
        i += 1;
    }
    let close = vec![']'];
    let open = vec!['['];
    assert(close@ =~= seq![']']);
    assert(open@ =~= seq!['[']);
    if ends_with_chars(&tr, &close) {
        if let Some(o) = rfind_chars(&tr, &open) {
            proof {
                lemma_rfind_upto(tr@, open@, tr@.len() - 1);
            }
            let cl = trim_end_len(&tr, o);
            if cl > 0 {
                let mut cand = tr;
                let ghost ot = cand@;
                cand.truncate(cl);
                assert(cand@ =~= ot.take(cl as int));
                let r = stripped_suffixes(cand);
                return crate::text::string_of(&r);
            }
        }
    }
    let r = stripped_suffixes(tr);
    crate::text::string_of(&r)
}

} // verus!

verus! {

/// How two noise-stripped titles compare.
#[derive(Clone, Copy, Debug, PartialEq, Eq, Structural)]
pub enum Similarity {
    /// Same text (ratio 1.0).
    Identical,
    /// One side is empty (ratio 0.0).
    Empty,
    /// One is a prefix of the other (ratio 0.9).
    Prefix,
    /// Otherwise: `matched` common prefix+suffix characters (capped at the
    /// shorter length) out of `shorter` (ratio `matched / shorter * 0.95`,
    /// capped at 0.85).
    Partial { matched: usize, shorter: usize },
}

pub open spec fn common_prefix(a: Seq<char>, b: Seq<char>) -> nat
    decreases a.len(),
{
    if a.len() == 0 || b.len() == 0 || a[0] != b[0] {
        0
    } else {
        1 + common_prefix(a.drop_first(), b.drop_first())
    }
}

pub open spec fn common_suffix(a: Seq<char>, b: Seq<char>) -> nat
    decreases a.len(),
{
    if a.len() == 0 || b.len() == 0 || a.last() != b.last() {
        0
    } else {
        1 + common_suffix(a.drop_last(), b.drop_last())
    }
}

pub open spec fn min_nat(a: nat, b: nat) -> nat {
    if a <= b {
        a
    } else {
        b
    }
}

pub open spec fn similarity_of(a: Seq<char>, b: Seq<char>) -> Similarity {
    if a == b {
        Similarity::Identical
    } else if a.len() == 0 || b.len() == 0 {
        Similarity::Empty
    } else if starts_with(a, b) || starts_with(b, a) {
        Similarity::Prefix
    } else {
        let sh = min_nat(a.len(), b.len());
        Similarity::Partial {
            matched: min_nat(common_prefix(a, b) + common_suffix(a, b), sh) as usize,
            shorter: sh as usize,
        }
    }
}

/// Similarity of two raw titles, compared after noise stripping.
pub open spec fn title_similarity_spec(x: Seq<char>, y: Seq<char>) -> Similarity {
    similarity_of(strip_noise_spec(x), strip_noise_spec(y))
}

/// The ratio's standing against the 0.85 match threshold: 0 below it;
/// passing ratios rank 1.0 above 0.9 above the capped 0.85.
pub open spec fn rank_of(s: Similarity) -> nat {
    match s {
        Similarity::Identical => 3,
        Similarity::Prefix => 2,
        Similarity::Partial { matched, shorter } => if 19 * matched >= 17 * shorter {
            1
        } else {
            0
        },
        Similarity::Empty => 0,
    }
}

pub fn match_rank(s: Similarity) -> (r: u8)
    ensures
        r == rank_of(s),
        r <= 3,
{
    match s {
        Similarity::Identical => 3,
        Similarity::Prefix => 2,
        Similarity::Partial { matched, shorter } => {
            if (matched as u128) * 19 >= (shorter as u128) * 17 {
                1
            } else {
                0
            }
        },
        Similarity::Empty => 0,
    }
}

fn common_prefix_len(a: &Vec<char>, b: &Vec<char>) -> (n: usize)
    ensures
        n == common_prefix(a@, b@),
{
    let mut i: usize = 0;
    assert(a@.skip(0) =~= a@);
    assert(b@.skip(0) =~= b@);
    while i < a.len() && i < b.len() && a[i] == b[i]
        invariant
            i <= a.len(),
            i <= b.len(),
            common_prefix(a@, b@) == i + common_prefix(a@.skip(i as int), b@.skip(i as int)),
        decreases a.len() - i,
    {
        assert(a@.skip(i as int).drop_first() =~= a@.skip(i + 1));
        assert(b@.skip(i as int).drop_first() =~= b@.skip(i + 1));
        i += 1;
    }
    i
}

fn common_suffix_len(a: &Vec<char>, b: &Vec<char>) -> (n: usize)
    ensures
        n == common_suffix(a@, b@),
        n <= a.len(),
        n <= b.len(),
{
    let mut i: usize = 0;
    assert(a@.take(a.len() as int) =~= a@);
    assert(b@.take(b.len() as int) =~= b@);
    while i < a.len() && i < b.len() && a[a.len() - 1 - i] == b[b.len() - 1 - i]
        invariant
            i <= a.len(),
            i <= b.len(),
            common_suffix(a@, b@) == i + common_suffix(
                a@.take(a.len() - i),
                b@.take(b.len() - i),
            ),
        decreases a.len() - i,
    {
        assert(a@.take(a.len() - i).drop_last() =~= a@.take(a.len() - i - 1));
        assert(b@.take(b.len() - i).drop_last() =~= b@.take(b.len() - i - 1));
        i += 1;
    }
    i
}

fn seq_eq(a: &Vec<char>, b: &Vec<char>) -> (r: bool)
    ensures
        r == (a@ == b@),
{
    if a.len() != b.len() {
        return false;
    }
    let mut i: usize = 0;
    while i < a.len()
        invariant
            a.len() == b.len(),
            i <= a.len(),
            forall|k: int| 0 <= k < i ==> a@[k] == b@[k],
        decreases a.len() - i,
    {
        if a[i] != b[i] {
            return false;
        }
        i += 1;
    }
    assert(a@ =~= b@);
    true
}

fn similarity_of_chars(a: &Vec<char>, b: &Vec<char>) -> (r: Similarity)
    ensures
        r == similarity_of(a@, b@),
{
    if seq_eq(a, b) {
        return Similarity::Identical;
    }
    if a.len() == 0 || b.len() == 0 {
        return Similarity::Empty;
    }
    if starts_with_chars(a, b) || starts_with_chars(b, a) {
        return Similarity::Prefix;
    }
    let p = common_prefix_len(a, b);
    let s = common_suffix_len(a, b);
    let sh = if a.len() <= b.len() {
        a.len()
    } else {
        b.len()
    };
    proof {
        lemma_common_prefix_bound(a@, b@);
    }
    let matched = if s >= sh || p >= sh - s {
        sh
    } else {
        p + s
    };
    Similarity::Partial { matched, shorter: sh }
}

proof fn lemma_common_prefix_bound(a: Seq<char>, b: Seq<char>)
    ensures
        common_prefix(a, b) <= a.len(),
        common_prefix(a, b) <= b.len(),
    decreases a.len(),
{
    if a.len() > 0 && b.len() > 0 && a[0] == b[0] {
        lemma_common_prefix_bound(a.drop_first(), b.drop_first());
    }
}

/// How the two titles compare once noise is stripped from both.
pub fn title_similarity(a: &str, b: &str) -> (r: Similarity)
    ensures
        r == title_similarity_spec(a@, b@),
{
    let x = strip_version_noise(a);
    let y = strip_version_noise(b);
    let xv = chars_of(x.as_str());
    let yv = chars_of(y.as_str());
    similarity_of_chars(&xv, &yv)
}

} // verus!

verus! {

// ---------------------------------------------------------------------------
// Building matched games
// ---------------------------------------------------------------------------

/// Higher is a better download pick: versioned beats unversioned, then Steamrip.
pub open spec fn pick_rank_spec(g: SourceGameV) -> nat {
    (if g.version matches Some(v) && trim(v).len() > 0 {
        2nat
    } else {
        0nat
    }) + (if g.source_label == SourceLabel::Steamrip {
        1nat
    } else {
        0nat
    })
}

/// `max_by` over the ranks: the first entry of maximal rank.
pub open spec fn best_of(c: Seq<SourceGameV>) -> SourceGameV
    decreases c.len(),
{
    if c.len() <= 1 {
        c[0]
    } else {
        let a = best_of(c.drop_last());
        if pick_rank_spec(a) >= pick_rank_spec(c.last()) {
            a
        } else {
            c.last()
        }
    }
}

pub open spec fn best_download_spec(c: Seq<SourceGameV>) -> DownloadCandidateV {
    if c.len() == 0 {
        placeholder_candidate()
    } else {
        candidate_of(best_of(c))
    }
}

/// Title of the first Steamrip entry, else of the first entry, else empty.
pub open spec fn raw_title_from(c: Seq<SourceGameV>, i: int) -> Seq<char>
    decreases c.len() - i,
{
    if i < 0 || i >= c.len() {
        if c.len() > 0 {
            c[0].title
        } else {
            Seq::empty()
        }
    } else if c[i].source_label == SourceLabel::Steamrip {
        c[i].title
    } else {
        raw_title_from(c, i + 1)
    }
}

pub open spec fn merge_spec(c: Seq<SourceGameV>) -> MatchedGameV {
    let raw = raw_title_from(c, 0);
    MatchedGameV {
        normalized_title: normalize_spec(raw),
        raw_title: raw,
        candidates: c,
        best_download: best_download_spec(c),
    }
}

pub open spec fn single_spec(g: SourceGameV) -> MatchedGameV {
    MatchedGameV {
        normalized_title: normalize_spec(g.title),
        raw_title: g.title,
        candidates: seq![g],
        best_download: candidate_of(g),
    }
}

fn pick_rank(game: &SourceGame) -> (r: u32)
    ensures
        r == pick_rank_spec(game@),
        r <= 3,
{
    let has_version = match &game.version {
        Some(v) => {
            let t = trim_str(v.as_str());
            !t.as_str().is_empty()
        },
        None => false,
    };
    let bonus: u32 = if game.source_label == SourceLabel::Steamrip {
        1
    } else {
        0
    };
    (if has_version {
        2
    } else {
        0
    }) + bonus
}

fn best_download_of(cands: &Vec<SourceGame>) -> (r: DownloadCandidate)
    ensures
        r@ == best_download_spec(games_view(cands@)),
{
    if cands.len() == 0 {
        return DownloadCandidate::placeholder();
    }
    let ghost gv = games_view(cands@);
    let mut bi: usize = 0;
    let mut i: usize = 1;
    assert(gv.take(1).len() == 1);
    while i < cands.len()
        invariant
            1 <= i <= cands.len(),
            gv == games_view(cands@),
            bi < cands.len(),
            best_of(gv.take(i as int)) == gv[bi as int],
        decreases cands.len() - i,
    {
        assert(gv.take(i + 1).drop_last() =~= gv.take(i as int));
        if !(pick_rank(&cands[bi]) >= pick_rank(&cands[i])) {
            bi = i;
        }
        i += 1;
    }
    assert(gv.take(cands.len() as int) =~= gv);
    to_candidate(&cands[bi])
}

fn single(game: SourceGame) -> (r: MatchedGame)
    ensures
        r@ == single_spec(game@),
{
    let normalized_title = normalize_title(game.title.as_str());
    let raw_title = game.title.clone();
    let best = to_candidate(&game);
    let mut candidates: Vec<SourceGame> = Vec::new();
    candidates.push(game);
    let r = MatchedGame { normalized_title, raw_title, candidates, best_download: best };
    assert(r@.candidates =~= seq![game@]);
    r
}

fn merge_candidates(cands: Vec<SourceGame>) -> (r: MatchedGame)
    ensures
        r@ == merge_spec(games_view(cands@)),
{
    let ghost gv = games_view(cands@);
    let mut i: usize = 0;
    let mut found: Option<usize> = None;
    while i < cands.len()
        invariant
            i <= cands.len(),
            gv == games_view(cands@),
            found is None ==> raw_title_from(gv, 0) == raw_title_from(gv, i as int),
            found matches Some(k) ==> k < cands.len() && raw_title_from(gv, 0) == gv[k as int].title,
        decreases cands.len() - i,
    {
        if found.is_none() && cands[i].source_label == SourceLabel::Steamrip {
            found = Some(i);
        }
        i += 1;
    }
    let raw_title = match found {
        Some(k) => cands[k].title.clone(),
        None => if cands.len() > 0 {
            cands[0].title.clone()
        } else {
            String::new()
        },
    };
    let best_download = best_download_of(&cands);
    let normalized_title = normalize_title(raw_title.as_str());
    MatchedGame { normalized_title, raw_title, candidates: cands, best_download }
}

// ---------------------------------------------------------------------------
// Greedy pairing
// ---------------------------------------------------------------------------

pub open spec fn rank_titles(a: Seq<char>, b: Seq<char>) -> nat {
    rank_of(title_similarity_spec(a, b))
}

/// `j` is the partner the greedy scan picks for title `a`: the first unused
/// entry of maximal, non-zero rank.
pub open spec fn is_best(a: Seq<char>, su: Seq<SourceGameV>, used: Seq<bool>, j: int) -> bool {
    &&& 0 <= j < su.len()
    &&& !used[j]
    &&& rank_titles(a, su[j].title) > 0
    &&& forall|k: int|
        0 <= k < j && !used[k] ==> rank_titles(a, su[k].title) < rank_titles(a, su[j].title)
    &&& forall|k: int|
        j < k < su.len() && !used[k] ==> rank_titles(a, su[k].title) <= rank_titles(
            a,
            su[j].title,
        )
}

pub open spec fn best_partner(a: Seq<char>, su: Seq<SourceGameV>, used: Seq<bool>) -> Option<int> {
    if exists|j: int| is_best(a, su, used, j) {
        Some(choose|j: int| is_best(a, su, used, j))
    } else {
        None
    }
}

pub proof fn lemma_best_unique(a: Seq<char>, su: Seq<SourceGameV>, used: Seq<bool>, i: int, j: int)
    requires
        is_best(a, su, used, i),
        is_best(a, su, used, j),
    ensures
        i == j,
{
    if i < j {
        assert(rank_titles(a, su[i].title) < rank_titles(a, su[j].title));
    } else if j < i {
        assert(rank_titles(a, su[j].title) < rank_titles(a, su[i].title));
    }
}

/// Which Steamunlocked entries the partners so far have taken.
pub open spec fn used_after(p: Seq<Option<int>>, m: nat) -> Seq<bool>
    decreases p.len(),
{
    if p.len() == 0 {
        Seq::new(m, |j: int| false)
    } else {
        let u = used_after(p.drop_last(), m);
        match p.last() {
            Some(j) => if 0 <= j < u.len() {
                u.update(j, true)
            } else {
                u
            },
            None => u,
        }
    }
}

/// The partner of each of the first `n` Steamrip entries, in order.
pub open spec fn pairing(sr: Seq<SourceGameV>, su: Seq<SourceGameV>, n: int) -> Seq<Option<int>>
    decreases n,
{
    if n <= 0 {
        Seq::empty()
    } else {
        let p = pairing(sr, su, n - 1);
        p.push(best_partner(sr[n - 1].title, su, used_after(p, su.len())))
    }
}

pub open spec fn paired_part(sr: Seq<SourceGameV>, su: Seq<SourceGameV>, p: Seq<Option<int>>) -> Seq<MatchedGameV>
    decreases p.len(),
{
    if p.len() == 0 {
        Seq::empty()
    } else {
        let rest = paired_part(sr, su, p.drop_last());
        match p.last() {
            Some(j) => rest.push(merge_spec(seq![sr[p.len() - 1], su[j]])),
            None => rest,
        }
    }
}

pub open spec fn lone_sr(sr: Seq<SourceGameV>, p: Seq<Option<int>>) -> Seq<MatchedGameV>
    decreases p.len(),
{
    if p.len() == 0 {
        Seq::empty()
    } else {
        let rest = lone_sr(sr, p.drop_last());
        match p.last() {
            Some(j) => rest,
            None => rest.push(single_spec(sr[p.len() - 1])),
        }
    }
}

pub open spec fn lone_su(su: Seq<SourceGameV>, used: Seq<bool>, k: int) -> Seq<MatchedGameV>
    decreases k,
{
    if k <= 0 {
        Seq::empty()
    } else {
        let rest = lone_su(su, used, k - 1);
        if used[k - 1] {
            rest
        } else {
            rest.push(single_spec(su[k - 1]))
        }
    }
}

/// Entries before the final merge: the pairs (in Steamrip order), then the
/// unpaired Steamrip entries, then the unpaired Steamunlocked entries.
pub open spec fn pre_dedupe(sr: Seq<SourceGameV>, su: Seq<SourceGameV>) -> Seq<MatchedGameV> {
    let p = pairing(sr, su, sr.len() as int);
    paired_part(sr, su, p) + lone_sr(sr, p) + lone_su(su, used_after(p, su.len()), su.len() as int)
}

} // verus!

verus! {

// ---------------------------------------------------------------------------
// Final merge of games that share a normalized title
// ---------------------------------------------------------------------------

pub open spec fn has_url(cs: Seq<SourceGameV>, url: Seq<char>) -> bool {
    exists|i: int| 0 <= i < cs.len() && cs[i].download_url == url
}

/// `es` appended to `cs`, skipping entries whose download URL is already there.
pub open spec fn add_new_urls(cs: Seq<SourceGameV>, es: Seq<SourceGameV>) -> Seq<SourceGameV>
    decreases es.len(),
{
    if es.len() == 0 {
        cs
    } else {
        let acc = add_new_urls(cs, es.drop_last());
        if has_url(acc, es.last().download_url) {
            acc
        } else {
            acc.push(es.last())
        }
    }
}

/// `e` merged into the kept entry `first`: new download URLs join its
/// candidates and its best download is recomputed.
pub open spec fn absorb(first: MatchedGameV, e: MatchedGameV) -> MatchedGameV {
    let c = add_new_urls(first.candidates, e.candidates);
    MatchedGameV {
        normalized_title: first.normalized_title,
        raw_title: first.raw_title,
        candidates: c,
        best_download: best_download_spec(c),
    }
}

/// First kept entry with this normalized title.
pub open spec fn key_index(k: Seq<MatchedGameV>, key: Seq<char>, from: int) -> Option<int>
    decreases k.len() - from,
{
    if from < 0 || from >= k.len() {
        None
    } else if k[from].normalized_title == key {
        Some(from)
    } else {
        key_index(k, key, from + 1)
    }
}

/// Entries in order; one that repeats an earlier normalized title is
/// absorbed into the earlier one.
pub open spec fn dedupe_spec(ms: Seq<MatchedGameV>) -> Seq<MatchedGameV>
    decreases ms.len(),
{
    if ms.len() == 0 {
        Seq::empty()
    } else {
        let k = dedupe_spec(ms.drop_last());
        let e = ms.last();
        match key_index(k, e.normalized_title, 0) {
            Some(i) => k.update(i, absorb(k[i], e)),
            None => k.push(e),
        }
    }
}

pub proof fn lemma_key_index(k: Seq<MatchedGameV>, key: Seq<char>, from: int)
    ensures
        key_index(k, key, from) matches Some(i) ==> from <= i < k.len(),
    decreases k.len() - from,
{
    if from >= 0 && from < k.len() && k[from].normalized_title != key {
        lemma_key_index(k, key, from + 1);
    }
}

fn has_url_exec(cands: &Vec<SourceGame>, url: &String) -> (r: bool)
    ensures
        r == has_url(games_view(cands@), url@),
{
    let mut t: usize = 0;
    while t < cands.len()
        invariant
            t <= cands.len(),
            forall|x: int| 0 <= x < t ==> games_view(cands@)[x].download_url != url@,
        decreases cands.len() - t,
    {
        if cands[t].download_url == *url {
            assert(games_view(cands@)[t as int].download_url == url@);
            return true;
        }
        t += 1;
    }
    false
}

fn absorb_games(first: MatchedGame, e: &MatchedGame) -> (r: MatchedGame)
    ensures
        r@ == absorb(first@, e@),
{
    let mut cands = first.candidates;
    let ghost fc = games_view(cands@);
    let ghost ec = games_view(e.candidates@);
    let mut k: usize = 0;
    assert(ec.take(0) =~= Seq::<SourceGameV>::empty());
    while k < e.candidates.len()
        invariant
            k <= e.candidates.len(),
            ec == games_view(e.candidates@),
            games_view(cands@) == add_new_urls(fc, ec.take(k as int)),
        decreases e.candidates.len() - k,
    {
        let c = &e.candidates[k];
        let present = has_url_exec(&cands, &c.download_url);
        assert(ec.take(k + 1).drop_last() =~= ec.take(k as int));
        assert(ec.take(k + 1).last() == c@);
        if !present {
            cands.push(c.duplicate());
            assert(games_view(cands@) =~= add_new_urls(fc, ec.take(k as int)).push(c@));
        }
        k += 1;
    }
    assert(ec.take(e.candidates.len() as int) =~= ec);
    let best = best_download_of(&cands);
    MatchedGame {
        normalized_title: first.normalized_title,
        raw_title: first.raw_title,
        candidates: cands,
        best_download: best,
    }
}

fn dedupe_by_normalized(matched: &mut Vec<MatchedGame>)
    ensures
        matched_view(final(matched)@) == dedupe_spec(matched_view(old(matched)@)),
{
    let mut items: Vec<MatchedGame> = Vec::new();
    std::mem::swap(&mut items, matched);
    let ghost iv = matched_view(items@);
    let mut keep: Vec<MatchedGame> = Vec::new();
    let mut i: usize = 0;
    assert(iv.take(0) =~= Seq::<MatchedGameV>::empty());
    while i < items.len()
        invariant
            i <= items.len(),
            iv == matched_view(items@),
            matched_view(keep@) == dedupe_spec(iv.take(i as int)),
        decreases items.len() - i,
    {
        let e = &items[i];
        let ghost kv = matched_view(keep@);
        assert(iv.take(i + 1).drop_last() =~= iv.take(i as int));
        assert(iv.take(i + 1).last() == e@);
        let mut t: usize = 0;
        let mut found: Option<usize> = None;
        while t < keep.len()
            invariant
                t <= keep.len(),
                kv == matched_view(keep@),
                found is None ==> key_index(kv, e@.normalized_title, 0) == key_index(
                    kv,
                    e@.normalized_title,
                    t as int,
                ),
                found matches Some(x) ==> key_index(kv, e@.normalized_title, 0) == Some(x as int),
            decreases keep.len() - t,
        {
            if found.is_none() && keep[t].normalized_title == e.normalized_title {
                found = Some(t);
            }
            t += 1;
        }
        match found {
            Some(x) => {
                proof {
                    lemma_key_index(kv, e@.normalized_title, 0);
                }
                let first = keep[x].duplicate();
                let merged = absorb_games(first, e);
                keep.set(x, merged);
                assert(matched_view(keep@) =~= kv.update(x as int, absorb(kv[x as int], e@)));
            },
            None => {
                keep.push(e.duplicate());
                assert(matched_view(keep@) =~= kv.push(e@));
            },
        }
        i += 1;
    }
    assert(iv.take(items.len() as int) =~= iv);
    *matched = keep;
}

} // verus!

verus! {

/// Every Steamrip entry is paired greedily with its best unused
/// Steamunlocked counterpart; the rest stay single-source; games that
/// collapse to one normalized title are merged.
pub open spec fn exhaustive_spec(sr: Seq<SourceGameV>, su: Seq<SourceGameV>) -> Seq<MatchedGameV> {
    dedupe_spec(pre_dedupe(sr, su))
}

fn stripped_titles(gs: &Vec<SourceGame>) -> (r: Vec<Vec<char>>)
    ensures
        r.len() == gs.len(),
        forall|i: int| 0 <= i < gs.len() ==> #[trigger] r@[i]@ == strip_noise_spec(gs@[i].title@),
{
    let mut r: Vec<Vec<char>> = Vec::new();
    let mut i: usize = 0;
    while i < gs.len()
        invariant
            i <= gs.len(),
            r.len() == i,
            forall|k: int| 0 <= k < i ==> #[trigger] r@[k]@ == strip_noise_spec(gs@[k].title@),
        decreases gs.len() - i,
    {
        let s = strip_version_noise(gs[i].title.as_str());
        r.push(chars_of(s.as_str()));
        i += 1;
    }
    r
}

/// The greedy scan for one Steamrip entry.
fn find_partner(
    a: &Vec<char>,
    sut: &Vec<Vec<char>>,
    used: &Vec<bool>,
    Ghost(title): Ghost<Seq<char>>,
    Ghost(su): Ghost<Seq<SourceGameV>>,
) -> (r: Option<usize>)
    requires
        a@ == strip_noise_spec(title),
        sut.len() == su.len(),
        used.len() == su.len(),
        forall|i: int| 0 <= i < su.len() ==> #[trigger] sut@[i]@ == strip_noise_spec(su[i].title),
    ensures
        r matches Some(j) ==> best_partner(title, su, used@) == Some(j as int),
        r is None ==> best_partner(title, su, used@) is None,
{
    let mut best_j: Option<usize> = None;
    let mut best_r: u8 = 0;
    let mut j: usize = 0;
    while j < sut.len()
        invariant
            j <= sut.len(),
            sut.len() == su.len(),
            used.len() == su.len(),
            a@ == strip_noise_spec(title),
            forall|i: int| 0 <= i < su.len() ==> #[trigger] sut@[i]@ == strip_noise_spec(su[i].title),
            best_j is None ==> best_r == 0 && forall|k: int|
                0 <= k < j && !used@[k] ==> rank_titles(title, su[k].title) == 0,
            best_j matches Some(b) ==> {
                &&& b < j
                &&& !used@[b as int]
                &&& best_r == rank_titles(title, su[b as int].title)
                &&& best_r > 0
                &&& forall|k: int|
                    0 <= k < b && !used@[k] ==> rank_titles(title, su[k].title) < best_r
                &&& forall|k: int|
                    b < k < j && !used@[k] ==> rank_titles(title, su[k].title) <= best_r
            },
        decreases sut.len() - j,
    {
        if !used[j] {
            assert(sut@[j as int]@ == strip_noise_spec(su[j as int].title));
            let r = match_rank(similarity_of_chars(a, &sut[j]));
            if r > 0 && r > best_r {
                best_r = r;
                best_j = Some(j);
            }
        }
        j += 1;
    }
    match best_j {
        Some(b) => {
            proof {
                assert(is_best(title, su, used@, b as int));
                let c = choose|x: int| is_best(title, su, used@, x);
                lemma_best_unique(title, su, used@, c, b as int);
            }
            Some(b)
        },
        None => {
            proof {
                assert forall|x: int| !is_best(title, su, used@, x) by {
                    if 0 <= x < su.len() && !used@[x] {
                        assert(rank_titles(title, su[x].title) == 0);
                    }
                }
            }
            None
        },
    }
}

pub proof fn lemma_used_after_len(p: Seq<Option<int>>, m: nat)
    ensures
        used_after(p, m).len() == m,
    decreases p.len(),
{
    if p.len() > 0 {
        lemma_used_after_len(p.drop_last(), m);
    }
}

fn match_sources_exhaustive(steamrip: Vec<SourceGame>, steamunlocked: Vec<SourceGame>) -> (r: Vec<MatchedGame>)
    ensures
        matched_view(r@) == exhaustive_spec(games_view(steamrip@), games_view(steamunlocked@)),
{
    let ghost sr = games_view(steamrip@);
    let ghost su = games_view(steamunlocked@);
    let srt = stripped_titles(&steamrip);
    let sut = stripped_titles(&steamunlocked);
    let mut used_su: Vec<bool> = Vec::new();
    let mut z: usize = 0;
    while z < steamunlocked.len()
        invariant
            z <= steamunlocked.len(),
            used_su.len() == z,
            forall|k: int| 0 <= k < z ==> !#[trigger] used_su@[k],
        decreases steamunlocked.len() - z,
    {
        used_su.push(false);
        z += 1;
    }
    assert(used_su@ =~= used_after(Seq::empty(), su.len()));
    let mut paired_sr: Vec<bool> = Vec::new();
    let mut pairs: Vec<MatchedGame> = Vec::new();
    let ghost mut partners: Seq<Option<int>> = Seq::empty();
    let mut i: usize = 0;
    while i < steamrip.len()
        invariant
            i <= steamrip.len(),
            sr == games_view(steamrip@),
            su == games_view(steamunlocked@),
            srt.len() == steamrip.len(),
            sut.len() == steamunlocked.len(),
            forall|k: int| 0 <= k < sr.len() ==> #[trigger] srt@[k]@ == strip_noise_spec(sr[k].title),
            forall|k: int| 0 <= k < su.len() ==> #[trigger] sut@[k]@ == strip_noise_spec(su[k].title),
            partners == pairing(sr, su, i as int),
            partners.len() == i,
            used_su@ == used_after(partners, su.len()),
            used_su.len() == su.len(),
            paired_sr.len() == i,
            forall|k: int| 0 <= k < i ==> #[trigger] paired_sr@[k] == (partners[k] is Some),
            matched_view(pairs@) == paired_part(sr, su, partners),
        decreases steamrip.len() - i,
    {
        assert(srt@[i as int]@ == strip_noise_spec(sr[i as int].title));
        let best = find_partner(&srt[i], &sut, &used_su, Ghost(sr[i as int].title), Ghost(su));
        let ghost prev = partners;
        match best {
            Some(j) => {
                proof {
                    partners = partners.push(Some(j as int));
                }
                used_su.set(j, true);
                paired_sr.push(true);
                let mut two: Vec<SourceGame> = Vec::new();
                two.push(steamrip[i].duplicate());
                two.push(steamunlocked[j].duplicate());
                assert(games_view(two@) =~= seq![sr[i as int], su[j as int]]);
                let m = merge_candidates(two);
                let ghost pv0 = matched_view(pairs@);
                pairs.push(m);
                assert(matched_view(pairs@) =~= pv0.push(m@));
                proof {
                    lemma_used_after_len(prev, su.len());
                }
                assert(partners.drop_last() =~= prev);
                assert(matched_view(pairs@) =~= paired_part(sr, su, partners));
            },
            None => {
                proof {
                    partners = partners.push(None);
                }
                paired_sr.push(false);
                assert(partners.drop_last() =~= prev);
                proof {
                    lemma_used_after_len(prev, su.len());
                }
                assert(matched_view(pairs@) =~= paired_part(sr, su, partners));
            },
        }
        assert(partners =~= pairing(sr, su, i + 1));
        i += 1;
    }
    // unpaired Steamrip entries
    let mut lone: Vec<MatchedGame> = Vec::new();
    let mut k: usize = 0;
    assert(partners.take(0) =~= Seq::<Option<int>>::empty());
    while k < steamrip.len()
        invariant
            k <= steamrip.len(),
            sr == games_view(steamrip@),
            partners.len() == steamrip.len(),
            paired_sr.len() == steamrip.len(),
            forall|x: int| 0 <= x < steamrip.len() ==> #[trigger] paired_sr@[x] == (partners[x] is Some),
            matched_view(lone@) == lone_sr(sr, partners.take(k as int)),
        decreases steamrip.len() - k,
    {
        assert(partners.take(k + 1).drop_last() =~= partners.take(k as int));
        if !paired_sr[k] {
            let g = steamrip[k].duplicate();
            lone.push(single(g));
            assert(matched_view(lone@) =~= lone_sr(sr, partners.take(k as int)).push(
                single_spec(sr[k as int]),
            ));
        }
        k += 1;
    }
    assert(partners.take(steamrip.len() as int) =~= partners);
    let mut lone2: Vec<MatchedGame> = Vec::new();
    let mut k2: usize = 0;
    while k2 < steamunlocked.len()
        invariant
            k2 <= steamunlocked.len(),
            su == games_view(steamunlocked@),
            used_su.len() == steamunlocked.len(),
            matched_view(lone2@) == lone_su(su, used_su@, k2 as int),
        decreases steamunlocked.len() - k2,
    {
        if !used_su[k2] {
            let g = steamunlocked[k2].duplicate();
            lone2.push(single(g));
            assert(matched_view(lone2@) =~= lone_su(su, used_su@, k2 as int).push(
                single_spec(su[k2 as int]),
            ));
        }
        k2 += 1;
    }
    let ghost pv = matched_view(pairs@);
    let ghost lv = matched_view(lone@);
    let ghost l2v = matched_view(lone2@);
    let mut all = pairs;
    all.append(&mut lone);
    all.append(&mut lone2);
    assert(matched_view(all@) =~= pv + lv + l2v);
    assert(matched_view(all@) == pre_dedupe(sr, su));
    dedupe_by_normalized(&mut all);
    all
}

} // verus!

verus! {

// ---------------------------------------------------------------------------
// Full-catalog matching, bucketed by first character
// ---------------------------------------------------------------------------

pub open spec fn first_ascii_alnum(s: Seq<char>) -> Option<char>
    decreases s.len(),
{
    if s.len() == 0 {
        None
    } else if is_ascii_alnum(s[0]) {
        Some(s[0])
    } else {
        first_ascii_alnum(s.drop_first())
    }
}

/// The bucket of a title: the first ASCII alphanumeric character of its
/// noise-stripped form, or '#'.
pub open spec fn bucket_spec(t: Seq<char>) -> char {
    match first_ascii_alnum(strip_noise_spec(t)) {
        Some(c) => c,
        None => '#',
    }
}

/// Distinct buckets in order of first appearance.
pub open spec fn bucket_keys(gs: Seq<SourceGameV>) -> Seq<char>
    decreases gs.len(),
{
    if gs.len() == 0 {
        Seq::empty()
    } else {
        let k = bucket_keys(gs.drop_last());
        let b = bucket_spec(gs.last().title);
        if k.contains(b) {
            k
        } else {
            k.push(b)
        }
    }
}

/// The entries of one bucket, in order.
pub open spec fn members(gs: Seq<SourceGameV>, c: char) -> Seq<SourceGameV>
    decreases gs.len(),
{
    if gs.len() == 0 {
        Seq::empty()
    } else if bucket_spec(gs.last().title) == c {
        members(gs.drop_last(), c).push(gs.last())
    } else {
        members(gs.drop_last(), c)
    }
}

pub open spec fn singles(gs: Seq<SourceGameV>) -> Seq<MatchedGameV> {
    gs.map_values(|g: SourceGameV| single_spec(g))
}

/// Buckets present on both sides, matched exhaustively, in `ks` order.
pub open spec fn paired_buckets(
    ks: Seq<char>,
    sr: Seq<SourceGameV>,
    su: Seq<SourceGameV>,
    kus: Seq<char>,
) -> Seq<MatchedGameV>
    decreases ks.len(),
{
    if ks.len() == 0 {
        Seq::empty()
    } else {
        let rest = paired_buckets(ks.drop_last(), sr, su, kus);
        if kus.contains(ks.last()) {
            rest + exhaustive_spec(members(sr, ks.last()), members(su, ks.last()))
        } else {
            rest
        }
    }
}

/// Buckets of `gs` absent from `other`, as single-source games.
pub open spec fn lone_buckets(ks: Seq<char>, gs: Seq<SourceGameV>, other: Seq<char>) -> Seq<MatchedGameV>
    decreases ks.len(),
{
    if ks.len() == 0 {
        Seq::empty()
    } else {
        let rest = lone_buckets(ks.drop_last(), gs, other);
        if other.contains(ks.last()) {
            rest
        } else {
            rest + singles(members(gs, ks.last()))
        }
    }
}

/// Shared buckets first (Steamrip bucket order), then Steamrip-only
/// buckets, then Steamunlocked-only buckets.
pub open spec fn bucketed_spec(sr: Seq<SourceGameV>, su: Seq<SourceGameV>) -> Seq<MatchedGameV> {
    let ksr = bucket_keys(sr);
    let ksu = bucket_keys(su);
    paired_buckets(ksr, sr, su, ksu) + lone_buckets(ksr, sr, ksu) + lone_buckets(ksu, su, ksr)
}

fn bucket_of(title: &str) -> (c: char)
    ensures
        c == bucket_spec(title@),
{
    let s = strip_version_noise(title);
    let v = chars_of(s.as_str());
    let mut i: usize = 0;
    assert(v@.skip(0) =~= v@);
    while i < v.len()
        invariant
            i <= v.len(),
            v@ == strip_noise_spec(title@),
            first_ascii_alnum(v@) == first_ascii_alnum(v@.skip(i as int)),
        decreases v.len() - i,
    {
        if is_ascii_alphanumeric(v[i]) {
            assert(v@.skip(i as int)[0] == v@[i as int]);
            return v[i];
        }
        assert(v@.skip(i as int).drop_first() =~= v@.skip(i + 1));
        i += 1;
    }
    '#'
}

fn bucket_chars(gs: &Vec<SourceGame>) -> (r: Vec<char>)
    ensures
        r.len() == gs.len(),
        forall|i: int| 0 <= i < gs.len() ==> #[trigger] r@[i] == bucket_spec(gs@[i].title@),
{
    let mut r: Vec<char> = Vec::new();
    let mut i: usize = 0;
    while i < gs.len()
        invariant
            i <= gs.len(),
            r.len() == i,
            forall|k: int| 0 <= k < i ==> #[trigger] r@[k] == bucket_spec(gs@[k].title@),
        decreases gs.len() - i,
    {
        r.push(bucket_of(gs[i].title.as_str()));
        i += 1;
    }
    r
}

fn contains_char(v: &Vec<char>, c: char) -> (r: bool)
    ensures
        r == v@.contains(c),
{
    let mut i: usize = 0;
    while i < v.len()
        invariant
            i <= v.len(),
            forall|k: int| 0 <= k < i ==> v@[k] != c,
        decreases v.len() - i,
    {
        if v[i] == c {
            return true;
        }
        i += 1;
    }
    false
}

fn keys_of(gs: &Vec<SourceGame>, bs: &Vec<char>) -> (ks: Vec<char>)
    requires
        bs.len() == gs.len(),
        forall|i: int| 0 <= i < gs.len() ==> #[trigger] bs@[i] == bucket_spec(gs@[i].title@),
    ensures
        ks@ == bucket_keys(games_view(gs@)),
{
    let ghost gv = games_view(gs@);
    let mut ks: Vec<char> = Vec::new();
    let mut i: usize = 0;
    while i < gs.len()
        invariant
            i <= gs.len(),
            gv == games_view(gs@),
            bs.len() == gs.len(),
            forall|k: int| 0 <= k < gs.len() ==> #[trigger] bs@[k] == bucket_spec(gs@[k].title@),
            ks@ == bucket_keys(gv.take(i as int)),
        decreases gs.len() - i,
    {
        assert(gv.take(i + 1).drop_last() =~= gv.take(i as int));
        assert(gv.take(i + 1).last().title == gs@[i as int].title@);
        if !contains_char(&ks, bs[i]) {
            ks.push(bs[i]);
        }
        i += 1;
    }
    assert(gv.take(gs.len() as int) =~= gv);
    ks
}

fn members_of(gs: &Vec<SourceGame>, bs: &Vec<char>, c: char) -> (r: Vec<SourceGame>)
    requires
        bs.len() == gs.len(),
        forall|i: int| 0 <= i < gs.len() ==> #[trigger] bs@[i] == bucket_spec(gs@[i].title@),
    ensures
        games_view(r@) == members(games_view(gs@), c),
{
    let ghost gv = games_view(gs@);
    let mut r: Vec<SourceGame> = Vec::new();
    let mut i: usize = 0;
    while i < gs.len()
        invariant
            i <= gs.len(),
            gv == games_view(gs@),
            bs.len() == gs.len(),
            forall|k: int| 0 <= k < gs.len() ==> #[trigger] bs@[k] == bucket_spec(gs@[k].title@),
            games_view(r@) == members(gv.take(i as int), c),
        decreases gs.len() - i,
    {
        assert(gv.take(i + 1).drop_last() =~= gv.take(i as int));
        assert(gv.take(i + 1).last() == gs@[i as int]@);
        if bs[i] == c {
            let ghost before = games_view(r@);
            r.push(gs[i].duplicate());
            assert(games_view(r@) =~= before.push(gs@[i as int]@));
        }
        i += 1;
    }
    assert(gv.take(gs.len() as int) =~= gv);
    r
}

fn push_singles(out: &mut Vec<MatchedGame>, gs: Vec<SourceGame>)
    ensures
        matched_view(final(out)@) == matched_view(old(out)@) + singles(games_view(gs@)),
{
    let ghost start = matched_view(out@);
    let ghost gv = games_view(gs@);
    let mut i: usize = 0;
    while i < gs.len()
        invariant
            i <= gs.len(),
            gv == games_view(gs@),
            matched_view(out@) == start + singles(gv.take(i as int)),
        decreases gs.len() - i,
    {
        let ghost before = matched_view(out@);
        out.push(single(gs[i].duplicate()));
        assert(singles(gv.take(i + 1)) =~= singles(gv.take(i as int)).push(single_spec(gv[i as int])));
        assert(matched_view(out@) =~= before.push(single_spec(gv[i as int])));
        i += 1;
    }
    assert(gv.take(gs.len() as int) =~= gv);
}

/// Full-catalog variant: bucket both sides by their first alphanumeric char
/// (after noise-stripping) so matching cost is per-bucket, not global.
pub fn match_sources_bucketed(steamrip: Vec<SourceGame>, steamunlocked: Vec<SourceGame>) -> (r: Vec<MatchedGame>)
    ensures
        matched_view(r@) == bucketed_spec(games_view(steamrip@), games_view(steamunlocked@)),
{
    let ghost sr = games_view(steamrip@);
    let ghost su = games_view(steamunlocked@);
    let bsr = bucket_chars(&steamrip);
    let bsu = bucket_chars(&steamunlocked);
    let ksr = keys_of(&steamrip, &bsr);
    let ksu = keys_of(&steamunlocked, &bsu);
    let mut out: Vec<MatchedGame> = Vec::new();
    let mut t: usize = 0;
    while t < ksr.len()
        invariant
            t <= ksr.len(),
            sr == games_view(steamrip@),
            su == games_view(steamunlocked@),
            ksr@ == bucket_keys(sr),
            ksu@ == bucket_keys(su),
            bsr.len() == steamrip.len(),
            bsu.len() == steamunlocked.len(),
            forall|i: int| 0 <= i < steamrip.len() ==> #[trigger] bsr@[i] == bucket_spec(steamrip@[i].title@),
            forall|i: int| 0 <= i < steamunlocked.len() ==> #[trigger] bsu@[i] == bucket_spec(steamunlocked@[i].title@),
            matched_view(out@) == paired_buckets(ksr@.take(t as int), sr, su, ksu@),
        decreases ksr.len() - t,
    {
        let k = ksr[t];
        assert(ksr@.take(t + 1).drop_last() =~= ksr@.take(t as int));
        if contains_char(&ksu, k) {
            let a = members_of(&steamrip, &bsr, k);
            let b = members_of(&steamunlocked, &bsu, k);
            let mut m = match_sources_exhaustive(a, b);
            let ghost before = matched_view(out@);
            let ghost mv = matched_view(m@);
            out.append(&mut m);
            assert(matched_view(out@) =~= before + mv);
        }
        t += 1;
    }
    assert(ksr@.take(ksr.len() as int) =~= ksr@);
    let ghost part1 = matched_view(out@);
    let mut t2: usize = 0;
    while t2 < ksr.len()
        invariant
            t2 <= ksr.len(),
            sr == games_view(steamrip@),
            ksr@ == bucket_keys(sr),
            bsr.len() == steamrip.len(),
            forall|i: int| 0 <= i < steamrip.len() ==> #[trigger] bsr@[i] == bucket_spec(steamrip@[i].title@),
            matched_view(out@) == part1 + lone_buckets(ksr@.take(t2 as int), sr, ksu@),
        decreases ksr.len() - t2,
    {
        let k = ksr[t2];
        assert(ksr@.take(t2 + 1).drop_last() =~= ksr@.take(t2 as int));
        if !contains_char(&ksu, k) {
            let a = members_of(&steamrip, &bsr, k);
            push_singles(&mut out, a);
        }
        t2 += 1;
    }
    assert(ksr@.take(ksr.len() as int) =~= ksr@);
    let ghost part2 = matched_view(out@);
    let mut t3: usize = 0;
    while t3 < ksu.len()
        invariant
            t3 <= ksu.len(),
            su == games_view(steamunlocked@),
            ksu@ == bucket_keys(su),
            bsu.len() == steamunlocked.len(),
            forall|i: int| 0 <= i < steamunlocked.len() ==> #[trigger] bsu@[i] == bucket_spec(steamunlocked@[i].title@),
            matched_view(out@) == part2 + lone_buckets(ksu@.take(t3 as int), su, ksr@),
        decreases ksu.len() - t3,
    {
        let k = ksu[t3];
        assert(ksu@.take(t3 + 1).drop_last() =~= ksu@.take(t3 as int));
        if !contains_char(&ksr, k) {
            let a = members_of(&steamunlocked, &bsu, k);
            push_singles(&mut out, a);
        }
        t3 += 1;
    }
    assert(ksu@.take(ksu.len() as int) =~= ksu@);
    out
}

/// Catalogs whose pair count exceeds this are matched per bucket.
pub open spec fn bucket_threshold() -> int {
    4_000_000
}

/// All entries of both sources matched into games: exhaustively for small
/// inputs, per first-character bucket for full catalogs.
pub open spec fn match_sources_spec(sr: Seq<SourceGameV>, su: Seq<SourceGameV>) -> Seq<MatchedGameV> {
    if sr.len() * su.len() > bucket_threshold() {
        bucketed_spec(sr, su)
    } else {
        exhaustive_spec(sr, su)
    }
}

pub fn match_sources(steamrip: Vec<SourceGame>, steamunlocked: Vec<SourceGame>) -> (r: Vec<MatchedGame>)
    ensures
        matched_view(r@) == match_sources_spec(games_view(steamrip@), games_view(steamunlocked@)),
{
    let n = steamrip.len() as u128;
    let m = steamunlocked.len() as u128;
    assert(n * m <= 0xffff_ffff_ffff_ffff_ffff_ffff_ffff_ffff) by (nonlinear_arith)
        requires
            n <= 0xffff_ffff_ffff_ffff,
            m <= 0xffff_ffff_ffff_ffff,
    ;
    if n * m > 4_000_000 {
        return match_sources_bucketed(steamrip, steamunlocked);
    }
    match_sources_exhaustive(steamrip, steamunlocked)
}

} // verus!

verus! {

// ---------------------------------------------------------------------------
// Law: no scraped entry is lost
// ---------------------------------------------------------------------------

/// Some matched game offers a download with this URL.
pub open spec fn offers(ms: Seq<MatchedGameV>, url: Seq<char>) -> bool {
    exists|k: int| 0 <= k < ms.len() && has_url(#[trigger] ms[k].candidates, url)
}

proof fn lemma_offers_at(ms: Seq<MatchedGameV>, k: int, url: Seq<char>)
    requires
        0 <= k < ms.len(),
        has_url(ms[k].candidates, url),
    ensures
        offers(ms, url),
{
}

proof fn lemma_offers_concat(a: Seq<MatchedGameV>, b: Seq<MatchedGameV>, url: Seq<char>)
    ensures
        offers(a, url) ==> offers(a + b, url),
        offers(b, url) ==> offers(a + b, url),
{
    if offers(a, url) {
        let k = choose|k: int| 0 <= k < a.len() && has_url(#[trigger] a[k].candidates, url);
        assert((a + b)[k] == a[k]);
        lemma_offers_at(a + b, k, url);
    }
    if offers(b, url) {
        let k = choose|k: int| 0 <= k < b.len() && has_url(#[trigger] b[k].candidates, url);
        assert((a + b)[a.len() + k] == b[k]);
        lemma_offers_at(a + b, a.len() + k, url);
    }
}

proof fn lemma_offers_push(a: Seq<MatchedGameV>, e: MatchedGameV, url: Seq<char>)
    ensures
        offers(a, url) ==> offers(a.push(e), url),
        has_url(e.candidates, url) ==> offers(a.push(e), url),
{
    if offers(a, url) {
        let k = choose|k: int| 0 <= k < a.len() && has_url(#[trigger] a[k].candidates, url);
        assert(a.push(e)[k] == a[k]);
        lemma_offers_at(a.push(e), k, url);
    }
    if has_url(e.candidates, url) {
        assert(a.push(e)[a.len() as int] == e);
        lemma_offers_at(a.push(e), a.len() as int, url);
    }
}

proof fn lemma_add_new_urls_keeps(cs: Seq<SourceGameV>, es: Seq<SourceGameV>, url: Seq<char>)
    requires
        has_url(cs, url),
    ensures
        has_url(add_new_urls(cs, es), url),
    decreases es.len(),
{
    if es.len() > 0 {
        lemma_add_new_urls_keeps(cs, es.drop_last(), url);
        let acc = add_new_urls(cs, es.drop_last());
        let i = choose|i: int| 0 <= i < acc.len() && acc[i].download_url == url;
        if !has_url(acc, es.last().download_url) {
            assert(acc.push(es.last())[i] == acc[i]);
        }
    }
}

proof fn lemma_add_new_urls_adds(cs: Seq<SourceGameV>, es: Seq<SourceGameV>, j: int)
    requires
        0 <= j < es.len(),
    ensures
        has_url(add_new_urls(cs, es), es[j].download_url),
    decreases es.len(),
{
    let acc = add_new_urls(cs, es.drop_last());
    if j == es.len() - 1 {
        if !has_url(acc, es.last().download_url) {
            assert(acc.push(es.last())[acc.len() as int] == es.last());
        }
    } else {
        lemma_add_new_urls_adds(cs, es.drop_last(), j);
        assert(es.drop_last()[j] == es[j]);
        if !has_url(acc, es.last().download_url) {
            let i = choose|i: int| 0 <= i < acc.len() && acc[i].download_url == es[j].download_url;
            assert(acc.push(es.last())[i] == acc[i]);
        }
    }
}

/// The final merge keeps every offered URL.
proof fn lemma_dedupe_offers(ms: Seq<MatchedGameV>, url: Seq<char>)
    requires
        offers(ms, url),
    ensures
        offers(dedupe_spec(ms), url),
    decreases ms.len(),
{
    let w = choose|k: int| 0 <= k < ms.len() && has_url(#[trigger] ms[k].candidates, url);
    let k = dedupe_spec(ms.drop_last());
    let e = ms.last();
    if w < ms.len() - 1 {
        assert(ms.drop_last()[w] == ms[w]);
        lemma_offers_at(ms.drop_last(), w, url);
        lemma_dedupe_offers(ms.drop_last(), url);
        let v = choose|v: int| 0 <= v < k.len() && has_url(#[trigger] k[v].candidates, url);
        match key_index(k, e.normalized_title, 0) {
            Some(i) => {
                lemma_key_index(k, e.normalized_title, 0);
                let r = k.update(i, absorb(k[i], e));
                if v == i {
                    lemma_add_new_urls_keeps(k[i].candidates, e.candidates, url);
                    lemma_offers_at(r, i, url);
                } else {
                    assert(r[v] == k[v]);
                    lemma_offers_at(r, v, url);
                }
            },
            None => {
                lemma_offers_push(k, e, url);
            },
        }
    } else {
        let j = choose|j: int| 0 <= j < e.candidates.len() && e.candidates[j].download_url == url;
        match key_index(k, e.normalized_title, 0) {
            Some(i) => {
                lemma_key_index(k, e.normalized_title, 0);
                let r = k.update(i, absorb(k[i], e));
                lemma_add_new_urls_adds(k[i].candidates, e.candidates, j);
                lemma_offers_at(r, i, url);
            },
            None => {
                lemma_offers_push(k, e, url);
            },
        }
    }
}


proof fn lemma_pairing_len(sr: Seq<SourceGameV>, su: Seq<SourceGameV>, n: int)
    requires
        n >= 0,
    ensures
        pairing(sr, su, n).len() == n,
    decreases n,
{
    if n > 0 {
        lemma_pairing_len(sr, su, n - 1);
    }
}

proof fn lemma_pair_offers(a: SourceGameV, b: SourceGameV)
    ensures
        has_url(merge_spec(seq![a, b]).candidates, a.download_url),
        has_url(merge_spec(seq![a, b]).candidates, b.download_url),
        has_url(single_spec(a).candidates, a.download_url),
{
    assert(seq![a, b][0] == a);
    assert(seq![a, b][1] == b);
    assert(seq![a][0] == a);
}

proof fn lemma_paired_part_offers(sr: Seq<SourceGameV>, su: Seq<SourceGameV>, p: Seq<Option<int>>, i: int)
    requires
        0 <= i < p.len(),
        p[i] is Some,
    ensures
        offers(paired_part(sr, su, p), sr[i].download_url),
        offers(paired_part(sr, su, p), su[p[i].unwrap()].download_url),
    decreases p.len(),
{
    let rest = paired_part(sr, su, p.drop_last());
    if i == p.len() - 1 {
        let j = p[i].unwrap();
        lemma_pair_offers(sr[i], su[j]);
        lemma_offers_push(rest, merge_spec(seq![sr[i], su[j]]), sr[i].download_url);
        lemma_offers_push(rest, merge_spec(seq![sr[i], su[j]]), su[j].download_url);
    } else {
        assert(p.drop_last()[i] == p[i]);
        lemma_paired_part_offers(sr, su, p.drop_last(), i);
        match p.last() {
            Some(j) => {
                let e = merge_spec(seq![sr[p.len() - 1], su[j]]);
                lemma_offers_push(rest, e, sr[i].download_url);
                lemma_offers_push(rest, e, su[p[i].unwrap()].download_url);
            },
            None => {},
        }
    }
}

proof fn lemma_lone_sr_offers(sr: Seq<SourceGameV>, p: Seq<Option<int>>, i: int)
    requires
        0 <= i < p.len(),
        p[i] is None,
    ensures
        offers(lone_sr(sr, p), sr[i].download_url),
    decreases p.len(),
{
    let rest = lone_sr(sr, p.drop_last());
    if i == p.len() - 1 {
        lemma_pair_offers(sr[i], sr[i]);
        lemma_offers_push(rest, single_spec(sr[i]), sr[i].download_url);
    } else {
        assert(p.drop_last()[i] == p[i]);
        lemma_lone_sr_offers(sr, p.drop_last(), i);
        match p.last() {
            Some(j) => {},
            None => {
                lemma_offers_push(rest, single_spec(sr[p.len() - 1]), sr[i].download_url);
            },
        }
    }
}

proof fn lemma_used_by_some(p: Seq<Option<int>>, m: nat, j: int)
    requires
        0 <= j < m,
        used_after(p, m)[j],
    ensures
        exists|i: int| 0 <= i < p.len() && p[i] == Some(j),
    decreases p.len(),
{
    lemma_used_after_len(p, m);
    if p.len() == 0 {
        assert(!Seq::new(m, |x: int| false)[j]);
    } else {
        let u = used_after(p.drop_last(), m);
        lemma_used_after_len(p.drop_last(), m);
        if p.last() == Some(j) {
            assert(p[p.len() - 1] == Some(j));
        } else {
            assert(u[j]);
            lemma_used_by_some(p.drop_last(), m, j);
            let i = choose|i: int| 0 <= i < p.drop_last().len() && p.drop_last()[i] == Some(j);
            assert(p[i] == Some(j));
        }
    }
}

proof fn lemma_lone_su_offers(su: Seq<SourceGameV>, used: Seq<bool>, k: int, j: int)
    requires
        0 <= j < k,
        !used[j],
    ensures
        offers(lone_su(su, used, k), su[j].download_url),
    decreases k,
{
    let rest = lone_su(su, used, k - 1);
    if j == k - 1 {
        lemma_pair_offers(su[j], su[j]);
        lemma_offers_push(rest, single_spec(su[j]), su[j].download_url);
    } else {
        lemma_lone_su_offers(su, used, k - 1, j);
        if !used[k - 1] {
            lemma_offers_push(rest, single_spec(su[k - 1]), su[j].download_url);
        }
    }
}

/// Exhaustive matching keeps every entry of both sources.
proof fn lemma_exhaustive_offers(sr: Seq<SourceGameV>, su: Seq<SourceGameV>)
    ensures
        forall|i: int| 0 <= i < sr.len() ==> offers(exhaustive_spec(sr, su), #[trigger] sr[i].download_url),
        forall|j: int| 0 <= j < su.len() ==> offers(exhaustive_spec(sr, su), #[trigger] su[j].download_url),
{
    let p = pairing(sr, su, sr.len() as int);
    lemma_pairing_len(sr, su, sr.len() as int);
    let used = used_after(p, su.len());
    lemma_used_after_len(p, su.len());
    let a = paired_part(sr, su, p);
    let b = lone_sr(sr, p);
    let c = lone_su(su, used, su.len() as int);
    assert(pre_dedupe(sr, su) == a + b + c);
    assert forall|i: int| 0 <= i < sr.len() implies offers(exhaustive_spec(sr, su), #[trigger] sr[i].download_url) by {
        let u = sr[i].download_url;
        if p[i] is Some {
            lemma_paired_part_offers(sr, su, p, i);
            lemma_offers_concat(a, b, u);
        } else {
            lemma_lone_sr_offers(sr, p, i);
            lemma_offers_concat(a, b, u);
        }
        lemma_offers_concat(a + b, c, u);
        lemma_dedupe_offers(a + b + c, u);
    }
    assert forall|j: int| 0 <= j < su.len() implies offers(exhaustive_spec(sr, su), #[trigger] su[j].download_url) by {
        let u = su[j].download_url;
        if used[j] {
            lemma_used_by_some(p, su.len(), j);
            let i = choose|i: int| 0 <= i < p.len() && p[i] == Some(j);
            lemma_paired_part_offers(sr, su, p, i);
            lemma_offers_concat(a, b, u);
            lemma_offers_concat(a + b, c, u);
        } else {
            lemma_lone_su_offers(su, used, su.len() as int, j);
            lemma_offers_concat(a + b, c, u);
        }
        lemma_dedupe_offers(a + b + c, u);
    }
}

proof fn lemma_keys_contain(gs: Seq<SourceGameV>, i: int)
    requires
        0 <= i < gs.len(),
    ensures
        bucket_keys(gs).contains(bucket_spec(gs[i].title)),
    decreases gs.len(),
{
    let k = bucket_keys(gs.drop_last());
    let b = bucket_spec(gs.last().title);
    if i == gs.len() - 1 {
        if !k.contains(b) {
            assert(k.push(b)[k.len() as int] == b);
        }
    } else {
        assert(gs.drop_last()[i] == gs[i]);
        lemma_keys_contain(gs.drop_last(), i);
        if !k.contains(b) {
            let x = choose|x: int| 0 <= x < k.len() && k[x] == bucket_spec(gs[i].title);
            assert(k.push(b)[x] == k[x]);
        }
    }
}

proof fn lemma_member_at(gs: Seq<SourceGameV>, i: int)
    requires
        0 <= i < gs.len(),
    ensures
        exists|k: int|
            0 <= k < members(gs, bucket_spec(gs[i].title)).len() && #[trigger] members(
                gs,
                bucket_spec(gs[i].title),
            )[k] == gs[i],
    decreases gs.len(),
{
    let c = bucket_spec(gs[i].title);
    let m = members(gs.drop_last(), c);
    if i == gs.len() - 1 {
        assert(members(gs, c) == m.push(gs.last()));
        assert(members(gs, c)[m.len() as int] == gs[i]);
    } else {
        assert(gs.drop_last()[i] == gs[i]);
        lemma_member_at(gs.drop_last(), i);
        let k = choose|k: int| 0 <= k < m.len() && #[trigger] m[k] == gs[i];
        if bucket_spec(gs.last().title) == c {
            assert(m.push(gs.last())[k] == m[k]);
            assert(members(gs, c)[k] == gs[i]);
        } else {
            assert(members(gs, c)[k] == gs[i]);
        }
    }
}

proof fn lemma_lone_buckets_offers(ks: Seq<char>, gs: Seq<SourceGameV>, other: Seq<char>, c: char, k: int)
    requires
        ks.contains(c),
        !other.contains(c),
        0 <= k < members(gs, c).len(),
    ensures
        offers(lone_buckets(ks, gs, other), members(gs, c)[k].download_url),
    decreases ks.len(),
{
    let u = members(gs, c)[k].download_url;
    let rest = lone_buckets(ks.drop_last(), gs, other);
    if ks.last() == c {
        let ms = members(gs, c);
        assert(singles(ms)[k] == single_spec(ms[k]));
        lemma_pair_offers(ms[k], ms[k]);
        lemma_offers_at(singles(ms), k, u);
        lemma_offers_concat(rest, singles(ms), u);
    } else {
        let x = choose|x: int| 0 <= x < ks.len() && ks[x] == c;
        assert(ks.drop_last()[x] == c);
        lemma_lone_buckets_offers(ks.drop_last(), gs, other, c, k);
        if !other.contains(ks.last()) {
            lemma_offers_concat(rest, singles(members(gs, ks.last())), u);
        }
    }
}

proof fn lemma_paired_buckets_offers(
    ks: Seq<char>,
    sr: Seq<SourceGameV>,
    su: Seq<SourceGameV>,
    kus: Seq<char>,
    c: char,
    u: Seq<char>,
)
    requires
        ks.contains(c),
        kus.contains(c),
        offers(exhaustive_spec(members(sr, c), members(su, c)), u),
    ensures
        offers(paired_buckets(ks, sr, su, kus), u),
    decreases ks.len(),
{
    let rest = paired_buckets(ks.drop_last(), sr, su, kus);
    let last = ks.last();
    if last == c {
        lemma_offers_concat(rest, exhaustive_spec(members(sr, c), members(su, c)), u);
    } else {
        let x = choose|x: int| 0 <= x < ks.len() && ks[x] == c;
        assert(ks.drop_last()[x] == c);
        lemma_paired_buckets_offers(ks.drop_last(), sr, su, kus, c, u);
        if kus.contains(last) {
            lemma_offers_concat(rest, exhaustive_spec(members(sr, last), members(su, last)), u);
        }
    }
}

/// Bucketed matching keeps every entry of both sources.
proof fn lemma_bucketed_offers(sr: Seq<SourceGameV>, su: Seq<SourceGameV>)
    ensures
        forall|i: int| 0 <= i < sr.len() ==> offers(bucketed_spec(sr, su), #[trigger] sr[i].download_url),
        forall|j: int| 0 <= j < su.len() ==> offers(bucketed_spec(sr, su), #[trigger] su[j].download_url),
{
    let ksr = bucket_keys(sr);
    let ksu = bucket_keys(su);
    let a = paired_buckets(ksr, sr, su, ksu);
    let b = lone_buckets(ksr, sr, ksu);
    let d = lone_buckets(ksu, su, ksr);
    assert forall|i: int| 0 <= i < sr.len() implies offers(bucketed_spec(sr, su), #[trigger] sr[i].download_url) by {
        let u = sr[i].download_url;
        let c = bucket_spec(sr[i].title);
        lemma_keys_contain(sr, i);
        lemma_member_at(sr, i);
        let k = choose|k: int| 0 <= k < members(sr, c).len() && #[trigger] members(sr, c)[k] == sr[i];
        if ksu.contains(c) {
            lemma_exhaustive_offers(members(sr, c), members(su, c));
            assert(offers(exhaustive_spec(members(sr, c), members(su, c)), members(sr, c)[k].download_url));
            lemma_paired_buckets_offers(ksr, sr, su, ksu, c, u);
            lemma_offers_concat(a, b, u);
        } else {
            lemma_lone_buckets_offers(ksr, sr, ksu, c, k);
            lemma_offers_concat(a, b, u);
        }
        lemma_offers_concat(a + b, d, u);
    }
    assert forall|j: int| 0 <= j < su.len() implies offers(bucketed_spec(sr, su), #[trigger] su[j].download_url) by {
        let u = su[j].download_url;
        let c = bucket_spec(su[j].title);
        lemma_keys_contain(su, j);
        lemma_member_at(su, j);
        let k = choose|k: int| 0 <= k < members(su, c).len() && #[trigger] members(su, c)[k] == su[j];
        if ksr.contains(c) {
            lemma_exhaustive_offers(members(sr, c), members(su, c));
            assert(offers(exhaustive_spec(members(sr, c), members(su, c)), members(su, c)[k].download_url));
            lemma_paired_buckets_offers(ksr, sr, su, ksu, c, u);
            lemma_offers_concat(a, b, u);
            lemma_offers_concat(a + b, d, u);
        } else {
            lemma_lone_buckets_offers(ksu, su, ksr, c, k);
            lemma_offers_concat(a + b, d, u);
        }
    }
}

/// No scraped entry is lost: every entry of either source, paired or not,
/// is offered as a download by some matched game.
pub proof fn lemma_no_entry_lost(sr: Seq<SourceGameV>, su: Seq<SourceGameV>)
    ensures
        forall|i: int| 0 <= i < sr.len() ==> offers(match_sources_spec(sr, su), #[trigger] sr[i].download_url),
        forall|j: int| 0 <= j < su.len() ==> offers(match_sources_spec(sr, su), #[trigger] su[j].download_url),
{
    lemma_exhaustive_offers(sr, su);
    lemma_bucketed_offers(sr, su);
}

/// No two games share a normalized title.
pub open spec fn titles_distinct(ms: Seq<MatchedGameV>) -> bool {
    forall|i: int, j: int|
        0 <= i < j < ms.len() ==> (#[trigger] ms[i]).normalized_title != (#[trigger] ms[j]).normalized_title
}

proof fn lemma_key_index_none(k: Seq<MatchedGameV>, key: Seq<char>, from: int)
    requires
        from >= 0,
        key_index(k, key, from) is None,
    ensures
        forall|j: int| from <= j < k.len() ==> (#[trigger] k[j]).normalized_title != key,
    decreases k.len() - from,
{
    if from < k.len() {
        lemma_key_index_none(k, key, from + 1);
    }
}

proof fn lemma_dedupe_distinct(ms: Seq<MatchedGameV>)
    ensures
        titles_distinct(dedupe_spec(ms)),
    decreases ms.len(),
{
    if ms.len() > 0 {
        let k = dedupe_spec(ms.drop_last());
        let e = ms.last();
        lemma_dedupe_distinct(ms.drop_last());
        match key_index(k, e.normalized_title, 0) {
            Some(i) => {
                lemma_key_index(k, e.normalized_title, 0);
                let r = k.update(i, absorb(k[i], e));
                assert forall|a: int, b: int| 0 <= a < b < r.len() implies (#[trigger] r[a]).normalized_title
                    != (#[trigger] r[b]).normalized_title by {
                    assert(r[a].normalized_title == k[a].normalized_title);
                    assert(r[b].normalized_title == k[b].normalized_title);
                }
            },
            None => {
                lemma_key_index_none(k, e.normalized_title, 0);
                let r = k.push(e);
                assert forall|a: int, b: int| 0 <= a < b < r.len() implies (#[trigger] r[a]).normalized_title
                    != (#[trigger] r[b]).normalized_title by {
                    if b == k.len() {
                        assert(r[a] == k[a]);
                        assert(r[b] == e);
                    } else {
                        assert(r[a] == k[a]);
                        assert(r[b] == k[b]);
                    }
                }
            },
        }
    }
}

/// Games that collapse to one normalized title are merged: when both
/// sources are matched exhaustively (at most 4,000,000 pairs), no two
/// matched games share a normalized title.
pub proof fn lemma_titles_merged(sr: Seq<SourceGameV>, su: Seq<SourceGameV>)
    requires
        sr.len() * su.len() <= bucket_threshold(),
    ensures
        titles_distinct(match_sources_spec(sr, su)),
{
    lemma_dedupe_distinct(pre_dedupe(sr, su));
}

// ---------------------------------------------------------------------------
// Law: every matched game is well formed
// ---------------------------------------------------------------------------

/// A matched game has candidates, its normalized title is that of its raw
/// title, and its best download is the first candidate of maximal rank.
pub open spec fn game_ok(m: MatchedGameV) -> bool {
    &&& m.candidates.len() > 0
    &&& m.normalized_title == normalize_spec(m.raw_title)
    &&& m.best_download == best_download_spec(m.candidates)
}

pub open spec fn all_ok(ms: Seq<MatchedGameV>) -> bool {
    forall|k: int| 0 <= k < ms.len() ==> game_ok(#[trigger] ms[k])
}

/// The best candidate is one of them, and none ranks above it.
pub proof fn lemma_best_of(c: Seq<SourceGameV>)
    requires
        c.len() > 0,
    ensures
        exists|i: int| 0 <= i < c.len() && c[i] == best_of(c),
        forall|i: int| 0 <= i < c.len() ==> pick_rank_spec(#[trigger] c[i]) <= pick_rank_spec(best_of(c)),
    decreases c.len(),
{
    if c.len() == 1 {
        assert(c[0] == best_of(c));
    } else {
        let p = c.drop_last();
        lemma_best_of(p);
        let w = choose|i: int| 0 <= i < p.len() && p[i] == best_of(p);
        assert(c[w] == p[w]);
        if pick_rank_spec(best_of(p)) < pick_rank_spec(c.last()) {
            assert(c[c.len() - 1] == best_of(c));
        }
        assert forall|i: int| 0 <= i < c.len() implies pick_rank_spec(#[trigger] c[i]) <= pick_rank_spec(best_of(c)) by {
            if i < c.len() - 1 {
                assert(p[i] == c[i]);
            }
        }
    }
}

proof fn lemma_all_ok_concat(a: Seq<MatchedGameV>, b: Seq<MatchedGameV>)
    requires
        all_ok(a),
        all_ok(b),
    ensures
        all_ok(a + b),
{
    assert forall|k: int| 0 <= k < (a + b).len() implies game_ok(#[trigger] (a + b)[k]) by {
        if k < a.len() {
            assert((a + b)[k] == a[k]);
        } else {
            assert((a + b)[k] == b[k - a.len()]);
        }
    }
}

proof fn lemma_all_ok_push(a: Seq<MatchedGameV>, e: MatchedGameV)
    requires
        all_ok(a),
        game_ok(e),
    ensures
        all_ok(a.push(e)),
{
    assert forall|k: int| 0 <= k < a.push(e).len() implies game_ok(#[trigger] a.push(e)[k]) by {
        if k < a.len() {
            assert(a.push(e)[k] == a[k]);
        }
    }
}

proof fn lemma_single_ok(g: SourceGameV)
    ensures
        game_ok(single_spec(g)),
{
    reveal_with_fuel(best_of, 2);
    assert(seq![g][0] == g);
}

proof fn lemma_add_new_urls_len(cs: Seq<SourceGameV>, es: Seq<SourceGameV>)
    ensures
        add_new_urls(cs, es).len() >= cs.len(),
    decreases es.len(),
{
    if es.len() > 0 {
        lemma_add_new_urls_len(cs, es.drop_last());
    }
}

proof fn lemma_dedupe_ok(ms: Seq<MatchedGameV>)
    requires
        all_ok(ms),
    ensures
        all_ok(dedupe_spec(ms)),
    decreases ms.len(),
{
    if ms.len() > 0 {
        let p = ms.drop_last();
        assert(all_ok(p)) by {
            assert forall|k: int| 0 <= k < p.len() implies game_ok(#[trigger] p[k]) by {
                assert(p[k] == ms[k]);
            }
        }
        lemma_dedupe_ok(p);
        let k = dedupe_spec(p);
        let e = ms.last();
        assert(game_ok(ms[ms.len() - 1]));
        match key_index(k, e.normalized_title, 0) {
            Some(i) => {
                lemma_key_index(k, e.normalized_title, 0);
                assert(game_ok(k[i]));
                lemma_add_new_urls_len(k[i].candidates, e.candidates);
                let r = k.update(i, absorb(k[i], e));
                assert forall|q: int| 0 <= q < r.len() implies game_ok(#[trigger] r[q]) by {
                    if q != i {
                        assert(r[q] == k[q]);
                    }
                }
            },
            None => {
                lemma_all_ok_push(k, e);
            },
        }
    }
}

proof fn lemma_paired_part_ok(sr: Seq<SourceGameV>, su: Seq<SourceGameV>, p: Seq<Option<int>>)
    ensures
        all_ok(paired_part(sr, su, p)),
    decreases p.len(),
{
    if p.len() > 0 {
        lemma_paired_part_ok(sr, su, p.drop_last());
        match p.last() {
            Some(j) => {
                let c = seq![sr[p.len() - 1], su[j]];
                assert(c[0] == sr[p.len() - 1]);
                lemma_all_ok_push(paired_part(sr, su, p.drop_last()), merge_spec(c));
            },
            None => {},
        }
    }
}

proof fn lemma_lone_sr_ok(sr: Seq<SourceGameV>, p: Seq<Option<int>>)
    ensures
        all_ok(lone_sr(sr, p)),
    decreases p.len(),
{
    if p.len() > 0 {
        lemma_lone_sr_ok(sr, p.drop_last());
        if p.last() is None {
            lemma_single_ok(sr[p.len() - 1]);
            lemma_all_ok_push(lone_sr(sr, p.drop_last()), single_spec(sr[p.len() - 1]));
        }
    }
}

proof fn lemma_lone_su_ok(su: Seq<SourceGameV>, used: Seq<bool>, k: int)
    ensures
        all_ok(lone_su(su, used, k)),
    decreases k,
{
    if k > 0 {
        lemma_lone_su_ok(su, used, k - 1);
        if !used[k - 1] {
            lemma_single_ok(su[k - 1]);
            lemma_all_ok_push(lone_su(su, used, k - 1), single_spec(su[k - 1]));
        }
    }
}

proof fn lemma_exhaustive_ok(sr: Seq<SourceGameV>, su: Seq<SourceGameV>)
    ensures
        all_ok(exhaustive_spec(sr, su)),
{
    let p = pairing(sr, su, sr.len() as int);
    lemma_paired_part_ok(sr, su, p);
    lemma_lone_sr_ok(sr, p);
    lemma_lone_su_ok(su, used_after(p, su.len()), su.len() as int);
    lemma_all_ok_concat(paired_part(sr, su, p), lone_sr(sr, p));
    lemma_all_ok_concat(
        paired_part(sr, su, p) + lone_sr(sr, p),
        lone_su(su, used_after(p, su.len()), su.len() as int),
    );
    lemma_dedupe_ok(pre_dedupe(sr, su));
}

proof fn lemma_singles_ok(gs: Seq<SourceGameV>)
    ensures
        all_ok(singles(gs)),
{
    assert forall|k: int| 0 <= k < singles(gs).len() implies game_ok(#[trigger] singles(gs)[k]) by {
        lemma_single_ok(gs[k]);
    }
}

proof fn lemma_paired_buckets_ok(ks: Seq<char>, sr: Seq<SourceGameV>, su: Seq<SourceGameV>, kus: Seq<char>)
    ensures
        all_ok(paired_buckets(ks, sr, su, kus)),
    decreases ks.len(),
{
    if ks.len() > 0 {
        lemma_paired_buckets_ok(ks.drop_last(), sr, su, kus);
        if kus.contains(ks.last()) {
            lemma_exhaustive_ok(members(sr, ks.last()), members(su, ks.last()));
            lemma_all_ok_concat(
                paired_buckets(ks.drop_last(), sr, su, kus),
                exhaustive_spec(members(sr, ks.last()), members(su, ks.last())),
            );
        }
    }
}

proof fn lemma_lone_buckets_ok(ks: Seq<char>, gs: Seq<SourceGameV>, other: Seq<char>)
    ensures
        all_ok(lone_buckets(ks, gs, other)),
    decreases ks.len(),
{
    if ks.len() > 0 {
        lemma_lone_buckets_ok(ks.drop_last(), gs, other);
        if !other.contains(ks.last()) {
            lemma_singles_ok(members(gs, ks.last()));
            lemma_all_ok_concat(lone_buckets(ks.drop_last(), gs, other), singles(members(gs, ks.last())));
        }
    }
}

/// Every matched game has at least one candidate, a normalized title that
/// is its raw title normalized, and as best download the first candidate of
/// highest rank (a version beats none, then Steamrip), which no candidate
/// outranks.
pub proof fn lemma_matched_games_ok(sr: Seq<SourceGameV>, su: Seq<SourceGameV>)
    ensures
        all_ok(match_sources_spec(sr, su)),
{
    lemma_exhaustive_ok(sr, su);
    let ksr = bucket_keys(sr);
    let ksu = bucket_keys(su);
    lemma_paired_buckets_ok(ksr, sr, su, ksu);
    lemma_lone_buckets_ok(ksr, sr, ksu);
    lemma_lone_buckets_ok(ksu, su, ksr);
    lemma_all_ok_concat(paired_buckets(ksr, sr, su, ksu), lone_buckets(ksr, sr, ksu));
    lemma_all_ok_concat(paired_buckets(ksr, sr, su, ksu) + lone_buckets(ksr, sr, ksu), lone_buckets(ksu, su, ksr));
}

} // verus!

verus! {

// ---------------------------------------------------------------------------
// No entry repeated
// ---------------------------------------------------------------------------

/// How many entries have the property `f`.
pub open spec fn count_where(cs: Seq<SourceGameV>, f: spec_fn(SourceGameV) -> bool) -> nat
    decreases cs.len(),
{
    if cs.len() == 0 {
        0
    } else {
        count_where(cs.drop_last(), f) + if f(cs.last()) {
            1nat
        } else {
            0nat
        }
    }
}

/// How many candidates, over all matched games, have the property `f`.
pub open spec fn offered_where(ms: Seq<MatchedGameV>, f: spec_fn(SourceGameV) -> bool) -> nat
    decreases ms.len(),
{
    if ms.len() == 0 {
        0
    } else {
        offered_where(ms.drop_last(), f) + count_where(ms.last().candidates, f)
    }
}

proof fn lemma_count_where_push(cs: Seq<SourceGameV>, g: SourceGameV, f: spec_fn(SourceGameV) -> bool)
    ensures
        count_where(cs.push(g), f) == count_where(cs, f) + if f(g) {
            1nat
        } else {
            0nat
        },
{
    assert(cs.push(g).drop_last() =~= cs);
}

proof fn lemma_count_where_one(g: SourceGameV, f: spec_fn(SourceGameV) -> bool)
    ensures
        count_where(seq![g], f) == if f(g) {
            1nat
        } else {
            0nat
        },
{
    lemma_count_where_push(Seq::empty(), g, f);
    assert(Seq::<SourceGameV>::empty().push(g) =~= seq![g]);
}

proof fn lemma_count_where_two(a: SourceGameV, b: SourceGameV, f: spec_fn(SourceGameV) -> bool)
    ensures
        count_where(seq![a, b], f) == count_where(seq![a], f) + count_where(seq![b], f),
{
    lemma_count_where_one(a, f);
    lemma_count_where_one(b, f);
    lemma_count_where_push(seq![a], b, f);
    assert(seq![a].push(b) =~= seq![a, b]);
}

proof fn lemma_offered_where_push(ms: Seq<MatchedGameV>, e: MatchedGameV, f: spec_fn(SourceGameV) -> bool)
    ensures
        offered_where(ms.push(e), f) == offered_where(ms, f) + count_where(e.candidates, f),
{
    assert(ms.push(e).drop_last() =~= ms);
}

proof fn lemma_offered_where_concat(a: Seq<MatchedGameV>, b: Seq<MatchedGameV>, f: spec_fn(SourceGameV) -> bool)
    ensures
        offered_where(a + b, f) == offered_where(a, f) + offered_where(b, f),
    decreases b.len(),
{
    if b.len() == 0 {
        assert(a + b =~= a);
    } else {
        lemma_offered_where_concat(a, b.drop_last(), f);
        assert((a + b).drop_last() =~= a + b.drop_last());
        assert((a + b).last() == b.last());
    }
}

proof fn lemma_offered_where_update(ms: Seq<MatchedGameV>, i: int, e: MatchedGameV, f: spec_fn(SourceGameV) -> bool)
    requires
        0 <= i < ms.len(),
    ensures
        offered_where(ms.update(i, e), f) + count_where(ms[i].candidates, f) == offered_where(ms, f)
            + count_where(e.candidates, f),
    decreases ms.len(),
{
    if i == ms.len() - 1 {
        assert(ms.update(i, e).drop_last() =~= ms.drop_last());
    } else {
        lemma_offered_where_update(ms.drop_last(), i, e, f);
        assert(ms.update(i, e).drop_last() =~= ms.drop_last().update(i, e));
        assert(ms.drop_last()[i] == ms[i]);
    }
}

proof fn lemma_add_new_urls_count(cs: Seq<SourceGameV>, es: Seq<SourceGameV>, f: spec_fn(SourceGameV) -> bool)
    ensures
        count_where(add_new_urls(cs, es), f) <= count_where(cs, f) + count_where(es, f),
    decreases es.len(),
{
    if es.len() > 0 {
        lemma_add_new_urls_count(cs, es.drop_last(), f);
        let acc = add_new_urls(cs, es.drop_last());
        if !has_url(acc, es.last().download_url) {
            lemma_count_where_push(acc, es.last(), f);
        }
    }
}

proof fn lemma_dedupe_count(ms: Seq<MatchedGameV>, f: spec_fn(SourceGameV) -> bool)
    ensures
        offered_where(dedupe_spec(ms), f) <= offered_where(ms, f),
    decreases ms.len(),
{
    if ms.len() > 0 {
        lemma_dedupe_count(ms.drop_last(), f);
        let k = dedupe_spec(ms.drop_last());
        let e = ms.last();
        lemma_key_index(k, e.normalized_title, 0);
        match key_index(k, e.normalized_title, 0) {
            Some(i) => {
                lemma_offered_where_update(k, i, absorb(k[i], e), f);
                lemma_add_new_urls_count(k[i].candidates, e.candidates, f);
            },
            None => {
                lemma_offered_where_push(k, e, f);
            },
        }
    }
}

/// How many of the partners picked so far have the property `f`.
pub open spec fn partner_count(su: Seq<SourceGameV>, p: Seq<Option<int>>, f: spec_fn(SourceGameV) -> bool) -> nat
    decreases p.len(),
{
    if p.len() == 0 {
        0
    } else {
        partner_count(su, p.drop_last(), f) + match p.last() {
            Some(j) => if f(su[j]) {
                1nat
            } else {
                0nat
            },
            None => 0nat,
        }
    }
}

proof fn lemma_pair_and_lone_count(
    sr: Seq<SourceGameV>,
    su: Seq<SourceGameV>,
    p: Seq<Option<int>>,
    f: spec_fn(SourceGameV) -> bool,
)
    requires
        p.len() <= sr.len(),
    ensures
        offered_where(paired_part(sr, su, p), f) + offered_where(lone_sr(sr, p), f) == count_where(
            sr.take(p.len() as int),
            f,
        ) + partner_count(su, p, f),
    decreases p.len(),
{
    if p.len() == 0 {
        assert(sr.take(0) =~= Seq::<SourceGameV>::empty());
    } else {
        let q = p.drop_last();
        let i = p.len() - 1;
        lemma_pair_and_lone_count(sr, su, q, f);
        assert(sr.take(i) =~= sr.take(p.len() as int).drop_last());
        assert(sr.take(p.len() as int).last() == sr[i]);
        lemma_count_where_one(sr[i], f);
        match p.last() {
            Some(j) => {
                lemma_offered_where_push(paired_part(sr, su, q), merge_spec(seq![sr[i], su[j]]), f);
                lemma_count_where_two(sr[i], su[j], f);
                lemma_count_where_one(su[j], f);
            },
            None => {
                lemma_offered_where_push(lone_sr(sr, q), single_spec(sr[i]), f);
            },
        }
    }
}

proof fn lemma_lone_su_fresh(su: Seq<SourceGameV>, used: Seq<bool>, k: int, f: spec_fn(SourceGameV) -> bool)
    requires
        0 <= k <= su.len(),
        used.len() == su.len(),
        forall|j: int| 0 <= j < used.len() ==> !used[j],
    ensures
        offered_where(lone_su(su, used, k), f) == count_where(su.take(k), f),
    decreases k,
{
    if k == 0 {
        assert(su.take(0) =~= Seq::<SourceGameV>::empty());
    } else {
        lemma_lone_su_fresh(su, used, k - 1, f);
        lemma_offered_where_push(lone_su(su, used, k - 1), single_spec(su[k - 1]), f);
        lemma_count_where_one(su[k - 1], f);
        assert(su.take(k - 1) =~= su.take(k).drop_last());
        assert(su.take(k).last() == su[k - 1]);
    }
}

proof fn lemma_lone_su_take(su: Seq<SourceGameV>, used: Seq<bool>, j: int, k: int, f: spec_fn(SourceGameV) -> bool)
    requires
        0 <= j < used.len(),
        !used[j],
        0 <= k <= used.len(),
    ensures
        offered_where(lone_su(su, used.update(j, true), k), f) + (if j < k && f(su[j]) {
            1nat
        } else {
            0nat
        }) == offered_where(lone_su(su, used, k), f),
    decreases k,
{
    if k > 0 {
        lemma_lone_su_take(su, used, j, k - 1, f);
        let u2 = used.update(j, true);
        lemma_count_where_one(su[k - 1], f);
        if !used[k - 1] {
            lemma_offered_where_push(lone_su(su, used, k - 1), single_spec(su[k - 1]), f);
        }
        if !u2[k - 1] {
            lemma_offered_where_push(lone_su(su, u2, k - 1), single_spec(su[k - 1]), f);
        }
    }
}

proof fn lemma_pairing_count(sr: Seq<SourceGameV>, su: Seq<SourceGameV>, n: int, f: spec_fn(SourceGameV) -> bool)
    requires
        0 <= n <= sr.len(),
    ensures
        partner_count(su, pairing(sr, su, n), f) + offered_where(
            lone_su(su, used_after(pairing(sr, su, n), su.len()), su.len() as int),
            f,
        ) == count_where(su, f),
    decreases n,
{
    let m = su.len();
    if n == 0 {
        let used = used_after(Seq::<Option<int>>::empty(), m);
        assert(pairing(sr, su, 0) =~= Seq::<Option<int>>::empty());
        lemma_lone_su_fresh(su, used, m as int, f);
        assert(su.take(m as int) =~= su);
    } else {
        lemma_pairing_count(sr, su, n - 1, f);
        let q = pairing(sr, su, n - 1);
        let used = used_after(q, m);
        lemma_used_after_len(q, m);
        let b = best_partner(sr[n - 1].title, su, used);
        let p = pairing(sr, su, n);
        assert(p == q.push(b));
        assert(p.drop_last() =~= q);
        match b {
            Some(j) => {
                assert(is_best(sr[n - 1].title, su, used, j));
                lemma_lone_su_take(su, used, j, m as int, f);
                assert(used_after(p, m) == used.update(j, true));
            },
            None => {
                assert(used_after(p, m) == used);
            },
        }
    }
}

proof fn lemma_pre_dedupe_count(sr: Seq<SourceGameV>, su: Seq<SourceGameV>, f: spec_fn(SourceGameV) -> bool)
    ensures
        offered_where(pre_dedupe(sr, su), f) == count_where(sr, f) + count_where(su, f),
{
    let n = sr.len() as int;
    let p = pairing(sr, su, n);
    lemma_pairing_len(sr, su, n);
    lemma_pair_and_lone_count(sr, su, p, f);
    lemma_pairing_count(sr, su, n, f);
    assert(sr.take(n) =~= sr);
    let a = paired_part(sr, su, p);
    let b = lone_sr(sr, p);
    let c = lone_su(su, used_after(p, su.len()), su.len() as int);
    lemma_offered_where_concat(a, b, f);
    lemma_offered_where_concat(a + b, c, f);
}

/// No scraped entry is repeated: for any property of entries, the
/// candidates of all matched games hold no more entries with it than the two
/// sources list, whether the catalogs are matched exhaustively or per
/// bucket. With the sources' URLs distinct, each URL is therefore offered by
/// exactly one candidate (`lemma_no_entry_lost` gives at least one).
pub proof fn lemma_no_entry_repeated(sr: Seq<SourceGameV>, su: Seq<SourceGameV>, f: spec_fn(SourceGameV) -> bool)
    ensures
        offered_where(match_sources_spec(sr, su), f) <= count_where(sr, f) + count_where(su, f),
{
    lemma_exhaustive_count(sr, su, f);
    lemma_bucketed_count(sr, su, f);
}


/// How many entries have the property `f` and fall in one of these
/// buckets.
pub open spec fn count_in(gs: Seq<SourceGameV>, f: spec_fn(SourceGameV) -> bool, p: Set<char>) -> nat
    decreases gs.len(),
{
    if gs.len() == 0 {
        0
    } else {
        count_in(gs.drop_last(), f, p) + if f(gs.last()) && p.contains(
            bucket_spec(gs.last().title),
        ) {
            1nat
        } else {
            0nat
        }
    }
}

/// The buckets a key list names.
pub open spec fn keyset(ks: Seq<char>) -> Set<char> {
    Set::new(|c: char| ks.contains(c))
}

proof fn lemma_count_in_split(gs: Seq<SourceGameV>, f: spec_fn(SourceGameV) -> bool, p: Set<char>, q: Set<char>)
    requires
        p.disjoint(q),
    ensures
        count_in(gs, f, p.union(q)) == count_in(gs, f, p) + count_in(gs, f, q),
    decreases gs.len(),
{
    if gs.len() > 0 {
        lemma_count_in_split(gs.drop_last(), f, p, q);
        let b = bucket_spec(gs.last().title);
        if p.contains(b) {
            assert(!q.contains(b));
        }
    }
}

proof fn lemma_count_in_all(gs: Seq<SourceGameV>, f: spec_fn(SourceGameV) -> bool, p: Set<char>)
    requires
        forall|i: int| 0 <= i < gs.len() ==> p.contains(bucket_spec(#[trigger] gs[i].title)),
    ensures
        count_in(gs, f, p) == count_where(gs, f),
    decreases gs.len(),
{
    if gs.len() > 0 {
        let d = gs.drop_last();
        assert forall|i: int| 0 <= i < d.len() implies p.contains(bucket_spec(#[trigger] d[i].title)) by {
            assert(d[i] == gs[i]);
        }
        lemma_count_in_all(d, f, p);
        assert(p.contains(bucket_spec(gs[gs.len() - 1].title)));
    }
}

proof fn lemma_members_count(gs: Seq<SourceGameV>, f: spec_fn(SourceGameV) -> bool, c: char)
    ensures
        count_where(members(gs, c), f) == count_in(gs, f, set![c]),
    decreases gs.len(),
{
    if gs.len() > 0 {
        lemma_members_count(gs.drop_last(), f, c);
        if bucket_spec(gs.last().title) == c {
            lemma_count_where_push(members(gs.drop_last(), c), gs.last(), f);
        }
    }
}

proof fn lemma_singles_count(m: Seq<SourceGameV>, f: spec_fn(SourceGameV) -> bool)
    ensures
        offered_where(singles(m), f) == count_where(m, f),
    decreases m.len(),
{
    if m.len() > 0 {
        lemma_singles_count(m.drop_last(), f);
        assert(singles(m) =~= singles(m.drop_last()).push(single_spec(m.last())));
        lemma_offered_where_push(singles(m.drop_last()), single_spec(m.last()), f);
        lemma_count_where_one(m.last(), f);
    }
}

/// No bucket is listed twice.
pub open spec fn keys_distinct(ks: Seq<char>) -> bool {
    forall|i: int, j: int| 0 <= i < j < ks.len() ==> ks[i] != ks[j]
}

proof fn lemma_bucket_keys_distinct(gs: Seq<SourceGameV>)
    ensures
        keys_distinct(bucket_keys(gs)),
    decreases gs.len(),
{
    if gs.len() > 0 {
        lemma_bucket_keys_distinct(gs.drop_last());
        let k = bucket_keys(gs.drop_last());
        let b = bucket_spec(gs.last().title);
        if !k.contains(b) {
            let k2 = k.push(b);
            assert forall|i: int, j: int| 0 <= i < j < k2.len() implies k2[i] != k2[j] by {
                if j == k.len() {
                    assert(k2[i] == k[i]);
                    if k[i] == b {
                        assert(k.contains(b));
                    }
                } else {
                    assert(k2[i] == k[i] && k2[j] == k[j]);
                }
            }
        }
    }
}

proof fn lemma_keyset_push(ks: Seq<char>, x: char)
    ensures
        keyset(ks.push(x)) == keyset(ks).insert(x),
{
    assert forall|c: char| #[trigger] keyset(ks.push(x)).contains(c) == keyset(ks).insert(x).contains(c) by {
        if ks.contains(c) {
            let i = choose|i: int| 0 <= i < ks.len() && ks[i] == c;
            assert(ks.push(x)[i] == c);
        }
        if c == x {
            assert(ks.push(x)[ks.len() as int] == x);
        }
        if ks.push(x).contains(c) {
            let i = choose|i: int| 0 <= i < ks.push(x).len() && ks.push(x)[i] == c;
            if i < ks.len() {
                assert(ks[i] == c);
            }
        }
    }
    assert(keyset(ks.push(x)) =~= keyset(ks).insert(x));
}

proof fn lemma_exhaustive_count(sr: Seq<SourceGameV>, su: Seq<SourceGameV>, f: spec_fn(SourceGameV) -> bool)
    ensures
        offered_where(exhaustive_spec(sr, su), f) <= count_where(sr, f) + count_where(su, f),
{
    lemma_pre_dedupe_count(sr, su, f);
    lemma_dedupe_count(pre_dedupe(sr, su), f);
}

proof fn lemma_paired_buckets_count(
    ks: Seq<char>,
    sr: Seq<SourceGameV>,
    su: Seq<SourceGameV>,
    kus: Seq<char>,
    f: spec_fn(SourceGameV) -> bool,
)
    requires
        keys_distinct(ks),
    ensures
        offered_where(paired_buckets(ks, sr, su, kus), f) <= count_in(
            sr,
            f,
            keyset(ks).intersect(keyset(kus)),
        ) + count_in(su, f, keyset(ks).intersect(keyset(kus))),
    decreases ks.len(),
{
    if ks.len() == 0 {
        let e = keyset(ks).intersect(keyset(kus));
        assert(e =~= Set::<char>::empty());
        lemma_count_in_zero(sr, f, e);
        lemma_count_in_zero(su, f, e);
    } else {
        let d = ks.drop_last();
        let x = ks.last();
        assert(keys_distinct(d)) by {
            assert forall|i: int, j: int| 0 <= i < j < d.len() implies d[i] != d[j] by {
                assert(d[i] == ks[i] && d[j] == ks[j]);
            }
        }
        lemma_paired_buckets_count(d, sr, su, kus, f);
        let rest = paired_buckets(d, sr, su, kus);
        let pd = keyset(d).intersect(keyset(kus));
        assert(ks == d.push(x));
        lemma_keyset_push(d, x);
        if kus.contains(x) {
            let ex = exhaustive_spec(members(sr, x), members(su, x));
            lemma_offered_where_concat(rest, ex, f);
            lemma_exhaustive_count(members(sr, x), members(su, x), f);
            lemma_members_count(sr, f, x);
            lemma_members_count(su, f, x);
            assert(!keyset(d).contains(x)) by {
                if d.contains(x) {
                    let i = choose|i: int| 0 <= i < d.len() && d[i] == x;
                    assert(ks[i] == ks[ks.len() - 1]);
                }
            }
            assert(pd.disjoint(set![x]));
            assert(keyset(ks).intersect(keyset(kus)) =~= pd.union(set![x]));
            lemma_count_in_split(sr, f, pd, set![x]);
            lemma_count_in_split(su, f, pd, set![x]);
        } else {
            assert(keyset(ks).intersect(keyset(kus)) =~= pd);
        }
    }
}

proof fn lemma_count_in_zero(gs: Seq<SourceGameV>, f: spec_fn(SourceGameV) -> bool, p: Set<char>)
    requires
        p =~= Set::<char>::empty(),
    ensures
        count_in(gs, f, p) == 0,
    decreases gs.len(),
{
    if gs.len() > 0 {
        lemma_count_in_zero(gs.drop_last(), f, p);
    }
}

proof fn lemma_lone_buckets_count(ks: Seq<char>, gs: Seq<SourceGameV>, other: Seq<char>, f: spec_fn(SourceGameV) -> bool)
    requires
        keys_distinct(ks),
    ensures
        offered_where(lone_buckets(ks, gs, other), f) == count_in(
            gs,
            f,
            keyset(ks).difference(keyset(other)),
        ),
    decreases ks.len(),
{
    if ks.len() == 0 {
        let e = keyset(ks).difference(keyset(other));
        assert(e =~= Set::<char>::empty());
        lemma_count_in_zero(gs, f, e);
    } else {
        let d = ks.drop_last();
        let x = ks.last();
        assert(keys_distinct(d)) by {
            assert forall|i: int, j: int| 0 <= i < j < d.len() implies d[i] != d[j] by {
                assert(d[i] == ks[i] && d[j] == ks[j]);
            }
        }
        lemma_lone_buckets_count(d, gs, other, f);
        let rest = lone_buckets(d, gs, other);
        let pd = keyset(d).difference(keyset(other));
        assert(ks == d.push(x));
        lemma_keyset_push(d, x);
        if other.contains(x) {
            assert(keyset(ks).difference(keyset(other)) =~= pd);
        } else {
            lemma_offered_where_concat(rest, singles(members(gs, x)), f);
            lemma_singles_count(members(gs, x), f);
            lemma_members_count(gs, f, x);
            assert(!keyset(d).contains(x)) by {
                if d.contains(x) {
                    let i = choose|i: int| 0 <= i < d.len() && d[i] == x;
                    assert(ks[i] == ks[ks.len() - 1]);
                }
            }
            assert(keyset(other).contains(x) == false);
            assert(pd.disjoint(set![x]));
            assert(keyset(ks).difference(keyset(other)) =~= pd.union(set![x]));
            lemma_count_in_split(gs, f, pd, set![x]);
        }
    }
}

proof fn lemma_bucketed_count(sr: Seq<SourceGameV>, su: Seq<SourceGameV>, f: spec_fn(SourceGameV) -> bool)
    ensures
        offered_where(bucketed_spec(sr, su), f) <= count_where(sr, f) + count_where(su, f),
{
    let ksr = bucket_keys(sr);
    let ksu = bucket_keys(su);
    let a = keyset(ksr);
    let b = keyset(ksu);
    lemma_bucket_keys_distinct(sr);
    lemma_bucket_keys_distinct(su);
    let p1 = paired_buckets(ksr, sr, su, ksu);
    let p2 = lone_buckets(ksr, sr, ksu);
    let p3 = lone_buckets(ksu, su, ksr);
    lemma_offered_where_concat(p1, p2, f);
    lemma_offered_where_concat(p1 + p2, p3, f);
    lemma_paired_buckets_count(ksr, sr, su, ksu, f);
    lemma_lone_buckets_count(ksr, sr, ksu, f);
    lemma_lone_buckets_count(ksu, su, ksr, f);
    assert(a.intersect(b).disjoint(a.difference(b)));
    assert(a.intersect(b).union(a.difference(b)) =~= a);
    lemma_count_in_split(sr, f, a.intersect(b), a.difference(b));
    assert(a.intersect(b).disjoint(b.difference(a)));
    assert(a.intersect(b).union(b.difference(a)) =~= b);
    lemma_count_in_split(su, f, a.intersect(b), b.difference(a));
    assert forall|i: int| 0 <= i < sr.len() implies a.contains(bucket_spec(#[trigger] sr[i].title)) by {
        lemma_keys_contain(sr, i);
    }
    assert forall|i: int| 0 <= i < su.len() implies b.contains(bucket_spec(#[trigger] su[i].title)) by {
        lemma_keys_contain(su, i);
    }
    lemma_count_in_all(sr, f, a);
    lemma_count_in_all(su, f, b);
}

/// The entries with this download URL.
pub open spec fn has_download(url: Seq<char>) -> spec_fn(SourceGameV) -> bool {
    |g: SourceGameV| g.download_url == url
}

/// No two entries share a download URL.
pub open spec fn urls_distinct(gs: Seq<SourceGameV>) -> bool {
    forall|i: int, j: int|
        0 <= i < j < gs.len() ==> (#[trigger] gs[i]).download_url != (#[trigger] gs[j]).download_url
}

/// The entries equal to `g`.
pub open spec fn same_entry(g: SourceGameV) -> spec_fn(SourceGameV) -> bool {
    |x: SourceGameV| x == g
}

proof fn lemma_count_where_concat(a: Seq<SourceGameV>, b: Seq<SourceGameV>, f: spec_fn(SourceGameV) -> bool)
    ensures
        count_where(a + b, f) == count_where(a, f) + count_where(b, f),
    decreases b.len(),
{
    if b.len() == 0 {
        assert(a + b =~= a);
    } else {
        lemma_count_where_concat(a, b.drop_last(), f);
        assert((a + b).drop_last() =~= a + b.drop_last());
        assert((a + b).last() == b.last());
    }
}

proof fn lemma_count_where_pos(cs: Seq<SourceGameV>, f: spec_fn(SourceGameV) -> bool)
    ensures
        count_where(cs, f) >= 1 <==> exists|i: int| 0 <= i < cs.len() && f(cs[i]),
    decreases cs.len(),
{
    if cs.len() > 0 {
        let d = cs.drop_last();
        lemma_count_where_pos(d, f);
        if count_where(d, f) >= 1 {
            let i = choose|i: int| 0 <= i < d.len() && f(d[i]);
            assert(cs[i] == d[i]);
        }
        if f(cs.last()) {
            assert(f(cs[cs.len() - 1]));
        }
        if exists|i: int| 0 <= i < cs.len() && f(cs[i]) {
            let i = choose|i: int| 0 <= i < cs.len() && f(cs[i]);
            if i < cs.len() - 1 {
                assert(d[i] == cs[i]);
            }
        }
    }
}

proof fn lemma_count_where_at_most_one(cs: Seq<SourceGameV>, g: SourceGameV)
    requires
        urls_distinct(cs),
    ensures
        count_where(cs, same_entry(g)) <= 1,
    decreases cs.len(),
{
    if cs.len() > 0 {
        let d = cs.drop_last();
        assert(urls_distinct(d)) by {
            assert forall|i: int, j: int| 0 <= i < j < d.len() implies (#[trigger] d[i]).download_url
                != (#[trigger] d[j]).download_url by {
                assert(d[i] == cs[i] && d[j] == cs[j]);
            }
        }
        lemma_count_where_at_most_one(d, g);
        if cs.last() == g && count_where(d, same_entry(g)) >= 1 {
            lemma_count_where_pos(d, same_entry(g));
            let i = choose|i: int| 0 <= i < d.len() && same_entry(g)(d[i]);
            assert(cs[i] == d[i]);
            assert(cs[i].download_url != cs[cs.len() - 1].download_url);
        }
    }
}

proof fn lemma_offered_where_at(ms: Seq<MatchedGameV>, k: int, f: spec_fn(SourceGameV) -> bool)
    requires
        0 <= k < ms.len(),
    ensures
        offered_where(ms, f) >= count_where(ms[k].candidates, f),
    decreases ms.len(),
{
    if k < ms.len() - 1 {
        lemma_offered_where_at(ms.drop_last(), k, f);
        assert(ms.drop_last()[k] == ms[k]);
    }
}

/// Matching neither loses nor repeats an entry: when the two catalogs list
/// no download URL twice, the candidates of the matched games hold every
/// entry exactly as often as the two sources do (a permutation of both
/// sources), so each scraped entry is offered exactly once.
pub proof fn lemma_each_entry_once(sr: Seq<SourceGameV>, su: Seq<SourceGameV>)
    requires
        urls_distinct(sr + su),
    ensures
        forall|g: SourceGameV|
            #[trigger] offered_where(match_sources_spec(sr, su), same_entry(g)) == count_where(
                sr + su,
                same_entry(g),
            ),
        forall|i: int|
            0 <= i < (sr + su).len() ==> offered_where(
                match_sources_spec(sr, su),
                same_entry(#[trigger] (sr + su)[i]),
            ) == 1,
{
    let all = sr + su;
    let r = match_sources_spec(sr, su);
    lemma_no_entry_lost(sr, su);
    assert forall|g: SourceGameV| #[trigger] offered_where(r, same_entry(g)) == count_where(all, same_entry(g)) by {
        lemma_no_entry_repeated(sr, su, same_entry(g));
        lemma_count_where_concat(sr, su, same_entry(g));
        lemma_count_where_at_most_one(all, g);
        if count_where(all, same_entry(g)) >= 1 {
            lemma_count_where_pos(all, same_entry(g));
            let i = choose|i: int| 0 <= i < all.len() && same_entry(g)(all[i]);
            assert(all[i] == g);
            if i < sr.len() {
                assert(all[i] == sr[i]);
                assert(offers(r, sr[i].download_url));
            } else {
                assert(all[i] == su[i - sr.len()]);
                assert(offers(r, su[i - sr.len()].download_url));
            }
            let url = g.download_url;
            let k = choose|k: int| 0 <= k < r.len() && has_url(#[trigger] r[k].candidates, url);
            let cands = r[k].candidates;
            let ci = choose|ci: int| 0 <= ci < cands.len() && cands[ci].download_url == url;
            let c = cands[ci];
            assert(same_entry(c)(cands[ci]));
            lemma_count_where_pos(cands, same_entry(c));
            lemma_offered_where_at(r, k, same_entry(c));
            lemma_no_entry_repeated(sr, su, same_entry(c));
            lemma_count_where_concat(sr, su, same_entry(c));
            lemma_count_where_pos(all, same_entry(c));
            let ic = choose|ic: int| 0 <= ic < all.len() && same_entry(c)(all[ic]);
            assert(all[ic] == c);
            if ic < i {
                assert(all[ic].download_url != all[i].download_url);
            } else if i < ic {
                assert(all[i].download_url != all[ic].download_url);
            }
            assert(c == g);
            lemma_count_where_pos(cands, same_entry(g));
            lemma_offered_where_at(r, k, same_entry(g));
        }
    }
    assert forall|i: int| 0 <= i < all.len() implies offered_where(r, same_entry(#[trigger] all[i])) == 1 by {
        let g = all[i];
        assert(same_entry(g)(all[i]));
        lemma_count_where_pos(all, same_entry(g));
        lemma_count_where_at_most_one(all, g);
        assert(offered_where(r, same_entry(g)) == count_where(all, same_entry(g)));
    }
}


/// The best candidate is the first one of maximal rank.
proof fn lemma_best_first_max(c: Seq<SourceGameV>) -> (i: int)
    requires
        c.len() > 0,
    ensures
        0 <= i < c.len(),
        c[i] == best_of(c),
        forall|j: int| 0 <= j < c.len() ==> pick_rank_spec(#[trigger] c[j]) <= pick_rank_spec(c[i]),
        forall|j: int| 0 <= j < i ==> pick_rank_spec(#[trigger] c[j]) < pick_rank_spec(c[i]),
    decreases c.len(),
{
    if c.len() == 1 {
        0
    } else {
        let p = c.drop_last();
        let w = lemma_best_first_max(p);
        assert(c[w] == p[w]);
        assert forall|j: int| 0 <= j < c.len() - 1 implies #[trigger] c[j] == p[j] by {}
        if pick_rank_spec(best_of(p)) >= pick_rank_spec(c.last()) {
            w
        } else {
            c.len() - 1
        }
    }
}

/// The matching law: when two catalogs small enough to be matched
/// exhaustively list no download URL twice, the matched games' candidates
/// are a permutation of both sources, no two games share a normalized
/// title, and every game has candidates, the normalized form of its raw
/// title, and as its best download the first candidate of maximal rank.
pub proof fn lemma_matching_law(sr: Seq<SourceGameV>, su: Seq<SourceGameV>)
    requires
        sr.len() * su.len() <= bucket_threshold(),
        urls_distinct(sr + su),
    ensures
        forall|g: SourceGameV|
            #[trigger] offered_where(match_sources_spec(sr, su), same_entry(g)) == count_where(
                sr + su,
                same_entry(g),
            ),
        titles_distinct(match_sources_spec(sr, su)),
        forall|k: int|
            0 <= k < match_sources_spec(sr, su).len() ==> {
                let m = #[trigger] match_sources_spec(sr, su)[k];
                &&& m.candidates.len() > 0
                &&& m.normalized_title == normalize_spec(m.raw_title)
                &&& exists|i: int|
                    0 <= i < m.candidates.len() && m.best_download == candidate_of(m.candidates[i])
                        && (forall|j: int|
                        0 <= j < m.candidates.len() ==> pick_rank_spec(#[trigger] m.candidates[j])
                            <= pick_rank_spec(m.candidates[i])) && (forall|j: int|
                        0 <= j < i ==> pick_rank_spec(#[trigger] m.candidates[j]) < pick_rank_spec(
                            m.candidates[i],
                        ))
            },
{
    let r = match_sources_spec(sr, su);
    lemma_each_entry_once(sr, su);
    lemma_titles_merged(sr, su);
    lemma_matched_games_ok(sr, su);
    assert forall|k: int| 0 <= k < r.len() implies {
        let m = #[trigger] r[k];
        &&& m.candidates.len() > 0
        &&& m.normalized_title == normalize_spec(m.raw_title)
        &&& exists|i: int|
            0 <= i < m.candidates.len() && m.best_download == candidate_of(m.candidates[i])
                && (forall|j: int|
                0 <= j < m.candidates.len() ==> pick_rank_spec(#[trigger] m.candidates[j])
                    <= pick_rank_spec(m.candidates[i])) && (forall|j: int|
                0 <= j < i ==> pick_rank_spec(#[trigger] m.candidates[j]) < pick_rank_spec(
                    m.candidates[i],
                ))
    } by {
        let m = r[k];
        assert(game_ok(m));
        let i = lemma_best_first_max(m.candidates);
        assert(m.best_download == candidate_of(m.candidates[i]));
    }
}


/// A Steamrip entry and a Steamunlocked entry whose noise-stripped titles
/// are similar enough (identical, one a prefix of the other, or a partial
/// match whose ratio `matched / shorter * 0.95` reaches 0.85) become one
/// matched game that holds both of them.
pub proof fn lemma_similar_pair_merges(a: SourceGameV, b: SourceGameV)
    requires
        match title_similarity_spec(a.title, b.title) {
            Similarity::Identical => true,
            Similarity::Prefix => true,
            Similarity::Partial { matched, shorter } => matched as int * 95 >= shorter as int * 85,
            Similarity::Empty => false,
        },
    ensures
        match_sources_spec(seq![a], seq![b]).len() == 1,
        match_sources_spec(seq![a], seq![b])[0].candidates == seq![a, b],
{
    let sr = seq![a];
    let su = seq![b];
    assert(sr.len() == 1 && su.len() == 1);
    assert(sr.len() * su.len() == 1) by (nonlinear_arith)
        requires
            sr.len() == 1,
            su.len() == 1,
    ;
    assert(!(sr.len() * su.len() > bucket_threshold()));
    let p0 = pairing(sr, su, 0);
    assert(p0 =~= Seq::<Option<int>>::empty());
    let used0 = used_after(p0, 1);
    assert(used0 == Seq::new(1, |j: int| false));
    assert(!used0[0]);
    assert(su[0] == b);
    assert(is_best(sr[0].title, su, used0, 0));
    let bp = best_partner(sr[0].title, su, used0);
    let c = choose|j: int| is_best(sr[0].title, su, used0, j);
    lemma_best_unique(sr[0].title, su, used0, c, 0);
    assert(bp == Some(0int));
    let p = pairing(sr, su, 1);
    assert(p == p0.push(bp));
    assert(p.len() == 1 && p[0] == Some(0int));
    assert(p.drop_last() =~= p0);
    let m = merge_spec(seq![sr[0], su[0]]);
    assert(paired_part(sr, su, p0) =~= Seq::<MatchedGameV>::empty());
    assert(paired_part(sr, su, p) == paired_part(sr, su, p0).push(m));
    assert(lone_sr(sr, p0) =~= Seq::<MatchedGameV>::empty());
    assert(lone_sr(sr, p) == lone_sr(sr, p0));
    let used1 = used_after(p, 1);
    assert(used1 == used0.update(0, true));
    assert(used1[0]);
    assert(lone_su(su, used1, 0) =~= Seq::<MatchedGameV>::empty());
    assert(lone_su(su, used1, 1) == lone_su(su, used1, 0));
    let pre = pre_dedupe(sr, su);
    assert(pre =~= seq![m]);
    assert(pre.drop_last() =~= Seq::<MatchedGameV>::empty());
    assert(dedupe_spec(pre.drop_last()) =~= Seq::<MatchedGameV>::empty());
    assert(key_index(Seq::<MatchedGameV>::empty(), m.normalized_title, 0) is None);
    assert(dedupe_spec(pre) =~= seq![m]);
    assert(m.candidates == seq![a, b]);
}

/// The common prefix is the longest: both titles start with it, and the
/// next characters differ (or one title ends there).
pub proof fn lemma_common_prefix_longest(a: Seq<char>, b: Seq<char>)
    ensures
        common_prefix(a, b) <= a.len(),
        common_prefix(a, b) <= b.len(),
        a.take(common_prefix(a, b) as int) == b.take(common_prefix(a, b) as int),
        common_prefix(a, b) < a.len() && common_prefix(a, b) < b.len() ==> a[common_prefix(a, b) as int]
            != b[common_prefix(a, b) as int],
    decreases a.len(),
{
    if a.len() > 0 && b.len() > 0 && a[0] == b[0] {
        let (a1, b1) = (a.drop_first(), b.drop_first());
        lemma_common_prefix_longest(a1, b1);
        let n = common_prefix(a1, b1) as int;
        assert(a.take(n + 1) =~= seq![a[0]] + a1.take(n));
        assert(b.take(n + 1) =~= seq![b[0]] + b1.take(n));
        if n < a1.len() && n < b1.len() {
            assert(a[n + 1] == a1[n] && b[n + 1] == b1[n]);
        }
    } else {
        assert(a.take(0) =~= b.take(0));
    }
}

/// The common suffix is the longest: both titles end with it, and the
/// characters before it differ (or one title starts there).
pub proof fn lemma_common_suffix_longest(a: Seq<char>, b: Seq<char>)
    ensures
        common_suffix(a, b) <= a.len(),
        common_suffix(a, b) <= b.len(),
        a.skip(a.len() - common_suffix(a, b)) == b.skip(b.len() - common_suffix(a, b)),
        common_suffix(a, b) < a.len() && common_suffix(a, b) < b.len() ==> a[a.len() - common_suffix(a, b)
            - 1] != b[b.len() - common_suffix(a, b) - 1],
    decreases a.len(),
{
    if a.len() > 0 && b.len() > 0 && a.last() == b.last() {
        let (a1, b1) = (a.drop_last(), b.drop_last());
        lemma_common_suffix_longest(a1, b1);
        let n = common_suffix(a1, b1) as int;
        assert(a.skip(a.len() - (n + 1)) =~= a1.skip(a1.len() - n).push(a.last()));
        assert(b.skip(b.len() - (n + 1)) =~= b1.skip(b1.len() - n).push(b.last()));
        if n < a1.len() && n < b1.len() {
            assert(a[a.len() - (n + 1) - 1] == a1[a1.len() - n - 1]);
            assert(b[b.len() - (n + 1) - 1] == b1[b1.len() - n - 1]);
        }
    } else {
        assert(a.skip(a.len() as int) =~= b.skip(b.len() as int));
    }
}

} // verus!
