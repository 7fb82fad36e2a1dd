//! Game-page parsing: the download links, size, version, credits, genres,
//! requirements and title that listing anchors never show.
use vstd::prelude::*;
use crate::slug::{byte_len, utf8_width, utf8_width_of};
use crate::text::{
    any_contains, any_contains_vec, chars_of, contains, contains_chars, find, find_chars,
    index_of_char, index_of_from, lemma_find_from, lemma_index_of, lower_of, lower_vec,
    starts_with, starts_with_chars, string_of, trim, trim_start, trim_start_vec, trimmed_vec,
    vec_of_range, vecs_view,
};
use crate::scraper::{
    anchor_pairs, anchors, decode_entities_spec, decode_entities_vec, pairs_view,
    version_from_title_chars, version_from_title_spec,
};
use crate::text::{before_char, before_char_vec, is_digit, trim_start_char, trim_start_char_vec};

verus! {

broadcast use vstd::string::group_string_axioms;

// ---------------------------------------------------------------------------
// Byte windows and tags
// ---------------------------------------------------------------------------

/// End (a character index) of the window of `n` bytes that starts at
/// character `i`, clamped to the text; `None` where the byte offset
/// `i + n` falls inside a character, on which slicing there panics.
pub open spec fn cut_end(s: Seq<char>, i: int, n: int) -> Option<int>
    decreases s.len() - i,
{
    if i < 0 || n <= 0 || i >= s.len() {
        Some(i)
    } else if utf8_width(s[i]) > n {
        None
    } else {
        cut_end(s, i + 1, n - utf8_width(s[i]))
    }
}

/// The text of `s` from character `i` on, at most `n` bytes of it.
pub open spec fn window(s: Seq<char>, i: int, n: int) -> Option<Seq<char>> {
    match cut_end(s, i, n) {
        Some(e) => Some(s.subrange(i, e)),
        None => None,
    }
}

proof fn lemma_cut_end(s: Seq<char>, i: int, n: int)
    requires
        0 <= i <= s.len(),
    ensures
        cut_end(s, i, n) matches Some(e) ==> i <= e <= s.len(),
    decreases s.len() - i,
{
    if n <= 0 || i >= s.len() {
    } else if utf8_width(s[i]) > n {
    } else {
        lemma_cut_end(s, i + 1, n - utf8_width(s[i]));
    }
}

fn window_of(v: &Vec<char>, i: usize, n: usize) -> (r: Option<Vec<char>>)
    requires
        i <= v.len(),
    ensures
        r matches Some(w) ==> window(v@, i as int, n as int) == Some(w@),
        r is None ==> window(v@, i as int, n as int) is None,
{
    let mut j = i;
    let mut rem = n;
    while rem > 0 && j < v.len()
        invariant
            i <= j <= v.len(),
            rem <= n,
            cut_end(v@, i as int, n as int) == cut_end(v@, j as int, rem as int),
        decreases v.len() - j,
    {
        let w = utf8_width_of(v[j]);
        if w > rem {
            return None;
        }
        rem = rem - w;
        j += 1;
    }
    Some(vec_of_range(v, i, j))
}

/// Tags removed: the text before each '<' is kept and the tag up to the
/// next '>' dropped; a '<' without a closing '>' ends the scan, and the
/// remaining text is then appended whole (again after what was kept).
pub open spec fn strip_tags_spec(s: Seq<char>) -> Seq<char>
    decreases s.len(),
{
    match index_of_from(s, '<', 0) {
        None => s,
        Some(o) => match index_of_from(s, '>', o) {
            Some(c) => {
                proof {
                    lemma_index_of(s, '<', 0);
                    lemma_index_of(s, '>', o);
                }
                s.take(o) + strip_tags_spec(s.skip(c + 1))
            },
            None => s.take(o) + s,
        },
    }
}

fn strip_tags_vec(v: &Vec<char>) -> (out: Vec<char>)
    ensures
        out@ == strip_tags_spec(v@),
{
    let mut out: Vec<char> = Vec::new();
    let mut rest = vec_of_range(v, 0, v.len());
    assert(rest@ =~= v@);
    loop
        invariant
            strip_tags_spec(v@) == out@ + strip_tags_spec(rest@),
        decreases rest.len(),
    {
        proof {
            lemma_index_of(rest@, '<', 0);
        }
        match index_of_char(&rest, '<', 0) {
            None => {
                let mut r = rest;
                out.append(&mut r);
                return out;
            },
            Some(o) => {
                proof {
                    lemma_index_of(rest@, '>', o as int);
                }
                let mut head = vec_of_range(&rest, 0, o);
                assert(head@ =~= rest@.take(o as int));
                match index_of_char(&rest, '>', o) {
                    Some(c) => {
                        let next = vec_of_range(&rest, c + 1, rest.len());
                        assert(next@ =~= rest@.skip(c + 1));
                        let ghost before = out@;
                        out.append(&mut head);
                        assert(before + (rest@.take(o as int) + strip_tags_spec(next@)) =~= out@
                            + strip_tags_spec(next@));
                        rest = next;
                    },
                    None => {
                        let ghost before = out@;
                        let ghost whole = rest@;
                        out.append(&mut head);
                        let mut r = rest;
                        out.append(&mut r);
                        assert(out@ =~= before + (whole.take(o as int) + whole));
                        return out;
                    },
                }
            },
        }
    }
}

/// The quoted value that opens `f` after leading whitespace.
pub open spec fn leading_quoted(f: Seq<char>) -> Option<Seq<char>> {
    let r = trim_start(f);
    if r.len() > 0 && (r[0] == '"' || r[0] == '\'') {
        match index_of_from(r, r[0], 1) {
            Some(e) => Some(r.subrange(1, e)),
            None => None,
        }
    } else {
        None
    }
}

/// The value of the first `href=` of a fragment.
pub open spec fn href_value(f: Seq<char>) -> Option<Seq<char>> {
    match find(f, "href="@) {
        Some(i) => leading_quoted(f.skip(i + "href="@.len())),
        None => None,
    }
}

fn leading_quoted_vec(f: &Vec<char>) -> (r: Option<Vec<char>>)
    ensures
        r matches Some(x) ==> leading_quoted(f@) == Some(x@),
        r is None ==> leading_quoted(f@) is None,
{
    let t = trim_start_vec(f);
    if t.len() > 0 && (t[0] == '"' || t[0] == '\'') {
        let q = t[0];
        proof {
            lemma_index_of(t@, q, 1);
        }
        match index_of_char(&t, q, 1) {
            Some(e) => Some(vec_of_range(&t, 1, e)),
            None => None,
        }
    } else {
        None
    }
}

fn href_value_vec(f: &Vec<char>) -> (r: Option<Vec<char>>)
    ensures
        r matches Some(x) ==> href_value(f@) == Some(x@),
        r is None ==> href_value(f@) is None,
{
    let pat = chars_of("href=");
    proof {
        lemma_find_from(f@, pat@, 0);
    }
    match find_chars(f, &pat) {
        Some(i) => {
            let n = f.len();
            assert(crate::text::occurs_at(f@, pat@, i as int));
            let rest = vec_of_range(f, i + pat.len(), n);
            assert(rest@ =~= f@.skip(i + pat@.len()));
            leading_quoted_vec(&rest)
        },
        None => None,
    }
}

// ---------------------------------------------------------------------------
// Download links
// ---------------------------------------------------------------------------

/// The file hosts both sites hand out.
pub open spec fn file_hosts() -> Seq<Seq<char>> {
    seq![
        "uploadhaven.com"@,
        "megadb.net"@,
        "gofile.io"@,
        "buzzheavier.com"@,
        "1fitchier.com"@,
        "1fichier.com"@,
        "datanodes.to"@,
        "usersdrive.com"@,
        "bowfile.com"@,
        "multiup.io"@,
        "multiup.org"@,
        "krakenfiles.com"@,
        "pixeldrain.com"@,
        "mega.nz"@,
        "qdembed.com"@,
        "send.cm"@,
    ]
}

/// Path pieces of a file host's own pages (account, legal, upsell).
pub open spec fn nav_segments() -> Seq<Seq<char>> {
    seq![
        "/account"@,
        "/register"@,
        "/login"@,
        "/signin"@,
        "/signup"@,
        "/premium"@,
        "/upgrade"@,
        "/support"@,
        "/faq"@,
        "/dmca"@,
        "/contact"@,
        "/report"@,
        "/privacy"@,
        "/terms"@,
    ]
}

fn file_hosts_vec() -> (t: Vec<Vec<char>>)
    ensures
        vecs_view(t@) == file_hosts(),
{
    let t = vec![
        chars_of("uploadhaven.com"),
        chars_of("megadb.net"),
        chars_of("gofile.io"),
        chars_of("buzzheavier.com"),
        chars_of("1fitchier.com"),
        chars_of("1fichier.com"),
        chars_of("datanodes.to"),
        chars_of("usersdrive.com"),
        chars_of("bowfile.com"),
        chars_of("multiup.io"),
        chars_of("multiup.org"),
        chars_of("krakenfiles.com"),
        chars_of("pixeldrain.com"),
        chars_of("mega.nz"),
        chars_of("qdembed.com"),
        chars_of("send.cm"),
    ];
    assert(vecs_view(t@) =~= file_hosts());
    t
}

fn nav_segments_vec() -> (t: Vec<Vec<char>>)
    ensures
        vecs_view(t@) == nav_segments(),
{
    let t = vec![
        chars_of("/account"),
        chars_of("/register"),
        chars_of("/login"),
        chars_of("/signin"),
        chars_of("/signup"),
        chars_of("/premium"),
        chars_of("/upgrade"),
        chars_of("/support"),
        chars_of("/faq"),
        chars_of("/dmca"),
        chars_of("/contact"),
        chars_of("/report"),
        chars_of("/privacy"),
        chars_of("/terms"),
    ];
    assert(vecs_view(t@) =~= nav_segments());
    t
}

/// A file host's own page (registration, login, legal...), never a download.
pub open spec fn is_host_navigation(lower_url: Seq<char>) -> bool {
    any_contains(lower_url, nav_segments())
}

pub fn is_host_navigation_url(lower_url: &str) -> (r: bool)
    ensures
        r == is_host_navigation(lower_url@),
{
    let v = chars_of(lower_url);
    let segs = nav_segments_vec();
    any_contains_vec(&v, &segs)
}

/// The absolute form of a scraped href: trimmed, `http(s)://` kept and
/// `//host/...` given `https:`; anything else is no link.
pub open spec fn absolute_url(url: Seq<char>) -> Option<Seq<char>> {
    let t = trim(url);
    if starts_with(t, "//"@) {
        Some("https://"@ + t.skip("//"@.len() as int))
    } else if starts_with(t, "https://"@) || starts_with(t, "http://"@) {
        Some(t)
    } else {
        None
    }
}

/// `acc` with the absolute form of `url` appended, unless it has none or
/// is already there.
pub open spec fn add_url(acc: Seq<Seq<char>>, url: Seq<char>) -> Seq<Seq<char>> {
    match absolute_url(url) {
        Some(a) => if acc.contains(a) {
            acc
        } else {
            acc.push(a)
        },
        None => acc,
    }
}

fn absolute_url_vec(url: &Vec<char>) -> (r: Option<Vec<char>>)
    ensures
        r matches Some(x) ==> absolute_url(url@) == Some(x@),
        r is None ==> absolute_url(url@) is None,
{
    let t = trimmed_vec(url);
    let dslash = chars_of("//");
    let https = chars_of("https://");
    let http = chars_of("http://");
    if starts_with_chars(&t, &dslash) {
        proof {
            assert(dslash@.len() <= t@.len());
        }
        let mut out = https;
        let mut tail = vec_of_range(&t, dslash.len(), t.len());
        assert(tail@ =~= t@.skip(dslash@.len() as int));
        out.append(&mut tail);
        Some(out)
    } else if starts_with_chars(&t, &https) || starts_with_chars(&t, &http) {
        Some(t)
    } else {
        None
    }
}

fn contains_url(acc: &Vec<Vec<char>>, x: &Vec<char>) -> (r: bool)
    ensures
        r == vecs_view(acc@).contains(x@),
{
    let mut k: usize = 0;
    while k < acc.len()
        invariant
            k <= acc.len(),
            forall|j: int| 0 <= j < k ==> vecs_view(acc@)[j] != x@,
        decreases acc.len() - k,
    {
        if crate::text::seq_equal(&acc[k], x) {
            assert(vecs_view(acc@)[k as int] == x@);
            return true;
        }
        k += 1;
    }
    false
}

fn add_url_vec(acc: &mut Vec<Vec<char>>, url: &Vec<char>)
    ensures
        vecs_view(final(acc)@) == add_url(vecs_view(old(acc)@), url@),
{
    match absolute_url_vec(url) {
        Some(a) => {
            if !contains_url(acc, &a) {
                let ghost prev = vecs_view(acc@);
                let ghost av = a@;
                acc.push(a);
                assert(vecs_view(acc@) =~= prev.push(av));
            }
        },
        None => {},
    }
}

/// A link to a known file host that is not one of the host's own pages.
pub open spec fn host_link(href: Seq<char>) -> bool {
    let lower = lower_of(href);
    any_contains(lower, file_hosts()) && !is_host_navigation(lower)
}

/// A link named like a download button that leaves both sites.
pub open spec fn download_named_link(href: Seq<char>, text: Seq<char>) -> bool {
    let t = lower_of(text);
    let lower = lower_of(href);
    (contains(t, "download"@) || contains(t, "get game"@)) && !contains(href, "#"@)
        && !(contains(lower, "steamrip.com"@) || contains(lower, "steamunlocked"@))
}

/// `acc` extended by the host links among the anchors, in order.
pub open spec fn host_links(acc: Seq<Seq<char>>, anchs: Seq<(Seq<char>, Seq<char>)>) -> Seq<
    Seq<char>,
>
    decreases anchs.len(),
{
    if anchs.len() == 0 {
        acc
    } else {
        let prev = host_links(acc, anchs.drop_last());
        if host_link(anchs.last().0) {
            add_url(prev, anchs.last().0)
        } else {
            prev
        }
    }
}

/// `acc` extended by the anchors named like download buttons, in order.
pub open spec fn named_links(acc: Seq<Seq<char>>, anchs: Seq<(Seq<char>, Seq<char>)>) -> Seq<
    Seq<char>,
>
    decreases anchs.len(),
{
    if anchs.len() == 0 {
        acc
    } else {
        let prev = named_links(acc, anchs.drop_last());
        if download_named_link(anchs.last().0, anchs.last().1) {
            add_url(prev, anchs.last().0)
        } else {
            prev
        }
    }
}

/// The primary download button's href (`su-dl-primary`): `Some(None)`
/// without one, `None` where its 600-byte window splits a character.
pub open spec fn primary_href(flat: Seq<char>) -> Option<Option<Seq<char>>> {
    match find(flat, "su-dl-primary"@) {
        None => Some(None),
        Some(i) => match window(flat, i, 600) {
            None => None,
            Some(w) => Some(href_value(w)),
        },
    }
}

/// The download URLs of a game page: the primary button, then every host
/// link; only when neither gave one, the anchors named like downloads.
/// `None` on the pages this reading is not defined for: a byte window that
/// would split a character, or an anchor with no '>' before its `</a>`.
pub open spec fn download_urls_spec(flat: Seq<char>) -> Option<Seq<Seq<char>>> {
    match primary_href(flat) {
        None => None,
        Some(p) => match anchors(flat) {
            None => None,
            Some(anchs) => {
                let first = match p {
                    Some(h) => add_url(Seq::empty(), h),
                    None => Seq::empty(),
                };
                let hosts = host_links(first, anchs);
                if hosts.len() == 0 {
                    Some(named_links(hosts, anchs))
                } else {
                    Some(hosts)
                }
            },
        },
    }
}

fn download_urls_vec(flat: &Vec<char>) -> (r: Option<Vec<Vec<char>>>)
    ensures
        r matches Some(x) ==> download_urls_spec(flat@) == Some(vecs_view(x@)),
        r is None ==> download_urls_spec(flat@) is None,
{
    let mut urls: Vec<Vec<char>> = Vec::new();
    let marker = chars_of("su-dl-primary");
    proof {
        lemma_find_from(flat@, marker@, 0);
    }
    match find_chars(flat, &marker) {
        Some(i) => {
            match window_of(flat, i, 600) {
                None => return None,
                Some(w) => {
                    match href_value_vec(&w) {
                        Some(h) => {
                            assert(vecs_view(urls@) =~= Seq::<Seq<char>>::empty());
                            add_url_vec(&mut urls, &h);
                        },
                        None => {},
                    }
                },
            }
        },
        None => {},
    }
    let ghost first = vecs_view(urls@);
    assert(first == match primary_href(flat@).unwrap() {
        Some(h) => add_url(Seq::empty(), h),
        None => Seq::empty(),
    });
    let pairs = match anchor_pairs(flat) {
        None => return None,
        Some(p) => p,
    };
    let ghost pv = pairs_view(pairs@);
    let hosts = file_hosts_vec();
    let segs = nav_segments_vec();
    let mut i: usize = 0;
    assert(pv.take(0) =~= Seq::<(Seq<char>, Seq<char>)>::empty());
    while i < pairs.len()
        invariant
            i <= pairs.len(),
            pv == pairs_view(pairs@),
            vecs_view(hosts@) == file_hosts(),
            vecs_view(segs@) == nav_segments(),
            vecs_view(urls@) == host_links(first, pv.take(i as int)),
        decreases pairs.len() - i,
    {
        assert(pv.take(i + 1).drop_last() =~= pv.take(i as int));
        let lower = lower_vec(&pairs[i].0);
        if any_contains_vec(&lower, &hosts) && !any_contains_vec(&lower, &segs) {
            add_url_vec(&mut urls, &pairs[i].0);
        }
        i += 1;
    }
    assert(pv.take(pairs.len() as int) =~= pv);
    if urls.len() == 0 {
        let ghost base = vecs_view(urls@);
        let dl = chars_of("download");
        let gg = chars_of("get game");
        let hash = chars_of("#");
        let rip = chars_of("steamrip.com");
        let unl = chars_of("steamunlocked");
        let mut j: usize = 0;
        while j < pairs.len()
            invariant
                j <= pairs.len(),
                pv == pairs_view(pairs@),
                dl@ == "download"@,
                gg@ == "get game"@,
                hash@ == "#"@,
                rip@ == "steamrip.com"@,
                unl@ == "steamunlocked"@,
                vecs_view(urls@) == named_links(base, pv.take(j as int)),
            decreases pairs.len() - j,
        {
            assert(pv.take(j + 1).drop_last() =~= pv.take(j as int));
            let t = lower_vec(&pairs[j].1);
            if (contains_chars(&t, &dl) || contains_chars(&t, &gg)) && !contains_chars(
                &pairs[j].0,
                &hash,
            ) {
                let lower = lower_vec(&pairs[j].0);
                if !(contains_chars(&lower, &rip) || contains_chars(&lower, &unl)) {
                    add_url_vec(&mut urls, &pairs[j].0);
                }
            }
            j += 1;
        }
        assert(pv.take(pairs.len() as int) =~= pv);
    }
    Some(urls)
}

// ---------------------------------------------------------------------------
// Host label
// ---------------------------------------------------------------------------

/// Index of the first known file host named in `url`, from entry `k` on.
pub open spec fn first_host(url: Seq<char>, k: int) -> Option<int>
    decreases 16 - k,
{
    if k < 0 || k >= 16 {
        None
    } else if contains(url, file_hosts()[k]) {
        Some(k)
    } else {
        first_host(url, k + 1)
    }
}

/// The display name of a host: its name before the first '.', with the
/// first letter upper-cased (the names are ASCII).
pub open spec fn host_display(h: Seq<char>) -> Seq<char> {
    let name = crate::text::before_char(h, '.');
    if name.len() == 0 {
        name
    } else {
        seq![crate::text::ascii_upper(name[0])] + name.drop_first()
    }
}

/// The display name of the first known file host named in `url`.
pub open spec fn host_label_spec(url: Seq<char>) -> Option<Seq<char>> {
    match first_host(url, 0) {
        Some(k) => Some(host_display(file_hosts()[k])),
        None => None,
    }
}

proof fn lemma_first_host(url: Seq<char>, k: int)
    ensures
        first_host(url, k) matches Some(j) ==> k <= j < 16,
    decreases 16 - k,
{
    if 0 <= k < 16 && !contains(url, file_hosts()[k]) {
        lemma_first_host(url, k + 1);
    }
}

fn host_label_vec(url: &Vec<char>) -> (r: Option<Vec<char>>)
    ensures
        r matches Some(x) ==> host_label_spec(url@) == Some(x@),
        r is None ==> host_label_spec(url@) is None,
{
    let hosts = file_hosts_vec();
    assert(hosts@.len() == vecs_view(hosts@).len());
    let mut k: usize = 0;
    while k < 16
        invariant
            k <= 16,
            hosts.len() == 16,
            vecs_view(hosts@) == file_hosts(),
            first_host(url@, 0) == first_host(url@, k as int),
        decreases 16 - k,
    {
        assert(hosts@[k as int]@ == vecs_view(hosts@)[k as int]);
        if contains_chars(url, &hosts[k]) {
            let name = crate::text::before_char_vec(&hosts[k], '.');
            if name.len() == 0 {
                return Some(name);
            }
            let mut out = vec![crate::text::to_ascii_upper(name[0])];
            let mut tail = vec_of_range(&name, 1, name.len());
            out.append(&mut tail);
            assert(out@ =~= host_display(file_hosts()[k as int]));
            return Some(out);
        }
        k += 1;
    }
    None
}

} // verus!

verus! {

// ---------------------------------------------------------------------------
// Title and version
// ---------------------------------------------------------------------------

/// `s` cut before the first `marker` and trimmed, when it holds one.
pub open spec fn cut_marker(s: Seq<char>, marker: Seq<char>) -> Seq<char> {
    match find(s, marker) {
        Some(k) => trim(s.take(k)),
        None => s,
    }
}

/// The page's `<title>`: tags stripped, entities decoded, the site suffix
/// cut off; `None` without a complete title element or when under 2 bytes.
pub open spec fn page_title_spec(flat: Seq<char>) -> Option<Seq<char>> {
    match find(flat, "<title>"@) {
        None => None,
        Some(i) => {
            let start = i + "<title>"@.len();
            match find(flat.skip(start), "</title>"@) {
                None => None,
                Some(e) => {
                    let raw = decode_entities_spec(strip_tags_spec(flat.subrange(start, start + e)));
                    let cleaned = trim(
                        cut_marker(cut_marker(raw, "\u{bb} SteamRIP"@), "\u{bb} SteamUnlocked"@),
                    );
                    if byte_len(cleaned) < 2 {
                        None
                    } else {
                        Some(cleaned)
                    }
                },
            }
        },
    }
}

fn cut_marker_vec(s: Vec<char>, marker: &Vec<char>) -> (r: Vec<char>)
    ensures
        r@ == cut_marker(s@, marker@),
{
    proof {
        lemma_find_from(s@, marker@, 0);
    }
    match find_chars(&s, marker) {
        Some(k) => {
            let head = vec_of_range(&s, 0, k);
            assert(head@ =~= s@.take(k as int));
            trimmed_vec(&head)
        },
        None => s,
    }
}

fn page_title_vec(flat: &Vec<char>) -> (r: Option<Vec<char>>)
    ensures
        r matches Some(x) ==> page_title_spec(flat@) == Some(x@),
        r is None ==> page_title_spec(flat@) is None,
{
    let open = chars_of("<title>");
    let close = chars_of("</title>");
    let n = flat.len();
    proof {
        lemma_find_from(flat@, open@, 0);
    }
    let i = match find_chars(flat, &open) {
        None => return None,
        Some(i) => i,
    };
    assert(crate::text::occurs_at(flat@, open@, i as int));
    let start = i + open.len();
    let rest = vec_of_range(flat, start, n);
    assert(rest@ =~= flat@.skip(start as int));
    proof {
        lemma_find_from(rest@, close@, 0);
    }
    let e = match find_chars(&rest, &close) {
        None => return None,
        Some(e) => e,
    };
    let inner = vec_of_range(flat, start, start + e);
    let raw = decode_entities_vec(&strip_tags_vec(&inner));
    let c1 = cut_marker_vec(raw, &chars_of("\u{bb} SteamRIP"));
    let c2 = cut_marker_vec(c1, &chars_of("\u{bb} SteamUnlocked"));
    let cleaned = trimmed_vec(&c2);
    if crate::scraper::byte_len_lt2(&cleaned) {
        None
    } else {
        Some(cleaned)
    }
}

/// Digits of a version string: the first run of digits and dots after
/// any leading non-digits.
pub open spec fn skip_non_digits(s: Seq<char>) -> Seq<char>
    decreases s.len(),
{
    if s.len() > 0 && !is_digit(s[0]) {
        skip_non_digits(s.drop_first())
    } else {
        s
    }
}

pub open spec fn digits_and_dots(s: Seq<char>) -> Seq<char>
    decreases s.len(),
{
    if s.len() > 0 && (is_digit(s[0]) || s[0] == '.') {
        seq![s[0]] + digits_and_dots(s.drop_first())
    } else {
        Seq::empty()
    }
}

/// Leading '>' (the tail of an enclosing tag) and whitespace removed.
pub open spec fn label_stripped(raw: Seq<char>) -> Seq<char> {
    trim(trim_start_char(trim(raw), '>'))
}

/// A bare version like "1.15" out of text such as "Version: v1.15 | Full
/// Version": after the label's ':', before any '|'.
pub open spec fn scraped_version(raw: Seq<char>) -> Option<Seq<char>> {
    let after = label_stripped(raw);
    let cleaned = match index_of_from(after, ':', 0) {
        Some(c) => trim(after.skip(c + 1)),
        None => after,
    };
    let d = digits_and_dots(skip_non_digits(trim(before_char(cleaned, '|'))));
    if d.len() == 0 {
        None
    } else {
        Some(d)
    }
}

fn label_stripped_vec(raw: &Vec<char>) -> (r: Vec<char>)
    ensures
        r@ == label_stripped(raw@),
{
    let a = trimmed_vec(raw);
    let b = trim_start_char_vec(&a, '>');
    trimmed_vec(&b)
}

fn version_digits(s: &Vec<char>) -> (r: Vec<char>)
    ensures
        r@ == digits_and_dots(skip_non_digits(s@)),
{
    let mut i: usize = 0;
    assert(s@.skip(0) =~= s@);
    while i < s.len() && !crate::text::is_ascii_digit(s[i])
        invariant
            i <= s.len(),
            skip_non_digits(s@) == skip_non_digits(s@.skip(i as int)),
        decreases s.len() - i,
    {
        assert(s@.skip(i as int).drop_first() =~= s@.skip(i + 1));
        i += 1;
    }
    assert(skip_non_digits(s@.skip(i as int)) == s@.skip(i as int));
    let mut j = i;
    while j < s.len() && (crate::text::is_ascii_digit(s[j]) || s[j] == '.')
        invariant
            i <= j <= s.len(),
            digits_and_dots(s@.skip(i as int)) == s@.subrange(i as int, j as int) + digits_and_dots(
                s@.skip(j as int),
            ),
        decreases s.len() - j,
    {
        assert(s@.skip(j as int).drop_first() =~= s@.skip(j + 1));
        assert(s@.subrange(i as int, j + 1) =~= s@.subrange(i as int, j as int) + seq![s@[j as int]]);
        j += 1;
    }
    assert(digits_and_dots(s@.skip(j as int)) =~= Seq::<char>::empty());
    vec_of_range(s, i, j)
}

fn scraped_version_vec(raw: &Vec<char>) -> (r: Option<Vec<char>>)
    ensures
        r matches Some(x) ==> scraped_version(raw@) == Some(x@),
        r is None ==> scraped_version(raw@) is None,
{
    let after = label_stripped_vec(raw);
    let cleaned = match index_of_char(&after, ':', 0) {
        Some(c) => {
            let tail = vec_of_range(&after, c + 1, after.len());
            assert(tail@ =~= after@.skip(c + 1));
            trimmed_vec(&tail)
        },
        None => after,
    };
    let head = trimmed_vec(&before_char_vec(&cleaned, '|'));
    let d = version_digits(&head);
    if d.len() == 0 {
        None
    } else {
        Some(d)
    }
}

/// The version in the title, when the page has one.
pub open spec fn title_version(flat: Seq<char>) -> Option<Seq<char>> {
    match page_title_spec(flat) {
        Some(t) => version_from_title_spec(t),
        None => None,
    }
}

/// The version listed on the page (the `>Version<` entry), else the one in
/// the title. `None` where the entry's 300-byte window splits a character.
pub open spec fn page_version_spec(flat: Seq<char>) -> Option<Option<Seq<char>>> {
    match find(flat, ">Version<"@) {
        None => Some(title_version(flat)),
        Some(p) => match window(flat, p, 300) {
            None => None,
            Some(w) => {
                let listed = match find(w, "</li>"@) {
                    Some(e) => scraped_version(strip_tags_spec(w.take(e))),
                    None => None,
                };
                if listed is Some {
                    Some(listed)
                } else {
                    Some(title_version(flat))
                }
            },
        },
    }
}

fn title_version_vec(flat: &Vec<char>) -> (r: Option<Vec<char>>)
    ensures
        r matches Some(x) ==> title_version(flat@) == Some(x@),
        r is None ==> title_version(flat@) is None,
{
    match page_title_vec(flat) {
        Some(t) => version_from_title_chars(&t),
        None => None,
    }
}

fn page_version_vec(flat: &Vec<char>) -> (r: Option<Option<Vec<char>>>)
    ensures
        r matches Some(x) ==> page_version_spec(flat@) == Some(ov(x)),
        r is None ==> page_version_spec(flat@) is None,
{
    let marker = chars_of(">Version<");
    proof {
        lemma_find_from(flat@, marker@, 0);
    }
    match find_chars(flat, &marker) {
        None => Some(title_version_vec(flat)),
        Some(p) => match window_of(flat, p, 300) {
            None => None,
            Some(w) => {
                let li = chars_of("</li>");
                proof {
                    lemma_find_from(w@, li@, 0);
                }
                let listed = match find_chars(&w, &li) {
                    Some(e) => {
                        let head = vec_of_range(&w, 0, e);
                        assert(head@ =~= w@.take(e as int));
                        scraped_version_vec(&strip_tags_vec(&head))
                    },
                    None => None,
                };
                if listed.is_some() {
                    Some(listed)
                } else {
                    Some(title_version_vec(flat))
                }
            },
        },
    }
}

/// The characters of an optional vector.
pub open spec fn ov(o: Option<Vec<char>>) -> Option<Seq<char>> {
    match o {
        Some(v) => Some(v@),
        None => None,
    }
}

} // verus!

verus! {

// ---------------------------------------------------------------------------
// Archive size
// ---------------------------------------------------------------------------

/// Text that reads like a size: a unit (gb, mb or kb) and a digit in its
/// lower-case form, which takes at most 20 bytes.
pub open spec fn looks_like_size(s: Seq<char>) -> bool {
    let l = lower_of(s);
    &&& (contains(l, "gb"@) || contains(l, "mb"@) || contains(l, "kb"@))
    &&& exists|k: int| 0 <= k < l.len() && is_digit(#[trigger] l[k])
    &&& byte_len(l) <= 20
}

pub open spec fn sized(raw: Seq<char>) -> Option<Seq<char>> {
    if looks_like_size(raw) {
        Some(raw)
    } else {
        None
    }
}

/// The second source only where the first found nothing and did not panic.
pub open spec fn chain(
    a: Option<Option<Seq<char>>>,
    b: Option<Option<Seq<char>>>,
) -> Option<Option<Seq<char>>> {
    match a {
        Some(None) => b,
        _ => a,
    }
}

/// `s.chars().skip(n)`.
pub open spec fn skip_chars(s: Seq<char>, n: int) -> Seq<char> {
    if s.len() >= n {
        s.skip(n)
    } else {
        Seq::empty()
    }
}

/// The size after a chip marker, up to the next tag (60-byte window).
pub open spec fn marker_size(flat: Seq<char>, marker: Seq<char>) -> Option<Option<Seq<char>>> {
    match find(flat, marker) {
        None => Some(None),
        Some(i) => match window(flat, i + marker.len(), 60) {
            None => None,
            Some(w) => {
                let end = match index_of_from(w, '<', 0) {
                    Some(e) => e,
                    None => w.len() as int,
                };
                Some(sized(trim(w.take(end))))
            },
        },
    }
}

/// The JSON-LD `"fileSize": "..."` value (80-byte window).
pub open spec fn json_size(flat: Seq<char>) -> Option<Option<Seq<char>>> {
    let m = "\"fileSize\":"@;
    match find(flat, m) {
        None => Some(None),
        Some(i) => match window(flat, i, 80) {
            None => None,
            Some(w) => {
                let inner = trim_start(skip_chars(w, m.len() as int));
                if inner.len() > 0 && inner[0] == '"' {
                    match index_of_from(inner, '"', 1) {
                        Some(e) => Some(sized(trim(inner.subrange(1, e)))),
                        None => Some(None),
                    }
                } else {
                    Some(None)
                }
            },
        },
    }
}

/// The button text `Download(28.11 GB)` (60-byte window).
pub open spec fn paren_size(flat: Seq<char>) -> Option<Option<Seq<char>>> {
    let m = "Download("@;
    match find(flat, m) {
        None => Some(None),
        Some(i) => match window(flat, i, 60) {
            None => None,
            Some(w) => match index_of_from(w, ')', 0) {
                None => Some(None),
                Some(c) => Some(sized(trim(w.subrange(m.len() as int, c)))),
            },
        },
    }
}

/// The archive size: the size chip, the Steamrip "Game Size" entry, the
/// JSON-LD field, then the download button text, the first that reads like
/// a size; `None` where a window on the way splits a character.
pub open spec fn file_size_spec(flat: Seq<char>) -> Option<Option<Seq<char>>> {
    chain(
        marker_size(flat, "su-hchip--size\">"@),
        chain(
            marker_size(flat, "Game Size: </strong>"@),
            chain(json_size(flat), paren_size(flat)),
        ),
    )
}

fn looks_like_size_vec(s: &Vec<char>) -> (r: bool)
    ensures
        r == looks_like_size(s@),
{
    let l = lower_vec(s);
    let unit = contains_chars(&l, &chars_of("gb")) || contains_chars(&l, &chars_of("mb"))
        || contains_chars(&l, &chars_of("kb"));
    if !unit {
        return false;
    }
    let mut digit = false;
    let mut k: usize = 0;
    while k < l.len()
        invariant
            k <= l.len(),
            digit == exists|j: int| 0 <= j < k && is_digit(#[trigger] l@[j]),
        decreases l.len() - k,
    {
        if crate::text::is_ascii_digit(l[k]) {
            digit = true;
        }
        k += 1;
    }
    digit && !crate::slug::bytes_exceed(&l, 20)
}

fn sized_vec(raw: Vec<char>) -> (r: Option<Vec<char>>)
    ensures
        ov(r) == sized(raw@),
{
    if looks_like_size_vec(&raw) {
        Some(raw)
    } else {
        None
    }
}

fn marker_size_vec(flat: &Vec<char>, marker: &Vec<char>) -> (r: Option<Option<Vec<char>>>)
    ensures
        r matches Some(x) ==> marker_size(flat@, marker@) == Some(ov(x)),
        r is None ==> marker_size(flat@, marker@) is None,
{
    let n = flat.len();
    proof {
        lemma_find_from(flat@, marker@, 0);
    }
    match find_chars(flat, marker) {
        None => Some(None),
        Some(i) => {
            assert(crate::text::occurs_at(flat@, marker@, i as int));
            match window_of(flat, i + marker.len(), 60) {
                None => None,
                Some(w) => {
                    let end = match index_of_char(&w, '<', 0) {
                        Some(e) => e,
                        None => w.len(),
                    };
                    let head = vec_of_range(&w, 0, end);
                    assert(head@ =~= w@.take(end as int));
                    Some(sized_vec(trimmed_vec(&head)))
                },
            }
        },
    }
}

fn json_size_vec(flat: &Vec<char>) -> (r: Option<Option<Vec<char>>>)
    ensures
        r matches Some(x) ==> json_size(flat@) == Some(ov(x)),
        r is None ==> json_size(flat@) is None,
{
    let m = chars_of("\"fileSize\":");
    proof {
        lemma_find_from(flat@, m@, 0);
    }
    match find_chars(flat, &m) {
        None => Some(None),
        Some(i) => match window_of(flat, i, 80) {
            None => None,
            Some(w) => {
                let skipped = if w.len() >= m.len() {
                    let t = vec_of_range(&w, m.len(), w.len());
                    assert(t@ =~= w@.skip(m@.len() as int));
                    t
                } else {
                    Vec::new()
                };
                assert(skipped@ =~= skip_chars(w@, m@.len() as int));
                let inner = trim_start_vec(&skipped);
                if inner.len() > 0 && inner[0] == '"' {
                    proof {
                        lemma_index_of(inner@, '"', 1);
                    }
                    match index_of_char(&inner, '"', 1) {
                        Some(e) => {
                            let v = vec_of_range(&inner, 1, e);
                            Some(sized_vec(trimmed_vec(&v)))
                        },
                        None => Some(None),
                    }
                } else {
                    Some(None)
                }
            },
        },
    }
}

/// A window that starts where `m` occurs holds `m` whole when `m` is ASCII
/// and shorter than the window.
proof fn lemma_window_prefix(s: Seq<char>, i: int, n: int, m: Seq<char>)
    requires
        crate::text::occurs_at(s, m, i),
        m.len() <= n,
        forall|k: int| 0 <= k < m.len() ==> (#[trigger] m[k] as u32) < 0x80,
        cut_end(s, i, n) is Some,
    ensures
        i + m.len() <= cut_end(s, i, n).unwrap(),
    decreases m.len(),
{
    if m.len() > 0 {
        assert(s[i] == m[0]) by {
            assert(s.subrange(i, i + m.len())[0] == m[0]);
        }
        let m2 = m.drop_first();
        assert(crate::text::occurs_at(s, m2, i + 1)) by {
            assert(s.subrange(i + 1, i + 1 + m2.len()) =~= m2) by {
                assert forall|k: int| 0 <= k < m2.len() implies s.subrange(i + 1, i + 1 + m2.len())[k]
                    == m2[k] by {
                    assert(s.subrange(i, i + m.len())[k + 1] == m[k + 1]);
                }
            }
        }
        assert forall|k: int| 0 <= k < m2.len() implies (#[trigger] m2[k] as u32) < 0x80 by {
            assert(m2[k] == m[k + 1]);
        }
        assert(utf8_width(s[i]) == 1);
        assert(cut_end(s, i, n) == cut_end(s, i + 1, n - 1));
        lemma_window_prefix(s, i + 1, n - 1, m2);
    } else {
        lemma_cut_end(s, i, n);
    }
}

fn paren_size_vec(flat: &Vec<char>) -> (r: Option<Option<Vec<char>>>)
    ensures
        r matches Some(x) ==> paren_size(flat@) == Some(ov(x)),
        r is None ==> paren_size(flat@) is None,
{
    let m = chars_of("Download(");
    proof {
        lemma_find_from(flat@, m@, 0);
        reveal_strlit("Download(");
    }
    match find_chars(flat, &m) {
        None => Some(None),
        Some(i) => match window_of(flat, i, 60) {
            None => None,
            Some(w) => {
                proof {
                    assert(m@.len() == 9);
                    lemma_window_prefix(flat@, i as int, 60, m@);
                    lemma_cut_end(flat@, i as int, 60);
                    let e = cut_end(flat@, i as int, 60).unwrap();
                    assert forall|k: int| 0 <= k < 9 implies w@[k] != ')' by {
                        assert(w@[k] == flat@[i + k]);
                        assert(flat@.subrange(i as int, i + 9)[k] == m@[k]);
                    }
                    lemma_index_of(w@, ')', 0);
                }
                match index_of_char(&w, ')', 0) {
                    None => Some(None),
                    Some(c) => {
                        let v = vec_of_range(&w, m.len(), c);
                        Some(sized_vec(trimmed_vec(&v)))
                    },
                }
            },
        },
    }
}

fn file_size_vec(flat: &Vec<char>) -> (r: Option<Option<Vec<char>>>)
    ensures
        r matches Some(x) ==> file_size_spec(flat@) == Some(ov(x)),
        r is None ==> file_size_spec(flat@) is None,
{
    let chip = marker_size_vec(flat, &chars_of("su-hchip--size\">"));
    if let Some(Some(x)) = chip {
        return Some(Some(x));
    }
    if chip.is_none() {
        return None;
    }
    let listed = marker_size_vec(flat, &chars_of("Game Size: </strong>"));
    if let Some(Some(x)) = listed {
        return Some(Some(x));
    }
    if listed.is_none() {
        return None;
    }
    let json = json_size_vec(flat);
    if let Some(Some(x)) = json {
        return Some(Some(x));
    }
    if json.is_none() {
        return None;
    }
    paren_size_vec(flat)
}

} // verus!

verus! {

// ---------------------------------------------------------------------------
// Credits, genres and requirements
// ---------------------------------------------------------------------------

/// Where a list entry ends: at `</li>`, else at `</p>`.
pub open spec fn entry_end(w: Seq<char>) -> Option<int> {
    match find(w, "</li>"@) {
        Some(e) => Some(e),
        None => find(w, "</p>"@),
    }
}

/// The value of a "Label: value" entry: after the first ':', before any
/// '|', trimmed; empty without a ':'.
pub open spec fn meta_value(raw: Seq<char>) -> Seq<char> {
    let r = label_stripped(raw);
    let v = match index_of_from(r, ':', 0) {
        Some(c) => trim(r.skip(c + 1)),
        None => Seq::empty(),
    };
    trim(before_char(v, '|'))
}

/// The entry introduced by `>label` (e.g. "Developer:"): its value when it
/// has 1 to 150 characters; `None` where its 300-byte window splits a
/// character.
pub open spec fn meta_field_spec(flat: Seq<char>, label: Seq<char>) -> Option<Option<Seq<char>>> {
    match find(flat, seq!['>'] + label) {
        None => Some(None),
        Some(i) => match window(flat, i, 300) {
            None => None,
            Some(w) => match entry_end(w) {
                None => Some(None),
                Some(e) => {
                    let v = meta_value(strip_tags_spec(w.take(e)));
                    if 0 < v.len() <= 150 {
                        Some(Some(v))
                    } else {
                        Some(None)
                    }
                },
            },
        },
    }
}

/// The entry under the first label that gives a value, else the second.
pub open spec fn meta_spec(flat: Seq<char>, first: Seq<char>, second: Seq<char>) -> Option<
    Option<Seq<char>>,
> {
    chain(meta_field_spec(flat, first), meta_field_spec(flat, second))
}

fn meta_field_vec(flat: &Vec<char>, label: &Vec<char>) -> (r: Option<Option<Vec<char>>>)
    ensures
        r matches Some(x) ==> meta_field_spec(flat@, label@) == Some(ov(x)),
        r is None ==> meta_field_spec(flat@, label@) is None,
{
    let mut needle = vec!['>'];
    let mut l = vec_of_range(label, 0, label.len());
    needle.append(&mut l);
    assert(needle@ =~= seq!['>'] + label@);
    proof {
        lemma_find_from(flat@, needle@, 0);
    }
    let i = match find_chars(flat, &needle) {
        None => return Some(None),
        Some(i) => i,
    };
    let w = match window_of(flat, i, 300) {
        None => return None,
        Some(w) => w,
    };
    proof {
        lemma_find_from(w@, "</li>"@, 0);
        lemma_find_from(w@, "</p>"@, 0);
    }
    let e = match find_chars(&w, &chars_of("</li>")) {
        Some(e) => e,
        None => match find_chars(&w, &chars_of("</p>")) {
            Some(e) => e,
            None => return Some(None),
        },
    };
    assert(entry_end(w@) == Some(e as int));
    let head = vec_of_range(&w, 0, e);
    assert(head@ =~= w@.take(e as int));
    let r = label_stripped_vec(&strip_tags_vec(&head));
    let v = match index_of_char(&r, ':', 0) {
        Some(c) => {
            let tail = vec_of_range(&r, c + 1, r.len());
            assert(tail@ =~= r@.skip(c + 1));
            trimmed_vec(&tail)
        },
        None => Vec::new(),
    };
    let value = trimmed_vec(&before_char_vec(&v, '|'));
    assert(value@ == meta_value(strip_tags_spec(w@.take(e as int))));
    if 0 < value.len() && value.len() <= 150 {
        Some(Some(value))
    } else {
        Some(None)
    }
}

fn meta_vec(flat: &Vec<char>, first: &str, second: &str) -> (r: Option<Option<Vec<char>>>)
    ensures
        r matches Some(x) ==> meta_spec(flat@, first@, second@) == Some(ov(x)),
        r is None ==> meta_spec(flat@, first@, second@) is None,
{
    let a = meta_field_vec(flat, &chars_of(first));
    if let Some(None) = a {
        meta_field_vec(flat, &chars_of(second))
    } else {
        a
    }
}

/// A genre already taken, compared in lower case.
pub open spec fn seen_genre(acc: Seq<Seq<char>>, r: Seq<char>) -> bool {
    exists|k: int| 0 <= k < acc.len() && lower_of(#[trigger] acc[k]) == lower_of(r)
}

/// `acc` with the trimmed genre added when it has 1 to 60 characters and
/// is new in lower case.
pub open spec fn push_genre(acc: Seq<Seq<char>>, raw: Seq<char>) -> Seq<Seq<char>> {
    let r = trim(raw);
    if 0 < r.len() <= 60 && !seen_genre(acc, r) {
        acc.push(r)
    } else {
        acc
    }
}

/// `push_genre` over the pieces, in order.
pub open spec fn push_genres(acc: Seq<Seq<char>>, parts: Seq<Seq<char>>) -> Seq<Seq<char>>
    decreases parts.len(),
{
    if parts.len() == 0 {
        acc
    } else {
        push_genre(push_genres(acc, parts.drop_last()), parts.last())
    }
}

/// The genre chips (SteamUnlocked): for each piece after a chip marker,
/// its text up to the next tag, entities decoded, unless it mentions
/// "games" or "http"; the walk stops after the first piece whose first
/// occurrence in the page lies past byte 4000.
pub open spec fn chip_walk(flat: Seq<char>, parts: Seq<Seq<char>>, acc: Seq<Seq<char>>) -> Seq<
    Seq<char>,
>
    decreases parts.len(),
{
    if parts.len() == 0 {
        acc
    } else {
        let part = parts[0];
        if part.len() == 0 {
            chip_walk(flat, parts.drop_first(), acc)
        } else {
            let end = match index_of_from(part, '<', 0) {
                Some(e) => e,
                None => part.len() as int,
            };
            let value = decode_entities_spec(part.take(end));
            let next = if !contains(value, "games"@) && !contains(value, "http"@) {
                push_genre(acc, value)
            } else {
                acc
            };
            let stop = match find(flat, part) {
                Some(p) => byte_len(flat.take(p)) > 4000,
                None => true,
            };
            if stop {
                next
            } else {
                chip_walk(flat, parts.drop_first(), next)
            }
        }
    }
}

/// The genres: the chips on a SteamUnlocked page, else the comma-separated
/// "Genre:" entry; `None` where that entry's window splits a character.
pub open spec fn genres_spec(flat: Seq<char>, label: crate::models::SourceLabel) -> Option<
    Seq<Seq<char>>,
> {
    if label == crate::models::SourceLabel::Steamunlocked {
        Some(chip_walk(flat, crate::text::split_on(flat, "su-hchip--genre\">"@), Seq::empty()))
    } else {
        match meta_spec(flat, "Genre:"@, "Genre"@) {
            None => None,
            Some(None) => Some(Seq::empty()),
            Some(Some(f)) => Some(push_genres(Seq::empty(), crate::text::split_on(f, seq![',']))),
        }
    }
}

/// The genres taken so far, with their lower-case forms.
fn push_genre_vec(acc: &mut Vec<Vec<char>>, seen: &mut Vec<Vec<char>>, raw: &Vec<char>)
    requires
        old(seen).len() == old(acc).len(),
        forall|k: int| 0 <= k < old(acc).len() ==> (#[trigger] old(seen)@[k])@ == lower_of(
            old(acc)@[k]@,
        ),
    ensures
        final(seen).len() == final(acc).len(),
        forall|k: int| 0 <= k < final(acc).len() ==> (#[trigger] final(seen)@[k])@ == lower_of(
            final(acc)@[k]@,
        ),
        vecs_view(final(acc)@) == push_genre(vecs_view(old(acc)@), raw@),
{
    let r = trimmed_vec(raw);
    if r.len() == 0 || r.len() > 60 {
        return;
    }
    let l = lower_vec(&r);
    let mut k: usize = 0;
    while k < seen.len()
        invariant
            k <= seen.len(),
            seen.len() == acc.len(),
            forall|j: int| 0 <= j < acc.len() ==> (#[trigger] seen@[j])@ == lower_of(acc@[j]@),
            forall|j: int| 0 <= j < k ==> lower_of(#[trigger] vecs_view(acc@)[j]) != l@,
            l@ == lower_of(r@),
            acc@ == old(acc)@,
            seen@ == old(seen)@,
            r@ == trim(raw@),
            0 < r.len() <= 60,
        decreases seen.len() - k,
    {
        if crate::text::seq_equal(&seen[k], &l) {
            assert(vecs_view(acc@)[k as int] == acc@[k as int]@);
            assert(seen@[k as int]@ == lower_of(acc@[k as int]@));
            assert(lower_of(vecs_view(acc@)[k as int]) == lower_of(r@));
            assert(seen_genre(vecs_view(acc@), r@));
            return;
        }
        k += 1;
    }
    let ghost prev = vecs_view(acc@);
    let ghost rv = r@;
    acc.push(r);
    seen.push(l);
    assert(vecs_view(acc@) =~= prev.push(rv));
    assert(!seen_genre(prev, rv)) by {
        assert forall|j: int| 0 <= j < prev.len() implies lower_of(#[trigger] prev[j]) != lower_of(
            rv,
        ) by {
            assert(prev[j] == vecs_view(acc@)[j]);
        }
    }
}

fn genres_vec(flat: &Vec<char>, label: crate::models::SourceLabel) -> (r: Option<
    Vec<Vec<char>>,
>)
    ensures
        r matches Some(x) ==> genres_spec(flat@, label) == Some(vecs_view(x@)),
        r is None ==> genres_spec(flat@, label) is None,
{
    let mut acc: Vec<Vec<char>> = Vec::new();
    let mut seen: Vec<Vec<char>> = Vec::new();
    if label == crate::models::SourceLabel::Steamunlocked {
        let mark = chars_of("su-hchip--genre\">");
        proof {
            reveal_strlit("su-hchip--genre\">");
        }
        let parts = crate::text::split_on_vec(flat, &mark);
        let ghost pv = vecs_view(parts@);
        let games = chars_of("games");
        let http = chars_of("http");
        let mut i: usize = 0;
        assert(pv.skip(0) =~= pv);
        assert(vecs_view(acc@) =~= Seq::<Seq<char>>::empty());
        while i < parts.len()
            invariant
                i <= parts.len(),
                pv == vecs_view(parts@),
                games@ == "games"@,
                http@ == "http"@,
                pv == crate::text::split_on(flat@, "su-hchip--genre\">"@),
                label == crate::models::SourceLabel::Steamunlocked,
                seen.len() == acc.len(),
                forall|k: int| 0 <= k < acc.len() ==> (#[trigger] seen@[k])@ == lower_of(acc@[k]@),
                chip_walk(flat@, pv, Seq::empty()) == chip_walk(flat@, pv.skip(i as int), vecs_view(acc@)),
            decreases parts.len() - i,
        {
            let part = &parts[i];
            let ghost acc0 = vecs_view(acc@);
            let ghost rest = pv.skip(i as int);
            assert(rest[0] == part@);
            assert(rest.drop_first() =~= pv.skip(i + 1));
            if part.len() > 0 {
                let end = match index_of_char(part, '<', 0) {
                    Some(e) => e,
                    None => part.len(),
                };
                let head = vec_of_range(part, 0, end);
                assert(head@ =~= part@.take(end as int));
                let value = decode_entities_vec(&head);
                if !contains_chars(&value, &games) && !contains_chars(&value, &http) {
                    push_genre_vec(&mut acc, &mut seen, &value);
                }
                let ghost next = vecs_view(acc@);
                proof {
                    lemma_find_from(flat@, part@, 0);
                }
                let stop = match find_chars(flat, part) {
                    Some(p) => {
                        let prefix = vec_of_range(flat, 0, p);
                        assert(prefix@ =~= flat@.take(p as int));
                        crate::slug::bytes_exceed(&prefix, 4000)
                    },
                    None => true,
                };
                assert(chip_walk(flat@, rest, acc0) == if stop {
                    next
                } else {
                    chip_walk(flat@, pv.skip(i + 1), next)
                });
                if stop {
                    return Some(acc);
                }
            } else {
                assert(chip_walk(flat@, rest, acc0) == chip_walk(flat@, pv.skip(i + 1), acc0));
            }
            i += 1;
        }
        assert(pv.skip(parts.len() as int) =~= Seq::<Seq<char>>::empty());
        Some(acc)
    } else {
        match meta_vec(flat, "Genre:", "Genre") {
            None => None,
            Some(None) => {
                assert(vecs_view(acc@) =~= Seq::<Seq<char>>::empty());
                Some(acc)
            },
            Some(Some(f)) => {
                let comma = vec![','];
                assert(comma@ =~= seq![',']);
                let pieces = crate::text::split_on_vec(&f, &comma);
                let ghost pv = vecs_view(pieces@);
                let mut i: usize = 0;
                assert(pv.take(0) =~= Seq::<Seq<char>>::empty());
                assert(vecs_view(acc@) =~= Seq::<Seq<char>>::empty());
                while i < pieces.len()
                    invariant
                        i <= pieces.len(),
                        pv == vecs_view(pieces@),
                        seen.len() == acc.len(),
                        forall|k: int| 0 <= k < acc.len() ==> (#[trigger] seen@[k])@ == lower_of(
                            acc@[k]@,
                        ),
                        vecs_view(acc@) == push_genres(Seq::empty(), pv.take(i as int)),
                    decreases pieces.len() - i,
                {
                    assert(pv.take(i + 1).drop_last() =~= pv.take(i as int));
                    push_genre_vec(&mut acc, &mut seen, &pieces[i]);
                    i += 1;
                }
                assert(pv.take(pieces.len() as int) =~= pv);
                Some(acc)
            },
        }
    }
}

/// Where the requirements section starts.
pub open spec fn req_start(flat: Seq<char>) -> Option<int> {
    match find(flat, "System Requirements"@) {
        Some(i) => Some(i),
        None => match find(flat, "<strong>OS"@) {
            Some(i) => Some(i),
            None => find(flat, "<strong>OS</strong>"@),
        },
    }
}

/// The non-empty text lines of the `<li>` pieces that are closed.
pub open spec fn req_lines(parts: Seq<Seq<char>>) -> Seq<Seq<char>>
    decreases parts.len(),
{
    if parts.len() == 0 {
        Seq::empty()
    } else {
        let prev = req_lines(parts.drop_last());
        match find(parts.last(), "</li>"@) {
            Some(k) => {
                let t = trim(decode_entities_spec(strip_tags_spec(parts.last().take(k))));
                if t.len() > 0 {
                    prev.push(t)
                } else {
                    prev
                }
            },
            None => prev,
        }
    }
}

/// The system requirements: the lines of the first list (3500-byte window
/// from the section start), joined by newlines, when at least 10
/// characters long; `None` where that window splits a character.
pub open spec fn requirements_spec(flat: Seq<char>) -> Option<Option<Seq<char>>> {
    match req_start(flat) {
        None => Some(None),
        Some(s0) => match window(flat, s0, 3500) {
            None => None,
            Some(w) => {
                let end = match find(w, "</ul>"@) {
                    Some(e) => Some(e),
                    None => find(w, "</ol>"@),
                };
                match end {
                    None => Some(None),
                    Some(e) => {
                        let text = crate::text::join_with(
                            req_lines(crate::text::split_on(w.take(e), "<li>"@)),
                            '\n',
                        );
                        if text.len() >= 10 {
                            Some(Some(text))
                        } else {
                            Some(None)
                        }
                    },
                }
            },
        },
    }
}

fn requirements_vec(flat: &Vec<char>) -> (r: Option<Option<Vec<char>>>)
    ensures
        r matches Some(x) ==> requirements_spec(flat@) == Some(ov(x)),
        r is None ==> requirements_spec(flat@) is None,
{
    proof {
        lemma_find_from(flat@, "System Requirements"@, 0);
        lemma_find_from(flat@, "<strong>OS"@, 0);
        lemma_find_from(flat@, "<strong>OS</strong>"@, 0);
    }
    let s0 = match find_chars(flat, &chars_of("System Requirements")) {
        Some(i) => i,
        None => match find_chars(flat, &chars_of("<strong>OS")) {
            Some(i) => i,
            None => match find_chars(flat, &chars_of("<strong>OS</strong>")) {
                Some(i) => i,
                None => return Some(None),
            },
        },
    };
    assert(req_start(flat@) == Some(s0 as int));
    let w = match window_of(flat, s0, 3500) {
        None => return None,
        Some(w) => w,
    };
    proof {
        lemma_find_from(w@, "</ul>"@, 0);
        lemma_find_from(w@, "</ol>"@, 0);
    }
    let e = match find_chars(&w, &chars_of("</ul>")) {
        Some(e) => e,
        None => match find_chars(&w, &chars_of("</ol>")) {
            Some(e) => e,
            None => return Some(None),
        },
    };
    let list = vec_of_range(&w, 0, e);
    assert(list@ =~= w@.take(e as int));
    let li = chars_of("<li>");
    proof {
        reveal_strlit("<li>");
    }
    let parts = crate::text::split_on_vec(&list, &li);
    let ghost pv = vecs_view(parts@);
    let close = chars_of("</li>");
    let mut lines: Vec<Vec<char>> = Vec::new();
    let mut i: usize = 0;
    assert(pv.take(0) =~= Seq::<Seq<char>>::empty());
    assert(vecs_view(lines@) =~= Seq::<Seq<char>>::empty());
    while i < parts.len()
        invariant
            i <= parts.len(),
            pv == vecs_view(parts@),
            close@ == "</li>"@,
            vecs_view(lines@) == req_lines(pv.take(i as int)),
        decreases parts.len() - i,
    {
        assert(pv.take(i + 1).drop_last() =~= pv.take(i as int));
        assert(pv.take(i + 1).last() == parts@[i as int]@);
        proof {
            lemma_find_from(parts@[i as int]@, close@, 0);
        }
        match find_chars(&parts[i], &close) {
            Some(k) => {
                let head = vec_of_range(&parts[i], 0, k);
                assert(head@ =~= parts@[i as int]@.take(k as int));
                let t = trimmed_vec(&decode_entities_vec(&strip_tags_vec(&head)));
                if t.len() > 0 {
                    let ghost prev = vecs_view(lines@);
                    let ghost tv = t@;
                    lines.push(t);
                    assert(vecs_view(lines@) =~= prev.push(tv));
                }
            },
            None => {},
        }
        i += 1;
    }
    assert(pv.take(parts.len() as int) =~= pv);
    let text = crate::text::join_with_vec(&lines, '\n');
    if text.len() >= 10 {
        Some(Some(text))
    } else {
        Some(None)
    }
}

} // verus!

verus! {

// ---------------------------------------------------------------------------
// The whole page
// ---------------------------------------------------------------------------

/// The page with every '\n' turned into a space.
pub open spec fn flatten_lines(html: Seq<char>) -> Seq<char> {
    html.map_values(|c: char|
        if c == '\n' {
            ' '
        } else {
            c
        })
}

/// What a game page yields, or `None` on the pages this reading is not
/// defined for (a byte window that would split a character, an anchor
/// without '>' before its `</a>`). Images are never taken: artwork comes
/// from Steam.
pub open spec fn page_details_spec(html: Seq<char>, label: crate::models::SourceLabel) -> Option<
    crate::models::SourcePageDetailsV,
> {
    let flat = flatten_lines(html);
    let urls = download_urls_spec(flat);
    let version = page_version_spec(flat);
    let size = file_size_spec(flat);
    let developer = meta_spec(flat, "Developer:"@, "Developer"@);
    let publisher = meta_spec(flat, "Publisher:"@, "Publisher"@);
    let genres = genres_spec(flat, label);
    let minimum = requirements_spec(flat);
    if urls is Some && version is Some && size is Some && developer is Some && publisher is Some
        && genres is Some && minimum is Some {
        let u = urls.unwrap();
        Some(
            crate::models::SourcePageDetailsV {
                download_urls: u,
                download_host: if u.len() > 0 {
                    host_label_spec(u[0])
                } else {
                    None
                },
                version: version.unwrap(),
                file_size: size.unwrap(),
                developer: developer.unwrap(),
                publisher: publisher.unwrap(),
                genres: genres.unwrap(),
                minimum: minimum.unwrap(),
                title: page_title_spec(flat),
            },
        )
    } else {
        None
    }
}

fn flatten_vec(html: &str) -> (r: Vec<char>)
    ensures
        r@ == flatten_lines(html@),
{
    let v = chars_of(html);
    let mut out: Vec<char> = Vec::new();
    let mut i: usize = 0;
    while i < v.len()
        invariant
            i <= v.len(),
            v@ == html@,
            out@ == flatten_lines(v@).take(i as int),
        decreases v.len() - i,
    {
        let c = v[i];
        out.push(if c == '\n' {
            ' '
        } else {
            c
        });
        assert(flatten_lines(v@).take(i + 1) =~= flatten_lines(v@).take(i as int).push(
            flatten_lines(v@)[i as int],
        ));
        i += 1;
    }
    assert(flatten_lines(v@).take(v.len() as int) =~= flatten_lines(v@));
    out
}

fn opt_string(o: Option<Vec<char>>) -> (r: Option<String>)
    ensures
        r.deep_view() == ov(o),
{
    match o {
        Some(v) => Some(string_of(&v)),
        None => None,
    }
}

fn page_details_vec(html: &str, label: crate::models::SourceLabel) -> (r: Option<
    crate::models::SourcePageDetails,
>)
    ensures
        r matches Some(d) ==> page_details_spec(html@, label) == Some(d@),
        r is None ==> page_details_spec(html@, label) is None,
{
    let flat = flatten_vec(html);
    let urls = match download_urls_vec(&flat) {
        None => return None,
        Some(u) => u,
    };
    let version = match page_version_vec(&flat) {
        None => return None,
        Some(v) => v,
    };
    let size = match file_size_vec(&flat) {
        None => return None,
        Some(v) => v,
    };
    let developer = match meta_vec(&flat, "Developer:", "Developer") {
        None => return None,
        Some(v) => v,
    };
    let publisher = match meta_vec(&flat, "Publisher:", "Publisher") {
        None => return None,
        Some(v) => v,
    };
    let genres = match genres_vec(&flat, label) {
        None => return None,
        Some(v) => v,
    };
    let minimum = match requirements_vec(&flat) {
        None => return None,
        Some(v) => v,
    };
    let host = if urls.len() > 0 {
        assert(vecs_view(urls@)[0] == urls@[0]@);
        host_label_vec(&urls[0])
    } else {
        None
    };
    let title = page_title_vec(&flat);
    let download_urls = crate::scraper::strings_of(&urls);
    let genre_list = crate::scraper::strings_of(&genres);
    let d = crate::models::SourcePageDetails {
        download_urls,
        download_host: opt_string(host),
        version: opt_string(version),
        file_size: opt_string(size),
        developer: opt_string(developer),
        publisher: opt_string(publisher),
        genres: genre_list,
        minimum: opt_string(minimum),
        title: opt_string(title),
    };
    Some(d)
}

/// Whether `extract_page_details` is defined on this page (see
/// `page_details_spec`).
pub fn page_details_defined(html: &str, label: crate::models::SourceLabel) -> (r: bool)
    ensures
        r == page_details_spec(html@, label) is Some,
{
    page_details_vec(html, label).is_some()
}

/// Parse a fetched game page into its details (images excluded on
/// purpose: artwork must come from Steam's CDN, never the source sites).
pub fn extract_page_details(
    html: &str,
    label: crate::models::SourceLabel,
    _page_url: &str,
) -> (r: crate::models::SourcePageDetails)
    requires
        page_details_spec(html@, label) is Some,
    ensures
        r@ == page_details_spec(html@, label).unwrap(),
{
    match page_details_vec(html, label) {
        Some(d) => d,
        None => crate::models::SourcePageDetails::default(),
    }
}

/// `extract_page_details` where it is defined, `None` elsewhere.
pub fn checked_page_details(
    html: &str,
    label: crate::models::SourceLabel,
    page_url: &str,
) -> (r: Option<crate::models::SourcePageDetails>)
    ensures
        r is Some <==> page_details_spec(html@, label) is Some,
        r matches Some(d) ==> d@ == page_details_spec(html@, label).unwrap(),
{
    if page_details_defined(html, label) {
        Some(extract_page_details(html, label, page_url))
    } else {
        None
    }
}

} // verus!

verus! {

/// Pull the download URLs out of a (flattened) game page: the primary
/// button, every file-host link that is not one of the host's own pages,
/// and only when there is none of those, the anchors named like downloads.
pub fn extract_download_urls(flat: &str, label: &crate::models::SourceLabel) -> (r: Vec<String>)
    requires
        download_urls_spec(flat@) is Some,
    ensures
        r.deep_view() == download_urls_spec(flat@).unwrap(),
{
    match download_urls_vec(&chars_of(flat)) {
        Some(u) => crate::scraper::strings_of(&u),
        None => Vec::new(),
    }
}

/// `extract_download_urls` where it is defined, `None` elsewhere.
pub fn checked_download_urls(flat: &str, label: &crate::models::SourceLabel) -> (r: Option<Vec<String>>)
    ensures
        r is Some <==> download_urls_spec(flat@) is Some,
        r matches Some(u) ==> u.deep_view() == download_urls_spec(flat@).unwrap(),
{
    if download_urls_vec(&chars_of(flat)).is_some() {
        Some(extract_download_urls(flat, label))
    } else {
        None
    }
}

} // verus!
