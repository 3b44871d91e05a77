//! Reading music links: Open Graph tags of a page, HTML entities, Deezer track ids, and the
//! search query / display title built from what a streaming page says about a song.
use vstd::prelude::*;
use crate::text::{
    chars_of, contains, find, find_chars, lowercase, matches_at, owned, push_lit, push_str, push_string,
    replace_all, replace_str, rfind, rfind_chars, str_contains, string_of, strs, to_lower, trim, trimmed,
};

verus! {

/// The entities a scraped title may hold, decoded in this order:
/// `&amp;` `&quot;` `&#39;` `&#x27;` `&lt;` `&gt;` `&nbsp;`.
pub open spec fn html_unescape_spec(s: Seq<char>) -> Seq<char> {
    let a = replace_all(s, "&amp;"@, "&"@);
    let b = replace_all(a, "&quot;"@, "\""@);
    let c = replace_all(b, "&#39;"@, "'"@);
    let d = replace_all(c, "&#x27;"@, "'"@);
    let e = replace_all(d, "&lt;"@, "<"@);
    let f = replace_all(e, "&gt;"@, ">"@);
    replace_all(f, "&nbsp;"@, " "@)
}

/// Decodes the common HTML entities of a scraped title.
pub fn html_unescape(s: &str) -> (r: String)
    ensures
        r@ == html_unescape_spec(s@),
{
    proof {
        reveal_strlit("&amp;");
        reveal_strlit("&quot;");
        reveal_strlit("&#39;");
        reveal_strlit("&#x27;");
        reveal_strlit("&lt;");
        reveal_strlit("&gt;");
        reveal_strlit("&nbsp;");
    }
    let a = replace_str(s, "&amp;", "&");
    let b = replace_str(a.as_str(), "&quot;", "\"");
    let c = replace_str(b.as_str(), "&#39;", "'");
    let d = replace_str(c.as_str(), "&#x27;", "'");
    let e = replace_str(d.as_str(), "&lt;", "<");
    let f = replace_str(e.as_str(), "&gt;", ">");
    replace_str(f.as_str(), "&nbsp;", " ")
}

/// The content of the first `<meta property="PROP" content="...">`: after the first
/// `property="PROP"`, the text between the next `content="` and the following `"`,
/// trimmed and with entities decoded; none when any of the three is missing.
pub open spec fn meta_content_spec(html: Seq<char>, prop: Seq<char>) -> Option<Seq<char>> {
    let needle = "property=\""@ + prop + "\""@;
    match find(html, needle) {
        None => None,
        Some(i) => {
            let after = html.skip(i + needle.len());
            match find(after, "content=\""@) {
                None => None,
                Some(c) => {
                    let rest = after.skip(c + "content=\""@.len());
                    match find(rest, "\""@) {
                        None => None,
                        Some(e) => Some(html_unescape_spec(trim(rest.take(e)))),
                    }
                },
            }
        },
    }
}

/// The tail `v[from..]` as its own vector.
fn tail_of(v: &Vec<char>, from: usize) -> (r: Vec<char>)
    requires
        from <= v@.len(),
    ensures
        r@ == v@.skip(from as int),
{
    let s = string_of(v, from, v.len());
    let r = chars_of(s.as_str());
    assert(r@ =~= v@.skip(from as int));
    r
}

/// Pull the content of a `<meta property="PROP" content="...">` tag.
pub fn meta_content(html: &str, prop: &str) -> (r: Option<String>)
    ensures
        match r {
            Some(x) => meta_content_spec(html@, prop@) == Some(x@),
            None => meta_content_spec(html@, prop@) is None,
        },
{
    let mut needle = owned("property=\"");
    push_str(&mut needle, prop);
    push_str(&mut needle, "\"");
    let hv = chars_of(html);
    let nv = chars_of(needle.as_str());
    let found = find_chars(&hv, &nv, 0);
    let i = match found {
        Some(i) => i,
        None => return None,
    };
    assert(matches_at(hv@, nv@, i as int));
    let hn = hv.len();
    let nn = nv.len();
    assert(i + nn <= hn);
    let after = tail_of(&hv, i + nn);
    let cv = chars_of("content=\"");
    let found_c = find_chars(&after, &cv, 0);
    let c = match found_c {
        Some(c) => c,
        None => return None,
    };
    assert(matches_at(after@, cv@, c as int));
    let an = after.len();
    let cn = cv.len();
    assert(c + cn <= an);
    let rest = tail_of(&after, c + cn);
    let qv = chars_of("\"");
    let e = match find_chars(&rest, &qv, 0) {
        Some(e) => e,
        None => return None,
    };
    let value = string_of(&rest, 0, e);
    let t = trimmed(value.as_str());
    assert(value@ =~= rest@.take(e as int));
    Some(html_unescape(t.as_str()))
}

/// The leading run of ASCII digits of `s`.
pub open spec fn digit_prefix(s: Seq<char>) -> Seq<char>
    decreases s.len(),
{
    if s.len() > 0 && '0' <= s[0] <= '9' {
        seq![s[0]] + digit_prefix(s.skip(1))
    } else {
        Seq::empty()
    }
}

/// The track id of a Deezer link: the digits right after the first `/track/`; none when
/// there is no `/track/` or no digit follows it.
pub open spec fn deezer_track_id_spec(url: Seq<char>) -> Option<Seq<char>> {
    match find(url, "/track/"@) {
        None => None,
        Some(i) => {
            let id = digit_prefix(url.skip(i + "/track/"@.len()));
            if id.len() == 0 { None } else { Some(id) }
        },
    }
}

proof fn lemma_digit_prefix(s: Seq<char>, k: int)
    requires
        0 <= k <= s.len(),
        forall|j: int| 0 <= j < k ==> '0' <= #[trigger] s[j] <= '9',
        k == s.len() || !('0' <= s[k] <= '9'),
    ensures
        digit_prefix(s) == s.take(k),
    decreases k,
{
    if k > 0 {
        assert forall|j: int| 0 <= j < k - 1 implies '0' <= #[trigger] s.skip(1)[j] <= '9' by {
            assert(s.skip(1)[j] == s[j + 1]);
        }
        lemma_digit_prefix(s.skip(1), k - 1);
        assert(seq![s[0]] + s.skip(1).take(k - 1) =~= s.take(k));
    } else {
        assert(s.take(0) =~= Seq::<char>::empty());
    }
}

/// The track id of a Deezer link.
pub fn deezer_track_id(url: &str) -> (r: Option<String>)
    ensures
        match r {
            Some(x) => deezer_track_id_spec(url@) == Some(x@),
            None => deezer_track_id_spec(url@) is None,
        },
{
    let uv = chars_of(url);
    let pv = chars_of("/track/");
    let found = find_chars(&uv, &pv, 0);
    let i = match found {
        Some(i) => i,
        None => return None,
    };
    assert(matches_at(uv@, pv@, i as int));
    let un = uv.len();
    let pn = pv.len();
    assert(i + pn <= un);
    let start = i + pn;
    let mut k = start;
    while k < uv.len() && '0' <= uv[k] && uv[k] <= '9'
        invariant
            start <= k <= uv@.len(),
            forall|j: int| start <= j < k ==> '0' <= #[trigger] uv@[j] <= '9',
        decreases uv@.len() - k,
    {
        k = k + 1;
    }
    proof {
        let t = uv@.skip(start as int);
        assert forall|j: int| 0 <= j < k - start implies '0' <= #[trigger] t[j] <= '9' by {
            assert(t[j] == uv@[start + j]);
        }
        if k < uv@.len() {
            assert(t[k - start] == uv@[k as int]);
        }
        lemma_digit_prefix(t, k - start);
        assert(t.take(k - start) =~= uv@.subrange(start as int, k as int));
    }
    if k == start {
        None
    } else {
        Some(string_of(&uv, start, k))
    }
}


/// Where a music link points.
#[derive(Clone, Copy, PartialEq, Eq, Structural, Debug)]
pub enum MusicSource {
    Deezer,
    AppleMusic,
    Tidal,
    /// Spotify and anything else with Open Graph tags.
    Other,
}

/// The service of a link, from its lowercase form `u`.
pub open spec fn source_of_lowered_spec(u: Seq<char>) -> MusicSource {
    if contains(u, "deezer.com"@) {
        MusicSource::Deezer
    } else if contains(u, "music.apple.com"@) {
        MusicSource::AppleMusic
    } else if contains(u, "tidal.com"@) {
        MusicSource::Tidal
    } else {
        MusicSource::Other
    }
}

/// The service of a link, judged on its lowercase form.
pub open spec fn music_source_spec(url: Seq<char>) -> MusicSource {
    source_of_lowered_spec(lowercase(url))
}

/// The service a link belongs to, given the link already in lower case.
pub fn source_of_lowered(u: &str) -> (r: MusicSource)
    ensures
        r == source_of_lowered_spec(u@),
{
    if str_contains(u, "deezer.com") {
        MusicSource::Deezer
    } else if str_contains(u, "music.apple.com") {
        MusicSource::AppleMusic
    } else if str_contains(u, "tidal.com") {
        MusicSource::Tidal
    } else {
        MusicSource::Other
    }
}

/// The service a music link belongs to.
pub fn music_source(url: &str) -> (r: MusicSource)
    ensures
        r == music_source_spec(url@),
{
    let u = to_lower(url);
    source_of_lowered(u.as_str())
}

/// `s` up to the first `pat` (all of `s` when there is none): `s.split(pat).next()`.
pub open spec fn before_first(s: Seq<char>, pat: Seq<char>) -> Seq<char> {
    match find(s, pat) {
        Some(i) => s.take(i),
        None => s,
    }
}

fn before_first_of(s: &str, pat: &str) -> (r: String)
    ensures
        r@ == before_first(s@, pat@),
{
    let v = chars_of(s);
    let p = chars_of(pat);
    let found = find_chars(&v, &p, 0);
    match found {
        Some(i) => {
            assert(matches_at(v@, p@, i as int));
            string_of(&v, 0, i)
        },
        None => {
            let r = string_of(&v, 0, v.len());
            assert(r@ =~= s@);
            r
        },
    }
}

/// The search query and the display title of a song: `"<artist> <track>"` and
/// `"<artist> - <track>"`.
pub open spec fn query_title(artist: Seq<char>, track: Seq<char>) -> (Seq<char>, Seq<char>) {
    (artist + " "@ + track, artist + " - "@ + track)
}

/// The query and title of a Deezer track, from the artist and track name its API gives.
pub fn deezer_query(artist: &str, track: &str) -> (r: (String, String))
    ensures
        (r.0@, r.1@) == query_title(artist@, track@),
{
    let mut q = owned(artist);
    push_str(&mut q, " ");
    push_str(&mut q, track);
    let mut t = owned(artist);
    push_str(&mut t, " - ");
    push_str(&mut t, track);
    (q, t)
}

/// The query and title from a scraped page. Apple Music titles read "Track by Artist on
/// Apple Music": cut at the first " on Apple", trim, and split at the last " by ". Tidal
/// titles are already "Artist - Track". Spotify titles are the track, and the description
/// starts with the artist before a '·'.
pub open spec fn page_query_spec(source: MusicSource, og_title: Seq<char>, description: Seq<char>) -> (Seq<char>, Seq<char>) {
    if source == MusicSource::AppleMusic {
        let core = trim(before_first(og_title, " on Apple"@));
        match rfind(core, " by "@) {
            Some(j) => query_title(core.skip(j + " by "@.len()), core.take(j)),
            None => (core, core),
        }
    } else if source == MusicSource::Tidal {
        (og_title, og_title)
    } else {
        let artist = trim(before_first(description, "·"@));
        if artist.len() == 0 { (og_title, og_title) } else { query_title(artist, og_title) }
    }
}

/// The query and title for a song page, from its `og:title` and `og:description`.
pub fn page_query(source: MusicSource, og_title: &str, description: &str) -> (r: (String, String))
    ensures
        (r.0@, r.1@) == page_query_spec(source, og_title@, description@),
{
    if source == MusicSource::AppleMusic {
        let head = before_first_of(og_title, " on Apple");
        let core = trimmed(head.as_str());
        let cv = chars_of(core.as_str());
        let bv = chars_of(" by ");
        let found = rfind_chars(&cv, &bv);
        match found {
            Some(j) => {
                assert(matches_at(cv@, bv@, j as int));
                let cn = cv.len();
                let bn = bv.len();
                let track = string_of(&cv, 0, j);
                let artist = string_of(&cv, j + bn, cn);
                assert(artist@ =~= core@.skip(j + " by "@.len()));
                deezer_query(artist.as_str(), track.as_str())
            },
            None => (core.clone(), core),
        }
    } else if source == MusicSource::Tidal {
        (owned(og_title), owned(og_title))
    } else {
        let head = before_first_of(description, "·");
        let artist = trimmed(head.as_str());
        if artist.as_str().is_empty() {
            (owned(og_title), owned(og_title))
        } else {
            deezer_query(artist.as_str(), og_title)
        }
    }
}

/// yt-dlp arguments that look the query up on YouTube and print the best match's page
/// address and duration, one per line.
pub open spec fn search_args_spec(query: Seq<char>) -> Seq<Seq<char>> {
    seq!["--no-warnings"@, "--no-playlist"@, "--print"@, "%(webpage_url)s"@, "--print"@, "%(duration)s"@,
        "ytsearch1:"@ + query]
}

/// The yt-dlp search for a song.
pub fn search_args(query: &str) -> (r: Vec<String>)
    ensures
        strs(r@) == search_args_spec(query@),
{
    let mut a: Vec<String> = Vec::new();
    push_lit(&mut a, "--no-warnings");
    push_lit(&mut a, "--no-playlist");
    push_lit(&mut a, "--print");
    push_lit(&mut a, "%(webpage_url)s");
    push_lit(&mut a, "--print");
    push_lit(&mut a, "%(duration)s");
    let mut q = owned("ytsearch1:");
    push_str(&mut q, query);
    push_string(&mut a, q);
    assert(strs(a@) =~= search_args_spec(query@));
    a
}


proof fn lemma_replace_absent(s: Seq<char>, pat: Seq<char>, rep: Seq<char>)
    requires
        pat.len() > 0,
        forall|i: int| 0 <= i < s.len() ==> s[i] != pat[0],
    ensures
        replace_all(s, pat, rep) == s,
    decreases s.len(),
{
    if s.len() >= pat.len() {
        assert(s.take(pat.len() as int)[0] != pat[0]);
        assert forall|i: int| 0 <= i < s.skip(1).len() implies s.skip(1)[i] != pat[0] by {
            assert(s.skip(1)[i] == s[i + 1]);
        }
        lemma_replace_absent(s.skip(1), pat, rep);
        assert(seq![s[0]] + s.skip(1) =~= s);
    }
}

proof fn lemma_replace_no_longer(s: Seq<char>, pat: Seq<char>, rep: Seq<char>)
    requires
        rep.len() <= pat.len(),
    ensures
        replace_all(s, pat, rep).len() <= s.len(),
    decreases s.len(),
{
    if pat.len() == 0 || s.len() < pat.len() {
    } else if s.take(pat.len() as int) == pat {
        lemma_replace_no_longer(s.skip(pat.len() as int), pat, rep);
    } else {
        lemma_replace_no_longer(s.skip(1), pat, rep);
    }
}

/// Decoding entities never makes a text longer: each one stands for a single character.
pub proof fn law_unescape_never_longer(s: Seq<char>)
    ensures
        html_unescape_spec(s).len() <= s.len(),
{
    reveal_strlit("&amp;");
    reveal_strlit("&quot;");
    reveal_strlit("&#39;");
    reveal_strlit("&#x27;");
    reveal_strlit("&lt;");
    reveal_strlit("&gt;");
    reveal_strlit("&nbsp;");
    reveal_strlit("&");
    reveal_strlit("\"");
    reveal_strlit("'");
    reveal_strlit("<");
    reveal_strlit(">");
    reveal_strlit(" ");
    let a = replace_all(s, "&amp;"@, "&"@);
    let b = replace_all(a, "&quot;"@, "\""@);
    let c = replace_all(b, "&#39;"@, "'"@);
    let d = replace_all(c, "&#x27;"@, "'"@);
    let e = replace_all(d, "&lt;"@, "<"@);
    let f = replace_all(e, "&gt;"@, ">"@);
    lemma_replace_no_longer(s, "&amp;"@, "&"@);
    lemma_replace_no_longer(a, "&quot;"@, "\""@);
    lemma_replace_no_longer(b, "&#39;"@, "'"@);
    lemma_replace_no_longer(c, "&#x27;"@, "'"@);
    lemma_replace_no_longer(d, "&lt;"@, "<"@);
    lemma_replace_no_longer(e, "&gt;"@, ">"@);
    lemma_replace_no_longer(f, "&nbsp;"@, " "@);
}

/// Text without an '&' holds no entity and comes back unchanged.
pub proof fn law_unescape_plain_text(s: Seq<char>)
    requires
        forall|i: int| 0 <= i < s.len() ==> s[i] != '&',
    ensures
        html_unescape_spec(s) == s,
{
    reveal_strlit("&amp;");
    reveal_strlit("&quot;");
    reveal_strlit("&#39;");
    reveal_strlit("&#x27;");
    reveal_strlit("&lt;");
    reveal_strlit("&gt;");
    reveal_strlit("&nbsp;");
    lemma_replace_absent(s, "&amp;"@, "&"@);
    lemma_replace_absent(s, "&quot;"@, "\""@);
    lemma_replace_absent(s, "&#39;"@, "'"@);
    lemma_replace_absent(s, "&#x27;"@, "'"@);
    lemma_replace_absent(s, "&lt;"@, "<"@);
    lemma_replace_absent(s, "&gt;"@, ">"@);
    lemma_replace_absent(s, "&nbsp;"@, " "@);
}

} // verus!
