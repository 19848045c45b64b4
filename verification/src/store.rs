//! Video records and the small web-facing value logic: the per-video record
//! shape, maintaining its set of subtitle languages, display formatting for
//! durations, and content URL building.

use vstd::prelude::*;

use crate::text::{prefix_before, spec_prefix_before, str_eq};
use crate::timecode::{spec_dec, spec_pad2, dec_string, pad2_string};

verus! {

/// One video record as the record store keeps it.
pub struct VideoItem {
    pub id: String,
    pub title: String,
    pub lang: String,
    pub subtitles: Vec<String>,
    pub video_key: String,
    pub thumbnail_key: Option<String>,
}

/// The landing-page template data: the videos to list.
pub struct IndexTemplate {
    pub videos: Vec<VideoItem>,
}

impl IndexTemplate {
    /// Builds the template data over the given videos.
    pub fn new(videos: Vec<VideoItem>) -> (r: IndexTemplate)
        ensures
            r.videos@ == videos@,
    {
        IndexTemplate { videos }
    }
}

/// A request to produce a subtitle for one video, optionally translated.
pub struct RequestSubtitleRequest {
    pub video_id: String,
    pub target_lang: Option<String>,
}

/// A free-text search request against one language's index.
pub struct VideoSearchRequest {
    pub query: String,
    pub video_id: Option<String>,
    pub lang: String,
}

/// The views of a sequence of strings.
pub open spec fn strs_view(s: Seq<String>) -> Seq<Seq<char>> {
    s.map_values(|x: String| x@)
}

/// Whether `x` occurs in `s` strictly before index `j`.
pub open spec fn occurs_before(s: Seq<Seq<char>>, x: Seq<char>, j: int) -> bool {
    exists|k: int| 0 <= k < j && #[trigger] s[k] == x
}

/// Occurrence before `j + 1` is occurrence before `j` or at `j`.
pub proof fn lemma_occurs_step(s: Seq<Seq<char>>, x: Seq<char>, j: int)
    requires
        0 <= j < s.len(),
    ensures
        occurs_before(s, x, j + 1) == (occurs_before(s, x, j) || s[j] == x),
{
    if occurs_before(s, x, j) {
        let k = choose|k: int| 0 <= k < j && #[trigger] s[k] == x;
        assert(0 <= k < j + 1 && s[k] == x);
    }
    if s[j] == x {
        assert(0 <= j < j + 1 && s[j] == x);
    }
    if occurs_before(s, x, j + 1) && s[j] != x {
        let k = choose|k: int| 0 <= k < j + 1 && #[trigger] s[k] == x;
        assert(0 <= k < j && s[k] == x);
    }
}

/// Occurring before `j` in `s` is the same as occurring in `s.take(j)`.
pub proof fn lemma_occurs_take(s: Seq<Seq<char>>, x: Seq<char>, j: int)
    requires
        0 <= j <= s.len(),
    ensures
        occurs_before(s, x, j) <==> s.take(j).contains(x),
{
    if occurs_before(s, x, j) {
        let k = choose|k: int| 0 <= k < j && #[trigger] s[k] == x;
        assert(s.take(j)[k] == x);
    }
    if s.take(j).contains(x) {
        let k = choose|k: int| 0 <= k < s.take(j).len() && s.take(j)[k] == x;
        assert(s[k] == x);
    }
}

/// `s` with every repeated string removed, keeping first occurrences in
/// their original order.
pub open spec fn dedup_first(s: Seq<Seq<char>>) -> Seq<Seq<char>>
    decreases s.len(),
{
    if s.len() == 0 {
        Seq::empty()
    } else {
        let d = dedup_first(s.drop_last());
        if s.drop_last().contains(s.last()) {
            d
        } else {
            d.push(s.last())
        }
    }
}

/// The language list of a video record after a subtitle in `lang` was
/// produced: `lang` appended, then duplicates removed keeping each
/// language's first occurrence.
pub fn add_language(subtitles: Vec<String>, lang: &str) -> (r: Vec<String>)
    ensures
        strs_view(r@) == dedup_first(strs_view(subtitles@).push(lang@)),
{
    let ghost orig = subtitles@;
    let mut all = subtitles;
    all.push(lang.to_owned());
    proof {
        assert(strs_view(all@) =~~= strs_view(orig).push(lang@));
    }
    let full = all;
    let m = full.len();
    let mut out: Vec<String> = Vec::new();
    let mut i: usize = 0;
    while i < m
        invariant
            m == full@.len(),
            0 <= i <= m,
            strs_view(out@) == dedup_first(strs_view(full@).take(i as int)),
        decreases m - i,
    {
        let ghost fv = strs_view(full@);
        let ghost x = full@[i as int]@;
        let mut seen = false;
        let mut j: usize = 0;
        while j < i
            invariant
                0 <= j <= i < m,
                m == full@.len(),
                fv == strs_view(full@),
                x == full@[i as int]@,
                seen == occurs_before(fv, x, j as int),
            decreases i - j,
        {
            if str_eq(full[j].as_str(), full[i].as_str()) {
                seen = true;
            }
            proof {
                lemma_occurs_step(fv, x, j as int);
            }
            j += 1;
        }
        proof {
            lemma_occurs_take(fv, x, i as int);
            assert(fv.take(i + 1).drop_last() =~= fv.take(i as int));
            assert(fv.take(i + 1).last() == x);
        }
        if !seen {
            out.push(full[i].clone());
            proof {
                assert(strs_view(out@) =~~= dedup_first(fv.take(i + 1)));
            }
        }
        i += 1;
    }
    proof {
        assert(strs_view(full@).take(m as int) =~= strs_view(full@));
    }
    out
}

/// The `m:ss` display form of a duration of `seconds`, or the empty string
/// for zero seconds.
pub open spec fn spec_second_format(seconds: int) -> Seq<char> {
    if seconds == 0 {
        Seq::empty()
    } else {
        spec_dec(seconds / 60) + seq![':'] + spec_pad2(seconds % 60)
    }
}

/// Formats a duration of whole seconds as `m:ss`, the empty string for zero.
pub fn second_format(seconds: u32) -> (r: String)
    ensures
        r@ == spec_second_format(seconds as int),
{
    if seconds == 0 {
        return String::new();
    }
    let mm = seconds / 60;
    let ss = seconds % 60;
    let mut s = dec_string(mm as u64);
    s.append(":");
    let ss_part = pad2_string(ss as u64);
    s.append(ss_part.as_str());
    proof {
        reveal_strlit(":");
        assert(":"@ =~= seq![':']);
        assert(s@ =~= spec_second_format(seconds as int));
    }
    s
}

/// The protocol-relative content URL `//<host>/<key>`.
pub open spec fn spec_content_url(host: Seq<char>, key: Seq<char>) -> Seq<char> {
    seq!['/', '/'] + host + seq!['/'] + key
}

/// Builds the protocol-relative content URL for `key` on `host`.
pub fn content_url(host: &str, key: &str) -> (r: String)
    ensures
        r@ == spec_content_url(host@, key@),
{
    let mut s = String::from_str("//");
    s.append(host);
    s.append("/");
    s.append(key);
    proof {
        reveal_strlit("//");
        reveal_strlit("/");
        assert(s@ =~= spec_content_url(host@, key@));
    }
    s
}

/// Builds the content URL for an optional key; a missing key (no thumbnail
/// yet) yields the empty string.
pub fn content_url_opt(host: &str, key: &Option<String>) -> (r: String)
    ensures
        match key {
            Some(k) => r@ == spec_content_url(host@, k@),
            None => r@ == Seq::<char>::empty(),
        },
{
    match key {
        Some(k) => content_url(host, k.as_str()),
        None => String::new(),
    }
}

/// The primary language of a record's language tag: the part before the
/// first `-` (so `en-GB` names `en`), or the whole tag without one.
pub fn primary_language(lang: &str) -> (r: String)
    ensures
        r@ == spec_prefix_before(lang@, '-'),
{
    prefix_before(lang, '-')
}

} // verus!
