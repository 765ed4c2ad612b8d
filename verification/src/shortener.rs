//! A URL shortener: short identifiers under one base URL, each standing for
//! the URL it was made for.

use rand::Rng;
use vstd::hash_map::StringHashMap;
use vstd::prelude::*;
use crate::text::{chars_of, string_of};

verus! {

/// The handle to the random number generator of the current thread, from the
/// crate `rand`. Nothing is known of what is inside.
#[verifier::external_type_specification]
#[verifier::external_body]
pub struct ExThreadRng(rand::rngs::ThreadRng);

/// Calls `rand::thread_rng`. Trusted; nothing is claimed of the handle.
#[verifier::external_body]
fn thread_rng() -> rand::rngs::ThreadRng {
    rand::thread_rng()
}

/// Calls `Rng::sample` with the distribution `Alphanumeric`, which draws one
/// byte from the letters and digits of ASCII. Trusted: the byte is one of
/// those sixty-two, whichever was drawn.
#[verifier::external_body]
fn sample_alphanumeric(rng: &mut rand::rngs::ThreadRng) -> (r: u8)
    ensures
        is_alphanumeric(r as char),
{
    rng.sample(rand::distributions::Alphanumeric)
}

/// A letter or a digit of ASCII.
pub open spec fn is_alphanumeric(c: char) -> bool {
    ('a' <= c && c <= 'z') || ('A' <= c && c <= 'Z') || ('0' <= c && c <= '9')
}

/// A short identifier: eight letters or digits of ASCII.
pub open spec fn is_short_id(id: Seq<char>) -> bool {
    id.len() == 8 && forall|i: int| 0 <= i < id.len() ==> is_alphanumeric(#[trigger] id[i])
}

/// Where the last segment of `s` starts among its first `n` characters: just
/// after the last `/`, or at 0 if there is none.
pub open spec fn segment_start(s: Seq<char>, n: int) -> int
    decreases n,
{
    if n <= 0 {
        0
    } else if s[n - 1] == '/' {
        n
    } else {
        segment_start(s, n - 1)
    }
}

/// What follows the last `/` of `s`; all of `s` if it has none.
pub open spec fn last_segment(s: Seq<char>) -> Seq<char> {
    s.skip(segment_start(s, s.len() as int))
}

/// What a shortener holds, as plain values.
pub struct ShortenerView {
    /// The URL under which the short identifiers live.
    pub base_url: Seq<char>,
    /// The URL that each short identifier stands for.
    pub urls: Map<Seq<char>, Seq<char>>,
}

impl ShortenerView {
    /// The short URL of the identifier `id`: the base URL, `/`, and `id`.
    pub open spec fn short_url(self, id: Seq<char>) -> Seq<char> {
        self.base_url + seq!['/'] + id
    }

    /// This shortener once `id` stands for `url`.
    pub open spec fn with(self, id: Seq<char>, url: Seq<char>) -> ShortenerView {
        ShortenerView { base_url: self.base_url, urls: self.urls.insert(id, url) }
    }

    /// The URL that `short_url` stands for: the one filed under its last
    /// segment, if any is.
    pub open spec fn resolve(self, short_url: Seq<char>) -> Option<Seq<char>> {
        let id = last_segment(short_url);
        if self.urls.contains_key(id) {
            Some(self.urls[id])
        } else {
            None
        }
    }
}

/// A URL shortener.
pub struct UrlShortener {
    url_map: StringHashMap<String>,
    base_url: String,
}

impl View for UrlShortener {
    type V = ShortenerView;

    closed spec fn view(&self) -> ShortenerView {
        ShortenerView {
            base_url: self.base_url@,
            urls: self.url_map@.map_values(|url: String| url@),
        }
    }
}

/// The last segment of a text whose tail holds no `/` starts where that tail
/// starts, if a `/` stands just before it.
pub proof fn lemma_last_segment(head: Seq<char>, tail: Seq<char>)
    requires
        forall|i: int| 0 <= i < tail.len() ==> #[trigger] tail[i] != '/',
    ensures
        last_segment(head + seq!['/'] + tail) == tail,
{
    let s = head + seq!['/'] + tail;
    lemma_segment_start(s, head.len() as int + 1, s.len() as int);
    assert(s.skip(head.len() as int + 1) =~= tail);
}

proof fn lemma_segment_start(s: Seq<char>, start: int, n: int)
    requires
        0 < start <= n <= s.len(),
        s[start - 1] == '/',
        forall|i: int| start <= i < n ==> #[trigger] s[i] != '/',
    ensures
        segment_start(s, n) == start,
    decreases n,
{
    if n > start {
        lemma_segment_start(s, start, n - 1);
    }
}

/// The start of the last segment lies within the text, follows a `/` unless
/// it is 0, and no `/` comes after it.
pub proof fn lemma_segment_start_bounds(s: Seq<char>, n: int)
    requires
        0 <= n <= s.len(),
    ensures
        0 <= segment_start(s, n) <= n,
        segment_start(s, n) > 0 ==> s[segment_start(s, n) - 1] == '/',
        forall|i: int| segment_start(s, n) <= i < n ==> #[trigger] s[i] != '/',
    decreases n,
{
    if n > 0 && s[n - 1] != '/' {
        lemma_segment_start_bounds(s, n - 1);
    }
}

/// A short URL that was just handed out resolves to the URL it was made for.
pub proof fn lemma_resolve_after_shorten(shortener: ShortenerView, id: Seq<char>, url: Seq<char>)
    requires
        is_short_id(id),
    ensures
        shortener.with(id, url).resolve(shortener.short_url(id)) == Some(url),
{
    assert forall|i: int| 0 <= i < id.len() implies #[trigger] id[i] != '/' by {
        assert(is_alphanumeric(id[i]));
    }
    lemma_last_segment(shortener.base_url, id);
}

fn random_short_id() -> (r: String)
    ensures
        is_short_id(r@),
{
    let mut rng = thread_rng();
    let mut id = String::new();
    let mut i: usize = 0;
    while i < 8
        invariant
            i <= 8,
            id@.len() == i,
            forall|k: int| 0 <= k < i ==> is_alphanumeric(#[trigger] id@[k]),
        decreases 8 - i,
    {
        let byte = sample_alphanumeric(&mut rng);
        id.push(byte as char);
        i = i + 1;
    }
    id
}

impl UrlShortener {
    /// A shortener under `base_url` that holds nothing yet.
    pub fn new(base_url: &str) -> (r: UrlShortener)
        ensures
            r@.base_url == base_url@,
            r@.urls == Map::<Seq<char>, Seq<char>>::empty(),
    {
        let r = UrlShortener { url_map: StringHashMap::new(), base_url: base_url.to_owned() };
        assert(r@.urls =~= Map::<Seq<char>, Seq<char>>::empty());
        r
    }

    /// Files `original_url` under the identifier `short_id` and returns the
    /// short URL. What was filed under that identifier before is replaced.
    pub fn shorten_with(&mut self, short_id: String, original_url: &str) -> (r: String)
        ensures
            final(self)@ == old(self)@.with(short_id@, original_url@),
            r@ == old(self)@.short_url(short_id@),
    {
        let mut short_url = self.base_url.clone();
        short_url.append("/");
        short_url.append(short_id.as_str());
        proof {
            reveal_strlit("/");
            assert("/"@ =~= seq!['/']);
        }
        let ghost id = short_id@;
        self.url_map.insert(short_id, original_url.to_owned());
        assert(self@.urls =~= old(self)@.urls.insert(id, original_url@));
        short_url
    }

    /// Files `original_url` under a fresh random identifier and returns the
    /// short URL: the base URL, `/`, and the eight characters of the
    /// identifier. Which identifier is drawn is not determined; should it be
    /// one already in use, the older URL is replaced.
    pub fn shorten(&mut self, original_url: &str) -> (r: String)
        ensures
            ({
                let id = r@.skip(old(self)@.base_url.len() as int + 1);
                &&& is_short_id(id)
                &&& r@ == old(self)@.short_url(id)
                &&& final(self)@ == old(self)@.with(id, original_url@)
            }),
    {
        let short_id = random_short_id();
        let ghost id = short_id@;
        let short_url = self.shorten_with(short_id, original_url);
        assert(short_url@.skip(old(self)@.base_url.len() as int + 1) =~= id);
        short_url
    }

    /// The URL that `short_url` stands for: the one filed under its last
    /// segment, what follows its last `/`.
    pub fn resolve(&self, short_url: &str) -> (r: Option<String>)
        ensures
            match r {
                Some(url) => self@.resolve(short_url@) == Some(url@),
                None => self@.resolve(short_url@) is None,
            },
    {
        let chars = chars_of(short_url);
        let mut start: usize = chars.len();
        while start > 0 && chars[start - 1] != '/'
            invariant
                start <= chars.len(),
                segment_start(chars@, start as int) == segment_start(chars@, chars.len() as int),
            decreases start,
        {
            start = start - 1;
        }
        let short_id = string_of(&chars.as_slice()[start..chars.len()]);
        assert(short_id@ == last_segment(short_url@));
        match self.url_map.get(short_id.as_str()) {
            Some(url) => Some(url.clone()),
            None => None,
        }
    }
}

} // verus!
