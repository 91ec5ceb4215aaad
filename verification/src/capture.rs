//! Saving a page from a link of the scheme `readlater`: the page and its tags
//! are in the query of the link.

use crate::link::{is_absolute_url, parse_url, query_pairs_of, scheme_of};
use crate::pocket::modify::{Action, AddUrlRequest};
use crate::text::{same_text, texts};
use url::Url;
use vstd::prelude::*;

verus! {

/// The tag that every page saved through a link gets.
pub const CAPTURE_TAG: &'static str = "readlater";

/// Why a link saves nothing.
#[derive(Debug, Clone, Copy, PartialEq, Eq, Structural)]
pub enum CaptureError {
    /// The link is not of the scheme `readlater`.
    WrongScheme,
    /// The query of the link names no page.
    NoUrl,
    /// What the query names as the page is no absolute address.
    MalformedUrl,
}

/// What a link asks to save: the address of the page as the query gives it, and
/// the tags to put on it.
#[derive(Debug)]
pub struct Capture {
    pub url: String,
    pub tags: Vec<String>,
}

/// The pairs of a query as values.
pub open spec fn pair_texts(pairs: Seq<(String, String)>) -> Seq<(Seq<char>, Seq<char>)> {
    pairs.map_values(|p: (String, String)| (p.0@, p.1@))
}

/// The value of a key in a query: that of the last pair with the key.
pub open spec fn last_value(pairs: Seq<(Seq<char>, Seq<char>)>, key: Seq<char>) -> Option<
    Seq<char>,
>
    decreases pairs.len(),
{
    if pairs.len() == 0 {
        None
    } else if pairs.last().0 == key {
        Some(pairs.last().1)
    } else {
        last_value(pairs.drop_last(), key)
    }
}

/// The pieces of a text between separators. A text without separator is one
/// piece, and so is the empty text.
pub open spec fn split(text: Seq<char>, sep: char) -> Seq<Seq<char>>
    decreases text.len(),
{
    if text.len() == 0 {
        seq![Seq::empty()]
    } else {
        let before = split(text.drop_last(), sep);
        if text.last() == sep {
            before.push(Seq::empty())
        } else {
            before.drop_last().push(before.last().push(text.last()))
        }
    }
}

/// The pieces that are not empty, in their order.
pub open spec fn non_empty(pieces: Seq<Seq<char>>) -> Seq<Seq<char>>
    decreases pieces.len(),
{
    if pieces.len() == 0 {
        Seq::empty()
    } else if pieces.last().len() == 0 {
        non_empty(pieces.drop_last())
    } else {
        non_empty(pieces.drop_last()).push(pieces.last())
    }
}

/// The tags for a page: the non-empty pieces of the comma-separated list, and
/// after them the tag of all pages saved through a link.
pub open spec fn capture_tags(raw: Seq<char>) -> Seq<Seq<char>> {
    non_empty(split(raw, ',')).push(CAPTURE_TAG@)
}

/// What the scheme and the query of a link ask to save.
pub open spec fn planned(scheme: Seq<char>, pairs: Seq<(Seq<char>, Seq<char>)>) -> Result<
    (Seq<char>, Seq<Seq<char>>),
    CaptureError,
> {
    if scheme != "readlater"@ {
        Err(CaptureError::WrongScheme)
    } else {
        match last_value(pairs, "url"@) {
            None => Err(CaptureError::NoUrl),
            Some(url) => Ok(
                (
                    url,
                    capture_tags(
                        match last_value(pairs, "tags"@) {
                            Some(raw) => raw,
                            None => Seq::empty(),
                        },
                    ),
                ),
            ),
        }
    }
}

/// Finds the value of a key in a query.
pub fn value_of(pairs: &Vec<(String, String)>, key: &str) -> (value: Option<String>)
    ensures
        match value {
            Some(v) => last_value(pair_texts(pairs@), key@) == Some(v@),
            None => last_value(pair_texts(pairs@), key@) is None,
        },
{
    let wanted = key.to_owned();
    let ghost all = pair_texts(pairs@);
    let mut k: usize = pairs.len();
    proof {
        assert(all.take(k as int) =~= all);
    }
    while k > 0
        invariant
            k <= pairs.len(),
            all == pair_texts(pairs@),
            wanted@ == key@,
            last_value(all, key@) == last_value(all.take(k as int), key@),
        decreases k,
    {
        k = k - 1;
        proof {
            assert(all.take(k + 1).drop_last() =~= all.take(k as int));
            assert(all.take(k + 1).last() == (pairs[k as int].0@, pairs[k as int].1@));
        }
        if pairs[k].0 == wanted {
            return Some(pairs[k].1.clone());
        }
    }
    None
}

/// Cuts a comma-separated list into its tags, leaves the empty ones out, and
/// adds the tag of all pages saved through a link.
pub fn split_tags(raw: &str) -> (tags: Vec<String>)
    ensures
        texts(tags@) == capture_tags(raw@),
{
    let n = raw.unicode_len();
    let mut tags: Vec<String> = Vec::new();
    // Where the piece that is being read starts, and how far the text is read.
    let mut start: usize = 0;
    let mut k: usize = 0;
    proof {
        assert(raw@.take(0) =~= Seq::<char>::empty());
        assert(texts(tags@) =~= non_empty(split(raw@.take(0), ',').drop_last()));
        assert(raw@.subrange(0, 0) =~= split(raw@.take(0), ',').last());
    }
    for c in it: raw.chars()
        invariant
            it.seq() == raw@,
            n == raw@.len(),
            k == it.index(),
            start <= k <= n,
            split(raw@.take(k as int), ',').len() > 0,
            texts(tags@) == non_empty(split(raw@.take(k as int), ',').drop_last()),
            raw@.subrange(start as int, k as int) == split(raw@.take(k as int), ',').last(),
    {
        let ghost seen = raw@.take(k as int);
        let ghost longer = raw@.take(k + 1);
        let ghost before = split(seen, ',');
        proof {
            assert(longer.drop_last() =~= seen);
            assert(longer.last() == c);
        }
        if c == ',' {
            proof {
                assert(split(longer, ',').drop_last() =~= before);
                assert(before.drop_last().push(before.last()) =~= before);
            }
            if start < k {
                let ghost listed = texts(tags@);
                tags.push(raw.substring_char(start, k).to_owned());
                proof {
                    assert(texts(tags@) =~= listed.push(before.last()));
                }
            }
            start = k + 1;
            proof {
                assert(raw@.subrange(start as int, k + 1) =~= split(longer, ',').last());
            }
        } else {
            proof {
                assert(split(longer, ',').drop_last() =~= before.drop_last());
                assert(raw@.subrange(start as int, k + 1) =~= before.last().push(c));
            }
        }
        k = k + 1;
    }
    proof {
        assert(raw@.take(n as int) =~= raw@);
        let pieces = split(raw@, ',');
        assert(pieces.drop_last().push(pieces.last()) =~= pieces);
    }
    if start < k {
        let ghost listed = texts(tags@);
        tags.push(raw.substring_char(start, k).to_owned());
        proof {
            assert(texts(tags@) =~= listed.push(split(raw@, ',').last()));
        }
    }
    let ghost listed = texts(tags@);
    tags.push(CAPTURE_TAG.to_owned());
    proof {
        assert(texts(tags@) =~= listed.push(CAPTURE_TAG@));
    }
    tags
}

/// Decides from the scheme and the query of a link what to save.
///
/// The link must be of the scheme `readlater`. The page is the value of `url`
/// in the query, and a link without it saves nothing. The tags are those of
/// the comma-separated value of `tags`, if there is one, and `readlater`.
pub fn plan_capture(scheme: &str, pairs: &Vec<(String, String)>) -> (plan: Result<
    Capture,
    CaptureError,
>)
    ensures
        match plan {
            Ok(capture) => planned(scheme@, pair_texts(pairs@)) == Ok::<
                (Seq<char>, Seq<Seq<char>>),
                CaptureError,
            >((capture.url@, texts(capture.tags@))),
            Err(e) => planned(scheme@, pair_texts(pairs@)) == Err::<
                (Seq<char>, Seq<Seq<char>>),
                CaptureError,
            >(e),
        },
{
    if !same_text(scheme, "readlater") {
        return Err(CaptureError::WrongScheme);
    }
    let url = match value_of(pairs, "url") {
        Some(url) => url,
        None => {
            return Err(CaptureError::NoUrl);
        },
    };
    let raw = match value_of(pairs, "tags") {
        Some(raw) => raw,
        None => String::new(),
    };
    let tags = split_tags(raw.as_str());
    Ok(Capture { url, tags })
}

/// Turns what a link asks to save into a request to add the page, if the page
/// is an absolute address.
pub fn request_for(capture: Capture) -> (request: Result<AddUrlRequest, CaptureError>)
    ensures
        match request {
            Ok(r) => {
                &&& is_absolute_url(capture.url@)
                &&& r.action == Action::Add
                &&& r.title is None
                &&& r.tweet_id is None
                &&& r.tags == capture.tags
            },
            Err(e) => e == CaptureError::MalformedUrl && !is_absolute_url(capture.url@),
        },
{
    match parse_url(capture.url.as_str()) {
        Ok(url) => Ok(AddUrlRequest::new(url).tags(capture.tags)),
        Err(_) => Err(CaptureError::MalformedUrl),
    }
}

/// The request to add the page that a link asks to save.
///
/// Scheme and query are what the `url` crate reads from the link, and nothing
/// is known of them here: [`plan_capture`] says what each scheme and query
/// give. Whatever they are, a request that comes out adds a page without
/// title, and its last tag is `readlater`.
pub fn capture(link: &Url) -> (request: Result<AddUrlRequest, CaptureError>)
    ensures
        request matches Ok(r) ==> {
            &&& r.action == Action::Add
            &&& r.title is None
            &&& r.tweet_id is None
            &&& r.tags@.len() > 0
            &&& r.tags@.last()@ == CAPTURE_TAG@
        },
{
    let scheme = scheme_of(link);
    let pairs = query_pairs_of(link);
    match plan_capture(scheme.as_str(), &pairs) {
        Ok(capture) => {
            proof {
                let tags = texts(capture.tags@);
                assert(tags.last() == CAPTURE_TAG@);
                assert(tags[tags.len() - 1] == capture.tags@[capture.tags@.len() - 1]@);
            }
            request_for(capture)
        },
        Err(e) => Err(e),
    }
}

} // verus!
