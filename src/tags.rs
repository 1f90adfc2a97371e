//! Metadata tags (`key:value` words) inside a description, and a record's
//! title: the description without its tags.
use vstd::prelude::*;
use vstd::string::*;
use crate::text::{join, same_text};
use crate::record::{Record, RecordView, string_views, lemma_views_push};

verus! {

pub open spec fn colon_free(k: Seq<char>) -> bool {
    forall|j: int| 0 <= j < k.len() ==> #[trigger] k[j] != ':'
}

/// `p` is the position of the first `:` in `w`.
pub open spec fn first_colon(w: Seq<char>, p: int) -> bool {
    0 <= p < w.len() && w[p] == ':' && colon_free(w.take(p))
}

/// A tag: a word whose first `:` has a character on each side.
pub open spec fn is_tag(w: Seq<char>) -> bool {
    exists|p: int| first_colon(w, p) && 0 < p < w.len() - 1
}

/// `w` is the tag `k:v`: the key is what stands before the first `:`.
pub open spec fn tag_has_key(w: Seq<char>, k: Seq<char>) -> bool {
    k.len() > 0 && colon_free(k) && w.len() > k.len() + 1 && w.take(k.len() as int) == k
        && w[k.len() as int] == ':'
}

pub open spec fn tag_value(w: Seq<char>, k: Seq<char>) -> Seq<char> {
    w.skip(k.len() + 1 as int)
}

/// The value of the first tag with key `k`.
pub open spec fn meta_value(desc: Seq<Seq<char>>, k: Seq<char>) -> Option<Seq<char>>
    decreases desc.len(),
{
    if desc.len() == 0 {
        None
    } else if tag_has_key(desc[0], k) {
        Some(tag_value(desc[0], k))
    } else {
        meta_value(desc.drop_first(), k)
    }
}

/// Some tag of the description has key `k` and value `v`.
pub open spec fn has_tag(desc: Seq<Seq<char>>, k: Seq<char>, v: Seq<char>) -> bool {
    exists|i: int| 0 <= i < desc.len() && tag_has_key(desc[i], k) && tag_value(desc[i], k) == v
}

/// A record's title: the words of its description that are not tags.
pub open spec fn title(r: RecordView) -> Seq<char> {
    join(r.description.filter(|w: Seq<char>| !is_tag(w)))
}

fn colon_free_exec(k: &str) -> (r: bool)
    ensures
        r == colon_free(k@),
{
    let n = k.unicode_len();
    let mut j: usize = 0;
    while j < n
        invariant
            n == k@.len(),
            j <= n,
            forall|i: int| 0 <= i < j ==> #[trigger] k@[i] != ':',
        decreases n - j,
    {
        if k.get_char(j) == ':' {
            return false;
        }
        j = j + 1;
    }
    true
}

/// Whether a word is a tag.
pub fn is_tag_exec(w: &str) -> (r: bool)
    ensures
        r == is_tag(w@),
{
    let n = w.unicode_len();
    let mut p: usize = 0;
    while p < n
        invariant
            n == w@.len(),
            p <= n,
            colon_free(w@.take(p as int)),
        decreases n - p,
    {
        if w.get_char(p) == ':' {
            assert(first_colon(w@, p as int));
            assert forall|q: int| first_colon(w@, q) implies q == p by {
                if q < p {
                    assert(w@.take(p as int)[q] == ':');
                } else if q > p {
                    assert(w@.take(q)[p as int] == ':');
                }
            }
            return 0 < p && p + 1 < n;
        }
        assert(w@.take(p + 1) =~= w@.take(p as int).push(w@[p as int]));
        p = p + 1;
    }
    assert forall|q: int| !first_colon(w@, q) by {
        if 0 <= q < w@.len() {
            assert(w@.take(p as int)[q] == w@[q]);
        }
    }
    false
}

/// Whether word `w` is a tag with key `k`.
pub fn tag_has_key_exec(w: &str, k: &str) -> (r: bool)
    ensures
        r == tag_has_key(w@, k@),
{
    let kn = k.unicode_len();
    let wn = w.unicode_len();
    if kn == 0 || wn <= kn || wn - kn <= 1 || !colon_free_exec(k) {
        return false;
    }
    same_text(w.substring_char(0, kn), k) && w.get_char(kn) == ':'
}

impl Record {
    /// The value of the first tag with key `k`.
    pub fn meta(&self, k: &str) -> (r: Option<String>)
        ensures
            match meta_value(self@.description, k@) {
                Some(v) => r is Some && r->0@ == v,
                None => r is None,
            },
    {
        let ghost d = self@.description;
        let mut i: usize = 0;
        assert(d.skip(0) =~= d);
        while i < self.description.len()
            invariant
                i <= self.description.len(),
                d == string_views(self.description@),
                meta_value(d, k@) == meta_value(d.skip(i as int), k@),
            decreases self.description.len() - i,
        {
            let w = self.description[i].as_str();
            assert(d.skip(i as int)[0] == w@);
            if tag_has_key_exec(w, k) {
                let kn = k.unicode_len();
                let wn = w.unicode_len();
                return Some(w.substring_char(kn + 1, wn).to_owned());
            }
            assert(d.skip(i as int).drop_first() =~= d.skip(i + 1));
            i = i + 1;
        }
        assert(d.skip(i as int).len() == 0);
        None
    }

    /// Whether some tag of the description has key `k` and value `v`.
    pub fn has_tag(&self, k: &str, v: &str) -> (r: bool)
        ensures
            r == has_tag(self@.description, k@, v@),
    {
        let ghost d = self@.description;
        let mut i: usize = 0;
        while i < self.description.len()
            invariant
                i <= self.description.len(),
                d == string_views(self.description@),
                forall|j: int|
                    0 <= j < i ==> !(tag_has_key(d[j], k@) && tag_value(d[j], k@) == v@),
            decreases self.description.len() - i,
        {
            let w = self.description[i].as_str();
            assert(d[i as int] == w@);
            if tag_has_key_exec(w, k) {
                let kn = k.unicode_len();
                let wn = w.unicode_len();
                if same_text(w.substring_char(kn + 1, wn), v) {
                    return true;
                }
            }
            i = i + 1;
        }
        false
    }

    /// The record's title: the description without its tags.
    pub fn title(&self) -> (s: String)
        ensures
            s@ == title(self@),
    {
        let ghost d = self@.description;
        let ghost pred = |w: Seq<char>| !is_tag(w);
        let mut kept: Vec<String> = Vec::new();
        let mut i: usize = 0;
        while i < self.description.len()
            invariant
                i <= self.description.len(),
                d == string_views(self.description@),
                pred == (|w: Seq<char>| !is_tag(w)),
                string_views(kept@) == d.take(i as int).filter(pred),
            decreases self.description.len() - i,
        {
            let w = &self.description[i];
            proof {
                assert(d.take(i + 1) =~= d.take(i as int).push(w@));
                d.take(i as int).lemma_filter_push(w@, pred);
                lemma_views_push(kept@, *w);
            }
            if !is_tag_exec(w.as_str()) {
                kept.push(w.clone());
            }
            i = i + 1;
        }
        assert(d.take(i as int) =~= d);
        crate::text::join_words(&kept)
    }
}

} // verus!
