//! Splitting a line into space-separated words and joining words back.
use vstd::prelude::*;
use vstd::string::*;

verus! {

/// Characters that separate words on a line.
pub open spec fn is_space(c: char) -> bool {
    c == ' ' || c == '\t' || c == '\r'
}

pub open spec fn no_space(w: Seq<char>) -> bool {
    forall|i: int| 0 <= i < w.len() ==> !is_space(#[trigger] w[i])
}

/// A word: non-empty and free of separators.
pub open spec fn is_word(w: Seq<char>) -> bool {
    w.len() > 0 && no_space(w)
}

pub open spec fn all_words(ws: Seq<Seq<char>>) -> bool {
    forall|i: int| 0 <= i < ws.len() ==> is_word(#[trigger] ws[i])
}

/// Length of the run of non-separators at the start of `s`.
pub open spec fn word_len(s: Seq<char>) -> nat
    decreases s.len(),
{
    if s.len() == 0 || is_space(s[0]) {
        0
    } else {
        1 + word_len(s.drop_first())
    }
}

/// The words of `s`, in order: maximal runs of non-separators.
pub open spec fn words(s: Seq<char>) -> Seq<Seq<char>>
    decreases s.len(),
{
    if s.len() == 0 {
        Seq::empty()
    } else if is_space(s[0]) {
        words(s.drop_first())
    } else {
        let k = word_len(s);
        if 0 < k <= s.len() {
            seq![s.take(k as int)] + words(s.skip(k as int))
        } else {
            Seq::empty()
        }
    }
}

/// The words joined by single spaces.
pub open spec fn join(ws: Seq<Seq<char>>) -> Seq<char>
    decreases ws.len(),
{
    if ws.len() == 0 {
        Seq::empty()
    } else if ws.len() == 1 {
        ws[0]
    } else {
        ws[0] + seq![' '] + join(ws.drop_first())
    }
}

pub proof fn lemma_word_len_bound(s: Seq<char>)
    ensures
        word_len(s) <= s.len(),
        forall|i: int| 0 <= i < word_len(s) ==> !is_space(#[trigger] s[i]),
        word_len(s) < s.len() ==> is_space(s[word_len(s) as int]),
    decreases s.len(),
{
    if s.len() > 0 && !is_space(s[0]) {
        lemma_word_len_bound(s.drop_first());
        assert forall|i: int| 0 <= i < word_len(s) implies !is_space(#[trigger] s[i]) by {
            if i > 0 {
                assert(s[i] == s.drop_first()[i - 1]);
            }
        }
    }
}

proof fn lemma_word_len_concat(w: Seq<char>, t: Seq<char>)
    requires
        no_space(w),
        t.len() == 0 || is_space(t[0]),
    ensures
        word_len(w + t) == w.len(),
    decreases w.len(),
{
    if w.len() > 0 {
        assert((w + t).drop_first() =~= w.drop_first() + t);
        lemma_word_len_concat(w.drop_first(), t);
    } else {
        assert(w + t =~= t);
    }
}

proof fn lemma_words_concat(w: Seq<char>, t: Seq<char>)
    requires
        is_word(w),
        t.len() == 0 || is_space(t[0]),
    ensures
        words(w + t) == seq![w] + words(t),
{
    lemma_word_len_concat(w, t);
    let s = w + t;
    assert(s.take(w.len() as int) =~= w);
    assert(s.skip(w.len() as int) =~= t);
}

/// Joining words and splitting the result gives the words back.
pub proof fn lemma_words_join(ws: Seq<Seq<char>>)
    requires
        all_words(ws),
    ensures
        words(join(ws)) == ws,
    decreases ws.len(),
{
    if ws.len() == 0 {
        assert(words(Seq::<char>::empty()) == Seq::<Seq<char>>::empty());
    } else if ws.len() == 1 {
        assert(is_word(ws[0]));
        lemma_words_concat(ws[0], Seq::empty());
        assert(ws[0] + Seq::<char>::empty() =~= ws[0]);
        assert(ws =~= seq![ws[0]]);
    } else {
        let rest = ws.drop_first();
        assert(all_words(rest)) by {
            assert forall|i: int| 0 <= i < rest.len() implies is_word(#[trigger] rest[i]) by {
                assert(rest[i] == ws[i + 1]);
            }
        }
        lemma_words_join(rest);
        let t = seq![' '] + join(rest);
        assert(is_word(ws[0]));
        lemma_words_concat(ws[0], t);
        assert(ws[0] + seq![' '] + join(rest) =~= ws[0] + t);
        assert(t.drop_first() =~= join(rest));
        assert(words(t) == words(t.drop_first()));
        assert(ws =~= seq![ws[0]] + rest);
    }
}

/// Relies on String::push: the character is added at the end.
#[verifier::external_body]
pub(crate) fn push_char(s: &mut String, c: char)
    ensures
        final(s)@ == old(s)@.push(c),
{
    s.push(c)
}

pub fn is_space_char(c: char) -> (r: bool)
    ensures
        r == is_space(c),
{
    c == ' ' || c == '\t' || c == '\r'
}

/// Whether two strings hold the same characters.
pub fn same_text(a: &str, b: &str) -> (r: bool)
    ensures
        r == (a@ == b@),
{
    a.to_owned() == b.to_owned()
}

/// Splits a line into its words.
pub fn split_words(s: &str) -> (ws: Vec<String>)
    ensures
        ws@.map_values(|w: String| w@) == words(s@),
{
    let n = s.unicode_len();
    let mut ws: Vec<String> = Vec::new();
    let mut i: usize = 0;
    assert(s@.skip(0) =~= s@);
    while i < n
        invariant
            n == s@.len(),
            i <= n,
            ws@.map_values(|w: String| w@) + words(s@.skip(i as int)) == words(s@),
        decreases n - i,
    {
        let c = s.get_char(i);
        if is_space_char(c) {
            assert(s@.skip(i as int).drop_first() =~= s@.skip(i as int + 1));
            i = i + 1;
        } else {
            let ghost start = i as int;
            let mut cur = String::new();
            while i < n && !is_space_char(s.get_char(i))
                invariant
                    n == s@.len(),
                    start < n,
                    !is_space(s@[start]),
                    0 <= start <= i <= n,
                    cur@ == s@.subrange(start, i as int),
                    word_len(s@.skip(start)) == (i - start) + word_len(s@.skip(i as int)),
                decreases n - i,
            {
                let c2 = s.get_char(i);
                assert(s@.skip(i as int).drop_first() =~= s@.skip(i as int + 1));
                push_char(&mut cur, c2);
                assert(cur@ =~= s@.subrange(start, i as int + 1));
                i = i + 1;
            }
            let ghost t = s@.skip(start);
            if i < n {
                assert(s@.skip(i as int)[0] == s@[i as int]);
            }
            assert(word_len(s@.skip(i as int)) == 0);
            assert(t.take(i - start) =~= s@.subrange(start, i as int));
            assert(t.skip(i - start) =~= s@.skip(i as int));
            assert(words(t) == seq![cur@] + words(s@.skip(i as int)));
            proof {
                let old_ws = ws@.map_values(|w: String| w@);
                assert(ws@.push(cur).map_values(|w: String| w@) =~= old_ws.push(cur@));
                assert(old_ws.push(cur@) + words(s@.skip(i as int)) =~= old_ws + (seq![cur@]
                    + words(s@.skip(i as int))));
            }
            ws.push(cur);
        }
    }
    assert(s@.skip(n as int) =~= Seq::<char>::empty());
    assert(ws@.map_values(|w: String| w@) =~= ws@.map_values(|w: String| w@) + Seq::<Seq<char>>::empty());
    ws
}

/// Joins words with single spaces.
pub fn join_words(ws: &Vec<String>) -> (s: String)
    ensures
        s@ == join(ws@.map_values(|w: String| w@)),
{
    let ghost v = ws@.map_values(|w: String| w@);
    let mut s = String::new();
    let mut k: usize = ws.len();
    // Built from the back: `s` holds the join of the words from `k` on.
    while k > 0
        invariant
            k <= ws.len(),
            v == ws@.map_values(|w: String| w@),
            s@ == join(v.skip(k as int)),
        decreases k,
    {
        k = k - 1;
        let mut t = ws[k].clone();
        if k + 1 < ws.len() {
            t.append(" ");
            proof { reveal_strlit(" "); }
            t.append(s.as_str());
        }
        proof {
            let rest = v.skip(k as int);
            assert(rest.drop_first() =~= v.skip(k as int + 1));
            assert(rest[0] == v[k as int]);
        }
        s = t;
    }
    assert(v.skip(0) =~= v);
    s
}

} // verus!
