//! The counting behind conversation similarity. A similarity is a fraction
//! of shared items; the weighted combination of fractions into a score is
//! done in floating point by the caller.
use vstd::prelude::*;

use crate::text::{
    char_lists, count_shared_strings, count_shared_words, lemma_shared_count_all,
    lemma_shared_count_bound, lemma_shared_count_none, shared_count, string_views, text_words, words_of,
};

verus! {

/// A similarity as a fraction `numerator / denominator`.
#[derive(Debug, Clone, Copy, PartialEq, Eq, Structural)]
pub struct Fraction {
    pub numerator: usize,
    pub denominator: usize,
}

/// Text similarity by word overlap: when either text has no words it is 0/1;
/// otherwise the number of words of the first text that occur in the second,
/// over the larger word count.
pub open spec fn word_overlap(w1: Seq<Seq<char>>, w2: Seq<Seq<char>>) -> (nat, nat) {
    if w1.len() == 0 || w2.len() == 0 {
        (0, 1)
    } else {
        (shared_count(w1, w2), if w1.len() >= w2.len() { w1.len() } else { w2.len() })
    }
}

/// List similarity: two empty lists agree completely (1/1); one empty list
/// shares nothing (0/1); otherwise the number of items of the first list that
/// occur in the second, over the larger length.
pub open spec fn item_overlap(v1: Seq<Seq<char>>, v2: Seq<Seq<char>>) -> (nat, nat) {
    if v1.len() == 0 && v2.len() == 0 {
        (1, 1)
    } else if v1.len() == 0 || v2.len() == 0 {
        (0, 1)
    } else {
        (shared_count(v1, v2), if v1.len() >= v2.len() { v1.len() } else { v2.len() })
    }
}

/// The word overlap of two texts, compared in lower case.
pub fn text_overlap(text1: &str, text2: &str) -> (r: Fraction)
    ensures
        (r.numerator as nat, r.denominator as nat) == word_overlap(
            text_words(text1@),
            text_words(text2@),
        ),
        0 < r.denominator,
        r.numerator <= r.denominator,
{
    let w1 = words_of(text1);
    let w2 = words_of(text2);
    if w1.len() == 0 || w2.len() == 0 {
        return Fraction { numerator: 0, denominator: 1 };
    }
    let common = count_shared_words(&w1, &w2);
    let max = if w1.len() >= w2.len() { w1.len() } else { w2.len() };
    proof {
        lemma_shared_count_bound(char_lists(w1@), char_lists(w2@));
    }
    Fraction { numerator: common, denominator: max }
}

/// The overlap of two lists of strings (topics or context tags).
pub fn list_overlap(list1: &Vec<String>, list2: &Vec<String>) -> (r: Fraction)
    ensures
        (r.numerator as nat, r.denominator as nat) == item_overlap(
            string_views(list1@),
            string_views(list2@),
        ),
        0 < r.denominator,
        r.numerator <= r.denominator,
{
    if list1.len() == 0 && list2.len() == 0 {
        return Fraction { numerator: 1, denominator: 1 };
    }
    if list1.len() == 0 || list2.len() == 0 {
        return Fraction { numerator: 0, denominator: 1 };
    }
    let common = count_shared_strings(list1, list2);
    let max = if list1.len() >= list2.len() { list1.len() } else { list2.len() };
    proof {
        lemma_shared_count_bound(string_views(list1@), string_views(list2@));
    }
    Fraction { numerator: common, denominator: max }
}

/// A text with at least one word overlaps itself completely.
pub proof fn law_text_overlap_self(text: Seq<char>)
    requires
        text_words(text).len() > 0,
    ensures
        word_overlap(text_words(text), text_words(text)).0 == word_overlap(
            text_words(text),
            text_words(text),
        ).1,
{
    let w = text_words(text);
    assert forall|i: int| 0 <= i < w.len() implies w.contains(#[trigger] w[i]) by {}
    lemma_shared_count_all(w, w);
}

/// A list overlaps itself completely.
pub proof fn law_list_overlap_self(v: Seq<Seq<char>>)
    ensures
        item_overlap(v, v).0 == item_overlap(v, v).1,
{
    assert forall|i: int| 0 <= i < v.len() implies v.contains(#[trigger] v[i]) by {}
    lemma_shared_count_all(v, v);
}

/// Texts without a shared word have no overlap.
pub proof fn law_text_overlap_disjoint(w1: Seq<Seq<char>>, w2: Seq<Seq<char>>)
    requires
        forall|i: int| 0 <= i < w1.len() ==> !w2.contains(#[trigger] w1[i]),
    ensures
        word_overlap(w1, w2).0 == 0,
{
    lemma_shared_count_none(w1, w2);
}

} // verus!
