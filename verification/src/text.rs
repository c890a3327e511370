//! Words of a text and the overlap of two word lists.
use vstd::prelude::*;

verus! {

/// Whether `c` has the Unicode White_Space property, as `char::is_whitespace`
/// decides: U+0009 to U+000D, U+0020, U+0085, U+00A0, U+1680, U+2000 to
/// U+200A, U+2028, U+2029, U+202F, U+205F and U+3000.
pub open spec fn is_white_space(c: char) -> bool {
    let u = c as u32;
    ||| 0x9 <= u <= 0xd
    ||| u == 0x20
    ||| u == 0x85
    ||| u == 0xa0
    ||| u == 0x1680
    ||| 0x2000 <= u <= 0x200a
    ||| u == 0x2028
    ||| u == 0x2029
    ||| u == 0x202f
    ||| u == 0x205f
    ||| u == 0x3000
}

/// The text `s` in lower case, as `str::to_lowercase` computes it.
pub uninterp spec fn lowercase(s: Seq<char>) -> Seq<char>;

/// Whether `c` is whitespace (the White_Space property).
pub fn char_is_whitespace(c: char) -> (r: bool)
    ensures
        r == is_white_space(c),
{
    let u = c as u32;
    (0x9 <= u && u <= 0xd) || u == 0x20 || u == 0x85 || u == 0xa0 || u == 0x1680 || (0x2000 <= u
        && u <= 0x200a) || u == 0x2028 || u == 0x2029 || u == 0x202f || u == 0x205f || u == 0x3000
}

/// Calls `str::to_lowercase`; the contract only names its result.
#[verifier::external_body]
fn str_to_lowercase(s: &str) -> (r: String)
    ensures
        r@ == lowercase(s@),
{
    s.to_lowercase()
}

/// The maximal runs of non-whitespace characters of `s`, in order: what
/// `str::split_whitespace` yields.
pub open spec fn split_words(s: Seq<char>) -> Seq<Seq<char>>
    decreases s.len(),
{
    if s.len() == 0 {
        Seq::empty()
    } else {
        let prev = split_words(s.drop_last());
        let c = s.last();
        if is_white_space(c) {
            prev
        } else if s.len() >= 2 && !is_white_space(s[s.len() - 2]) {
            prev.drop_last().push(prev.last().push(c))
        } else {
            prev.push(seq![c])
        }
    }
}

/// The words of a text after it is put in lower case.
pub open spec fn text_words(s: Seq<char>) -> Seq<Seq<char>> {
    split_words(lowercase(s))
}

/// The character sequences held by a list of character vectors.
pub open spec fn char_lists(v: Seq<Vec<char>>) -> Seq<Seq<char>> {
    v.map_values(|w: Vec<char>| w@)
}

/// The character sequences held by a list of strings.
pub open spec fn string_views(v: Seq<String>) -> Seq<Seq<char>> {
    v.map_values(|s: String| s@)
}

/// How many items of `a`, counted with repetition, occur somewhere in `b`.
pub open spec fn shared_count(a: Seq<Seq<char>>, b: Seq<Seq<char>>) -> nat
    decreases a.len(),
{
    if a.len() == 0 {
        0
    } else {
        shared_count(a.drop_last(), b) + if b.contains(a.last()) {
            1nat
        } else {
            0nat
        }
    }
}

proof fn lemma_split_words_last(s: Seq<char>)
    requires
        s.len() > 0,
        !is_white_space(s.last()),
    ensures
        split_words(s).len() > 0,
{
}

/// The characters of `s`, in order.
pub fn chars_of(s: &str) -> (r: Vec<char>)
    ensures
        r@ == s@,
{
    let n = s.unicode_len();
    let mut out: Vec<char> = Vec::new();
    let mut i: usize = 0;
    while i < n
        invariant
            n == s@.len(),
            0 <= i <= n,
            out@ == s@.take(i as int),
        decreases n - i,
    {
        let c = s.get_char(i);
        out.push(c);
        proof {
            assert(s@.take(i + 1) =~= s@.take(i as int).push(c));
        }
        i = i + 1;
    }
    proof {
        assert(s@.take(n as int) =~= s@);
    }
    out
}

/// Splits a text into its whitespace-separated words.
pub fn split_whitespace(s: &str) -> (r: Vec<Vec<char>>)
    ensures
        char_lists(r@) == split_words(s@),
{
    let chars = chars_of(s);
    let n = chars.len();
    let mut words: Vec<Vec<char>> = Vec::new();
    let mut in_word = false;
    let mut i: usize = 0;
    while i < n
        invariant
            n == chars@.len(),
            chars@ == s@,
            0 <= i <= n,
            char_lists(words@) == split_words(s@.take(i as int)),
            in_word == (i > 0 && !is_white_space(s@[i - 1])),
        decreases n - i,
    {
        let c = chars[i];
        let ws = char_is_whitespace(c);
        let ghost t = s@.take(i + 1);
        proof {
            assert(t.drop_last() =~= s@.take(i as int));
            assert(t.last() == c);
            if i > 0 {
                assert(t[t.len() - 2] == s@[i - 1]);
            }
        }
        if ws {
            in_word = false;
        } else if in_word {
            proof {
                lemma_split_words_last(s@.take(i as int));
                assert(s@.take(i as int).last() == s@[i - 1]);
            }
            let mut last = words.pop().unwrap();
            last.push(c);
            words.push(last);
            proof {
                let prev = split_words(s@.take(i as int));
                assert(char_lists(words@) =~= prev.drop_last().push(prev.last().push(c)));
            }
        } else {
            let mut w: Vec<char> = Vec::new();
            w.push(c);
            words.push(w);
            proof {
                assert(char_lists(words@) =~= split_words(s@.take(i as int)).push(seq![c]));
            }
            in_word = true;
        }
        i = i + 1;
    }
    proof {
        assert(s@.take(n as int) =~= s@);
    }
    words
}

/// The words of a text after it is put in lower case, as the matcher compares them.
pub fn words_of(text: &str) -> (r: Vec<Vec<char>>)
    ensures
        char_lists(r@) == text_words(text@),
{
    let lower = str_to_lowercase(text);
    split_whitespace(lower.as_str())
}

/// Whether two character vectors hold the same characters.
pub fn chars_equal(a: &Vec<char>, b: &Vec<char>) -> (r: bool)
    ensures
        r == (a@ == b@),
{
    if a.len() != b.len() {
        return false;
    }
    let n = a.len();
    let mut i: usize = 0;
    while i < n
        invariant
            n == a@.len(),
            n == b@.len(),
            0 <= i <= n,
            forall|j: int| 0 <= j < i ==> a@[j] == b@[j],
        decreases n - i,
    {
        if a[i] != b[i] {
            return false;
        }
        i = i + 1;
    }
    proof {
        assert(a@ =~= b@);
    }
    true
}

/// Whether `word` occurs in `words`.
pub fn contains_word(words: &Vec<Vec<char>>, word: &Vec<char>) -> (r: bool)
    ensures
        r == char_lists(words@).contains(word@),
{
    let n = words.len();
    let mut i: usize = 0;
    while i < n
        invariant
            n == words@.len(),
            0 <= i <= n,
            forall|j: int| 0 <= j < i ==> words@[j]@ != word@,
        decreases n - i,
    {
        if chars_equal(&words[i], word) {
            proof {
                assert(char_lists(words@)[i as int] == word@);
            }
            return true;
        }
        i = i + 1;
    }
    proof {
        if char_lists(words@).contains(word@) {
            let j = choose|j: int| 0 <= j < n && char_lists(words@)[j] == word@;
            assert(words@[j]@ == word@);
        }
    }
    false
}

/// Whether `item` occurs in `items`.
pub fn contains_string(items: &Vec<String>, item: &String) -> (r: bool)
    ensures
        r == string_views(items@).contains(item@),
{
    let n = items.len();
    let mut i: usize = 0;
    while i < n
        invariant
            n == items@.len(),
            0 <= i <= n,
            forall|j: int| 0 <= j < i ==> items@[j]@ != item@,
        decreases n - i,
    {
        if items[i] == *item {
            proof {
                assert(string_views(items@)[i as int] == item@);
            }
            return true;
        }
        i = i + 1;
    }
    proof {
        if string_views(items@).contains(item@) {
            let j = choose|j: int| 0 <= j < n && string_views(items@)[j] == item@;
            assert(items@[j]@ == item@);
        }
    }
    false
}

/// How many words of `a`, counted with repetition, occur in `b`.
pub fn count_shared_words(a: &Vec<Vec<char>>, b: &Vec<Vec<char>>) -> (r: usize)
    ensures
        r == shared_count(char_lists(a@), char_lists(b@)),
{
    let n = a.len();
    let mut count: usize = 0;
    let mut i: usize = 0;
    while i < n
        invariant
            n == a@.len(),
            0 <= i <= n,
            count == shared_count(char_lists(a@).take(i as int), char_lists(b@)),
            count <= i,
        decreases n - i,
    {
        proof {
            let t = char_lists(a@).take(i + 1);
            assert(t.drop_last() =~= char_lists(a@).take(i as int));
            assert(t.last() == a@[i as int]@);
        }
        if contains_word(b, &a[i]) {
            count = count + 1;
        }
        i = i + 1;
    }
    proof {
        assert(char_lists(a@).take(n as int) =~= char_lists(a@));
    }
    count
}

/// How many strings of `a`, counted with repetition, occur in `b`.
pub fn count_shared_strings(a: &Vec<String>, b: &Vec<String>) -> (r: usize)
    ensures
        r == shared_count(string_views(a@), string_views(b@)),
{
    let n = a.len();
    let mut count: usize = 0;
    let mut i: usize = 0;
    while i < n
        invariant
            n == a@.len(),
            0 <= i <= n,
            count == shared_count(string_views(a@).take(i as int), string_views(b@)),
            count <= i,
        decreases n - i,
    {
        proof {
            let t = string_views(a@).take(i + 1);
            assert(t.drop_last() =~= string_views(a@).take(i as int));
            assert(t.last() == a@[i as int]@);
        }
        if contains_string(b, &a[i]) {
            count = count + 1;
        }
        i = i + 1;
    }
    proof {
        assert(string_views(a@).take(n as int) =~= string_views(a@));
    }
    count
}

/// A count never exceeds the length of the list counted.
pub proof fn lemma_shared_count_bound(a: Seq<Seq<char>>, b: Seq<Seq<char>>)
    ensures
        shared_count(a, b) <= a.len(),
    decreases a.len(),
{
    if a.len() > 0 {
        lemma_shared_count_bound(a.drop_last(), b);
    }
}

/// When every item of `a` occurs in `b`, all of `a` is counted.
pub proof fn lemma_shared_count_all(a: Seq<Seq<char>>, b: Seq<Seq<char>>)
    requires
        forall|i: int| 0 <= i < a.len() ==> b.contains(#[trigger] a[i]),
    ensures
        shared_count(a, b) == a.len(),
    decreases a.len(),
{
    if a.len() > 0 {
        assert(b.contains(a[a.len() - 1]));
        assert forall|i: int| 0 <= i < a.drop_last().len() implies b.contains(
            #[trigger] a.drop_last()[i],
        ) by {
            assert(a.drop_last()[i] == a[i]);
        }
        lemma_shared_count_all(a.drop_last(), b);
    }
}

/// When no item of `a` occurs in `b`, nothing is counted.
pub proof fn lemma_shared_count_none(a: Seq<Seq<char>>, b: Seq<Seq<char>>)
    requires
        forall|i: int| 0 <= i < a.len() ==> !b.contains(#[trigger] a[i]),
    ensures
        shared_count(a, b) == 0,
    decreases a.len(),
{
    if a.len() > 0 {
        assert(!b.contains(a[a.len() - 1]));
        assert forall|i: int| 0 <= i < a.drop_last().len() implies !b.contains(
            #[trigger] a.drop_last()[i],
        ) by {
            assert(a.drop_last()[i] == a[i]);
        }
        lemma_shared_count_none(a.drop_last(), b);
    }
}

} // verus!
