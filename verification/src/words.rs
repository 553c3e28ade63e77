//! Building git command lines word by word.
use vstd::prelude::*;

verus! {

/// Appends one word.
pub fn push_word(dst: &mut Vec<String>, word: &str)
    ensures
        final(dst).deep_view() == old(dst).deep_view().push(word@),
{
    let ghost start = dst.deep_view();
    dst.push(String::from_str(word));
    assert(dst.deep_view() =~= start.push(word@));
}

/// Appends copies of `src`, in order.
pub fn push_all(dst: &mut Vec<String>, src: &[String])
    ensures
        final(dst).deep_view() == old(dst).deep_view() + src.deep_view(),
{
    let ghost start = dst.deep_view();
    let mut i: usize = 0;
    assert(src.deep_view().subrange(0, 0) =~= Seq::<Seq<char>>::empty());
    assert(start + Seq::<Seq<char>>::empty() =~= start);
    while i < src.len()
        invariant
            i <= src@.len(),
            dst.deep_view() == start + src.deep_view().subrange(0, i as int),
        decreases src@.len() - i,
    {
        let ghost before = dst.deep_view();
        dst.push(src[i].clone());
        assert(dst.deep_view() =~= before.push(src@[i as int]@));
        assert(src.deep_view().subrange(0, i + 1) =~= src.deep_view().subrange(0, i as int).push(
            src@[i as int]@,
        ));
        assert(dst.deep_view() =~= start + src.deep_view().subrange(0, i + 1));
        i = i + 1;
    }
    assert(src.deep_view().subrange(0, src@.len() as int) =~= src.deep_view());
}

/// A fresh command line that starts with `word`.
pub fn command(word: &str) -> (res: Vec<String>)
    ensures
        res.deep_view() == seq![word@],
{
    let mut v: Vec<String> = Vec::new();
    push_word(&mut v, word);
    assert(Seq::<Seq<char>>::empty().push(word@) =~= seq![word@]);
    v
}

} // verus!

verus! {

/// Whether two strings hold the same characters.
pub fn str_eq(a: &str, b: &str) -> (res: bool)
    ensures
        res == (a@ == b@),
{
    let n = a.unicode_len();
    if n != b.unicode_len() {
        return false;
    }
    let mut i: usize = 0;
    while i < n
        invariant
            n == a@.len(),
            n == b@.len(),
            i <= n,
            forall|j: int| 0 <= j < i ==> a@[j] == b@[j],
        decreases n - i,
    {
        if a.get_char(i) != b.get_char(i) {
            return false;
        }
        i = i + 1;
    }
    assert(a@ =~= b@);
    true
}

} // verus!

verus! {

/// Whether `word` is one of `words`.
pub fn contains_word(words: &[String], word: &str) -> (res: bool)
    ensures
        res == words.deep_view().contains(word@),
{
    let n = words.len();
    let mut i: usize = 0;
    while i < n
        invariant
            n == words@.len(),
            i <= n,
            forall|j: int| 0 <= j < i ==> (#[trigger] words@[j])@ != word@,
        decreases n - i,
    {
        if str_eq(words[i].as_str(), word) {
            assert(words.deep_view()[i as int] == word@);
            return true;
        }
        i = i + 1;
    }
    assert forall|j: int| 0 <= j < words.deep_view().len() implies words.deep_view()[j] != word@ by {
        assert(words.deep_view()[j] == words@[j]@);
    }
    false
}

} // verus!
