//! Splitting text into pieces and words.

use vstd::prelude::*;

verus! {

/// The view of a list of strings.
pub open spec fn strings_view(v: Seq<String>) -> Seq<Seq<char>> {
    v.map_values(|x: String| x@)
}

/// The pieces of `s` between occurrences of `sep`, in order; one more than
/// the occurrences.
pub open spec fn split_on(s: Seq<char>, sep: char) -> Seq<Seq<char>>
    decreases s.len(),
{
    if s.len() == 0 {
        seq![Seq::empty()]
    } else {
        let before = split_on(s.drop_last(), sep);
        if s.last() == sep {
            before.push(Seq::empty())
        } else {
            before.update(before.len() - 1, before.last().push(s.last()))
        }
    }
}

/// The pieces of `s` between occurrences of `sep`.
pub fn split_text(s: &str, sep: char) -> (r: Vec<String>)
    ensures
        strings_view(r@) == split_on(s@, sep),
{
    let n = s.unicode_len();
    let mut pieces: Vec<String> = Vec::new();
    let mut start: usize = 0;
    let mut i: usize = 0;
    assert(s@.take(0) =~= Seq::<char>::empty());
    assert(strings_view(pieces@) =~= Seq::<Seq<char>>::empty());
    assert(s@.subrange(0, 0) =~= Seq::<char>::empty());
    while i < n
        invariant
            n == s@.len(),
            0 <= start <= i <= n,
            split_on(s@.take(i as int), sep) == strings_view(pieces@).push(
                s@.subrange(start as int, i as int),
            ),
        decreases n - i,
    {
        let c = s.get_char(i);
        let ghost t = s@.take(i + 1);
        assert(t.drop_last() =~= s@.take(i as int));
        assert(t.last() == c);
        if c == sep {
            let piece = s.substring_char(start, i);
            let ghost before = strings_view(pieces@);
            pieces.push(String::from_str(piece));
            assert(strings_view(pieces@) =~= before.push(s@.subrange(start as int, i as int)));
            assert(s@.subrange(i + 1, i + 1) =~= Seq::<char>::empty());
            start = i + 1;
        } else {
            assert(s@.subrange(start as int, i + 1) =~= s@.subrange(start as int, i as int).push(c));
            assert(strings_view(pieces@).push(s@.subrange(start as int, i + 1)) =~= strings_view(
                pieces@,
            ).push(s@.subrange(start as int, i as int)).update(
                strings_view(pieces@).len() as int,
                s@.subrange(start as int, i as int).push(c),
            ));
        }
        i = i + 1;
    }
    assert(s@.take(n as int) =~= s@);
    let last = s.substring_char(start, n);
    let ghost before = strings_view(pieces@);
    pieces.push(String::from_str(last));
    assert(strings_view(pieces@) =~= before.push(s@.subrange(start as int, n as int)));
    pieces
}

/// Whitespace between words: the characters with Unicode's `White_Space`
/// property.
pub open spec fn is_space(c: char) -> bool {
    let u = c as u32;
    (0x9 <= u && u <= 0xd) || u == 0x20 || u == 0x85 || u == 0xa0 || u == 0x1680 || (0x2000 <= u
        && u <= 0x200a) || u == 0x2028 || u == 0x2029 || u == 0x202f || u == 0x205f || u == 0x3000
}

/// The words of `s`: its longest runs of characters other than whitespace,
/// in order.
pub open spec fn words_of(s: Seq<char>) -> Seq<Seq<char>>
    decreases s.len(),
{
    if s.len() == 0 {
        Seq::empty()
    } else if is_space(s.last()) {
        words_of(s.drop_last())
    } else if s.len() > 1 && !is_space(s[s.len() - 2]) {
        let before = words_of(s.drop_last());
        before.update(before.len() - 1, before.last().push(s.last()))
    } else {
        words_of(s.drop_last()).push(seq![s.last()])
    }
}

fn char_is_space(c: char) -> (r: bool)
    ensures
        r == is_space(c),
{
    let u = c as u32;
    (0x9 <= u && u <= 0xd) || u == 0x20 || u == 0x85 || u == 0xa0 || u == 0x1680 || (0x2000 <= u
        && u <= 0x200a) || u == 0x2028 || u == 0x2029 || u == 0x202f || u == 0x205f || u == 0x3000
}

/// The words of `s`, separated by whitespace.
pub fn split_words(s: &str) -> (r: Vec<String>)
    ensures
        strings_view(r@) == words_of(s@),
{
    let n = s.unicode_len();
    let mut words: Vec<String> = Vec::new();
    let mut start: usize = 0;
    let mut in_word = false;
    let mut i: usize = 0;
    assert(s@.take(0) =~= Seq::<char>::empty());
    assert(strings_view(words@) =~= Seq::<Seq<char>>::empty());
    while i < n
        invariant
            n == s@.len(),
            0 <= start <= i <= n,
            !in_word ==> strings_view(words@) == words_of(s@.take(i as int)),
            !in_word ==> i == 0 || is_space(s@[i - 1]),
            in_word ==> start < i && !is_space(s@[i - 1]) && strings_view(words@).push(
                s@.subrange(start as int, i as int),
            ) == words_of(s@.take(i as int)),
        decreases n - i,
    {
        let c = s.get_char(i);
        let ghost t = s@.take(i + 1);
        assert(t.drop_last() =~= s@.take(i as int));
        assert(t.last() == c);
        if char_is_space(c) {
            if in_word {
                let piece = s.substring_char(start, i);
                let ghost before = strings_view(words@);
                words.push(String::from_str(piece));
                assert(strings_view(words@) =~= before.push(s@.subrange(start as int, i as int)));
                in_word = false;
            }
        } else {
            if in_word {
                assert(t[t.len() - 2] == s@[i - 1]);
                assert(s@.subrange(start as int, i + 1) =~= s@.subrange(start as int, i as int).push(
                    c,
                ));
                assert(strings_view(words@).push(s@.subrange(start as int, i + 1)) =~= strings_view(
                    words@,
                ).push(s@.subrange(start as int, i as int)).update(
                    strings_view(words@).len() as int,
                    s@.subrange(start as int, i as int).push(c),
                ));
            } else {
                if i > 0 {
                    assert(t[t.len() - 2] == s@[i - 1]);
                }
                assert(s@.subrange(i as int, i + 1) =~= seq![c]);
                start = i;
                in_word = true;
            }
        }
        i = i + 1;
    }
    assert(s@.take(n as int) =~= s@);
    if in_word {
        let piece = s.substring_char(start, n);
        let ghost before = strings_view(words@);
        words.push(String::from_str(piece));
        assert(strings_view(words@) =~= before.push(s@.subrange(start as int, n as int)));
    }
    words
}

} // verus!
